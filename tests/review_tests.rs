use driftcheck::review::{IssueAction, Key, ReviewState, SessionOutcome, Tone};

#[test]
fn apply_while_applying_is_ignored() {
    let mut s = ReviewState::new(3);
    assert_eq!(s.handle_key(Key::Apply, true, "a.md"), Some(0));
    assert_eq!(s.action(0), IssueAction::Applying);
    assert_eq!(s.status_message(), Some("Generating fix for a.md...".to_string()));
    assert_eq!(s.apply_current(true, "a.md"), None);
    assert_eq!(s.handle_key(Key::Down, true, "b.md"), None);
    assert_eq!(s.current_issue(), 0);
    let applying = (0..3).filter(|i| s.action(*i) == IssueAction::Applying).count();
    assert_eq!(applying, 1);
    assert_eq!(s.poll_interval_ms(), 80);
}

#[test]
fn finished_fix_moves_on() {
    let mut s = ReviewState::new(3);
    s.handle_key(Key::Apply, true, "a.md");
    s.finish_task(Ok("Applied fix to a.md".to_string()));
    assert_eq!(s.action(0), IssueAction::Applied);
    assert_eq!(s.current_issue(), 1);
    assert_eq!(s.active_task(), None);
    assert_eq!(s.status_message(), Some("Applied fix to a.md".to_string()));
    s.handle_key(Key::Apply, true, "b.md");
    s.finish_task(Err("boom".to_string()));
    assert_eq!(s.action(1), IssueAction::Error);
    assert_eq!(s.current_issue(), 1);
    assert_eq!(s.status_message(), Some("Error: boom".to_string()));
}

#[test]
fn missing_file_is_reported() {
    let mut s = ReviewState::new(1);
    assert_eq!(s.handle_key(Key::Apply, false, "gone.md"), None);
    assert_eq!(s.action(0), IssueAction::Pending);
    assert_eq!(s.status_message(), Some("File not found: gone.md".to_string()));
}

#[test]
fn skip_and_confirm() {
    let mut s = ReviewState::new(2);
    s.handle_key(Key::Skip, true, "a.md");
    assert_eq!(s.action(0), IssueAction::Skip);
    assert_eq!(s.current_issue(), 1);
    s.handle_key(Key::Up, true, "a.md");
    assert_eq!(s.current_issue(), 0);
    s.handle_key(Key::Enter, true, "a.md");
    assert_eq!(s.current_issue(), 1);
    assert_eq!(s.outcome(), SessionOutcome::Running);
    s.handle_key(Key::Skip, true, "b.md");
    s.handle_key(Key::Enter, true, "b.md");
    assert_eq!(s.outcome(), SessionOutcome::Quit);
}

#[test]
fn quit_while_applying_aborts() {
    let mut s = ReviewState::new(2);
    s.handle_key(Key::Apply, true, "a.md");
    s.handle_key(Key::Quit, true, "a.md");
    assert_eq!(s.outcome(), SessionOutcome::Aborted);
    assert_eq!(s.action(0), IssueAction::Applying);
}

#[test]
fn help_and_navigation_keep_actions() {
    let mut s = ReviewState::new(2);
    s.handle_key(Key::Help, true, "a.md");
    assert!(s.show_help());
    s.handle_key(Key::Down, true, "a.md");
    assert!(!s.show_help());
    assert_eq!(s.current_issue(), 0);
    s.handle_key(Key::Down, true, "a.md");
    s.handle_key(Key::Down, true, "a.md");
    assert_eq!(s.current_issue(), 0);
    assert_eq!(s.action(0), IssueAction::Pending);
    assert_eq!(s.action(1), IssueAction::Pending);
}

#[test]
fn spinner_wraps() {
    let mut s = ReviewState::new(0);
    for _ in 0..10 {
        s.tick();
    }
    assert_eq!(s.spinner_frame(), 0);
    assert_eq!(s.spinner_char(), '⠋');
    s.handle_key(Key::Enter, true, "");
    assert_eq!(s.outcome(), SessionOutcome::Quit);
}

#[test]
fn screen_texts() {
    let mut s = ReviewState::new(3);
    assert_eq!(s.header_title(), " driftcheck - 3 issues (3 pending, 0 applied, 0 skipped) ");
    assert_eq!(s.status_line(), ("Documentation issues detected".to_string(), Tone::Warning));
    assert_eq!(s.marker(0), '○');
    s.handle_key(Key::Skip, true, "a.md");
    s.handle_key(Key::Apply, true, "b.md");
    assert_eq!(s.count_actions(IssueAction::Applying), 1);
    assert_eq!(s.marker(0), '⊘');
    assert_eq!(s.marker(1), s.spinner_char());
    assert_eq!(s.status_line(), (format!("{} Generating fix for b.md...", s.spinner_char()), Tone::Highlight));
    s.finish_task(Ok("done".to_string()));
    assert_eq!(s.marker(1), '✓');
    assert_eq!(s.header_title(), " driftcheck - 3 issues (1 pending, 1 applied, 1 skipped) ");
    s.handle_key(Key::Apply, true, "c.md");
    s.finish_task(Err("x".to_string()));
    assert_eq!(s.marker(2), '✗');
    s.handle_key(Key::Other, true, "c.md");
    assert_eq!(s.status_line(), ("All issues addressed".to_string(), Tone::Success));
}

#[test]
fn skipped_and_finished_issues_stay_final() {
    let mut s = ReviewState::new(1);
    s.handle_key(Key::Skip, true, "a.md");
    assert_eq!(s.action(0), IssueAction::Skip);
    assert_eq!(s.handle_key(Key::Apply, true, "a.md"), None);
    assert_eq!(s.action(0), IssueAction::Skip);
    let mut t = ReviewState::new(1);
    t.handle_key(Key::Apply, true, "a.md");
    t.finish_task(Ok("ok".to_string()));
    t.handle_key(Key::Skip, true, "a.md");
    assert_eq!(t.action(0), IssueAction::Applied);
    assert_eq!(t.handle_key(Key::Apply, true, "a.md"), None);
    assert_eq!(t.action(0), IssueAction::Applied);
}
