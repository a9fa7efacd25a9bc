//! The interactive review: which issue is selected, what has been decided
//! for each issue, and the one fix that may be in flight. The terminal loop
//! feeds it keys and task outcomes and performs the fixes it asks for.
use vstd::prelude::*;
use crate::output::{decimal_chars, push_decimal};
use crate::text::{chars_of, push_all, string_of};

verus! {

/// What has been decided for one issue.
#[derive(Debug, Clone, Copy, PartialEq, Eq, Structural)]
pub enum IssueAction {
    Pending,
    Applying,
    Skip,
    Applied,
    Error,
}

/// A key press, as the review reads it.
#[derive(Debug, Clone, Copy, PartialEq, Eq, Structural)]
pub enum Key {
    /// `q` or Escape.
    Quit,
    /// `j` or Down.
    Down,
    /// `k` or Up.
    Up,
    /// `a`.
    Apply,
    /// `s`.
    Skip,
    /// Enter.
    Enter,
    /// `?`.
    Help,
    Other,
}

/// How a review session stands.
#[derive(Debug, Clone, Copy, PartialEq, Eq, Structural)]
pub enum SessionOutcome {
    Running,
    Quit,
    Aborted,
}

/// The state of a review session over a fixed number of issues.
#[derive(Debug)]
pub struct ReviewState {
    actions: Vec<IssueAction>,
    current_issue: usize,
    show_help: bool,
    should_quit: bool,
    should_abort: bool,
    status_message: Option<String>,
    active_task: Option<usize>,
    spinner_frame: usize,
}

/// The value of a review state.
pub struct ReviewView {
    pub actions: Seq<IssueAction>,
    pub current: usize,
    pub show_help: bool,
    pub quit: bool,
    pub abort: bool,
    pub status: Option<Seq<char>>,
    pub active: Option<usize>,
    pub spinner: usize,
}

pub open spec fn opt_str(o: Option<String>) -> Option<Seq<char>> {
    match o {
        Some(s) => Some(s@),
        None => None,
    }
}

impl View for ReviewState {
    type V = ReviewView;

    closed spec fn view(&self) -> ReviewView {
        ReviewView {
            actions: self.actions@,
            current: self.current_issue,
            show_help: self.show_help,
            quit: self.should_quit,
            abort: self.should_abort,
            status: opt_str(self.status_message),
            active: self.active_task,
            spinner: self.spinner_frame,
        }
    }
}

/// Frames of the progress spinner.
pub const SPINNER_FRAMES: usize = 10;

/// The spinner's frames, in order.
pub open spec fn spinner_frames() -> Seq<char> {
    seq!['⠋', '⠙', '⠹', '⠸', '⠼', '⠴', '⠦', '⠧', '⠇', '⠏']
}

/// A consistent review state: the selection is an issue (or 0 when there
/// are none), and an issue is `Applying` exactly when it is the one whose
/// fix is in flight.
pub open spec fn wf(s: ReviewView) -> bool {
    &&& (s.actions.len() == 0 ==> s.current == 0)
    &&& (s.actions.len() > 0 ==> s.current < s.actions.len())
    &&& s.spinner < SPINNER_FRAMES
    &&& (forall|i: int| 0 <= i < s.actions.len() ==> (#[trigger] s.actions[i] == IssueAction::Applying <==> is_active(s, i)))
    &&& (match s.active {
        Some(i) => i < s.actions.len(),
        None => true,
    })
}

/// Issue `i`'s fix is the one in flight.
pub open spec fn is_active(s: ReviewView, i: int) -> bool {
    s.active is Some && s.active->Some_0 as int == i
}

// ---------------------------------------------------------------------------
// Transitions, as functions of the state

/// The first index, trying `cur + 1 + k`, `cur + 2 + k`, ... around the
/// list, whose issue is pending; `None` if none of the remaining tries is.
pub open spec fn next_pending_from(actions: Seq<IssueAction>, cur: int, k: int) -> Option<int>
    decreases actions.len() - k,
{
    if k < 0 || k >= actions.len() {
        None
    } else if actions[(cur + 1 + k) % (actions.len() as int)] == IssueAction::Pending {
        Some((cur + 1 + k) % (actions.len() as int))
    } else {
        next_pending_from(actions, cur, k + 1)
    }
}

/// Selection moves to the next pending issue after the current one,
/// wrapping around; it stays if there is none.
pub open spec fn to_next_pending(s: ReviewView) -> ReviewView {
    match next_pending_from(s.actions, s.current as int, 0) {
        Some(i) => ReviewView { current: i as usize, ..s },
        None => s,
    }
}

/// The first pending issue at or after `k`.
pub open spec fn first_pending_from(actions: Seq<IssueAction>, k: int) -> Option<int>
    decreases actions.len() - k,
{
    if k < 0 || k >= actions.len() {
        None
    } else if actions[k] == IssueAction::Pending {
        Some(k)
    } else {
        first_pending_from(actions, k + 1)
    }
}

pub open spec fn next_spec(s: ReviewView) -> ReviewView {
    if s.actions.len() == 0 {
        s
    } else {
        ReviewView { current: ((s.current + 1) % (s.actions.len() as int)) as usize, ..s }
    }
}

pub open spec fn prev_spec(s: ReviewView) -> ReviewView {
    if s.actions.len() == 0 {
        s
    } else if s.current == 0 {
        ReviewView { current: (s.actions.len() - 1) as usize, ..s }
    } else {
        ReviewView { current: (s.current - 1) as usize, ..s }
    }
}

pub open spec fn file_not_found_message(name: Seq<char>) -> Seq<char> {
    seq!['F', 'i', 'l', 'e', ' ', 'n', 'o', 't', ' ', 'f', 'o', 'u', 'n', 'd', ':', ' '] + name
}

pub open spec fn generating_message(name: Seq<char>) -> Seq<char> {
    seq!['G', 'e', 'n', 'e', 'r', 'a', 't', 'i', 'n', 'g', ' ', 'f', 'i', 'x', ' ', 'f', 'o', 'r', ' '] + name
        + seq!['.', '.', '.']
}

/// Starting a fix for the selected issue: only with a pending issue
/// selected, no fix in flight and the issue's file present. The issue becomes
/// `Applying` and its fix is in flight.
pub open spec fn apply_spec(s: ReviewView, file_exists: bool, name: Seq<char>) -> (ReviewView, Option<usize>) {
    if s.current >= s.actions.len() || s.active is Some || s.actions[s.current as int] != IssueAction::Pending {
        (s, None)
    } else if !file_exists {
        (ReviewView { status: Some(file_not_found_message(name)), ..s }, None)
    } else {
        (
            ReviewView {
                actions: s.actions.update(s.current as int, IssueAction::Applying),
                active: Some(s.current),
                status: Some(generating_message(name)),
                ..s
            },
            Some(s.current),
        )
    }
}

/// Skipping the selected issue: only a pending issue, and only with no fix
/// in flight; selection moves on.
pub open spec fn skip_spec(s: ReviewView) -> ReviewView {
    if s.active is Some || s.current >= s.actions.len() || s.actions[s.current as int] != IssueAction::Pending {
        s
    } else {
        next_spec(ReviewView { actions: s.actions.update(s.current as int, IssueAction::Skip), ..s })
    }
}

/// Confirming: with no fix in flight, selection jumps to the first pending
/// issue, or the session ends when none is left.
pub open spec fn confirm_spec(s: ReviewView) -> ReviewView {
    if s.active is Some {
        s
    } else {
        match first_pending_from(s.actions, 0) {
            None => ReviewView { quit: true, ..s },
            Some(i) => ReviewView { current: i as usize, ..s },
        }
    }
}

/// A key press. The status message is cleared unless a fix is in flight;
/// any key closes the help; while a fix is in flight only quitting is
/// heard; otherwise each key does its action. The second value is the issue
/// whose fix must now be started, if any.
pub open spec fn key_spec(s0: ReviewView, key: Key, file_exists: bool, name: Seq<char>) -> (ReviewView, Option<usize>) {
    let s = if s0.active is None {
        ReviewView { status: None, ..s0 }
    } else {
        s0
    };
    if s.show_help {
        (ReviewView { show_help: false, ..s }, None)
    } else if s.active is Some {
        if key == Key::Quit {
            (ReviewView { abort: true, ..s }, None)
        } else {
            (s, None)
        }
    } else {
        match key {
            Key::Quit => (ReviewView { abort: true, ..s }, None),
            Key::Down => (next_spec(s), None),
            Key::Up => (prev_spec(s), None),
            Key::Apply => apply_spec(s, file_exists, name),
            Key::Skip => (skip_spec(s), None),
            Key::Enter => (confirm_spec(s), None),
            Key::Help => (ReviewView { show_help: true, ..s }, None),
            Key::Other => (s, None),
        }
    }
}

pub open spec fn error_message(e: Seq<char>) -> Seq<char> {
    seq!['E', 'r', 'r', 'o', 'r', ':', ' '] + e
}

/// The fix in flight has finished: on success its issue is `Applied`, the
/// message shown, and selection moves to the next pending issue; on failure
/// its issue is `Error` and the error shown. No fix is in flight after.
pub open spec fn finish_spec(s: ReviewView, ok: bool, msg: Seq<char>) -> ReviewView {
    let i = s.active->Some_0;
    if ok {
        to_next_pending(ReviewView {
            actions: s.actions.update(i as int, IssueAction::Applied),
            active: None,
            status: Some(msg),
            ..s
        })
    } else {
        ReviewView {
            actions: s.actions.update(i as int, IssueAction::Error),
            active: None,
            status: Some(error_message(msg)),
            ..s
        }
    }
}

pub open spec fn outcome_spec(s: ReviewView) -> SessionOutcome {
    if s.quit {
        SessionOutcome::Quit
    } else if s.abort {
        SessionOutcome::Aborted
    } else {
        SessionOutcome::Running
    }
}

/// Indices of the issues being applied.
pub open spec fn applying_set(s: ReviewView) -> Set<int> {
    Set::new(|i: int| 0 <= i < s.actions.len() && s.actions[i] == IssueAction::Applying)
}


// ---------------------------------------------------------------------------
// What the screen shows

/// How many issues have action `a`.
pub open spec fn count_of(actions: Seq<IssueAction>, a: IssueAction) -> nat
    decreases actions.len(),
{
    if actions.len() == 0 {
        0
    } else {
        count_of(actions.drop_last(), a) + if actions.last() == a { 1nat } else { 0nat }
    }
}

/// The colour role of the status line.
#[derive(Debug, Clone, Copy, PartialEq, Eq, Structural)]
pub enum Tone {
    Highlight,
    Warning,
    Success,
}

pub open spec fn applying_fallback() -> Seq<char> {
    seq!['A', 'p', 'p', 'l', 'y', 'i', 'n', 'g', ' ', 'f', 'i', 'x', '.', '.', '.']
}

pub open spec fn issues_detected_text() -> Seq<char> {
    seq![
        'D', 'o', 'c', 'u', 'm', 'e', 'n', 't', 'a', 't', 'i', 'o', 'n', ' ', 'i', 's', 's', 'u', 'e', 's', ' ',
        'd', 'e', 't', 'e', 'c', 't', 'e', 'd',
    ]
}

pub open spec fn all_addressed_text() -> Seq<char> {
    seq!['A', 'l', 'l', ' ', 'i', 's', 's', 'u', 'e', 's', ' ', 'a', 'd', 'd', 'r', 'e', 's', 's', 'e', 'd']
}

/// The status line: while a fix is being applied, the spinner and the
/// message (or a default); else the message if there is one; else whether
/// issues are still pending.
pub open spec fn status_line_spec(s: ReviewView) -> (Seq<char>, Tone) {
    if count_of(s.actions, IssueAction::Applying) > 0 {
        (
            seq![spinner_frames()[s.spinner as int], ' '] + match s.status {
                Some(m) => m,
                None => applying_fallback(),
            },
            Tone::Highlight,
        )
    } else {
        match s.status {
            Some(m) => (m, Tone::Highlight),
            None => if count_of(s.actions, IssueAction::Pending) > 0 {
                (issues_detected_text(), Tone::Warning)
            } else {
                (all_addressed_text(), Tone::Success)
            },
        }
    }
}

/// ` driftcheck - N issues (P pending, A applied, S skipped) `.
pub open spec fn header_title_spec(s: ReviewView) -> Seq<char> {
    seq![' ', 'd', 'r', 'i', 'f', 't', 'c', 'h', 'e', 'c', 'k', ' ', '-', ' '] + decimal_chars(s.actions.len())
        + seq![' ', 'i', 's', 's', 'u', 'e', 's', ' ', '('] + decimal_chars(count_of(s.actions, IssueAction::Pending))
        + seq![' ', 'p', 'e', 'n', 'd', 'i', 'n', 'g', ',', ' '] + decimal_chars(count_of(s.actions, IssueAction::Applied))
        + seq![' ', 'a', 'p', 'p', 'l', 'i', 'e', 'd', ',', ' '] + decimal_chars(count_of(s.actions, IssueAction::Skip))
        + seq![' ', 's', 'k', 'i', 'p', 'p', 'e', 'd', ')', ' ']
}

/// The mark before an issue in the list.
pub open spec fn marker_spec(a: IssueAction, spinner: char) -> char {
    match a {
        IssueAction::Pending => '○',
        IssueAction::Applying => spinner,
        IssueAction::Skip => '⊘',
        IssueAction::Applied => '✓',
        IssueAction::Error => '✗',
    }
}

// ---------------------------------------------------------------------------
// Laws

/// In a consistent state at most one issue is `Applying`.
pub proof fn lemma_at_most_one_applying(s: ReviewView)
    requires
        wf(s),
    ensures
        forall|i: int, j: int|
            0 <= i < s.actions.len() && 0 <= j < s.actions.len() && #[trigger] s.actions[i] == IssueAction::Applying
                && #[trigger] s.actions[j] == IssueAction::Applying ==> i == j,
        applying_set(s).len() <= 1,
        applying_set(s).finite(),
{
    match s.active {
        None => {
            assert(applying_set(s) =~= Set::<int>::empty());
        },
        Some(a) => {
            assert(applying_set(s) =~= set![a as int]);
        },
    }
}

/// A request to apply while a fix is in flight changes no issue's action
/// and starts nothing.
pub proof fn lemma_apply_while_applying_is_noop(s: ReviewView, file_exists: bool, name: Seq<char>)
    requires
        wf(s),
        s.active is Some,
    ensures
        key_spec(s, Key::Apply, file_exists, name).0.actions == s.actions,
        key_spec(s, Key::Apply, file_exists, name).1 is None,
        apply_spec(s, file_exists, name).0 == s,
        apply_spec(s, file_exists, name).1 is None,
{
}

/// The only changes of an issue's action that are allowed: a pending issue
/// starts applying or is skipped, and an issue being applied becomes
/// applied or failed.
pub open spec fn allowed_change(before: IssueAction, after: IssueAction) -> bool {
    before == after || (before == IssueAction::Pending && (after == IssueAction::Applying || after == IssueAction::Skip))
        || (before == IssueAction::Applying && (after == IssueAction::Applied || after == IssueAction::Error))
}

/// A key press changes each issue's action only as allowed; in particular
/// `Skip`, `Applied` and `Error` are final.
pub proof fn lemma_key_changes_allowed(s: ReviewView, key: Key, file_exists: bool, name: Seq<char>)
    requires
        wf(s),
    ensures
        key_spec(s, key, file_exists, name).0.actions.len() == s.actions.len(),
        forall|i: int| 0 <= i < s.actions.len() ==> allowed_change(s.actions[i], #[trigger] key_spec(s, key, file_exists, name).0.actions[i]),
{
}

/// A finished fix changes only its own issue, from `Applying` to `Applied`
/// or `Error`.
pub proof fn lemma_finish_changes_allowed(s: ReviewView, ok: bool, msg: Seq<char>)
    requires
        wf(s),
        s.active is Some,
    ensures
        finish_spec(s, ok, msg).actions.len() == s.actions.len(),
        forall|i: int| 0 <= i < s.actions.len() ==> allowed_change(s.actions[i], #[trigger] finish_spec(s, ok, msg).actions[i]),
{
}

/// Navigation and the help toggle never change any issue's action.
pub proof fn lemma_navigation_keeps_actions(s: ReviewView, file_exists: bool, name: Seq<char>)
    ensures
        key_spec(s, Key::Down, file_exists, name).0.actions == s.actions,
        key_spec(s, Key::Up, file_exists, name).0.actions == s.actions,
        key_spec(s, Key::Help, file_exists, name).0.actions == s.actions,
        key_spec(s, Key::Other, file_exists, name).0.actions == s.actions,
{
}

proof fn lemma_next_pending_range(actions: Seq<IssueAction>, cur: int, k: int)
    requires
        actions.len() > 0,
        cur >= 0,
    ensures
        match next_pending_from(actions, cur, k) {
            Some(i) => 0 <= i < actions.len() && actions[i] == IssueAction::Pending,
            None => true,
        },
    decreases actions.len() - k,
{
    if 0 <= k < actions.len() && actions[(cur + 1 + k) % (actions.len() as int)] != IssueAction::Pending {
        lemma_next_pending_range(actions, cur, k + 1);
    }
}

proof fn lemma_first_pending_range(actions: Seq<IssueAction>, k: int)
    requires
        0 <= k,
    ensures
        match first_pending_from(actions, k) {
            Some(i) => 0 <= i < actions.len() && actions[i] == IssueAction::Pending,
            None => forall|j: int| k <= j < actions.len() ==> #[trigger] actions[j] != IssueAction::Pending,
        },
    decreases actions.len() - k,
{
    if 0 <= k < actions.len() && actions[k] != IssueAction::Pending {
        lemma_first_pending_range(actions, k + 1);
    }
}

/// Every key keeps the state consistent.
pub proof fn lemma_key_keeps_wf(s: ReviewView, key: Key, file_exists: bool, name: Seq<char>)
    requires
        wf(s),
    ensures
        wf(key_spec(s, key, file_exists, name).0),
{
    let s1 = if s.active is None { ReviewView { status: None, ..s } } else { s };
    assert(wf(s1));
    if !s1.show_help && s1.active is None {
        if key == Key::Apply {
            let (t, _) = apply_spec(s1, file_exists, name);
            if s1.current < s1.actions.len() && file_exists {
                assert forall|i: int| 0 <= i < t.actions.len() implies (#[trigger] t.actions[i] == IssueAction::Applying <==> is_active(t, i)) by {
                    if i != s1.current as int {
                        assert(s1.actions[i] != IssueAction::Applying);
                    }
                }
            }
        } else if key == Key::Skip {
            if s1.current < s1.actions.len() {
                let u = ReviewView { actions: s1.actions.update(s1.current as int, IssueAction::Skip), ..s1 };
                assert forall|i: int| 0 <= i < u.actions.len() implies (#[trigger] u.actions[i] == IssueAction::Applying <==> is_active(u, i)) by {
                    if i != s1.current as int {
                        assert(u.actions[i] == s1.actions[i]);
                    }
                }
                assert(wf(u));
            }
        } else if key == Key::Enter {
            lemma_first_pending_range(s1.actions, 0);
        }
    }
}

/// A finished fix keeps the state consistent, with no fix in flight.
pub proof fn lemma_finish_keeps_wf(s: ReviewView, ok: bool, msg: Seq<char>)
    requires
        wf(s),
        s.active is Some,
    ensures
        wf(finish_spec(s, ok, msg)),
        finish_spec(s, ok, msg).active is None,
{
    let i = s.active->Some_0;
    let outcome = if ok { IssueAction::Applied } else { IssueAction::Error };
    let u = ReviewView { actions: s.actions.update(i as int, outcome), active: None, ..s };
    assert forall|j: int| 0 <= j < u.actions.len() implies (#[trigger] u.actions[j] == IssueAction::Applying <==> is_active(u, j)) by {
        if j != i as int {
            assert(u.actions[j] == s.actions[j]);
        }
    }
    if ok {
        lemma_next_pending_range(u.actions, u.current as int, 0);
    }
}

// ---------------------------------------------------------------------------
// The executable state machine

fn concat_message(prefix: &[char], middle: &str, suffix: &[char]) -> (r: String)
    ensures
        r@ == prefix@ + middle@ + suffix@,
{
    let mut v: Vec<char> = Vec::new();
    push_all(&mut v, prefix);
    let m = chars_of(middle);
    push_all(&mut v, m.as_slice());
    push_all(&mut v, suffix);
    proof {
        assert(v@ == prefix@ + middle@ + suffix@);
    }
    string_of(v.as_slice())
}

impl ReviewState {
    /// A new session over `count` issues, all pending, the first selected.
    pub fn new(count: usize) -> (r: ReviewState)
        ensures
            wf(r@),
            r@.actions == Seq::new(count as nat, |i: int| IssueAction::Pending),
            r@.current == 0,
            !r@.show_help && !r@.quit && !r@.abort,
            r@.status is None,
            r@.active is None,
            r@.spinner == 0,
    {
        let mut actions: Vec<IssueAction> = Vec::new();
        let mut i: usize = 0;
        while i < count
            invariant
                i <= count,
                actions@ == Seq::new(i as nat, |k: int| IssueAction::Pending),
            decreases count - i,
        {
            actions.push(IssueAction::Pending);
            proof {
                assert(actions@ == Seq::new((i + 1) as nat, |k: int| IssueAction::Pending));
            }
            i = i + 1;
        }
        ReviewState {
            actions,
            current_issue: 0,
            show_help: false,
            should_quit: false,
            should_abort: false,
            status_message: None,
            active_task: None,
            spinner_frame: 0,
        }
    }

    pub fn issue_count(&self) -> (r: usize)
        ensures
            r == self@.actions.len(),
    {
        self.actions.len()
    }

    pub fn current_issue(&self) -> (r: usize)
        ensures
            r == self@.current,
    {
        self.current_issue
    }

    pub fn action(&self, i: usize) -> (r: IssueAction)
        requires
            i < self@.actions.len(),
        ensures
            r == self@.actions[i as int],
    {
        self.actions[i]
    }

    pub fn show_help(&self) -> (r: bool)
        ensures
            r == self@.show_help,
    {
        self.show_help
    }

    pub fn status_message(&self) -> (r: Option<String>)
        ensures
            opt_str(r) == self@.status,
    {
        match &self.status_message {
            Some(m) => Some(m.clone()),
            None => None,
        }
    }

    /// The issue whose fix is in flight, if any.
    pub fn active_task(&self) -> (r: Option<usize>)
        ensures
            r == self@.active,
    {
        self.active_task
    }

    pub fn spinner_frame(&self) -> (r: usize)
        ensures
            r == self@.spinner,
    {
        self.spinner_frame
    }

    /// How many issues have action `a`.
    pub fn count_actions(&self, a: IssueAction) -> (r: usize)
        ensures
            r == count_of(self@.actions, a),
    {
        let mut n: usize = 0;
        let mut i: usize = 0;
        while i < self.actions.len()
            invariant
                i <= self@.actions.len(),
                n == count_of(self@.actions.subrange(0, i as int), a),
                n <= i,
            decreases self@.actions.len() - i,
        {
            proof {
                let t = self@.actions.subrange(0, i + 1);
                assert(t.drop_last() == self@.actions.subrange(0, i as int));
            }
            if self.actions[i] == a {
                n = n + 1;
            }
            i = i + 1;
        }
        proof {
            assert(self@.actions.subrange(0, self@.actions.len() as int) == self@.actions);
        }
        n
    }

    /// The title of the screen, with the counts of issues.
    pub fn header_title(&self) -> (r: String)
        ensures
            r@ == header_title_spec(self@),
    {
        let mut out: Vec<char> = Vec::new();
        let a = vec![' ', 'd', 'r', 'i', 'f', 't', 'c', 'h', 'e', 'c', 'k', ' ', '-', ' '];
        let b = vec![' ', 'i', 's', 's', 'u', 'e', 's', ' ', '('];
        let c = vec![' ', 'p', 'e', 'n', 'd', 'i', 'n', 'g', ',', ' '];
        let d = vec![' ', 'a', 'p', 'p', 'l', 'i', 'e', 'd', ',', ' '];
        let e = vec![' ', 's', 'k', 'i', 'p', 'p', 'e', 'd', ')', ' '];
        push_all(&mut out, a.as_slice());
        push_decimal(&mut out, self.actions.len());
        push_all(&mut out, b.as_slice());
        push_decimal(&mut out, self.count_actions(IssueAction::Pending));
        push_all(&mut out, c.as_slice());
        push_decimal(&mut out, self.count_actions(IssueAction::Applied));
        push_all(&mut out, d.as_slice());
        push_decimal(&mut out, self.count_actions(IssueAction::Skip));
        push_all(&mut out, e.as_slice());
        proof {
            assert(a@ == seq![' ', 'd', 'r', 'i', 'f', 't', 'c', 'h', 'e', 'c', 'k', ' ', '-', ' ']);
            assert(b@ == seq![' ', 'i', 's', 's', 'u', 'e', 's', ' ', '(']);
            assert(c@ == seq![' ', 'p', 'e', 'n', 'd', 'i', 'n', 'g', ',', ' ']);
            assert(d@ == seq![' ', 'a', 'p', 'p', 'l', 'i', 'e', 'd', ',', ' ']);
            assert(e@ == seq![' ', 's', 'k', 'i', 'p', 'p', 'e', 'd', ')', ' ']);
            assert(out@ == header_title_spec(self@));
        }
        string_of(out.as_slice())
    }

    /// The status line and its colour role.
    pub fn status_line(&self) -> (r: (String, Tone))
        requires
            wf(self@),
        ensures
            (r.0@, r.1) == status_line_spec(self@),
    {
        if self.count_actions(IssueAction::Applying) > 0 {
            let mut out: Vec<char> = Vec::new();
            out.push(self.spinner_char());
            out.push(' ');
            match &self.status_message {
                Some(m) => {
                    let mc = chars_of(m.as_str());
                    push_all(&mut out, mc.as_slice());
                },
                None => {
                    let f = vec!['A', 'p', 'p', 'l', 'y', 'i', 'n', 'g', ' ', 'f', 'i', 'x', '.', '.', '.'];
                    push_all(&mut out, f.as_slice());
                    proof {
                        assert(f@ == applying_fallback());
                    }
                },
            }
            proof {
                assert(out@ == seq![spinner_frames()[self@.spinner as int], ' '] + match self@.status {
                    Some(m) => m,
                    None => applying_fallback(),
                });
            }
            (string_of(out.as_slice()), Tone::Highlight)
        } else {
            match &self.status_message {
                Some(m) => (m.clone(), Tone::Highlight),
                None => if self.count_actions(IssueAction::Pending) > 0 {
                    let t = vec![
                        'D', 'o', 'c', 'u', 'm', 'e', 'n', 't', 'a', 't', 'i', 'o', 'n', ' ', 'i', 's', 's', 'u', 'e',
                        's', ' ', 'd', 'e', 't', 'e', 'c', 't', 'e', 'd',
                    ];
                    proof {
                        assert(t@ == issues_detected_text());
                    }
                    (string_of(t.as_slice()), Tone::Warning)
                } else {
                    let t = vec!['A', 'l', 'l', ' ', 'i', 's', 's', 'u', 'e', 's', ' ', 'a', 'd', 'd', 'r', 'e', 's', 's', 'e', 'd'];
                    proof {
                        assert(t@ == all_addressed_text());
                    }
                    (string_of(t.as_slice()), Tone::Success)
                },
            }
        }
    }

    /// The mark shown before issue `i` in the list.
    pub fn marker(&self, i: usize) -> (r: char)
        requires
            wf(self@),
            i < self@.actions.len(),
        ensures
            r == marker_spec(self@.actions[i as int], spinner_frames()[self@.spinner as int]),
    {
        match self.actions[i] {
            IssueAction::Pending => '○',
            IssueAction::Applying => self.spinner_char(),
            IssueAction::Skip => '⊘',
            IssueAction::Applied => '✓',
            IssueAction::Error => '✗',
        }
    }

    /// Whether the session has ended, and how.
    pub fn outcome(&self) -> (r: SessionOutcome)
        ensures
            r == outcome_spec(self@),
    {
        if self.should_quit {
            SessionOutcome::Quit
        } else if self.should_abort {
            SessionOutcome::Aborted
        } else {
            SessionOutcome::Running
        }
    }

    /// How long the loop waits for input, in milliseconds: shorter while a
    /// fix is in flight, to keep the spinner moving.
    pub fn poll_interval_ms(&self) -> (r: u64)
        ensures
            r == (if self@.active is Some { 80u64 } else { 100u64 }),
    {
        if self.active_task.is_some() {
            80
        } else {
            100
        }
    }

    /// Advances the spinner by one frame.
    pub fn tick(&mut self)
        requires
            wf(old(self)@),
        ensures
            wf(final(self)@),
            final(self)@ == (ReviewView { spinner: ((old(self)@.spinner + 1) % (SPINNER_FRAMES as int)) as usize, ..old(self)@ }),
    {
        self.spinner_frame = (self.spinner_frame + 1) % SPINNER_FRAMES;
    }

    /// The spinner's current frame.
    pub fn spinner_char(&self) -> (r: char)
        requires
            wf(self@),
        ensures
            r == spinner_frames()[self@.spinner as int],
    {
        let frames = vec!['⠋', '⠙', '⠹', '⠸', '⠼', '⠴', '⠦', '⠧', '⠇', '⠏'];
        proof {
            assert(frames@ == spinner_frames());
        }
        frames[self.spinner_frame]
    }

    /// Moves the selection to the next pending issue after it, wrapping around.
    pub fn move_to_next_pending(&mut self)
        requires
            wf(old(self)@),
        ensures
            wf(final(self)@),
            final(self)@ == to_next_pending(old(self)@),
    {
        let n = self.actions.len();
        proof {
            if n > 0 {
                lemma_next_pending_range(self@.actions, self@.current as int, 0);
            }
        }
        let mut i: usize = 0;
        while i < n
            invariant
                n == self@.actions.len(),
                wf(self@),
                self@ == old(self)@,
                i <= n,
                next_pending_from(self@.actions, self@.current as int, 0) == next_pending_from(self@.actions, self@.current as int, i as int),
            decreases n - i,
        {
            let off = i + 1;
            let cur = self.current_issue;
            let idx = if cur >= n - off {
                cur - (n - off)
            } else {
                cur + off
            };
            proof {
                let x = cur as int + off as int;
                if x >= n {
                    assert(x % (n as int) == x - n) by (nonlinear_arith)
                        requires n <= x < 2 * n;
                } else {
                    assert(x % (n as int) == x) by (nonlinear_arith)
                        requires 0 <= x < n;
                }
            }
            if self.actions[idx] == IssueAction::Pending {
                self.current_issue = idx;
                return;
            }
            i = i + 1;
        }
    }

    /// Selects the next issue, wrapping around.
    pub fn next_issue(&mut self)
        requires
            wf(old(self)@),
        ensures
            wf(final(self)@),
            final(self)@ == next_spec(old(self)@),
    {
        if self.actions.len() == 0 {
            return;
        }
        self.current_issue = (self.current_issue + 1) % self.actions.len();
    }

    /// Selects the previous issue, wrapping around.
    pub fn prev_issue(&mut self)
        requires
            wf(old(self)@),
        ensures
            wf(final(self)@),
            final(self)@ == prev_spec(old(self)@),
    {
        if self.actions.len() == 0 {
            return;
        }
        if self.current_issue == 0 {
            self.current_issue = self.actions.len() - 1;
        } else {
            self.current_issue = self.current_issue - 1;
        }
    }

    /// Starts a fix for the selected issue, whose file is `file`; returns the
    /// issue whose fix the caller must now run in the background.
    pub fn apply_current(&mut self, file_exists: bool, file: &str) -> (r: Option<usize>)
        requires
            wf(old(self)@),
        ensures
            wf(final(self)@),
            (final(self)@, r) == apply_spec(old(self)@, file_exists, file@),
    {
        if self.current_issue >= self.actions.len() {
            return None;
        }
        if self.active_task.is_some() || self.actions[self.current_issue] != IssueAction::Pending {
            return None;
        }
        if !file_exists {
            let msg = concat_message(&['F', 'i', 'l', 'e', ' ', 'n', 'o', 't', ' ', 'f', 'o', 'u', 'n', 'd', ':', ' '], file, &[]);
            proof {
                assert(msg@ == file_not_found_message(file@));
            }
            self.status_message = Some(msg);
            return None;
        }
        let idx = self.current_issue;
        let ghost s = self@;
        self.actions.set(idx, IssueAction::Applying);
        self.active_task = Some(idx);
        let msg = concat_message(&['G', 'e', 'n', 'e', 'r', 'a', 't', 'i', 'n', 'g', ' ', 'f', 'i', 'x', ' ', 'f', 'o', 'r', ' '], file, &['.', '.', '.']);
        self.status_message = Some(msg);
        proof {
            assert(msg@ == generating_message(file@));
            assert forall|i: int| 0 <= i < self@.actions.len() implies (#[trigger] self@.actions[i] == IssueAction::Applying <==> is_active(self@, i)) by {
                if i != idx as int {
                    assert(s.actions[i] != IssueAction::Applying);
                }
            }
        }
        Some(idx)
    }

    /// Marks the selected issue skipped and selects the next one; nothing
    /// happens while a fix is in flight.
    pub fn skip_current(&mut self)
        requires
            wf(old(self)@),
        ensures
            wf(final(self)@),
            final(self)@ == skip_spec(old(self)@),
    {
        if self.active_task.is_some() || self.current_issue >= self.actions.len()
            || self.actions[self.current_issue] != IssueAction::Pending {
            return;
        }
        let ghost s = self@;
        self.actions.set(self.current_issue, IssueAction::Skip);
        proof {
            assert forall|i: int| 0 <= i < self@.actions.len() implies (#[trigger] self@.actions[i] == IssueAction::Applying <==> is_active(self@, i)) by {
                if i != s.current as int {
                    assert(self@.actions[i] == s.actions[i]);
                }
            }
        }
        self.next_issue();
    }

    /// Jumps to the first pending issue, or ends the session when none is
    /// left; nothing happens while a fix is in flight.
    pub fn confirm_and_continue(&mut self)
        requires
            wf(old(self)@),
        ensures
            wf(final(self)@),
            final(self)@ == confirm_spec(old(self)@),
    {
        if self.active_task.is_some() {
            return;
        }
        proof {
            lemma_first_pending_range(self@.actions, 0);
        }
        let mut i: usize = 0;
        while i < self.actions.len()
            invariant
                wf(self@),
                self@ == old(self)@,
                self@.active is None,
                i <= self@.actions.len(),
                first_pending_from(self@.actions, 0) == first_pending_from(self@.actions, i as int),
            decreases self@.actions.len() - i,
        {
            if self.actions[i] == IssueAction::Pending {
                self.current_issue = i;
                return;
            }
            i = i + 1;
        }
        self.should_quit = true;
    }

    /// Handles a key press. `file_exists` and `file` describe the selected
    /// issue's file. Returns the issue whose fix the caller must now start.
    pub fn handle_key(&mut self, key: Key, file_exists: bool, file: &str) -> (r: Option<usize>)
        requires
            wf(old(self)@),
        ensures
            wf(final(self)@),
            (final(self)@, r) == key_spec(old(self)@, key, file_exists, file@),
    {
        if self.active_task.is_none() {
            self.status_message = None;
        }
        if self.show_help {
            self.show_help = false;
            return None;
        }
        if self.active_task.is_some() {
            if key == Key::Quit {
                self.should_abort = true;
            }
            return None;
        }
        match key {
            Key::Quit => {
                self.should_abort = true;
                None
            },
            Key::Down => {
                self.next_issue();
                None
            },
            Key::Up => {
                self.prev_issue();
                None
            },
            Key::Apply => self.apply_current(file_exists, file),
            Key::Skip => {
                self.skip_current();
                None
            },
            Key::Enter => {
                self.confirm_and_continue();
                None
            },
            Key::Help => {
                self.show_help = true;
                None
            },
            Key::Other => None,
        }
    }

    /// Records how the fix in flight ended: `Ok` with the message to show,
    /// or `Err` with what went wrong.
    pub fn finish_task(&mut self, outcome: Result<String, String>)
        requires
            wf(old(self)@),
            old(self)@.active is Some,
        ensures
            wf(final(self)@),
            final(self)@.active is None,
            final(self)@ == (match outcome {
                Ok(m) => finish_spec(old(self)@, true, m@),
                Err(e) => finish_spec(old(self)@, false, e@),
            }),
    {
        let idx = match self.active_task {
            Some(i) => i,
            None => 0,
        };
        let ghost s = self@;
        proof {
            if outcome is Ok {
                lemma_finish_keeps_wf(s, true, outcome->Ok_0@);
            } else {
                lemma_finish_keeps_wf(s, false, outcome->Err_0@);
            }
        }
        self.active_task = None;
        match outcome {
            Ok(msg) => {
                self.actions.set(idx, IssueAction::Applied);
                self.status_message = Some(msg);
                proof {
                    assert forall|j: int| 0 <= j < self@.actions.len() implies (#[trigger] self@.actions[j] == IssueAction::Applying <==> is_active(self@, j)) by {
                        if j != idx as int {
                            assert(self@.actions[j] == s.actions[j]);
                        }
                    }
                }
                self.move_to_next_pending();
            },
            Err(e) => {
                let msg = concat_message(&['E', 'r', 'r', 'o', 'r', ':', ' '], e.as_str(), &[]);
                self.actions.set(idx, IssueAction::Error);
                self.status_message = Some(msg);
                proof {
                    assert(msg@ == error_message(e@));
                }
            },
        }
    }
}

} // verus!
