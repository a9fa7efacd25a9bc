//! Configuration: what to search, how to reach the model, and how the
//! review and the cache behave, with their defaults.
use vstd::prelude::*;

verus! {

pub const DEFAULT_ANALYSIS_PROMPT: &'static str = "You are a strict documentation consistency auditor. Your job is to find ONLY clear, obvious documentation errors caused by code changes.\n\nONLY report an issue if:\n1. Documentation explicitly states something that is NOW FACTUALLY WRONG due to the code change\n2. A code example in the docs would NOW FAIL or produce different results\n3. A function signature, parameter, or return type documented is NOW DIFFERENT in the code\n\nDO NOT report:\n- Stylistic improvements or suggestions\n- Documentation that is vague but not technically wrong\n- Potential improvements or clarifications\n- Anything where the docs are still technically accurate\n- Issues that appear to have been ALREADY FIXED in recent commits (check the git log provided)\n\nIMPORTANT: Review the recent commits section. If a documentation file was recently modified, assume the developer has already addressed an issues in that file. Only flag issues for files that were updated in recent commits unless you can see the docs are STILL wrong.\n\nBe conservative. When in doubt, think twice. False positives waste developer time.\n\nIf there are no clear issues, return an empty array: []\n\nOutput as JSON array with objects containing:\n- \"file\": the documentation file path\n- \"line\": approximate line number (0 if unknown)\n- \"description\": what is FACTUALLY WRONG (be specific)\n- \"doc_excerpt\": the exact doc text that is wrong\n- \"suggested_fix\": minimal fix (optional)";

pub const DEFAULT_SEARCH_QUERIES_PROMPT: &'static str = "Given this code diff, output a JSON array of search patterns to find related documentation.\nFocus on: function names, class names, API endpoints, CLI flags, config keys, error messages.\nOutput ONLY valid JSON, no explanation. Example: [\"process_data\", \"API endpoint\", \"--verbose\"]";

pub const DEFAULT_SUGGESTIONS_PROMPT: &'static str = "Given the documentation issue identified, suggest a minimal fix.\nOutput as a unified diff patch that can be applied with `patch -p1`.";

/// The whole configuration.
#[derive(Debug, Clone)]
pub struct Config {
    pub general: GeneralConfig,
    pub docs: DocsConfig,
    pub llm: LlmConfig,
    pub prompts: PromptsConfig,
    pub tui: TuiConfig,
    pub cache: CacheConfig,
}

#[derive(Debug, Clone)]
pub struct GeneralConfig {
    pub enabled: bool,
    pub allow_push_on_error: bool,
}

#[derive(Debug, Clone)]
pub struct DocsConfig {
    pub paths: Vec<String>,
    pub ignore: Vec<String>,
    pub max_context_tokens: usize,
}

#[derive(Debug, Clone)]
pub struct LlmConfig {
    pub base_url: String,
    pub model: String,
    pub timeout: u64,
    pub max_retries: u32,
}

#[derive(Debug, Clone)]
pub struct PromptsConfig {
    pub analysis: String,
    pub search_queries: String,
    pub suggestions: String,
}

#[derive(Debug, Clone)]
pub struct TuiConfig {
    pub theme: String,
    pub show_diff_preview: bool,
    pub auto_apply: bool,
}

#[derive(Debug, Clone)]
pub struct CacheConfig {
    pub enabled: bool,
    pub dir: String,
    pub ttl: u64,
}

pub fn default_true() -> (r: bool)
    ensures
        r,
{
    true
}

/// `README.md` and every Markdown file under `docs/`.
pub fn default_doc_paths() -> (r: Vec<String>)
    ensures
        r@.len() == 2,
        r@[0]@ == "README.md"@,
        r@[1]@ == "docs/**/*.md"@,
{
    let v = vec!["README.md".to_owned(), "docs/**/*.md".to_owned()];
    v
}

pub fn default_max_context_tokens() -> (r: usize)
    ensures
        r == 8000,
{
    8000
}

pub fn default_base_url() -> (r: String)
    ensures
        r@ == "https://api.openai.com/v1"@,
{
    "https://api.openai.com/v1".to_owned()
}

pub fn default_model() -> (r: String)
    ensures
        r@ == "gpt-4o"@,
{
    "gpt-4o".to_owned()
}

pub fn default_timeout() -> (r: u64)
    ensures
        r == 30,
{
    30
}

pub fn default_max_retries() -> (r: u32)
    ensures
        r == 2,
{
    2
}

pub fn default_analysis_prompt() -> (r: String)
    ensures
        r@ == DEFAULT_ANALYSIS_PROMPT@,
{
    DEFAULT_ANALYSIS_PROMPT.to_owned()
}

pub fn default_search_queries_prompt() -> (r: String)
    ensures
        r@ == DEFAULT_SEARCH_QUERIES_PROMPT@,
{
    DEFAULT_SEARCH_QUERIES_PROMPT.to_owned()
}

pub fn default_suggestions_prompt() -> (r: String)
    ensures
        r@ == DEFAULT_SUGGESTIONS_PROMPT@,
{
    DEFAULT_SUGGESTIONS_PROMPT.to_owned()
}

pub fn default_theme() -> (r: String)
    ensures
        r@ == "default"@,
{
    "default".to_owned()
}

pub fn default_cache_dir() -> (r: String)
    ensures
        r@ == ".git/driftcheck_cache"@,
{
    ".git/driftcheck_cache".to_owned()
}

/// One hour.
pub fn default_ttl() -> (r: u64)
    ensures
        r == 3600,
{
    3600
}

impl Default for GeneralConfig {
    fn default() -> (r: GeneralConfig)
        ensures
            r.enabled && !r.allow_push_on_error,
    {
        GeneralConfig { enabled: true, allow_push_on_error: false }
    }
}

impl Default for DocsConfig {
    fn default() -> (r: DocsConfig)
        ensures
            r.paths@.len() == 2,
            r.paths@[0]@ == "README.md"@,
            r.paths@[1]@ == "docs/**/*.md"@,
            r.ignore@.len() == 0,
            r.max_context_tokens == 8000,
    {
        DocsConfig { paths: default_doc_paths(), ignore: Vec::new(), max_context_tokens: default_max_context_tokens() }
    }
}

impl Default for LlmConfig {
    fn default() -> (r: LlmConfig)
        ensures
            r.base_url@ == "https://api.openai.com/v1"@,
            r.model@ == "gpt-4o"@,
            r.timeout == 30,
            r.max_retries == 2,
    {
        LlmConfig {
            base_url: default_base_url(),
            model: default_model(),
            timeout: default_timeout(),
            max_retries: default_max_retries(),
        }
    }
}

impl Default for PromptsConfig {
    fn default() -> (r: PromptsConfig)
        ensures
            r.analysis@ == DEFAULT_ANALYSIS_PROMPT@,
            r.search_queries@ == DEFAULT_SEARCH_QUERIES_PROMPT@,
            r.suggestions@ == DEFAULT_SUGGESTIONS_PROMPT@,
    {
        PromptsConfig {
            analysis: default_analysis_prompt(),
            search_queries: default_search_queries_prompt(),
            suggestions: default_suggestions_prompt(),
        }
    }
}

impl Default for TuiConfig {
    fn default() -> (r: TuiConfig)
        ensures
            r.theme@ == "default"@,
            r.show_diff_preview,
            !r.auto_apply,
    {
        TuiConfig { theme: default_theme(), show_diff_preview: true, auto_apply: false }
    }
}

impl Default for CacheConfig {
    fn default() -> (r: CacheConfig)
        ensures
            r.enabled,
            r.dir@ == ".git/driftcheck_cache"@,
            r.ttl == 3600,
    {
        CacheConfig { enabled: true, dir: default_cache_dir(), ttl: default_ttl() }
    }
}

impl Default for Config {
    fn default() -> (r: Config)
        ensures
            r.general.enabled && !r.general.allow_push_on_error,
            r.docs.paths@.len() == 2,
            r.docs.paths@[0]@ == "README.md"@,
            r.docs.paths@[1]@ == "docs/**/*.md"@,
            r.docs.ignore@.len() == 0,
            r.docs.max_context_tokens == 8000,
            r.llm.base_url@ == "https://api.openai.com/v1"@,
            r.llm.model@ == "gpt-4o"@,
            r.llm.timeout == 30,
            r.llm.max_retries == 2,
            r.prompts.analysis@ == DEFAULT_ANALYSIS_PROMPT@,
            r.prompts.search_queries@ == DEFAULT_SEARCH_QUERIES_PROMPT@,
            r.prompts.suggestions@ == DEFAULT_SUGGESTIONS_PROMPT@,
            r.tui.theme@ == "default"@,
            r.tui.show_diff_preview && !r.tui.auto_apply,
            r.cache.enabled,
            r.cache.dir@ == ".git/driftcheck_cache"@,
            r.cache.ttl == 3600,
    {
        Config {
            general: GeneralConfig::default(),
            docs: DocsConfig::default(),
            llm: LlmConfig::default(),
            prompts: PromptsConfig::default(),
            tui: TuiConfig::default(),
            cache: CacheConfig::default(),
        }
    }
}

} // verus!
