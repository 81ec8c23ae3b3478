//! Limits on calls of language models.
//!
//! Every call is bounded in the tokens it may generate and the time it may
//! take. The functions here compute the bounds from settings, which the
//! application reads from its environment and hands over as texts.

use vstd::prelude::*;

use crate::text::{
    chars_of, is_one_of, lowercase, lowered, lowered_of, names, parse_number, parsed, put_str,
    same_str, string_of, to_lowercase, trim, trim_of,
};

verus! {

broadcast use vstd::string::group_string_axioms;

/// The tokens that a call may generate by default.
pub const DEFAULT_MAX_TOKENS: usize = 8192;

/// The time that a call may take by default, in seconds.
pub const DEFAULT_TIMEOUT_SECS: u64 = 600;

/// The most tokens that a call may ever generate.
pub const ABSOLUTE_MAX_TOKENS: usize = 32768;

/// The shortest time limit, in seconds.
pub const MINIMUM_TIMEOUT_SECS: u64 = 10;

/// The longest time limit, in seconds.
pub const MAXIMUM_TIMEOUT_SECS: u64 = 600;

/// The longest time that the conversion of a whole document may take, in
/// seconds.
pub const VISION_MAX_OUTER_TIMEOUT_SECS: u64 = 86_400;

/// The limits on a call.
#[derive(Clone, Debug)]
pub struct SafetyLimitsConfig {
    /// The most tokens to generate.
    pub max_tokens: usize,
    /// The time limit, in seconds.
    pub timeout_secs: u64,
    /// Whether to log when a limit takes effect.
    pub log_enforcement: bool,
}

/// `n`, but at least `low` and at most `high`.
pub open spec fn clamped(n: int, low: int, high: int) -> int {
    if n < low {
        low
    } else if n > high {
        high
    } else {
        n
    }
}

impl Default for SafetyLimitsConfig {
    fn default() -> (r: Self)
        ensures
            r.max_tokens == DEFAULT_MAX_TOKENS,
            r.timeout_secs == DEFAULT_TIMEOUT_SECS,
            r.log_enforcement,
    {
        SafetyLimitsConfig {
            max_tokens: DEFAULT_MAX_TOKENS,
            timeout_secs: DEFAULT_TIMEOUT_SECS,
            log_enforcement: true,
        }
    }
}

impl SafetyLimitsConfig {
    /// The limits lie within the absolute bounds.
    pub open spec fn within_bounds(self) -> bool {
        1 <= self.max_tokens <= ABSOLUTE_MAX_TOKENS && MINIMUM_TIMEOUT_SECS <= self.timeout_secs
            <= MAXIMUM_TIMEOUT_SECS
    }

    /// Custom limits, brought within the absolute bounds.
    pub fn new(max_tokens: usize, timeout_secs: u64) -> (r: Self)
        ensures
            r.max_tokens == clamped(max_tokens as int, 1, ABSOLUTE_MAX_TOKENS as int),
            r.timeout_secs == clamped(
                timeout_secs as int,
                MINIMUM_TIMEOUT_SECS as int,
                MAXIMUM_TIMEOUT_SECS as int,
            ),
            r.log_enforcement,
            r.within_bounds(),
    {
        let tokens: usize = if max_tokens < 1 {
            1
        } else if max_tokens > ABSOLUTE_MAX_TOKENS {
            ABSOLUTE_MAX_TOKENS
        } else {
            max_tokens
        };
        let secs: u64 = if timeout_secs < MINIMUM_TIMEOUT_SECS {
            MINIMUM_TIMEOUT_SECS
        } else if timeout_secs > MAXIMUM_TIMEOUT_SECS {
            MAXIMUM_TIMEOUT_SECS
        } else {
            timeout_secs
        };
        SafetyLimitsConfig { max_tokens: tokens, timeout_secs: secs, log_enforcement: true }
    }

    /// Limits from two settings; a setting that is missing or no number has its
    /// default.
    pub fn from_settings(max_tokens: Option<&str>, timeout_secs: Option<&str>) -> (r: Self)
        ensures
            r.max_tokens == clamped(
                size_setting(text_setting(max_tokens), DEFAULT_MAX_TOKENS as int),
                1,
                ABSOLUTE_MAX_TOKENS as int,
            ),
            r.timeout_secs == clamped(
                number_setting(text_setting(timeout_secs), DEFAULT_TIMEOUT_SECS as int),
                MINIMUM_TIMEOUT_SECS as int,
                MAXIMUM_TIMEOUT_SECS as int,
            ),
            r.log_enforcement,
            r.within_bounds(),
    {
        let tokens = size_of_setting(max_tokens, DEFAULT_MAX_TOKENS);
        let secs = match number_of(timeout_secs) {
            Some(n) => n,
            None => DEFAULT_TIMEOUT_SECS,
        };
        Self::new(tokens, secs)
    }

    /// Low limits, for tests.
    pub fn strict() -> (r: Self)
        ensures
            r.max_tokens == 1024,
            r.timeout_secs == 30,
            r.log_enforcement,
            r.within_bounds(),
    {
        SafetyLimitsConfig { max_tokens: 1024, timeout_secs: 30, log_enforcement: true }
    }

    /// The highest limits.
    pub fn permissive() -> (r: Self)
        ensures
            r.max_tokens == ABSOLUTE_MAX_TOKENS,
            r.timeout_secs == MAXIMUM_TIMEOUT_SECS,
            r.log_enforcement,
            r.within_bounds(),
    {
        SafetyLimitsConfig {
            max_tokens: ABSOLUTE_MAX_TOKENS,
            timeout_secs: MAXIMUM_TIMEOUT_SECS,
            log_enforcement: true,
        }
    }

    /// The same limits without logging.
    pub fn without_logging(self) -> (r: Self)
        ensures
            r.max_tokens == self.max_tokens,
            r.timeout_secs == self.timeout_secs,
            !r.log_enforcement,
    {
        let mut c = self;
        c.log_enforcement = false;
        c
    }

    /// The tokens that a call may generate that asked for `requested`: no more
    /// than the limit, and the limit where it asked for nothing.
    pub fn apply_token_limit(&self, requested: Option<usize>) -> (r: usize)
        ensures
            r <= self.max_tokens,
            self.within_bounds() ==> r <= ABSOLUTE_MAX_TOKENS,
            match requested {
                Some(n) => r == (if n < self.max_tokens {
                    n
                } else {
                    self.max_tokens
                }),
                None => r == self.max_tokens,
            },
    {
        match requested {
            Some(n) => if n < self.max_tokens {
                n
            } else {
                self.max_tokens
            },
            None => self.max_tokens,
        }
    }

    /// Whether a request was cut down and that is to be logged.
    pub fn logs_clamp(&self, requested: Option<usize>) -> (r: bool)
        ensures
            r == (self.log_enforcement && (requested matches Some(n) && n > self.max_tokens)),
    {
        match requested {
            Some(n) => self.log_enforcement && n > self.max_tokens,
            None => false,
        }
    }
}

/// The view of an optional text.
pub open spec fn text_setting(s: Option<&str>) -> Option<Seq<char>> {
    match s {
        Some(x) => Some(x@),
        None => None,
    }
}

/// The number that a setting holds, or a default.
pub open spec fn number_setting(s: Option<Seq<char>>, default: int) -> int {
    match s {
        Some(t) => match parsed(t) {
            Some(n) => n as int,
            None => default,
        },
        None => default,
    }
}

/// The size that a setting holds, or a default; a size fits a machine word.
pub open spec fn size_setting(s: Option<Seq<char>>, default: int) -> int {
    if number_setting(s, default) <= usize::MAX {
        number_setting(s, default)
    } else {
        default
    }
}

fn number_of(s: Option<&str>) -> (r: Option<u64>)
    ensures
        r == (match s {
            Some(x) => parsed(x@),
            None => None,
        }),
{
    match s {
        Some(x) => parse_number(x),
        None => None,
    }
}

/// The size that a setting holds, or a default.
pub fn size_of_setting(s: Option<&str>, default: usize) -> (r: usize)
    ensures
        r == size_setting(text_setting(s), default as int),
{
    match number_of(s) {
        Some(n) => if n <= usize::MAX as u64 {
            n as usize
        } else {
            default
        },
        None => default,
    }
}

/// How many calls to make at a time: what the setting says, at least one.
pub fn concurrency_setting(s: Option<&str>, default: usize) -> (r: usize)
    requires
        default >= 1,
    ensures
        r >= 1,
        r == clamped(size_setting(text_setting(s), default as int), 1, usize::MAX as int),
{
    let n = size_of_setting(s, default);
    if n < 1 {
        1
    } else {
        n
    }
}

// ---------------------------------------------------------------------------
// Providers
// ---------------------------------------------------------------------------

/// The key that a provider needs: the variable that holds it and the provider's
/// name. Providers that run locally need none.
pub open spec fn key_needed(provider: Seq<char>) -> Option<(Seq<char>, Seq<char>)> {
    if provider == "openai"@ {
        Some(("OPENAI_API_KEY"@, "OpenAI"@))
    } else if provider == "anthropic"@ {
        Some(("ANTHROPIC_API_KEY"@, "Anthropic"@))
    } else if provider == "gemini"@ {
        Some(("GEMINI_API_KEY"@, "Gemini"@))
    } else if provider == "mistral"@ {
        Some(("MISTRAL_API_KEY"@, "Mistral"@))
    } else if provider == "xai"@ {
        Some(("XAI_API_KEY"@, "xAI"@))
    } else if provider == "openrouter"@ {
        Some(("OPENROUTER_API_KEY"@, "OpenRouter"@))
    } else {
        None
    }
}

/// The key that a provider needs.
pub fn required_api_key(provider_name: &str) -> (r: Option<(&'static str, &'static str)>)
    ensures
        match r {
            Some((var, name)) => key_needed(provider_name@) == Some((var@, name@)),
            None => key_needed(provider_name@) is None,
        },
{
    if same_str(provider_name, "openai") {
        Some(("OPENAI_API_KEY", "OpenAI"))
    } else if same_str(provider_name, "anthropic") {
        Some(("ANTHROPIC_API_KEY", "Anthropic"))
    } else if same_str(provider_name, "gemini") {
        Some(("GEMINI_API_KEY", "Gemini"))
    } else if same_str(provider_name, "mistral") {
        Some(("MISTRAL_API_KEY", "Mistral"))
    } else if same_str(provider_name, "xai") {
        Some(("XAI_API_KEY", "xAI"))
    } else if same_str(provider_name, "openrouter") {
        Some(("OPENROUTER_API_KEY", "OpenRouter"))
    } else {
        None
    }
}

/// What is said of a missing key.
pub open spec fn missing_key_message(var: Seq<char>, name: Seq<char>) -> Seq<char> {
    var + " is not set. To use the "@ + name
        + " provider, set the environment variable and restart the server. Alternatively, select the Ollama provider which runs locally."@
}

/// Checks that the key a provider needs is set to more than white space. `key`
/// is what the variable of [`required_api_key`] holds.
pub fn check_api_key(provider_name: &str, key: Option<&str>) -> (r: Result<(), String>)
    ensures
        match key_needed(provider_name@) {
            None => r is Ok,
            Some((var, name)) => match r {
                Ok(_) => key matches Some(k) && trim(k@).len() > 0,
                Err(m) => (key matches Some(k) ==> trim(k@).len() == 0) && m@
                    == missing_key_message(var, name),
            },
        },
{
    match required_api_key(provider_name) {
        None => Ok(()),
        Some((var, name)) => {
            let present = match key {
                Some(k) => trim_of(&chars_of(k)).len() > 0,
                None => false,
            };
            if present {
                Ok(())
            } else {
                let mut m: Vec<char> = Vec::new();
                put_str(var, &mut m);
                put_str(" is not set. To use the ", &mut m);
                put_str(name, &mut m);
                put_str(
                    " provider, set the environment variable and restart the server. Alternatively, select the Ollama provider which runs locally.",
                    &mut m,
                );
                assert(m@ =~= missing_key_message(var@, name@));
                Err(string_of(&m))
            }
        },
    }
}

/// How a provider is to be made.
#[derive(Clone, Debug)]
pub enum ProviderChoice {
    /// A compatible server with a time limit of its own.
    Compatible { base_url: String, timeout_secs: u64, api_key: Option<String> },
    /// As the provider's name says.
    Standard,
}

/// How a provider is to be made: a compatible server gets its own time limit if
/// that is set to a number and the server's address is set. An empty key counts
/// as none.
pub fn choose_provider(
    provider_name: &str,
    timeout: Option<&str>,
    base_url: Option<String>,
    api_key: Option<String>,
) -> (r: ProviderChoice)
    ensures
        match r {
            ProviderChoice::Compatible { base_url: u, timeout_secs: t, api_key: k } => {
                &&& provider_name@ == "openai-compatible"@
                &&& timeout matches Some(x) && parsed(x@) == Some(t)
                &&& base_url == Some(u)
                &&& k == (match api_key {
                    Some(s) => if s@.len() > 0 {
                        Some(s)
                    } else {
                        None
                    },
                    None => None,
                })
            },
            ProviderChoice::Standard => provider_name@ != "openai-compatible"@ || base_url is None
                || (timeout matches Some(x) ==> parsed(x@) is None),
        },
{
    if let Some(secs) = number_of(timeout) {
        if same_str(provider_name, "openai-compatible") {
            if let Some(url) = base_url {
                let key = match api_key {
                    Some(k) => if k.as_str().is_empty() {
                        None
                    } else {
                        Some(k)
                    },
                    None => None,
                };
                return ProviderChoice::Compatible {
                    base_url: url,
                    timeout_secs: secs,
                    api_key: key,
                };
            }
        }
    }
    ProviderChoice::Standard
}

pub open spec fn local_names() -> Seq<Seq<char>> {
    seq!["ollama"@, "lmstudio"@, "lm-studio"@, "lm_studio"@, "mock"@]
}

/// The provider runs on the same machine.
pub open spec fn local_provider(provider: Seq<char>) -> bool {
    local_names().contains(lowered(provider))
}

/// Whether a provider runs on the same machine rather than behind a network.
pub fn is_local_provider(provider_name: &str) -> (r: bool)
    ensures
        r == local_provider(provider_name@),
{
    let list = vec!["ollama", "lmstudio", "lm-studio", "lm_studio", "mock"];
    assert(names(list@) =~= local_names());
    is_one_of(&lowered_of(&chars_of(provider_name)), &list)
}

/// The seconds per page: the setting, at least five; else thirty for a local
/// provider and eight for another.
pub open spec fn page_seconds(provider: Seq<char>, setting: Option<Seq<char>>) -> int {
    match setting {
        Some(t) => match parsed(t) {
            Some(n) => if n < 5 {
                5
            } else {
                n as int
            },
            None => default_page_seconds(provider),
        },
        None => default_page_seconds(provider),
    }
}

pub open spec fn default_page_seconds(provider: Seq<char>) -> int {
    if local_provider(provider) {
        30
    } else {
        8
    }
}

/// The seconds that a page takes with a provider.
pub fn secs_per_page_for_provider(provider_name: &str, setting: Option<&str>) -> (r: u64)
    ensures
        r == page_seconds(provider_name@, text_setting(setting)),
{
    if let Some(n) = number_of(setting) {
        return if n < 5 {
            5
        } else {
            n
        };
    }
    if is_local_provider(provider_name) {
        30
    } else {
        8
    }
}

/// Two minutes and the time of the pages, at most a day.
pub open spec fn outer_timeout(per_page: int, pages: int) -> int {
    clamped(120 + per_page * pages, 0, VISION_MAX_OUTER_TIMEOUT_SECS as int)
}

/// The time that the conversion of a whole document may take.
pub fn vision_outer_timeout_secs(
    provider_name: &str,
    page_count: usize,
    setting: Option<&str>,
) -> (r: u64)
    ensures
        r == outer_timeout(
            page_seconds(provider_name@, text_setting(setting)),
            page_count as int,
        ),
{
    let per_page = secs_per_page_for_provider(provider_name, setting);
    let pages = page_count as u64;
    proof {
        assert(0 <= per_page * pages <= u64::MAX * u64::MAX) by (nonlinear_arith)
            requires
                0 <= per_page <= u64::MAX,
                0 <= pages <= u64::MAX,
        ;
    }
    let time: u128 = (per_page as u128) * (pages as u128);
    if time >= (VISION_MAX_OUTER_TIMEOUT_SECS - 120) as u128 {
        VISION_MAX_OUTER_TIMEOUT_SECS
    } else {
        120 + (time as u64)
    }
}

/// The seconds that a page may take: the setting, at least ten; else ten
/// minutes for a local provider and two for another.
pub open spec fn page_limit(provider: Seq<char>, setting: Option<Seq<char>>) -> int {
    match setting {
        Some(t) => match parsed(t) {
            Some(n) => if n < 10 {
                10
            } else {
                n as int
            },
            None => default_page_limit(provider),
        },
        None => default_page_limit(provider),
    }
}

pub open spec fn default_page_limit(provider: Seq<char>) -> int {
    if local_provider(provider) {
        600
    } else {
        120
    }
}

/// The time limit of the recognition of one page. It is not bounded above.
pub fn vision_page_timeout_secs(provider_name: &str, setting: Option<&str>) -> (r: u64)
    ensures
        r == page_limit(provider_name@, text_setting(setting)),
{
    if let Some(n) = number_of(setting) {
        return if n < 10 {
            10
        } else {
            n
        };
    }
    if is_local_provider(provider_name) {
        600
    } else {
        120
    }
}

/// The limits of recognition calls: the default tokens and the time limit of a
/// page.
pub fn vision_limits(provider_name: &str, setting: Option<&str>) -> (r: SafetyLimitsConfig)
    ensures
        r.max_tokens == DEFAULT_MAX_TOKENS,
        r.timeout_secs == page_limit(provider_name@, text_setting(setting)),
        r.log_enforcement,
{
    SafetyLimitsConfig {
        max_tokens: DEFAULT_MAX_TOKENS,
        timeout_secs: vision_page_timeout_secs(provider_name, setting),
        log_enforcement: true,
    }
}

/// The default model of the provider with the given lower-case name. That of
/// Anthropic is given by the configuration.
pub open spec fn model_of(name: Seq<char>, anthropic: Seq<char>) -> Seq<char> {
    if name == "openai"@ {
        "gpt-4.1-nano"@
    } else if name == "anthropic"@ {
        anthropic
    } else if name == "gemini"@ {
        "gemini-2.5-flash"@
    } else if name == "xai"@ {
        "grok-4-1-fast"@
    } else if name == "openrouter"@ {
        "openai/gpt-4o-mini"@
    } else if name == "ollama"@ {
        "gemma3:12b"@
    } else if name == "lmstudio"@ || name == "lm-studio"@ || name == "lm_studio"@ {
        "gemma-3n-e4b-it"@
    } else if name == "minimax"@ {
        "MiniMax-M2.7"@
    } else if name == "mock"@ {
        "mock-model"@
    } else {
        "gpt-4.1-nano"@
    }
}

/// The default model of a provider, given its name in lower case.
pub fn default_model_for_lowercase(name: &str, anthropic: &'static str) -> (r: &'static str)
    ensures
        r@ == model_of(name@, anthropic@),
{
    if same_str(name, "openai") {
        "gpt-4.1-nano"
    } else if same_str(name, "anthropic") {
        anthropic
    } else if same_str(name, "gemini") {
        "gemini-2.5-flash"
    } else if same_str(name, "xai") {
        "grok-4-1-fast"
    } else if same_str(name, "openrouter") {
        "openai/gpt-4o-mini"
    } else if same_str(name, "ollama") {
        "gemma3:12b"
    } else if same_str(name, "lmstudio") || same_str(name, "lm-studio") || same_str(
        name,
        "lm_studio",
    ) {
        "gemma-3n-e4b-it"
    } else if same_str(name, "minimax") {
        "MiniMax-M2.7"
    } else if same_str(name, "mock") {
        "mock-model"
    } else {
        "gpt-4.1-nano"
    }
}

/// The default model of a provider; `anthropic` is the one that the configuration
/// gives for Anthropic.
pub fn default_model_for_provider(provider_name: &str, anthropic: &'static str) -> (r: &'static str)
    ensures
        r@ == model_of(lowercase(provider_name@), anthropic@),
        (forall|i: int| 0 <= i < provider_name@.len() ==> #[trigger] provider_name@[i] <= '\u{7f}')
            ==> r@ == model_of(lowered(provider_name@), anthropic@),
{
    let name = to_lowercase(provider_name);
    default_model_for_lowercase(name.as_str(), anthropic)
}

/// More pages never shorten the time that a conversion may take, and it is
/// always between two minutes and a day.
pub proof fn law_outer_timeout_monotone(per_page: int, pages: int, more: int)
    requires
        0 <= per_page,
        0 <= pages <= more,
    ensures
        120 <= outer_timeout(per_page, pages) <= outer_timeout(per_page, more)
            <= VISION_MAX_OUTER_TIMEOUT_SECS,
{
    assert(0 <= per_page * pages <= per_page * more) by (nonlinear_arith)
        requires
            0 <= per_page,
            0 <= pages <= more,
    ;
}

} // verus!
