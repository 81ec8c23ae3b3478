//! What the processing tasks share: failures, progress, identifiers and the
//! models of a workspace.

use vstd::prelude::*;

use crate::text::{chars_of, digit, lowered, lowered_of, put_str, same_str, string_of};

verus! {

broadcast use vstd::string::group_string_axioms;

// ---------------------------------------------------------------------------
// Messages
// ---------------------------------------------------------------------------

/// Two texts, one after the other.
pub fn cat(a: &str, b: &str) -> (r: String)
    ensures
        r@ == a@ + b@,
{
    let mut out = chars_of(a);
    put_str(b, &mut out);
    string_of(&out)
}

/// Three texts, one after the other.
pub fn cat3(a: &str, b: &str, c: &str) -> (r: String)
    ensures
        r@ == a@ + b@ + c@,
{
    let mut out = chars_of(a);
    put_str(b, &mut out);
    put_str(c, &mut out);
    string_of(&out)
}

/// Four texts, one after the other.
pub fn cat4(a: &str, b: &str, c: &str, d: &str) -> (r: String)
    ensures
        r@ == a@ + b@ + c@ + d@,
{
    let mut out = chars_of(a);
    put_str(b, &mut out);
    put_str(c, &mut out);
    put_str(d, &mut out);
    string_of(&out)
}

// ---------------------------------------------------------------------------
// Failures and progress
// ---------------------------------------------------------------------------

/// What sort of failure ended a task.
#[derive(Clone, Copy, Debug, PartialEq, Eq, Structural)]
pub enum FailureKind {
    UnsupportedOperation,
    Storage,
    NotFound,
    InvalidPayload,
    Process,
    Processing,
    Timeout,
    Cancelled,
}

/// Why a task ended early.
#[derive(Clone, Debug)]
pub struct TaskFailure {
    pub kind: FailureKind,
    pub message: String,
}

impl TaskFailure {
    /// The failure has this kind and says this.
    pub open spec fn says(self, kind: FailureKind, message: Seq<char>) -> bool {
        self.kind == kind && self.message@ == message
    }

    pub fn new(kind: FailureKind, message: String) -> (r: Self)
        ensures
            r.says(kind, message@),
    {
        TaskFailure { kind, message }
    }
}

/// How far a task got.
#[derive(Clone, Copy, Debug)]
pub struct Progress {
    pub stage: &'static str,
    pub step: u32,
    pub percent: u8,
}

impl Progress {
    pub open spec fn is(self, stage: Seq<char>, step: int, percent: int) -> bool {
        self.stage@ == stage && self.step == step && self.percent == percent
    }
}

impl View for Progress {
    type V = (Seq<char>, u32, u8);

    open spec fn view(&self) -> (Seq<char>, u32, u8) {
        (self.stage@, self.step, self.percent)
    }
}

/// The views of a list of progress marks.
pub open spec fn progress_views(v: Seq<Progress>) -> Seq<(Seq<char>, u32, u8)> {
    v.map_values(|p: Progress| p@)
}

/// A single progress mark.
pub fn mark(stage: &'static str, step: u32, percent: u8) -> (r: Vec<Progress>)
    ensures
        progress_views(r@) == seq![(stage@, step, percent)],
{
    let r = vec![Progress { stage, step, percent }];
    assert(progress_views(r@) =~= seq![(stage@, step, percent)]);
    r
}

/// One more progress mark.
pub fn and_mark(list: Vec<Progress>, stage: &'static str, step: u32, percent: u8) -> (r: Vec<
    Progress,
>)
    ensures
        progress_views(r@) == progress_views(list@).push((stage@, step, percent)),
{
    let mut r = list;
    r.push(Progress { stage, step, percent });
    assert(progress_views(r@) =~= progress_views(list@).push((stage@, step, percent)));
    r
}

/// The view of an optional name.
pub open spec fn name_view(s: Option<&'static str>) -> Option<Seq<char>> {
    match s {
        Some(n) => Some(n@),
        None => None,
    }
}

// ---------------------------------------------------------------------------
// Identifiers
// ---------------------------------------------------------------------------

/// What `uuid::Uuid::parse_str` makes of a text: the number of the UUID, or
/// what is wrong with it.
pub uninterp spec fn uuid_reading(text: Seq<char>) -> Result<u128, Seq<char>>;

/// `uuid::Uuid::parse_str`, with the UUID as a number and the error as its text.
/// It is a function of the text.
#[verifier::external_body]
pub(crate) fn parse_uuid(text: &str) -> (r: Result<u128, String>)
    ensures
        match r {
            Ok(v) => uuid_reading(text@) == Ok::<u128, Seq<char>>(v),
            Err(e) => uuid_reading(text@) == Err::<u128, Seq<char>>(e@),
        },
{
    match uuid::Uuid::parse_str(text) {
        Ok(u) => Ok(u.as_u128()),
        Err(e) => Err(e.to_string()),
    }
}

/// A text is a UUID of this number.
pub open spec fn names_uuid(text: Seq<char>, v: u128) -> bool {
    uuid_reading(text) == Ok::<u128, Seq<char>>(v)
}

/// Whether a text is a UUID.
pub open spec fn is_uuid(text: Seq<char>) -> bool {
    uuid_reading(text) is Ok
}

/// Whether a text is a UUID.
pub fn reads_as_uuid(text: &str) -> (r: bool)
    ensures
        r == is_uuid(text@),
{
    match parse_uuid(text) {
        Ok(_) => true,
        Err(_) => false,
    }
}

pub open spec fn pow16(n: nat) -> nat
    decreases n,
{
    if n == 0 {
        1
    } else {
        16 * pow16((n - 1) as nat)
    }
}

pub open spec fn hex_char(n: int) -> char {
    if n < 10 {
        digit(n)
    } else {
        ('a' as int + n - 10) as char
    }
}

/// The `i`-th hexadecimal digit of a UUID.
pub open spec fn uuid_digit(v: u128, i: int) -> char {
    hex_char((v as nat / pow16((31 - i) as nat)) as int % 16)
}

/// A UUID as it is written: 32 lower-case hexadecimal digits in groups of 8, 4,
/// 4, 4 and 12.
pub open spec fn hyphenated(v: u128) -> Seq<char> {
    Seq::new(
        36,
        |k: int|
            if k == 8 || k == 13 || k == 18 || k == 23 {
                '-'
            } else if k < 8 {
                uuid_digit(v, k)
            } else if k < 13 {
                uuid_digit(v, k - 1)
            } else if k < 18 {
                uuid_digit(v, k - 2)
            } else if k < 23 {
                uuid_digit(v, k - 3)
            } else {
                uuid_digit(v, k - 4)
            },
    )
}

/// `Display` of `uuid::Uuid`: the hyphenated form in lower case, which
/// [`parse_uuid`] reads back.
#[verifier::external_body]
pub(crate) fn uuid_text(v: u128) -> (r: String)
    ensures
        r@ == hyphenated(v),
        names_uuid(r@, v),
{
    uuid::Uuid::from_u128(v).to_string()
}

/// What `Debug` of `str` makes of a text.
pub uninterp spec fn debug_text(text: Seq<char>) -> Seq<char>;

/// `Debug` of `str`: the text in quotes, with what needs escaping escaped. It is
/// a function of the text.
#[verifier::external_body]
pub(crate) fn debug_of(text: &str) -> (r: String)
    ensures
        r@ == debug_text(text@),
{
    format!("{:?}", text)
}

/// A number that a database holds, read as a size: a negative one wraps round.
pub open spec fn wrapped_size(n: i32) -> int {
    if n >= 0 {
        n as int
    } else {
        usize::MAX + 1 + n
    }
}

/// A number that a database holds, read as a size.
pub fn size_of_number(n: i32) -> (r: usize)
    ensures
        r == wrapped_size(n),
{
    if n >= 0 {
        n as usize
    } else {
        usize::MAX - (-(n + 1)) as usize
    }
}

/// The id of a workspace that is worth looking up: neither empty nor the default
/// one.
pub open spec fn scoped(workspace_id: Seq<char>) -> bool {
    workspace_id.len() > 0 && workspace_id != "default"@
}

/// Whether a workspace should be looked up.
pub fn is_scoped(workspace_id: &str) -> (r: bool)
    ensures
        r == scoped(workspace_id@),
{
    chars_of(workspace_id).len() > 0 && !same_str(workspace_id, "default")
}

// ---------------------------------------------------------------------------
// Workspaces
// ---------------------------------------------------------------------------

/// What a workspace says about models.
#[derive(Clone, Debug)]
pub struct WorkspaceModels {
    pub llm_provider: String,
    pub llm_model: String,
    pub embedding_provider: String,
    pub embedding_model: String,
    pub algorithm_analysis_llm_provider: Option<String>,
    pub algorithm_analysis_llm_model: Option<String>,
    pub algorithm_extraction_llm_provider: Option<String>,
    pub algorithm_extraction_llm_model: Option<String>,
    pub algorithm_review_mode: Option<String>,
    pub accept_unofficial_implementations: Option<bool>,
}

/// What came of looking a workspace up.
#[derive(Clone, Debug)]
pub enum WorkspaceLookup {
    /// There is nobody to ask.
    NoService,
    Failed { error: String },
    Missing,
    Found { models: WorkspaceModels },
}

/// A model to ask.
#[derive(Clone, Debug)]
pub enum ModelChoice {
    /// The one that the server was started with.
    ServerDefault,
    Named { provider: String, model: String },
}

impl ModelChoice {
    pub open spec fn names(self, provider: Seq<char>, model: Seq<char>) -> bool {
        self matches ModelChoice::Named { provider: p, model: m } && p@ == provider && m@ == model
    }
}

/// The model of the workspace if it was found, else the server's. Where the
/// workspace's model cannot be set up, the server's is used instead.
pub fn resolve_workspace_llm(lookup: &WorkspaceLookup) -> (r: ModelChoice)
    ensures
        match lookup {
            WorkspaceLookup::Found { models } => r.names(
                models.llm_provider@,
                models.llm_model@,
            ),
            _ => r is ServerDefault,
        },
{
    match lookup {
        WorkspaceLookup::Found { models } => ModelChoice::Named {
            provider: models.llm_provider.clone(),
            model: models.llm_model.clone(),
        },
        _ => ModelChoice::ServerDefault,
    }
}

/// The model for labelling tables: as `resolve_workspace_llm`, but only for a
/// workspace that is worth looking up.
pub fn resolve_table_classification_llm(
    workspace_id: &str,
    lookup: &WorkspaceLookup,
) -> (r: ModelChoice)
    ensures
        match lookup {
            WorkspaceLookup::Found { models } => if scoped(workspace_id@) {
                r.names(models.llm_provider@, models.llm_model@)
            } else {
                r is ServerDefault
            },
            _ => r is ServerDefault,
        },
{
    if is_scoped(workspace_id) {
        resolve_workspace_llm(lookup)
    } else {
        ModelChoice::ServerDefault
    }
}

/// Whether candidates that are no official implementations are kept: no, unless
/// the workspace was found and says so.
pub fn resolve_accept_unofficial(lookup: &WorkspaceLookup) -> (r: bool)
    ensures
        r == (lookup matches WorkspaceLookup::Found { models }
            && models.accept_unofficial_implementations == Some(true)),
{
    match lookup {
        WorkspaceLookup::Found { models } => match models.accept_unofficial_implementations {
            Some(b) => b,
            None => false,
        },
        _ => false,
    }
}

/// The number of a workspace, or why the text names none.
pub fn workspace_uuid(workspace_id: &str) -> (r: Result<u128, String>)
    ensures
        match uuid_reading(workspace_id@) {
            Ok(v) => r == Ok::<u128, String>(v),
            Err(e) => r matches Err(m) && m@ == "invalid workspace_id "@ + debug_text(
                workspace_id@,
            ) + ": "@ + e,
        },
{
    match parse_uuid(workspace_id) {
        Ok(v) => Ok(v),
        Err(e) => Err(
            cat4("invalid workspace_id ", debug_of(workspace_id).as_str(), ": ", e.as_str()),
        ),
    }
}

/// The models of a workspace that must be there, or why they are not known.
pub fn require_workspace(id: u128, lookup: WorkspaceLookup) -> (r: Result<WorkspaceModels, String>)
    ensures
        match lookup {
            WorkspaceLookup::Found { models } => r == Ok::<WorkspaceModels, String>(models),
            WorkspaceLookup::NoService => r matches Err(m) && m@ == "no workspace_service"@,
            WorkspaceLookup::Failed { error } => r matches Err(m) && m@ == "get_workspace: "@
                + error@,
            WorkspaceLookup::Missing => r matches Err(m) && m@ == "workspace "@ + hyphenated(id)
                + " not found"@,
        },
{
    match lookup {
        WorkspaceLookup::Found { models } => Ok(models),
        WorkspaceLookup::NoService => Err("no workspace_service".to_owned()),
        WorkspaceLookup::Failed { error } => Err(cat("get_workspace: ", error.as_str())),
        WorkspaceLookup::Missing => Err(cat3("workspace ", uuid_text(id).as_str(), " not found")),
    }
}

// ---------------------------------------------------------------------------
// Embedding services
// ---------------------------------------------------------------------------

/// What the model configuration says of a provider.
#[derive(Clone, Debug)]
pub struct ProviderConfig {
    pub base_url: Option<String>,
    /// The value of the environment variable that the configuration names.
    pub base_url_env: Option<String>,
}

/// What the model configuration says of a workspace's provider and model.
#[derive(Clone, Debug)]
pub struct ModelsConfig {
    pub provider: Option<ProviderConfig>,
    /// Whether the model takes images, if it is listed.
    pub supports_vision: Option<bool>,
}

/// Addresses that the environment gives.
#[derive(Clone, Debug)]
pub struct Hosts {
    pub lmstudio: Option<String>,
    pub ollama: Option<String>,
}

/// An address without the slashes at its end and with `/v1` there.
pub open spec fn with_v1(url: Seq<char>) -> Seq<char> {
    let t = crate::text::without_trailing(url, '/');
    if crate::text::ends_with(t, "/v1"@) {
        t
    } else {
        t + "/v1"@
    }
}

/// An address that ends in `/v1`.
pub fn ensure_v1_suffix(url: &str) -> (r: String)
    ensures
        r@ == with_v1(url@),
{
    let mut t = crate::text::without_trailing_of(&chars_of(url), '/');
    if !crate::text::ends_with_of(&t, &chars_of("/v1")) {
        put_str("/v1", &mut t);
    }
    string_of(&t)
}

/// Adding the suffix a second time changes nothing.
pub proof fn law_v1_suffix_once(url: Seq<char>)
    ensures
        crate::text::ends_with(with_v1(url), "/v1"@),
        with_v1(with_v1(url)) == with_v1(url),
{
    reveal_strlit("/v1");
    let t = crate::text::without_trailing(url, '/');
    let u = with_v1(url);
    if !crate::text::ends_with(t, "/v1"@) {
        assert(u.subrange(t.len() as int, u.len() as int) =~= "/v1"@);
    }
    assert(crate::text::stands_at(u, u.len() - 3, "/v1"@));
    assert(u.last() == '1') by {
        assert(u.subrange(u.len() - 3, u.len() as int)[2] == "/v1"@[2]);
    }
    assert(crate::text::without_trailing(u, '/') == u);
}

pub open spec fn map_v1(url: Option<String>) -> Option<Seq<char>> {
    match url {
        Some(u) => Some(with_v1(u@)),
        None => None,
    }
}

/// The address that a well-known provider has without configuration.
pub open spec fn known_address(provider: Seq<char>, hosts: Hosts) -> Option<Seq<char>> {
    let p = lowered(provider);
    if p == "lmstudio"@ || p == "lm-studio"@ || p == "lm_studio"@ {
        map_v1(hosts.lmstudio)
    } else if p == "ollama"@ {
        map_v1(hosts.ollama)
    } else if p == "openai"@ {
        Some("https://api.openai.com/v1"@)
    } else {
        None
    }
}

/// The address of a provider: the configured one, else the one that the
/// environment gives, else the well-known one.
pub open spec fn embedding_address(
    config: ProviderConfig,
    provider: Seq<char>,
    hosts: Hosts,
) -> Option<Seq<char>> {
    match config.base_url {
        Some(u) => Some(u@),
        None => match config.base_url_env {
            Some(u) => Some(with_v1(u@)),
            None => known_address(provider, hosts),
        },
    }
}

fn v1_of(url: &Option<String>) -> (r: Option<String>)
    ensures
        match r {
            Some(u) => map_v1(*url) == Some(u@),
            None => map_v1(*url) is None,
        },
{
    match url {
        Some(u) => Some(ensure_v1_suffix(u.as_str())),
        None => None,
    }
}

fn address_of(config: &ProviderConfig, provider: &str, hosts: &Hosts) -> (r: Option<String>)
    ensures
        match r {
            Some(u) => embedding_address(*config, provider@, *hosts) == Some(u@),
            None => embedding_address(*config, provider@, *hosts) is None,
        },
{
    if let Some(u) = &config.base_url {
        return Some(u.clone());
    }
    if let Some(u) = &config.base_url_env {
        return Some(ensure_v1_suffix(u.as_str()));
    }
    let p = string_of(&lowered_of(&chars_of(provider)));
    if same_str(p.as_str(), "lmstudio") || same_str(p.as_str(), "lm-studio") || same_str(
        p.as_str(),
        "lm_studio",
    ) {
        v1_of(&hosts.lmstudio)
    } else if same_str(p.as_str(), "ollama") {
        v1_of(&hosts.ollama)
    } else if same_str(p.as_str(), "openai") {
        Some("https://api.openai.com/v1".to_owned())
    } else {
        None
    }
}

/// What is said of a provider that is not configured.
pub open spec fn unknown_provider(provider: Seq<char>) -> Seq<char> {
    "provider "@ + provider + " not in models.toml"@
}

/// What is said of a model that is not configured.
pub open spec fn unknown_model(model: Seq<char>, provider: Seq<char>) -> Seq<char> {
    "model "@ + model + " not in provider "@ + provider
}

/// The address of the service that embeds the texts of a workspace, or why there
/// is none.
pub fn resolve_embedding_base_url(
    config: &Option<ModelsConfig>,
    provider: &str,
    hosts: &Hosts,
) -> (r: Result<String, String>)
    ensures
        match config {
            None => r matches Err(m) && m@ == "no models_config"@,
            Some(c) => match c.provider {
                None => r matches Err(m) && m@ == unknown_provider(provider@),
                Some(p) => match embedding_address(p, provider@, *hosts) {
                    Some(u) => r matches Ok(s) && s@ == u,
                    None => r matches Err(m) && m@ == "provider "@ + provider@
                        + " has no base_url and no env-var fallback resolved"@,
                },
            },
        },
{
    match config {
        None => Err("no models_config".to_owned()),
        Some(c) => match &c.provider {
            None => Err(cat3("provider ", provider, " not in models.toml")),
            Some(p) => match address_of(p, provider, hosts) {
                Some(u) => Ok(u),
                None => Err(
                    cat3(
                        "provider ",
                        provider,
                        " has no base_url and no env-var fallback resolved",
                    ),
                ),
            },
        },
    }
}

/// The address of the service that embeds figures: none if the model of the
/// workspace takes no images, and an error if the configuration does not name
/// provider, model or address.
pub fn figure_embedding_address(
    config: &Option<ModelsConfig>,
    provider: &str,
    model: &str,
    hosts: &Hosts,
) -> (r: Result<Option<String>, String>)
    ensures
        match config {
            None => r matches Err(m) && m@ == "no models_config"@,
            Some(c) => match c.provider {
                None => r matches Err(m) && m@ == unknown_provider(provider@),
                Some(p) => match c.supports_vision {
                    None => r matches Err(m) && m@ == unknown_model(model@, provider@),
                    Some(vision) => if !vision {
                        r matches Ok(None)
                    } else {
                        match embedding_address(p, provider@, *hosts) {
                            Some(u) => r matches Ok(Some(s)) && s@ == u,
                            None => r matches Err(m) && m@ == "provider "@ + provider@
                                + " has no base_url and no env-var fallback resolved; set `base_url` in models.toml or the provider's *_HOST env var"@,
                        }
                    },
                },
            },
        },
{
    match config {
        None => Err("no models_config".to_owned()),
        Some(c) => match &c.provider {
            None => Err(cat3("provider ", provider, " not in models.toml")),
            Some(p) => match c.supports_vision {
                None => Err(cat4("model ", model, " not in provider ", provider)),
                Some(vision) => {
                    if !vision {
                        return Ok(None);
                    }
                    match address_of(p, provider, hosts) {
                        Some(u) => Ok(Some(u)),
                        None => Err(
                            cat3(
                                "provider ",
                                provider,
                                " has no base_url and no env-var fallback resolved; set `base_url` in models.toml or the provider's *_HOST env var",
                            ),
                        ),
                    }
                },
            },
        },
    }
}

/// Whether the model that reads figures takes images, or why that is not known.
pub fn figure_reading_possible(
    config: &Option<ModelsConfig>,
    provider: &str,
    model: &str,
) -> (r: Result<bool, String>)
    ensures
        match config {
            None => r matches Err(m) && m@ == "no models_config"@,
            Some(c) => match c.supports_vision {
                None => r matches Err(m) && m@ == unknown_model(model@, provider@),
                Some(vision) => r == Ok::<bool, String>(vision),
            },
        },
{
    match config {
        None => Err("no models_config".to_owned()),
        Some(c) => match c.supports_vision {
            None => Err(cat4("model ", model, " not in provider ", provider)),
            Some(vision) => Ok(vision),
        },
    }
}

/// The first eight digits of a workspace's id, which its vector table is named
/// after.
pub fn workspace_short_id(id: u128) -> (r: String)
    ensures
        r@ == hyphenated(id).take(8),
{
    let v = chars_of(uuid_text(id).as_str());
    assert(v@.subrange(0, 8) =~= v@.take(8));
    crate::text::string_of_range(&v, 0, 8)
}

/// The pattern that the name of a workspace's vector table matches.
pub fn vector_table_pattern(id: u128) -> (r: String)
    ensures
        r@ == "eq_%_ws_"@ + hyphenated(id).take(8) + "_vectors"@,
{
    cat3("eq_%_ws_", workspace_short_id(id).as_str(), "_vectors")
}

} // verus!
