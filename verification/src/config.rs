//! The configuration: its sections, their defaults, what makes one invalid, and
//! which rules apply to a request path.

use vstd::prelude::*;
use vstd::string::*;

use crate::outside;
use crate::table::OrderedTable;
use crate::text;

verus! {

/// The whole configuration. Durations are in nanoseconds, sizes in bytes.
#[derive(Debug)]
pub struct Config {
    pub server: ServerConfig,
    pub storage: StorageConfig,
    pub retention: RetentionConfig,
    pub body: BodyConfig,
    pub responder: ResponderConfig,
    pub responders: Vec<ResponderRule>,
    pub paths: Vec<PathRule>,
    pub admin: AdminConfig,
}

/// Who may sign in to the administration pages.
#[derive(Debug)]
pub struct AdminConfig {
    pub username: String,
    /// A bcrypt hash or a plaintext password. Without one, no login is asked for.
    pub password: Option<String>,
}

/// Where the server listens, and below which path it is administered.
#[derive(Debug)]
pub struct ServerConfig {
    pub bind: String,
    pub admin_prefix: String,
}

/// Where captured requests are kept.
#[derive(Debug)]
pub struct StorageConfig {
    pub backend: String,
    pub root: String,
}

/// How long captured requests are kept.
#[derive(Debug, Clone, Copy)]
pub struct RetentionConfig {
    pub default_ttl: u128,
    pub cleanup_interval: u128,
    pub prune_grace: u128,
}

/// What is kept of request bodies.
#[derive(Debug, Clone, Copy)]
pub struct BodyConfig {
    pub mode: BodyMode,
    pub preview_limit: u64,
    pub max_body_size: u64,
}

/// What a successful capture is answered.
#[derive(Debug)]
pub struct ResponderConfig {
    pub status: u16,
    pub headers: OrderedTable<String>,
    pub body: ResponderBody,
}

/// What a successful capture is answered below a path.
#[derive(Debug)]
pub struct ResponderRule {
    pub path_match: String,
    pub status: Option<u16>,
    pub headers: OrderedTable<String>,
    pub body: Option<ResponderBody>,
}

/// The body of an answer.
#[derive(Debug)]
pub enum ResponderBody {
    /// A fixed text.
    StaticText(String),
    /// A fixed JSON document, as text.
    StaticJson(String),
    /// The summary of the capture.
    MetadataJson,
}

/// How requests below a path are captured.
#[derive(Debug)]
pub struct PathRule {
    pub path_match: String,
    pub ttl: Option<u128>,
    pub body_mode: Option<BodyMode>,
    pub preview_limit: Option<u64>,
    pub max_body_size: Option<u64>,
}

/// How requests on one path are captured.
#[derive(Debug, Clone, Copy)]
pub struct ResolvedPathRule {
    pub ttl: u128,
    pub body_mode: BodyMode,
    pub preview_limit: u64,
    pub max_body_size: u64,
}

/// What a successful capture on one path is answered.
#[derive(Debug)]
pub struct ResolvedResponder {
    pub status: u16,
    pub headers: OrderedTable<String>,
    pub body: ResponderBody,
}

/// What is stored of a body.
#[derive(Debug, Clone, Copy, PartialEq, Eq, Structural)]
pub enum BodyMode {
    /// The body, compressed with gzip.
    Compressed,
    /// The body as it came.
    Raw,
    /// The size alone.
    MetadataOnly,
}

impl Default for BodyMode {
    fn default() -> (mode: Self)
        ensures
            mode == BodyMode::Compressed,
    {
        BodyMode::Compressed
    }
}

impl BodyMode {
    /// What follows the request id in the name of a body file.
    pub open spec fn extension_text(self) -> Option<Seq<char>> {
        match self {
            BodyMode::Compressed => Some("body.bin.gz"@),
            BodyMode::Raw => Some("body.bin"@),
            BodyMode::MetadataOnly => None,
        }
    }

    /// The content encoding of a body file.
    pub open spec fn encoding_text(self) -> Option<Seq<char>> {
        match self {
            BodyMode::Compressed => Some("gzip"@),
            _ => None,
        }
    }

    /// The mode's name in the configuration and in metadata.
    pub open spec fn label_text(self) -> Seq<char> {
        match self {
            BodyMode::Compressed => "compressed"@,
            BodyMode::Raw => "raw"@,
            BodyMode::MetadataOnly => "metadata_only"@,
        }
    }

    /// What follows the request id in the name of a body file; `None` where no
    /// body is stored.
    pub fn extension(self) -> (extension: Option<&'static str>)
        ensures
            extension is Some <==> self.extension_text() is Some,
            extension matches Some(e) ==> Some(e@) == self.extension_text(),
    {
        match self {
            BodyMode::Compressed => Some("body.bin.gz"),
            BodyMode::Raw => Some("body.bin"),
            BodyMode::MetadataOnly => None,
        }
    }

    /// The content encoding of a body file, if it has one.
    pub fn encoding(self) -> (encoding: Option<&'static str>)
        ensures
            encoding is Some <==> self.encoding_text() is Some,
            encoding matches Some(e) ==> Some(e@) == self.encoding_text(),
    {
        match self {
            BodyMode::Compressed => Some("gzip"),
            BodyMode::Raw | BodyMode::MetadataOnly => None,
        }
    }

    /// The mode's name in the configuration and in metadata.
    pub fn label(self) -> (label: &'static str)
        ensures
            label@ == self.label_text(),
    {
        match self {
            BodyMode::Compressed => "compressed",
            BodyMode::Raw => "raw",
            BodyMode::MetadataOnly => "metadata_only",
        }
    }
}

/// The address that is listened on by default.
pub fn default_bind() -> (bind: String)
    ensures
        bind@ == "127.0.0.1:8080"@,
{
    "127.0.0.1:8080".to_string()
}

/// The path of the administration pages by default.
pub fn default_admin_prefix() -> (prefix: String)
    ensures
        prefix@ == "/_wh_admin"@,
{
    "/_wh_admin".to_string()
}

/// The name to sign in with by default.
pub fn default_admin_username() -> (username: String)
    ensures
        username@ == "admin"@,
{
    "admin".to_string()
}

/// The storage backend by default.
pub fn default_storage_backend() -> (backend: String)
    ensures
        backend@ == "local"@,
{
    "local".to_string()
}

/// The storage root by default.
pub fn default_storage_root() -> (root: String)
    ensures
        root@ == "./data"@,
{
    "./data".to_string()
}

/// How long a record is kept by default: 30 days.
pub fn default_ttl() -> (ttl: u128)
    ensures
        ttl == 30 * 24 * 60 * 60 * 1_000_000_000,
{
    30 * 24 * 60 * 60 * 1_000_000_000
}

/// How often records are cleaned up by default: every hour.
pub fn default_cleanup_interval() -> (interval: u128)
    ensures
        interval == 60 * 60 * 1_000_000_000,
{
    60 * 60 * 1_000_000_000
}

/// How long files and folders stay untouched before a sweep by default: an hour.
pub fn default_prune_grace() -> (grace: u128)
    ensures
        grace == 60 * 60 * 1_000_000_000,
{
    60 * 60 * 1_000_000_000
}

/// The largest body that is previewed by default: 5 MiB.
pub fn default_preview_limit() -> (limit: u64)
    ensures
        limit == 5 * 1024 * 1024,
{
    5 * 1024 * 1024
}

/// The largest body that is accepted by default: 100 MiB.
pub fn default_max_body_size() -> (limit: u64)
    ensures
        limit == 100 * 1024 * 1024,
{
    100 * 1024 * 1024
}

/// The status of an answer by default.
pub fn default_response_status() -> (status: u16)
    ensures
        status == 200,
{
    200
}

impl Default for AdminConfig {
    fn default() -> (section: Self)
        ensures
            section.username@ == "admin"@,
            section.password is None,
    {
        AdminConfig { username: default_admin_username(), password: None }
    }
}

impl Default for ServerConfig {
    fn default() -> (section: Self)
        ensures
            section.bind@ == "127.0.0.1:8080"@,
            section.admin_prefix@ == "/_wh_admin"@,
    {
        ServerConfig { bind: default_bind(), admin_prefix: default_admin_prefix() }
    }
}

impl Default for StorageConfig {
    fn default() -> (section: Self)
        ensures
            section.backend@ == "local"@,
            section.root@ == "./data"@,
    {
        StorageConfig { backend: default_storage_backend(), root: default_storage_root() }
    }
}

impl Default for RetentionConfig {
    fn default() -> (section: Self)
        ensures
            section.default_ttl == 30 * 24 * 60 * 60 * 1_000_000_000,
            section.cleanup_interval == 60 * 60 * 1_000_000_000,
            section.prune_grace == 60 * 60 * 1_000_000_000,
    {
        RetentionConfig {
            default_ttl: default_ttl(),
            cleanup_interval: default_cleanup_interval(),
            prune_grace: default_prune_grace(),
        }
    }
}

impl Default for BodyConfig {
    fn default() -> (section: Self)
        ensures
            section.mode == BodyMode::Compressed,
            section.preview_limit == 5 * 1024 * 1024,
            section.max_body_size == 100 * 1024 * 1024,
    {
        BodyConfig {
            mode: BodyMode::Compressed,
            preview_limit: default_preview_limit(),
            max_body_size: default_max_body_size(),
        }
    }
}

impl Default for ResponderBody {
    fn default() -> (body: Self)
        ensures
            body is MetadataJson,
    {
        ResponderBody::MetadataJson
    }
}

/// The contents of a table of headers.
pub open spec fn header_texts(headers: Map<Seq<char>, String>) -> Map<Seq<char>, Seq<char>> {
    headers.map_values(|value: String| value@)
}

/// The headers of an answer by default.
pub open spec fn default_headers() -> Map<Seq<char>, Seq<char>> {
    Map::<Seq<char>, Seq<char>>::empty().insert(
        "content-type"@,
        "application/json; charset=utf-8"@,
    )
}

impl Default for ResponderConfig {
    fn default() -> (section: Self)
        ensures
            section.status == 200,
            header_texts(section.headers@) == default_headers(),
            section.body is MetadataJson,
    {
        let mut headers: OrderedTable<String> = OrderedTable::new();
        headers.insert("content-type".to_string(), "application/json; charset=utf-8".to_string());
        assert(header_texts(headers@) =~= default_headers());
        ResponderConfig {
            status: default_response_status(),
            headers,
            body: ResponderBody::MetadataJson,
        }
    }
}

impl Default for Config {
    fn default() -> (config: Self)
        ensures
            config.server.bind@ == "127.0.0.1:8080"@,
            config.server.admin_prefix@ == "/_wh_admin"@,
            config.storage.backend@ == "local"@,
            config.storage.root@ == "./data"@,
            config.retention.default_ttl == 30 * 24 * 60 * 60 * 1_000_000_000,
            config.retention.cleanup_interval == 60 * 60 * 1_000_000_000,
            config.retention.prune_grace == 60 * 60 * 1_000_000_000,
            config.body.mode == BodyMode::Compressed,
            config.body.preview_limit == 5 * 1024 * 1024,
            config.body.max_body_size == 100 * 1024 * 1024,
            config.responder.status == 200,
            header_texts(config.responder.headers@) == default_headers(),
            config.responder.body is MetadataJson,
            config.responders@.len() == 0,
            config.paths@.len() == 0,
            config.admin.username@ == "admin"@,
            config.admin.password is None,
    {
        Config {
            server: ServerConfig::default(),
            storage: StorageConfig::default(),
            retention: RetentionConfig::default(),
            body: BodyConfig::default(),
            responder: ResponderConfig::default(),
            responders: Vec::new(),
            paths: Vec::new(),
            admin: AdminConfig::default(),
        }
    }
}

/// `path` is what `rule` names or lies below it.
pub open spec fn is_below(path: Seq<char>, rule: Seq<char>) -> bool {
    path == rule || (text::without_trailing(rule, '/') + "/"@).is_prefix_of(path)
}

/// Whether `path` is what `rule` names or lies below it.
pub fn path_matches(path: &str, rule: &str) -> (yes: bool)
    ensures
        yes == is_below(path@, rule@),
{
    if text::same_text(path, rule) {
        return true;
    }
    let whole: Vec<char> = text::to_chars(path);
    let named: Vec<char> = text::to_chars(rule);
    let mut front: Vec<char> = text::trim_end(named.as_slice(), '/');
    front.push('/');
    proof {
        reveal_strlit("/");
        assert(front@ =~= text::without_trailing(rule@, '/') + "/"@);
    }
    text::starts_with(whole.as_slice(), front.as_slice())
}

/// A path below a rule goes on with a `/` behind the rule's own text; one that
/// merely begins with that text does not match.
pub proof fn law_lookalike_does_not_match(rule: Seq<char>, rest: Seq<char>)
    requires
        rule.len() > 0,
        rule.last() != '/',
        rest.len() > 0,
    ensures
        is_below(rule + rest, rule) <==> rest[0] == '/',
{
    reveal_strlit("/");
    let path = rule + rest;
    let front = rule + "/"@;
    assert(path.len() != rule.len());
    if rest[0] == '/' {
        assert(front =~= path.subrange(0, front.len() as int));
    } else if front.is_prefix_of(path) {
        assert(path.subrange(0, front.len() as int)[rule.len() as int] == rest[0]);
        assert(front[rule.len() as int] == '/');
    }
}

/// What the last rule that applies and has a value says; `otherwise` where there
/// is none.
pub open spec fn latest<R, T>(
    rules: Seq<R>,
    applies: spec_fn(R) -> bool,
    value: spec_fn(R) -> Option<T>,
    otherwise: T,
) -> T
    decreases rules.len(),
{
    if rules.len() == 0 {
        otherwise
    } else if applies(rules.last()) && value(rules.last()) is Some {
        value(rules.last())->0
    } else {
        latest(rules.drop_last(), applies, value, otherwise)
    }
}

/// The headers that the rules for `path` leave, each rule's own in place of
/// those of the same name before it.
pub open spec fn merged_headers(
    rules: Seq<ResponderRule>,
    path: Seq<char>,
    base: Map<Seq<char>, String>,
) -> Map<Seq<char>, String>
    decreases rules.len(),
{
    if rules.len() == 0 {
        base
    } else {
        let before = merged_headers(rules.drop_last(), path, base);
        if is_below(path, rules.last().path_match@) {
            before.union_prefer_right(rules.last().headers@)
        } else {
            before
        }
    }
}

impl ResponderBody {
    /// The same body once more.
    pub fn duplicate(&self) -> (copy: ResponderBody)
        ensures
            copy == *self,
    {
        match self {
            ResponderBody::StaticText(body) => ResponderBody::StaticText(body.clone()),
            ResponderBody::StaticJson(body) => ResponderBody::StaticJson(body.clone()),
            ResponderBody::MetadataJson => ResponderBody::MetadataJson,
        }
    }
}

impl Config {
    /// How requests on `path` are captured: for each setting, what the last rule
    /// for the path that has it says, or else the general one.
    pub open spec fn resolved_rule(&self, path: Seq<char>) -> ResolvedPathRule {
        let applies = |rule: PathRule| is_below(path, rule.path_match@);
        ResolvedPathRule {
            ttl: latest(
                self.paths@,
                applies,
                |rule: PathRule| rule.ttl,
                self.retention.default_ttl,
            ),
            body_mode: latest(
                self.paths@,
                applies,
                |rule: PathRule| rule.body_mode,
                self.body.mode,
            ),
            preview_limit: latest(
                self.paths@,
                applies,
                |rule: PathRule| rule.preview_limit,
                self.body.preview_limit,
            ),
            max_body_size: latest(
                self.paths@,
                applies,
                |rule: PathRule| rule.max_body_size,
                self.body.max_body_size,
            ),
        }
    }

    /// How requests on `path` are captured.
    pub fn rule_for_path(&self, path: &str) -> (resolved: ResolvedPathRule)
        ensures
            resolved == self.resolved_rule(path@),
    {
        let mut resolved: ResolvedPathRule = ResolvedPathRule {
            ttl: self.retention.default_ttl,
            body_mode: self.body.mode,
            preview_limit: self.body.preview_limit,
            max_body_size: self.body.max_body_size,
        };
        let ghost rules = self.paths@;
        let ghost applies = |rule: PathRule| is_below(path@, rule.path_match@);
        let ghost ttl = |rule: PathRule| rule.ttl;
        let ghost mode = |rule: PathRule| rule.body_mode;
        let ghost preview = |rule: PathRule| rule.preview_limit;
        let ghost size = |rule: PathRule| rule.max_body_size;
        for i in 0..self.paths.len()
            invariant
                rules == self.paths@,
                applies == (|rule: PathRule| is_below(path@, rule.path_match@)),
                ttl == (|rule: PathRule| rule.ttl),
                mode == (|rule: PathRule| rule.body_mode),
                preview == (|rule: PathRule| rule.preview_limit),
                size == (|rule: PathRule| rule.max_body_size),
                resolved.ttl == latest(
                    rules.take(i as int),
                    applies,
                    ttl,
                    self.retention.default_ttl,
                ),
                resolved.body_mode == latest(rules.take(i as int), applies, mode, self.body.mode),
                resolved.preview_limit == latest(
                    rules.take(i as int),
                    applies,
                    preview,
                    self.body.preview_limit,
                ),
                resolved.max_body_size == latest(
                    rules.take(i as int),
                    applies,
                    size,
                    self.body.max_body_size,
                ),
        {
            assert(rules.take(i + 1).drop_last() == rules.take(i as int));
            assert(rules.take(i + 1).last() == rules[i as int]);
            let rule: &PathRule = &self.paths[i];
            if path_matches(path, rule.path_match.as_str()) {
                if let Some(value) = rule.ttl {
                    resolved.ttl = value;
                }
                if let Some(value) = rule.body_mode {
                    resolved.body_mode = value;
                }
                if let Some(value) = rule.preview_limit {
                    resolved.preview_limit = value;
                }
                if let Some(value) = rule.max_body_size {
                    resolved.max_body_size = value;
                }
            }
        }
        assert(rules.take(rules.len() as int) == rules);
        resolved
    }

    /// The status that a successful capture on `path` is answered with.
    pub open spec fn answer_status(&self, path: Seq<char>) -> u16 {
        latest(
            self.responders@,
            |rule: ResponderRule| is_below(path, rule.path_match@),
            |rule: ResponderRule| rule.status,
            self.responder.status,
        )
    }

    /// The body that a successful capture on `path` is answered with.
    pub open spec fn answer_body(&self, path: Seq<char>) -> ResponderBody {
        latest(
            self.responders@,
            |rule: ResponderRule| is_below(path, rule.path_match@),
            |rule: ResponderRule| rule.body,
            self.responder.body,
        )
    }

    /// What a successful capture on `path` is answered: for status and body, what
    /// the last rule for the path that has one says, or else the general answer;
    /// the headers of all of them, later ones in place of earlier ones.
    pub fn responder_for_path(&self, path: &str) -> (resolved: ResolvedResponder)
        ensures
            resolved.status == self.answer_status(path@),
            resolved.headers@ == merged_headers(
                self.responders@,
                path@,
                self.responder.headers@,
            ),
            resolved.body == self.answer_body(path@),
    {
        let mut status: u16 = self.responder.status;
        let mut headers: OrderedTable<String> = self.responder.headers.duplicate();
        let mut body: ResponderBody = self.responder.body.duplicate();
        let ghost rules = self.responders@;
        let ghost applies = |rule: ResponderRule| is_below(path@, rule.path_match@);
        let ghost status_of = |rule: ResponderRule| rule.status;
        let ghost body_of = |rule: ResponderRule| rule.body;
        for i in 0..self.responders.len()
            invariant
                rules == self.responders@,
                applies == (|rule: ResponderRule| is_below(path@, rule.path_match@)),
                status_of == (|rule: ResponderRule| rule.status),
                body_of == (|rule: ResponderRule| rule.body),
                status == latest(
                    rules.take(i as int),
                    applies,
                    status_of,
                    self.responder.status,
                ),
                headers@ == merged_headers(rules.take(i as int), path@, self.responder.headers@),
                body == latest(rules.take(i as int), applies, body_of, self.responder.body),
        {
            assert(rules.take(i + 1).drop_last() == rules.take(i as int));
            assert(rules.take(i + 1).last() == rules[i as int]);
            let rule: &ResponderRule = &self.responders[i];
            if path_matches(path, rule.path_match.as_str()) {
                if let Some(value) = rule.status {
                    status = value;
                }
                headers.extend(&rule.headers);
                if let Some(value) = &rule.body {
                    body = value.duplicate();
                }
            }
        }
        assert(rules.take(rules.len() as int) == rules);
        ResolvedResponder { status, headers, body }
    }
}

/// What is wrong with a configuration.
#[derive(Debug)]
pub enum ConfigError {
    /// The storage backend is none that exists.
    UnknownBackend(String),
    /// The path of the administration pages does not begin with `/`.
    AdminPrefix,
    /// Bodies would be previewed that are too large to be accepted.
    PreviewLimit,
    /// The path of a capture rule does not begin with `/`.
    PathRuleMatch(String),
    /// The status of an answer is out of range.
    ResponderStatus(u16),
    /// The name of a header of an answer is none that HTTP allows.
    HeaderName(String),
    /// The path of an answer rule does not begin with `/`.
    ResponderMatch(String),
}

/// What a [`ConfigError`] says.
pub enum ConfigProblem {
    UnknownBackend(Seq<char>),
    AdminPrefix,
    PreviewLimit,
    PathRuleMatch(Seq<char>),
    ResponderStatus(u16),
    HeaderName(Seq<char>),
    ResponderMatch(Seq<char>),
}

impl View for ConfigError {
    type V = ConfigProblem;

    open spec fn view(&self) -> ConfigProblem {
        match self {
            ConfigError::UnknownBackend(backend) => ConfigProblem::UnknownBackend(backend@),
            ConfigError::AdminPrefix => ConfigProblem::AdminPrefix,
            ConfigError::PreviewLimit => ConfigProblem::PreviewLimit,
            ConfigError::PathRuleMatch(path) => ConfigProblem::PathRuleMatch(path@),
            ConfigError::ResponderStatus(status) => ConfigProblem::ResponderStatus(*status),
            ConfigError::HeaderName(name) => ConfigProblem::HeaderName(name@),
            ConfigError::ResponderMatch(path) => ConfigProblem::ResponderMatch(path@),
        }
    }
}

/// The sentence for a problem.
pub open spec fn problem_text(problem: ConfigProblem) -> Seq<char> {
    match problem {
        ConfigProblem::UnknownBackend(backend) => seq![
            "storage.backend="@,
            backend,
            " is not implemented yet; use backend=\"local\""@,
        ].flatten(),
        ConfigProblem::AdminPrefix => "server.admin_prefix must start with /"@,
        ConfigProblem::PreviewLimit =>
            "body.preview_limit cannot be greater than body.max_body_size"@,
        ConfigProblem::PathRuleMatch(path) => seq![
            "path rule match must start with /: "@,
            path,
        ].flatten(),
        ConfigProblem::ResponderStatus(status) => seq![
            "invalid responder status: "@,
            text::decimal(status as nat),
        ].flatten(),
        ConfigProblem::HeaderName(name) => seq![
            "invalid responder header name: "@,
            name,
        ].flatten(),
        ConfigProblem::ResponderMatch(path) => seq![
            "responder match must start with /: "@,
            path,
        ].flatten(),
    }
}

impl ConfigError {
    /// The error as a sentence.
    pub fn message(&self) -> (sentence: String)
        ensures
            sentence@ == problem_text(self@),
    {
        match self {
            ConfigError::UnknownBackend(backend) => {
                let parts: [&str; 3] = [
                    "storage.backend=",
                    backend.as_str(),
                    " is not implemented yet; use backend=\"local\"",
                ];
                assert(text::borrowed_contents(parts@) =~= seq![
                    "storage.backend="@,
                    backend@,
                    " is not implemented yet; use backend=\"local\""@,
                ]);
                text::join_parts(&parts)
            },
            ConfigError::AdminPrefix => "server.admin_prefix must start with /".to_string(),
            ConfigError::PreviewLimit => {
                "body.preview_limit cannot be greater than body.max_body_size".to_string()
            },
            ConfigError::PathRuleMatch(path) => text::join_two(
                "path rule match must start with /: ",
                path.as_str(),
            ),
            ConfigError::ResponderStatus(status) => {
                let number: String = text::decimal_text(*status as u64);
                text::join_two("invalid responder status: ", number.as_str())
            },
            ConfigError::HeaderName(name) => text::join_two(
                "invalid responder header name: ",
                name.as_str(),
            ),
            ConfigError::ResponderMatch(path) => text::join_two(
                "responder match must start with /: ",
                path.as_str(),
            ),
        }
    }
}

/// A path begins with `/`.
pub open spec fn is_rooted(path: Seq<char>) -> bool {
    path.len() > 0 && path[0] == '/'
}

/// Whether a path begins with `/`.
fn rooted(path: &str) -> (yes: bool)
    ensures
        yes == is_rooted(path@),
{
    let chars: Vec<char> = text::to_chars(path);
    chars.len() > 0 && chars[0] == '/'
}

/// The first capture rule whose path does not begin with `/`.
pub open spec fn path_rule_problem(rules: Seq<PathRule>) -> Option<ConfigProblem>
    decreases rules.len(),
{
    if rules.len() == 0 {
        None
    } else if path_rule_problem(rules.drop_last()) is Some {
        path_rule_problem(rules.drop_last())
    } else if !is_rooted(rules.last().path_match@) {
        Some(ConfigProblem::PathRuleMatch(rules.last().path_match@))
    } else {
        None
    }
}

/// A status that no answer may have.
pub open spec fn status_problem(status: u16) -> Option<ConfigProblem> {
    if 100 <= status <= 599 {
        None
    } else {
        Some(ConfigProblem::ResponderStatus(status))
    }
}

/// The first header whose name HTTP does not allow.
pub open spec fn header_problem(headers: Seq<(Seq<char>, String)>) -> Option<ConfigProblem>
    decreases headers.len(),
{
    if headers.len() == 0 {
        None
    } else if header_problem(headers.drop_last()) is Some {
        header_problem(headers.drop_last())
    } else if !outside::is_header_name(headers.last().0) {
        Some(ConfigProblem::HeaderName(headers.last().0))
    } else {
        None
    }
}

/// What is wrong with an answer rule.
pub open spec fn responder_rule_problem(rule: ResponderRule) -> Option<ConfigProblem> {
    if !is_rooted(rule.path_match@) {
        Some(ConfigProblem::ResponderMatch(rule.path_match@))
    } else if rule.status is Some && status_problem(rule.status->0) is Some {
        status_problem(rule.status->0)
    } else {
        header_problem(rule.headers.pairs())
    }
}

/// What is wrong with the first faulty answer rule.
pub open spec fn responders_problem(rules: Seq<ResponderRule>) -> Option<ConfigProblem>
    decreases rules.len(),
{
    if rules.len() == 0 {
        None
    } else if responders_problem(rules.drop_last()) is Some {
        responders_problem(rules.drop_last())
    } else {
        responder_rule_problem(rules.last())
    }
}

/// Checks the status of an answer.
pub fn validate_status(status: u16) -> (result: Result<(), ConfigError>)
    ensures
        result is Ok <==> 100 <= status <= 599,
        result matches Err(e) ==> Some(e@) == status_problem(status),
{
    if 100 <= status && status <= 599 {
        Ok(())
    } else {
        Err(ConfigError::ResponderStatus(status))
    }
}

/// Checks the name of a header.
pub fn validate_header_name(name: &str) -> (result: Result<(), ConfigError>)
    ensures
        result is Ok <==> outside::is_header_name(name@),
        result matches Err(e) ==> e@ == ConfigProblem::HeaderName(name@),
{
    if outside::header_name_accepted(name) {
        Ok(())
    } else {
        Err(ConfigError::HeaderName(name.to_string()))
    }
}

/// Checks the names of a table of headers.
fn validate_headers(headers: &OrderedTable<String>) -> (result: Result<(), ConfigError>)
    ensures
        result is Ok <==> header_problem(headers.pairs()) is None,
        result matches Err(e) ==> Some(e@) == header_problem(headers.pairs()),
{
    let count: usize = headers.len();
    let ghost pairs = headers.pairs();
    for i in 0..count
        invariant
            count == pairs.len(),
            pairs == headers.pairs(),
            header_problem(pairs.take(i as int)) is None,
    {
        assert(pairs.take(i + 1).drop_last() == pairs.take(i as int));
        match validate_header_name(headers.key(i).as_str()) {
            Ok(()) => {},
            Err(error) => {
                proof {
                    lemma_header_problem_stays(pairs, i + 1);
                }
                return Err(error);
            },
        }
    }
    assert(pairs.take(pairs.len() as int) == pairs);
    Ok(())
}

proof fn lemma_header_problem_stays(headers: Seq<(Seq<char>, String)>, n: int)
    requires
        0 <= n <= headers.len(),
        header_problem(headers.take(n)) is Some,
    ensures
        header_problem(headers) == header_problem(headers.take(n)),
    decreases headers.len() - n,
{
    if n == headers.len() {
        assert(headers.take(n) == headers);
    } else {
        assert(headers.take(n + 1).drop_last() == headers.take(n));
        lemma_header_problem_stays(headers, n + 1);
    }
}

proof fn lemma_path_rule_problem_stays(rules: Seq<PathRule>, n: int)
    requires
        0 <= n <= rules.len(),
        path_rule_problem(rules.take(n)) is Some,
    ensures
        path_rule_problem(rules) == path_rule_problem(rules.take(n)),
    decreases rules.len() - n,
{
    if n == rules.len() {
        assert(rules.take(n) == rules);
    } else {
        assert(rules.take(n + 1).drop_last() == rules.take(n));
        lemma_path_rule_problem_stays(rules, n + 1);
    }
}

proof fn lemma_responders_problem_stays(rules: Seq<ResponderRule>, n: int)
    requires
        0 <= n <= rules.len(),
        responders_problem(rules.take(n)) is Some,
    ensures
        responders_problem(rules) == responders_problem(rules.take(n)),
    decreases rules.len() - n,
{
    if n == rules.len() {
        assert(rules.take(n) == rules);
    } else {
        assert(rules.take(n + 1).drop_last() == rules.take(n));
        lemma_responders_problem_stays(rules, n + 1);
    }
}

/// Checks an answer rule.
fn validate_responder_rule(rule: &ResponderRule) -> (result: Result<(), ConfigError>)
    ensures
        result is Ok <==> responder_rule_problem(*rule) is None,
        result matches Err(e) ==> Some(e@) == responder_rule_problem(*rule),
{
    if !rooted(rule.path_match.as_str()) {
        return Err(ConfigError::ResponderMatch(rule.path_match.clone()));
    }
    if let Some(status) = rule.status {
        match validate_status(status) {
            Ok(()) => {},
            Err(error) => {
                return Err(error);
            },
        }
    }
    validate_headers(&rule.headers)
}

impl Config {
    /// The first thing that is wrong with the configuration.
    pub open spec fn problem(&self) -> Option<ConfigProblem> {
        if self.storage.backend@ != "local"@ {
            Some(ConfigProblem::UnknownBackend(self.storage.backend@))
        } else if !is_rooted(self.server.admin_prefix@) {
            Some(ConfigProblem::AdminPrefix)
        } else if self.body.preview_limit > self.body.max_body_size {
            Some(ConfigProblem::PreviewLimit)
        } else if path_rule_problem(self.paths@) is Some {
            path_rule_problem(self.paths@)
        } else if status_problem(self.responder.status) is Some {
            status_problem(self.responder.status)
        } else if header_problem(self.responder.headers.pairs()) is Some {
            header_problem(self.responder.headers.pairs())
        } else {
            responders_problem(self.responders@)
        }
    }

    /// Reports the first thing that is wrong with the configuration.
    pub fn validate(&self) -> (result: Result<(), ConfigError>)
        ensures
            result is Ok <==> self.problem() is None,
            result matches Err(e) ==> Some(e@) == self.problem(),
    {
        if !text::same_text(self.storage.backend.as_str(), "local") {
            return Err(ConfigError::UnknownBackend(self.storage.backend.clone()));
        }
        if !rooted(self.server.admin_prefix.as_str()) {
            return Err(ConfigError::AdminPrefix);
        }
        if self.body.preview_limit > self.body.max_body_size {
            return Err(ConfigError::PreviewLimit);
        }
        let ghost paths = self.paths@;
        for i in 0..self.paths.len()
            invariant
                paths == self.paths@,
                path_rule_problem(paths.take(i as int)) is None,
                self.storage.backend@ == "local"@,
                is_rooted(self.server.admin_prefix@),
                self.body.preview_limit <= self.body.max_body_size,
        {
            assert(paths.take(i + 1).drop_last() == paths.take(i as int));
            if !rooted(self.paths[i].path_match.as_str()) {
                proof {
                    lemma_path_rule_problem_stays(paths, i + 1);
                }
                return Err(ConfigError::PathRuleMatch(self.paths[i].path_match.clone()));
            }
        }
        assert(paths.take(paths.len() as int) == paths);
        match validate_status(self.responder.status) {
            Ok(()) => {},
            Err(error) => {
                return Err(error);
            },
        }
        match validate_headers(&self.responder.headers) {
            Ok(()) => {},
            Err(error) => {
                return Err(error);
            },
        }
        let ghost rules = self.responders@;
        for i in 0..self.responders.len()
            invariant
                rules == self.responders@,
                responders_problem(rules.take(i as int)) is None,
                self.problem() == responders_problem(rules),
        {
            assert(rules.take(i + 1).drop_last() == rules.take(i as int));
            match validate_responder_rule(&self.responders[i]) {
                Ok(()) => {},
                Err(error) => {
                    proof {
                        lemma_responders_problem_stays(rules, i + 1);
                    }
                    return Err(error);
                },
            }
        }
        assert(rules.take(rules.len() as int) == rules);
        Ok(())
    }
}

/// A valid configuration answers every path with a status from 100 to 599.
pub proof fn law_valid_config_has_valid_statuses(config: Config, path: Seq<char>)
    requires
        config.problem() is None,
    ensures
        100 <= latest(
            config.responders@,
            |rule: ResponderRule| is_below(path, rule.path_match@),
            |rule: ResponderRule| rule.status,
            config.responder.status,
        ) <= 599,
{
    lemma_valid_statuses(config.responders@, path, config.responder.status);
}

proof fn lemma_valid_statuses(rules: Seq<ResponderRule>, path: Seq<char>, base: u16)
    requires
        responders_problem(rules) is None,
        100 <= base <= 599,
    ensures
        100 <= latest(
            rules,
            |rule: ResponderRule| is_below(path, rule.path_match@),
            |rule: ResponderRule| rule.status,
            base,
        ) <= 599,
    decreases rules.len(),
{
    if rules.len() > 0 {
        lemma_valid_statuses(rules.drop_last(), path, base);
    }
}

/// A rule at the end of the list that applies and has a value decides.
pub proof fn law_last_matching_rule_wins<R, T>(
    rules: Seq<R>,
    rule: R,
    applies: spec_fn(R) -> bool,
    value: spec_fn(R) -> Option<T>,
    otherwise: T,
)
    ensures
        applies(rule) && value(rule) is Some ==> latest(
            rules.push(rule),
            applies,
            value,
            otherwise,
        ) == value(rule)->0,
        !applies(rule) || value(rule) is None ==> latest(
            rules.push(rule),
            applies,
            value,
            otherwise,
        ) == latest(rules, applies, value, otherwise),
{
    assert(rules.push(rule).drop_last() == rules);
}

/// What a path rule covers: the very path that it names, and every path that goes on
/// with a slash behind it. Slashes at the end of the rule do not count for the latter.
/// Here the rule is `base` and so many slashes.
pub proof fn law_rule_covers_what_lies_below(base: Seq<char>, slashes: nat, path: Seq<char>)
    requires
        base.len() > 0 ==> base.last() != '/',
    ensures
        ({
            let rule = base + Seq::new(slashes, |i: int| '/');
            is_below(path, rule) <==> path == rule || (path.len() > base.len() && path.take(
                base.len() as int,
            ) == base && path[base.len() as int] == '/')
        }),
{
    reveal_strlit("/");
    let rule = base + Seq::new(slashes, |i: int| '/');
    lemma_slashes_removed(base, slashes);
    let front = base + "/"@;
    let below = path.len() > base.len() && path.take(base.len() as int) == base
        && path[base.len() as int] == '/';
    if below {
        assert(front =~= path.subrange(0, front.len() as int));
    }
    if front.is_prefix_of(path) {
        assert(path.subrange(0, front.len() as int)[base.len() as int] == '/');
        assert(path.take(base.len() as int) =~= base) by {
            assert forall|i: int| 0 <= i < base.len() implies path[i] == base[i] by {
                assert(path.subrange(0, front.len() as int)[i] == front[i]);
            }
        }
    }
}

/// Slashes behind a text that ends in none are removed, and no more.
pub proof fn lemma_slashes_removed(base: Seq<char>, slashes: nat)
    requires
        base.len() > 0 ==> base.last() != '/',
    ensures
        text::without_trailing(base + Seq::new(slashes, |i: int| '/'), '/') == base,
    decreases slashes,
{
    let rule = base + Seq::new(slashes, |i: int| '/');
    if slashes == 0 {
        assert(rule =~= base);
    } else {
        let less = (slashes - 1) as nat;
        assert(rule.drop_last() =~= base + Seq::new(less, |i: int| '/'));
        lemma_slashes_removed(base, less);
    }
}

/// Every path is covered by the rule that names it, and every path that begins with
/// a slash by the rule `/`.
pub proof fn law_path_is_covered_by_itself(path: Seq<char>)
    ensures
        is_below(path, path),
        path.len() > 0 && path[0] == '/' ==> is_below(path, "/"@),
{
    reveal_strlit("/");
    law_rule_covers_what_lies_below(Seq::empty(), 1, path);
    assert(Seq::<char>::empty() + Seq::new(1, |i: int| '/') =~= "/"@);
    assert(path.take(0) =~= Seq::<char>::empty());
}

proof fn lemma_latest_at<R, T>(
    rules: Seq<R>,
    applies: spec_fn(R) -> bool,
    value: spec_fn(R) -> Option<T>,
    otherwise: T,
    at: int,
)
    requires
        0 <= at < rules.len(),
        applies(rules[at]),
        value(rules[at]) is Some,
        forall|i: int|
            at < i < rules.len() ==> !applies(#[trigger] rules[i]) || value(rules[i]) is None,
    ensures
        Some(latest(rules, applies, value, otherwise)) == value(rules[at]),
    decreases rules.len(),
{
    if at < rules.len() - 1 {
        let less = rules.drop_last();
        assert(!applies(rules[rules.len() - 1]) || value(rules[rules.len() - 1]) is None);
        assert forall|i: int| at < i < less.len() implies !applies(#[trigger] less[i]) || value(
            less[i],
        ) is None by {
            assert(less[i] == rules[i]);
        }
        lemma_latest_at(less, applies, value, otherwise, at);
    }
}

proof fn lemma_latest_none<R, T>(
    rules: Seq<R>,
    applies: spec_fn(R) -> bool,
    value: spec_fn(R) -> Option<T>,
    otherwise: T,
)
    requires
        forall|i: int|
            0 <= i < rules.len() ==> !applies(#[trigger] rules[i]) || value(rules[i]) is None,
    ensures
        latest(rules, applies, value, otherwise) == otherwise,
    decreases rules.len(),
{
    if rules.len() > 0 {
        let less = rules.drop_last();
        assert(!applies(rules[rules.len() - 1]) || value(rules[rules.len() - 1]) is None);
        assert forall|i: int| 0 <= i < less.len() implies !applies(#[trigger] less[i]) || value(
            less[i],
        ) is None by {
            assert(less[i] == rules[i]);
        }
        lemma_latest_none(less, applies, value, otherwise);
    }
}

/// How long records are kept: what the last rule that covers the path and states it
/// says, be it more or less than the general setting; the general setting where no
/// such rule states it. The other settings of the rules do not matter.
pub proof fn law_last_rule_sets_ttl(config: Config, path: Seq<char>, at: int)
    ensures
        0 <= at < config.paths@.len() && is_below(path, config.paths@[at].path_match@)
            && config.paths@[at].ttl is Some && (forall|i: int|
            at < i < config.paths@.len() ==> !is_below(
                path,
                (#[trigger] config.paths@[i]).path_match@,
            ) || config.paths@[i].ttl is None) ==> Some(config.resolved_rule(path).ttl)
            == config.paths@[at].ttl,
        (forall|i: int|
            0 <= i < config.paths@.len() ==> !is_below(
                path,
                (#[trigger] config.paths@[i]).path_match@,
            ) || config.paths@[i].ttl is None) ==> config.resolved_rule(path).ttl
            == config.retention.default_ttl,
{
    let rules = config.paths@;
    let applies = |rule: PathRule| is_below(path, rule.path_match@);
    let value = |rule: PathRule| rule.ttl;
    let otherwise = config.retention.default_ttl;
    if 0 <= at < rules.len() && applies(rules[at]) && value(rules[at]) is Some && (forall|i: int|
        at < i < rules.len() ==> !applies(#[trigger] rules[i]) || value(rules[i]) is None) {
        lemma_latest_at(rules, applies, value, otherwise, at);
    }
    if forall|i: int|
        0 <= i < rules.len() ==> !applies(#[trigger] rules[i]) || value(rules[i]) is None {
        lemma_latest_none(rules, applies, value, otherwise);
    }
}

/// What is stored of bodies: what the last rule that covers the path and states it
/// says; the general setting where no such rule states it.
pub proof fn law_last_rule_sets_body_mode(config: Config, path: Seq<char>, at: int)
    ensures
        0 <= at < config.paths@.len() && is_below(path, config.paths@[at].path_match@)
            && config.paths@[at].body_mode is Some && (forall|i: int|
            at < i < config.paths@.len() ==> !is_below(
                path,
                (#[trigger] config.paths@[i]).path_match@,
            ) || config.paths@[i].body_mode is None) ==> Some(
            config.resolved_rule(path).body_mode,
        ) == config.paths@[at].body_mode,
        (forall|i: int|
            0 <= i < config.paths@.len() ==> !is_below(
                path,
                (#[trigger] config.paths@[i]).path_match@,
            ) || config.paths@[i].body_mode is None) ==> config.resolved_rule(path).body_mode
            == config.body.mode,
{
    let rules = config.paths@;
    let applies = |rule: PathRule| is_below(path, rule.path_match@);
    let value = |rule: PathRule| rule.body_mode;
    let otherwise = config.body.mode;
    if 0 <= at < rules.len() && applies(rules[at]) && value(rules[at]) is Some && (forall|i: int|
        at < i < rules.len() ==> !applies(#[trigger] rules[i]) || value(rules[i]) is None) {
        lemma_latest_at(rules, applies, value, otherwise, at);
    }
    if forall|i: int|
        0 <= i < rules.len() ==> !applies(#[trigger] rules[i]) || value(rules[i]) is None {
        lemma_latest_none(rules, applies, value, otherwise);
    }
}

/// The largest body that is previewed: what the last rule that covers the path and
/// states it says, be it above or below the general setting; the general setting where
/// no such rule states it.
pub proof fn law_last_rule_sets_preview_limit(config: Config, path: Seq<char>, at: int)
    ensures
        0 <= at < config.paths@.len() && is_below(path, config.paths@[at].path_match@)
            && config.paths@[at].preview_limit is Some && (forall|i: int|
            at < i < config.paths@.len() ==> !is_below(
                path,
                (#[trigger] config.paths@[i]).path_match@,
            ) || config.paths@[i].preview_limit is None) ==> Some(
            config.resolved_rule(path).preview_limit,
        ) == config.paths@[at].preview_limit,
        (forall|i: int|
            0 <= i < config.paths@.len() ==> !is_below(
                path,
                (#[trigger] config.paths@[i]).path_match@,
            ) || config.paths@[i].preview_limit is None) ==> config.resolved_rule(
            path,
        ).preview_limit == config.body.preview_limit,
{
    let rules = config.paths@;
    let applies = |rule: PathRule| is_below(path, rule.path_match@);
    let value = |rule: PathRule| rule.preview_limit;
    let otherwise = config.body.preview_limit;
    if 0 <= at < rules.len() && applies(rules[at]) && value(rules[at]) is Some && (forall|i: int|
        at < i < rules.len() ==> !applies(#[trigger] rules[i]) || value(rules[i]) is None) {
        lemma_latest_at(rules, applies, value, otherwise, at);
    }
    if forall|i: int|
        0 <= i < rules.len() ==> !applies(#[trigger] rules[i]) || value(rules[i]) is None {
        lemma_latest_none(rules, applies, value, otherwise);
    }
}

/// The largest body that is accepted: what the last rule that covers the path and
/// states it says, be it above or below the general setting; the general setting where
/// no such rule states it.
pub proof fn law_last_rule_sets_max_body_size(config: Config, path: Seq<char>, at: int)
    ensures
        0 <= at < config.paths@.len() && is_below(path, config.paths@[at].path_match@)
            && config.paths@[at].max_body_size is Some && (forall|i: int|
            at < i < config.paths@.len() ==> !is_below(
                path,
                (#[trigger] config.paths@[i]).path_match@,
            ) || config.paths@[i].max_body_size is None) ==> Some(
            config.resolved_rule(path).max_body_size,
        ) == config.paths@[at].max_body_size,
        (forall|i: int|
            0 <= i < config.paths@.len() ==> !is_below(
                path,
                (#[trigger] config.paths@[i]).path_match@,
            ) || config.paths@[i].max_body_size is None) ==> config.resolved_rule(
            path,
        ).max_body_size == config.body.max_body_size,
{
    let rules = config.paths@;
    let applies = |rule: PathRule| is_below(path, rule.path_match@);
    let value = |rule: PathRule| rule.max_body_size;
    let otherwise = config.body.max_body_size;
    if 0 <= at < rules.len() && applies(rules[at]) && value(rules[at]) is Some && (forall|i: int|
        at < i < rules.len() ==> !applies(#[trigger] rules[i]) || value(rules[i]) is None) {
        lemma_latest_at(rules, applies, value, otherwise, at);
    }
    if forall|i: int|
        0 <= i < rules.len() ==> !applies(#[trigger] rules[i]) || value(rules[i]) is None {
        lemma_latest_none(rules, applies, value, otherwise);
    }
}

/// The status of an answer: what the last rule that covers the path and states one
/// says; the general one where no such rule does.
pub proof fn law_last_rule_sets_status(config: Config, path: Seq<char>, at: int)
    ensures
        0 <= at < config.responders@.len() && is_below(path, config.responders@[at].path_match@)
            && config.responders@[at].status is Some && (forall|i: int|
            at < i < config.responders@.len() ==> !is_below(
                path,
                (#[trigger] config.responders@[i]).path_match@,
            ) || config.responders@[i].status is None) ==> Some(config.answer_status(path))
            == config.responders@[at].status,
        (forall|i: int|
            0 <= i < config.responders@.len() ==> !is_below(
                path,
                (#[trigger] config.responders@[i]).path_match@,
            ) || config.responders@[i].status is None) ==> config.answer_status(path)
            == config.responder.status,
{
    let rules = config.responders@;
    let applies = |rule: ResponderRule| is_below(path, rule.path_match@);
    let value = |rule: ResponderRule| rule.status;
    let otherwise = config.responder.status;
    if 0 <= at < rules.len() && applies(rules[at]) && value(rules[at]) is Some && (forall|i: int|
        at < i < rules.len() ==> !applies(#[trigger] rules[i]) || value(rules[i]) is None) {
        lemma_latest_at(rules, applies, value, otherwise, at);
    }
    if forall|i: int|
        0 <= i < rules.len() ==> !applies(#[trigger] rules[i]) || value(rules[i]) is None {
        lemma_latest_none(rules, applies, value, otherwise);
    }
}

/// The body of an answer: what the last rule that covers the path and states one
/// says; the general one where no such rule does.
pub proof fn law_last_rule_sets_answer_body(config: Config, path: Seq<char>, at: int)
    ensures
        0 <= at < config.responders@.len() && is_below(path, config.responders@[at].path_match@)
            && config.responders@[at].body is Some && (forall|i: int|
            at < i < config.responders@.len() ==> !is_below(
                path,
                (#[trigger] config.responders@[i]).path_match@,
            ) || config.responders@[i].body is None) ==> Some(config.answer_body(path))
            == config.responders@[at].body,
        (forall|i: int|
            0 <= i < config.responders@.len() ==> !is_below(
                path,
                (#[trigger] config.responders@[i]).path_match@,
            ) || config.responders@[i].body is None) ==> config.answer_body(path)
            == config.responder.body,
{
    let rules = config.responders@;
    let applies = |rule: ResponderRule| is_below(path, rule.path_match@);
    let value = |rule: ResponderRule| rule.body;
    let otherwise = config.responder.body;
    if 0 <= at < rules.len() && applies(rules[at]) && value(rules[at]) is Some && (forall|i: int|
        at < i < rules.len() ==> !applies(#[trigger] rules[i]) || value(rules[i]) is None) {
        lemma_latest_at(rules, applies, value, otherwise, at);
    }
    if forall|i: int|
        0 <= i < rules.len() ==> !applies(#[trigger] rules[i]) || value(rules[i]) is None {
        lemma_latest_none(rules, applies, value, otherwise);
    }
}

/// A header of an answer: the value that the last rule which covers the path and has
/// the header gives it; where no such rule has it, the general answer's, if that has
/// one.
pub proof fn law_last_rule_sets_header(
    rules: Seq<ResponderRule>,
    path: Seq<char>,
    base: Map<Seq<char>, String>,
    name: Seq<char>,
    at: int,
)
    ensures
        0 <= at < rules.len() && is_below(path, rules[at].path_match@)
            && rules[at].headers@.contains_key(name) && (forall|i: int|
            at < i < rules.len() ==> !is_below(path, (#[trigger] rules[i]).path_match@)
                || !rules[i].headers@.contains_key(name)) ==> merged_headers(
            rules,
            path,
            base,
        ).contains_key(name) && merged_headers(rules, path, base)[name]
            == rules[at].headers@[name],
        (forall|i: int|
            0 <= i < rules.len() ==> !is_below(path, (#[trigger] rules[i]).path_match@)
                || !rules[i].headers@.contains_key(name)) ==> {
            &&& merged_headers(rules, path, base).contains_key(name) == base.contains_key(name)
            &&& base.contains_key(name) ==> merged_headers(rules, path, base)[name] == base[name]
        },
    decreases rules.len(),
{
    if rules.len() > 0 {
        let less = rules.drop_last();
        let last = rules.len() - 1;
        law_last_rule_sets_header(less, path, base, name, at);
        assert(rules.last() == rules[last]);
        assert forall|i: int| 0 <= i < less.len() implies less[i] == #[trigger] rules[i] by {}
    }
}

/// A configuration is accepted exactly if the backend is the local one, the path of
/// the administration and those of all rules begin with a slash, no body is previewed
/// that is too large to be accepted, every status lies between 100 and 599 and every
/// header has a name that HTTP allows.
pub proof fn law_config_is_valid_if_all_of_it_is(config: Config)
    ensures
        config.problem() is None <==> {
            &&& config.storage.backend@ == "local"@
            &&& config.server.admin_prefix@.len() > 0 && config.server.admin_prefix@[0] == '/'
            &&& config.body.preview_limit <= config.body.max_body_size
            &&& forall|i: int|
                0 <= i < config.paths@.len() ==> (#[trigger] config.paths@[i]).path_match@.len()
                    > 0 && config.paths@[i].path_match@[0] == '/'
            &&& 100 <= config.responder.status <= 599
            &&& forall|k: int|
                0 <= k < config.responder.headers.pairs().len() ==> outside::is_header_name(
                    (#[trigger] config.responder.headers.pairs()[k]).0,
                )
            &&& forall|i: int|
                0 <= i < config.responders@.len() ==> is_sound_responder(
                    #[trigger] config.responders@[i],
                )
        },
{
    lemma_path_rules_sound(config.paths@);
    lemma_headers_sound(config.responder.headers.pairs());
    lemma_responders_sound(config.responders@);
}

/// An answer rule that nothing is wrong with.
pub open spec fn is_sound_responder(rule: ResponderRule) -> bool {
    &&& rule.path_match@.len() > 0 && rule.path_match@[0] == '/'
    &&& rule.status matches Some(status) ==> 100 <= status <= 599
    &&& forall|k: int|
        0 <= k < rule.headers.pairs().len() ==> outside::is_header_name(
            (#[trigger] rule.headers.pairs()[k]).0,
        )
}

proof fn lemma_path_rules_sound(rules: Seq<PathRule>)
    ensures
        path_rule_problem(rules) is None <==> forall|i: int|
            0 <= i < rules.len() ==> is_rooted((#[trigger] rules[i]).path_match@),
        path_rule_problem(rules) matches Some(problem) ==> exists|i: int|
            0 <= i < rules.len() && problem == ConfigProblem::PathRuleMatch(
                (#[trigger] rules[i]).path_match@,
            ) && !is_rooted(rules[i].path_match@),
    decreases rules.len(),
{
    if rules.len() > 0 {
        let less = rules.drop_last();
        lemma_path_rules_sound(less);
        let last = rules.len() - 1;
        assert(rules.last() == rules[last]);
        assert forall|i: int| 0 <= i < less.len() implies less[i] == #[trigger] rules[i] by {}
        if path_rule_problem(less) is Some {
            let problem = path_rule_problem(less)->0;
            let i = choose|i: int|
                0 <= i < less.len() && problem == ConfigProblem::PathRuleMatch(
                    (#[trigger] less[i]).path_match@,
                ) && !is_rooted(less[i].path_match@);
            assert(rules[i] == less[i]);
        } else {
            assert forall|j: int| 0 <= j < last implies is_rooted(
                (#[trigger] rules[j]).path_match@,
            ) by {
                assert(less[j] == rules[j]);
            }
        }
    }
}

proof fn lemma_headers_sound(headers: Seq<(Seq<char>, String)>)
    ensures
        header_problem(headers) is None <==> forall|k: int|
            0 <= k < headers.len() ==> outside::is_header_name((#[trigger] headers[k]).0),
        header_problem(headers) matches Some(problem) ==> exists|k: int|
            0 <= k < headers.len() && problem == ConfigProblem::HeaderName(
                (#[trigger] headers[k]).0,
            ) && !outside::is_header_name(headers[k].0),
    decreases headers.len(),
{
    if headers.len() > 0 {
        let less = headers.drop_last();
        lemma_headers_sound(less);
        let last = headers.len() - 1;
        assert(headers.last() == headers[last]);
        assert forall|i: int| 0 <= i < less.len() implies less[i] == #[trigger] headers[i] by {}
        if header_problem(less) is Some {
            let problem = header_problem(less)->0;
            let k = choose|k: int|
                0 <= k < less.len() && problem == ConfigProblem::HeaderName(
                    (#[trigger] less[k]).0,
                ) && !outside::is_header_name(less[k].0);
            assert(headers[k] == less[k]);
        } else {
            assert forall|k: int| 0 <= k < last implies outside::is_header_name(
                (#[trigger] headers[k]).0,
            ) by {
                assert(less[k] == headers[k]);
            }
        }
    }
}

proof fn lemma_responders_sound(rules: Seq<ResponderRule>)
    ensures
        responders_problem(rules) is None <==> forall|i: int|
            0 <= i < rules.len() ==> is_sound_responder(#[trigger] rules[i]),
    decreases rules.len(),
{
    if rules.len() > 0 {
        let less = rules.drop_last();
        lemma_responders_sound(less);
        let last = rules.len() - 1;
        assert(rules.last() == rules[last]);
        lemma_headers_sound(rules.last().headers.pairs());
        assert forall|i: int| 0 <= i < less.len() implies less[i] == #[trigger] rules[i] by {}
        assert(responder_rule_problem(rules[last]) is None <==> is_sound_responder(rules[last]));
        if responders_problem(less) is None {
            assert forall|i: int| 0 <= i < last implies is_sound_responder(#[trigger] rules[i]) by {
                assert(less[i] == rules[i]);
            }
        } else {
            let i = choose|i: int| 0 <= i < less.len() && !is_sound_responder(#[trigger] less[i]);
            assert(rules[i] == less[i]);
        }
    }
}

/// What is reported of a configuration is wrong with it.
pub proof fn law_reported_problem_is_there(config: Config)
    ensures
        match config.problem() {
            Some(ConfigProblem::UnknownBackend(backend)) => backend == config.storage.backend@
                && backend != "local"@,
            Some(ConfigProblem::AdminPrefix) => !(config.server.admin_prefix@.len() > 0
                && config.server.admin_prefix@[0] == '/'),
            Some(ConfigProblem::PreviewLimit) => config.body.preview_limit
                > config.body.max_body_size,
            Some(ConfigProblem::PathRuleMatch(path)) => !(path.len() > 0 && path[0] == '/')
                && exists|i: int|
                0 <= i < config.paths@.len() && (#[trigger] config.paths@[i]).path_match@ == path,
            Some(ConfigProblem::ResponderStatus(status)) => !(100 <= status <= 599) && (status
                == config.responder.status || exists|i: int|
                0 <= i < config.responders@.len() && (#[trigger] config.responders@[i]).status
                    == Some(status)),
            Some(ConfigProblem::HeaderName(name)) => !outside::is_header_name(name),
            Some(ConfigProblem::ResponderMatch(path)) => !(path.len() > 0 && path[0] == '/')
                && exists|i: int|
                0 <= i < config.responders@.len() && (#[trigger] config.responders@[i]).path_match@
                    == path,
            None => true,
        },
        config.storage.backend@ != "local"@ ==> config.problem() is Some,
{
    lemma_path_rules_sound(config.paths@);
    lemma_headers_sound(config.responder.headers.pairs());
    lemma_responders_reported(config.responders@);
}

proof fn lemma_responders_reported(rules: Seq<ResponderRule>)
    ensures
        match responders_problem(rules) {
            Some(ConfigProblem::ResponderStatus(status)) => !(100 <= status <= 599) && exists|
                i: int,
            |
                0 <= i < rules.len() && (#[trigger] rules[i]).status == Some(status),
            Some(ConfigProblem::HeaderName(name)) => !outside::is_header_name(name),
            Some(ConfigProblem::ResponderMatch(path)) => !(path.len() > 0 && path[0] == '/')
                && exists|i: int|
                0 <= i < rules.len() && (#[trigger] rules[i]).path_match@ == path,
            None => true,
            _ => false,
        },
    decreases rules.len(),
{
    if rules.len() > 0 {
        let less = rules.drop_last();
        lemma_responders_reported(less);
        let last = rules.len() - 1;
        assert(rules.last() == rules[last]);
        lemma_headers_sound(rules.last().headers.pairs());
        match responders_problem(less) {
            Some(ConfigProblem::ResponderStatus(status)) => {
                let i = choose|i: int|
                    0 <= i < less.len() && (#[trigger] less[i]).status == Some(status);
                assert(rules[i] == less[i]);
            },
            Some(ConfigProblem::ResponderMatch(path)) => {
                let i = choose|i: int|
                    0 <= i < less.len() && (#[trigger] less[i]).path_match@ == path;
                assert(rules[i] == less[i]);
            },
            _ => {},
        }
    }
}

/// Of several things that are wrong with a configuration the first is reported: the
/// backend, the path of the administration, the preview limit, the path of a capture
/// rule, the status of the general answer, its headers, and then the answer rules.
pub proof fn law_first_problem_is_reported(config: Config, at: int)
    ensures
        config.storage.backend@ != "local"@ ==> config.problem() == Some(
            ConfigProblem::UnknownBackend(config.storage.backend@),
        ),
        config.storage.backend@ == "local"@ && !is_rooted(config.server.admin_prefix@)
            ==> config.problem() == Some(ConfigProblem::AdminPrefix),
        config.storage.backend@ == "local"@ && is_rooted(config.server.admin_prefix@)
            && config.body.preview_limit > config.body.max_body_size ==> config.problem() == Some(
            ConfigProblem::PreviewLimit,
        ),
        config.storage.backend@ == "local"@ && is_rooted(config.server.admin_prefix@)
            && config.body.preview_limit <= config.body.max_body_size ==> {
            &&& 0 <= at < config.paths@.len() && !is_rooted(config.paths@[at].path_match@) && (
            forall|i: int|
                0 <= i < at ==> is_rooted((#[trigger] config.paths@[i]).path_match@))
                ==> config.problem() == Some(
                ConfigProblem::PathRuleMatch(config.paths@[at].path_match@),
            )
            &&& (forall|i: int|
                0 <= i < config.paths@.len() ==> is_rooted(
                    (#[trigger] config.paths@[i]).path_match@,
                )) && !(100 <= config.responder.status <= 599) ==> config.problem() == Some(
                ConfigProblem::ResponderStatus(config.responder.status),
            )
        },
{
    lemma_path_rules_sound(config.paths@);
    let rules = config.paths@;
    if 0 <= at < rules.len() && !is_rooted(rules[at].path_match@) && (forall|i: int|
        0 <= i < at ==> is_rooted((#[trigger] rules[i]).path_match@)) {
        let front = rules.take(at);
        lemma_path_rules_sound(front);
        assert forall|i: int| 0 <= i < front.len() implies is_rooted(
            (#[trigger] front[i]).path_match@,
        ) by {
            assert(front[i] == rules[i]);
        }
        assert(rules.take(at + 1).drop_last() == front);
        assert(rules.take(at + 1).last() == rules[at]);
        lemma_path_rule_problem_stays(rules, at + 1);
    }
}

/// Each problem is told with what it is about.
pub proof fn law_problem_names_its_subject(subject: Seq<char>, status: u16)
    ensures
        problem_text(ConfigProblem::UnknownBackend(subject)) == "storage.backend="@ + subject
            + " is not implemented yet; use backend=\"local\""@,
        problem_text(ConfigProblem::PathRuleMatch(subject))
            == "path rule match must start with /: "@ + subject,
        problem_text(ConfigProblem::ResponderMatch(subject))
            == "responder match must start with /: "@ + subject,
        problem_text(ConfigProblem::HeaderName(subject)) == "invalid responder header name: "@
            + subject,
        problem_text(ConfigProblem::ResponderStatus(status)) == "invalid responder status: "@
            + text::decimal(status as nat),
{
    text::lemma_three(
        "storage.backend="@,
        subject,
        " is not implemented yet; use backend=\"local\""@,
    );
    text::lemma_two("path rule match must start with /: "@, subject);
    text::lemma_two("responder match must start with /: "@, subject);
    text::lemma_two("invalid responder header name: "@, subject);
    text::lemma_two("invalid responder status: "@, text::decimal(status as nat));
}

/// The headers of an answer by default are its content type alone.
pub proof fn law_answers_are_json_by_default(name: Seq<char>)
    ensures
        default_headers().contains_key(name) <==> name == "content-type"@,
        default_headers()["content-type"@] == "application/json; charset=utf-8"@,
{
}

/// A rule that does not cover a path makes no difference to how requests on it are
/// captured.
pub proof fn law_uncovered_rule_makes_no_difference(
    config: Config,
    other: Config,
    rule: PathRule,
    path: Seq<char>,
)
    requires
        other.paths@ == config.paths@.push(rule),
        other.retention == config.retention,
        other.body == config.body,
        !is_below(path, rule.path_match@),
    ensures
        other.resolved_rule(path) == config.resolved_rule(path),
{
    assert(config.paths@.push(rule).drop_last() == config.paths@);
}

/// How requests on a path are captured: for a rule that covers the path and has none
/// behind it that does, what it states counts, be it more or less than the general
/// settings; what it does not state, and everything where there are no rules, goes by
/// what stands before it.
pub proof fn law_rule_for_path_takes_the_last_word(
    config: &Config,
    path: &str,
    resolved: ResolvedPathRule,
)
    requires
        call_ensures(Config::rule_for_path, (config, path), resolved),
    ensures
        config.paths@.len() == 0 ==> resolved.ttl == config.retention.default_ttl
            && resolved.body_mode == config.body.mode && resolved.preview_limit
            == config.body.preview_limit && resolved.max_body_size == config.body.max_body_size,
        config.paths@.len() > 0 && is_below(path@, config.paths@.last().path_match@) ==> {
            let last = config.paths@.last();
            &&& last.ttl is Some ==> resolved.ttl == last.ttl->0
            &&& last.body_mode is Some ==> resolved.body_mode == last.body_mode->0
            &&& last.preview_limit is Some ==> resolved.preview_limit == last.preview_limit->0
            &&& last.max_body_size is Some ==> resolved.max_body_size == last.max_body_size->0
        },
        resolved == config.resolved_rule(path@),
{
}

/// What a successful capture is answered: without rules the general answer; for the
/// last rule, where it covers the path, its own status, body and headers.
pub proof fn law_responder_for_path_takes_the_last_word(
    config: &Config,
    path: &str,
    resolved: ResolvedResponder,
    name: Seq<char>,
)
    requires
        call_ensures(Config::responder_for_path, (config, path), resolved),
    ensures
        config.responders@.len() == 0 ==> resolved.status == config.responder.status
            && resolved.body == config.responder.body && resolved.headers@
            == config.responder.headers@,
        config.responders@.len() > 0 && is_below(path@, config.responders@.last().path_match@) ==> {
            let last = config.responders@.last();
            &&& last.status is Some ==> resolved.status == last.status->0
            &&& last.body is Some ==> resolved.body == last.body->0
            &&& last.headers@.contains_key(name) ==> resolved.headers@.contains_key(name)
                && resolved.headers@[name] == last.headers@[name]
        },
        resolved.status == config.answer_status(path@),
        resolved.body == config.answer_body(path@),
{
}

/// A configuration is accepted exactly if nothing is wrong with it.
pub proof fn law_validate_reports_what_is_wrong(config: &Config, result: Result<(), ConfigError>)
    requires
        call_ensures(Config::validate, (config,), result),
    ensures
        result is Ok ==> config.storage.backend@ == "local"@ && config.body.preview_limit
            <= config.body.max_body_size && 100 <= config.responder.status <= 599,
        config.problem() is None <==> result is Ok,
        config.storage.backend@ != "local"@ ==> result is Err,
        config.body.preview_limit > config.body.max_body_size ==> result is Err,
{
    law_config_is_valid_if_all_of_it_is(*config);
}

} // verus!
