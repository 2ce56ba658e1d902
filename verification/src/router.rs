//! Router-mode discovery: what the installed `llama-server` advertises, what
//! a live `/props` and `/models` report, and a tracker that never passes a
//! disconnected snapshot off as live.
use vstd::prelude::*;
use vstd::string::StringSliceAdditionalSpecFns;
use crate::installation::{LlamaInstallation, ToolEvidence};
use crate::json::{JsonValue, json_flag, json_get, json_int, json_items, json_member, json_text, parse_json, string_array, string_items};
use crate::strings::{chars_of, clock_unix_ms, decimal, decimal_chars, push_chars, push_str, string_from_chars};
use crate::text::{trim, trim_chars, trimmed_tokens, trimmed_tokens_exec, tokens_contain};

verus! {

/// Largest response body read from a router endpoint.
pub const MAX_ROUTER_RESPONSE_BYTES: u64 = 2097152;

/// Longest body excerpt kept in an error.
pub const MAX_ERROR_BODY_CHARS: usize = 4096;

#[derive(Debug, Clone, Copy, PartialEq, Eq, Structural)]
pub enum RouterRole {
    Router,
    SingleModel,
}

#[derive(Debug, Clone, Copy, PartialEq, Eq, Structural)]
pub enum RouterFeatureState {
    Supported,
    Unsupported,
    Unknown,
}

/// Whether a router feature is available, with the evidence for it.
#[derive(Debug, Clone, PartialEq, Eq)]
pub struct RouterFeatureEvidence {
    pub state: RouterFeatureState,
    pub reason: String,
}

impl RouterFeatureEvidence {
    pub fn supported(reason: &str) -> (r: Self)
        ensures
            r.state == RouterFeatureState::Supported,
            r.reason@ == reason@,
    {
        RouterFeatureEvidence { state: RouterFeatureState::Supported, reason: reason.to_owned() }
    }

    pub fn unsupported(reason: &str) -> (r: Self)
        ensures
            r.state == RouterFeatureState::Unsupported,
            r.reason@ == reason@,
    {
        RouterFeatureEvidence { state: RouterFeatureState::Unsupported, reason: reason.to_owned() }
    }

    pub fn unknown(reason: &str) -> (r: Self)
        ensures
            r.state == RouterFeatureState::Unknown,
            r.reason@ == reason@,
    {
        RouterFeatureEvidence { state: RouterFeatureState::Unknown, reason: reason.to_owned() }
    }
}

/// Router options read from the installed server's own `--help`.
/// `observed_options` is in ascending order without repeats.
#[derive(Debug, Clone, PartialEq, Eq)]
pub struct RouterStaticCapabilities {
    pub server_sha256: Option<String>,
    pub server_version: Option<String>,
    pub router_cli_observed: bool,
    pub models_dir: bool,
    pub models_preset: bool,
    pub models_max: bool,
    pub models_autoload: bool,
    pub observed_options: Vec<String>,
}

/// Whether `--help` text lists `option` as a token, once `,;:[]()`` ` ``
/// are trimmed from each whitespace-separated token.
pub open spec fn help_lists_option(help: Seq<char>, option: Seq<char>) -> bool {
    exists|k: int|
        0 <= k < trimmed_tokens(help, 0, false).len() && #[trigger] trimmed_tokens(help, 0, false)[k]
            == option
}

/// `option` if the help lists it.
pub open spec fn if_listed(help: Seq<char>, option: Seq<char>) -> Seq<Seq<char>> {
    if help_lists_option(help, option) {
        seq![option]
    } else {
        Seq::empty()
    }
}

/// The router options that `help` lists, in ascending order.
pub open spec fn observed_router_options(help: Seq<char>) -> Seq<Seq<char>> {
    if_listed(help, "--models-autoload"@) + if_listed(help, "--models-dir"@) + if_listed(
        help,
        "--models-max"@,
    ) + if_listed(help, "--models-preset"@) + if_listed(help, "--no-models-autoload"@)
}

/// The static capabilities implied by an installation's server evidence.
pub open spec fn static_capabilities_hold(r: RouterStaticCapabilities, server: Option<ToolEvidence>) -> bool {
    match server {
        None => {
            &&& r.server_sha256 is None
            &&& r.server_version is None
            &&& !r.router_cli_observed
            &&& !r.models_dir
            &&& !r.models_preset
            &&& !r.models_max
            &&& !r.models_autoload
            &&& r.observed_options@.len() == 0
        },
        Some(server) => {
            let help = server.help_output@;
            let version = trim(server.version_output@);
            &&& r.server_sha256 matches Some(sha) && sha@ == server.sha256@
            &&& (if version.len() == 0 {
                r.server_version is None
            } else {
                r.server_version matches Some(v) && v@ == version
            })
            &&& r.models_dir == help_lists_option(help, "--models-dir"@)
            &&& r.models_preset == help_lists_option(help, "--models-preset"@)
            &&& r.models_max == help_lists_option(help, "--models-max"@)
            &&& r.models_autoload == (help_lists_option(help, "--models-autoload"@)
                || help_lists_option(help, "--no-models-autoload"@))
            &&& r.router_cli_observed == (r.models_dir || r.models_preset || r.models_max
                || r.models_autoload)
            &&& r.observed_options@.map_values(|s: String| s@) == observed_router_options(help)
        },
    }
}

fn lists_option(tokens: &Vec<Vec<char>>, option: &str, Ghost(help): Ghost<Seq<char>>) -> (r: bool)
    requires
        tokens@.len() == trimmed_tokens(help, 0, false).len(),
        forall|k: int|
            0 <= k < tokens@.len() ==> (#[trigger] tokens@[k])@ == trimmed_tokens(help, 0, false)[k],
    ensures
        r == help_lists_option(help, option@),
{
    let o = chars_of(option);
    let r = tokens_contain(tokens, o.as_slice());
    proof {
        if r {
            let k = choose|k: int| 0 <= k < tokens@.len() && (#[trigger] tokens@[k])@ == o@;
            assert(trimmed_tokens(help, 0, false)[k] == option@);
        } else {
            assert forall|k: int| 0 <= k < trimmed_tokens(help, 0, false).len() implies #[trigger] trimmed_tokens(
                help,
                0,
                false,
            )[k] != option@ by {
                assert(tokens@[k]@ == trimmed_tokens(help, 0, false)[k]);
            }
        }
    }
    r
}

fn push_listed(out: &mut Vec<String>, listed: bool, option: &str)
    ensures
        final(out)@.map_values(|s: String| s@) == old(out)@.map_values(|s: String| s@) + (if listed {
            seq![option@]
        } else {
            Seq::empty()
        }),
{
    let ghost before = out@.map_values(|s: String| s@);
    if listed {
        out.push(option.to_owned());
        assert(out@.map_values(|s: String| s@) =~= before + seq![option@]);
    } else {
        assert(before + Seq::<Seq<char>>::empty() =~= before);
    }
}

fn server_capabilities(server: &ToolEvidence) -> (r: RouterStaticCapabilities)
    ensures
        static_capabilities_hold(r, Some(*server)),
{
    let help = chars_of(server.help_output.as_str());
    let ghost h = server.help_output@;
    let tokens = trimmed_tokens_exec(help.as_slice(), false);
    let autoload = lists_option(&tokens, "--models-autoload", Ghost(h));
    let dir = lists_option(&tokens, "--models-dir", Ghost(h));
    let max = lists_option(&tokens, "--models-max", Ghost(h));
    let preset = lists_option(&tokens, "--models-preset", Ghost(h));
    let no_autoload = lists_option(&tokens, "--no-models-autoload", Ghost(h));
    let mut observed: Vec<String> = Vec::new();
    assert(observed@.map_values(|s: String| s@) =~= Seq::<Seq<char>>::empty());
    push_listed(&mut observed, autoload, "--models-autoload");
    push_listed(&mut observed, dir, "--models-dir");
    push_listed(&mut observed, max, "--models-max");
    push_listed(&mut observed, preset, "--models-preset");
    push_listed(&mut observed, no_autoload, "--no-models-autoload");
    assert(observed@.map_values(|s: String| s@) =~= observed_router_options(h));
    let version_chars = chars_of(server.version_output.as_str());
    let trimmed = trim_chars(version_chars.as_slice());
    let server_version = if trimmed.len() == 0 {
        None
    } else {
        Some(string_from_chars(trimmed.as_slice()))
    };
    let models_autoload = autoload || no_autoload;
    RouterStaticCapabilities {
        server_sha256: Some(server.sha256.clone()),
        server_version,
        router_cli_observed: dir || preset || max || models_autoload,
        models_dir: dir,
        models_preset: preset,
        models_max: max,
        models_autoload,
        observed_options: observed,
    }
}

impl RouterStaticCapabilities {
    /// Reads router support from the installation's server evidence only:
    /// the installation's union `capabilities` list is not consulted.
    pub fn from_installation(installation: &LlamaInstallation) -> (r: Self)
        ensures
            static_capabilities_hold(r, installation.server),
    {
        match &installation.server {
            None => RouterStaticCapabilities {
                server_sha256: None,
                server_version: None,
                router_cli_observed: false,
                models_dir: false,
                models_preset: false,
                models_max: false,
                models_autoload: false,
                observed_options: Vec::new(),
            },
            Some(server) => server_capabilities(server),
        }
    }
}


/// Why router discovery failed.
#[derive(Debug, Clone, PartialEq, Eq)]
pub enum RouterDiscoveryError {
    MissingServerEvidence,
    HostResolution { host: String, message: String },
    Transport { path: String, message: String },
    AuthenticationRejected { path: String, status_code: u16 },
    EndpointUnsupported { path: String, status_code: u16 },
    HttpFailure { path: String, status_code: u16, body_excerpt: String },
    ProtocolDrift { path: String, message: String, body_excerpt: String },
    LibraryLookup { message: String },
}

/// A discovery error with its texts taken by their characters.
pub ghost enum DiscoveryErrorView {
    MissingServerEvidence,
    HostResolution { host: Seq<char>, message: Seq<char> },
    Transport { path: Seq<char>, message: Seq<char> },
    AuthenticationRejected { path: Seq<char>, status_code: u16 },
    EndpointUnsupported { path: Seq<char>, status_code: u16 },
    HttpFailure { path: Seq<char>, status_code: u16, body_excerpt: Seq<char> },
    ProtocolDrift { path: Seq<char>, message: Seq<char>, body_excerpt: Seq<char> },
    LibraryLookup { message: Seq<char> },
}

impl View for RouterDiscoveryError {
    type V = DiscoveryErrorView;

    open spec fn view(&self) -> DiscoveryErrorView {
        match self {
            RouterDiscoveryError::MissingServerEvidence => DiscoveryErrorView::MissingServerEvidence,
            RouterDiscoveryError::HostResolution { host, message } => DiscoveryErrorView::HostResolution {
                host: host@,
                message: message@,
            },
            RouterDiscoveryError::Transport { path, message } => DiscoveryErrorView::Transport {
                path: path@,
                message: message@,
            },
            RouterDiscoveryError::AuthenticationRejected { path, status_code } => DiscoveryErrorView::AuthenticationRejected {
                path: path@,
                status_code: *status_code,
            },
            RouterDiscoveryError::EndpointUnsupported { path, status_code } => DiscoveryErrorView::EndpointUnsupported {
                path: path@,
                status_code: *status_code,
            },
            RouterDiscoveryError::HttpFailure { path, status_code, body_excerpt } => DiscoveryErrorView::HttpFailure {
                path: path@,
                status_code: *status_code,
                body_excerpt: body_excerpt@,
            },
            RouterDiscoveryError::ProtocolDrift { path, message, body_excerpt } => DiscoveryErrorView::ProtocolDrift {
                path: path@,
                message: message@,
                body_excerpt: body_excerpt@,
            },
            RouterDiscoveryError::LibraryLookup { message } => DiscoveryErrorView::LibraryLookup {
                message: message@,
            },
        }
    }
}

/// The message a discovery error displays.
pub open spec fn discovery_error_text(e: DiscoveryErrorView) -> Seq<char> {
    match e {
        DiscoveryErrorView::MissingServerEvidence => "selected llama.cpp installation does not contain llama-server evidence"@,
        DiscoveryErrorView::HostResolution { host, message } => "router target host "@ + host
            + " could not be resolved: "@ + message,
        DiscoveryErrorView::Transport { path, message } => "router transport failed for "@ + path
            + ": "@ + message,
        DiscoveryErrorView::AuthenticationRejected { path, status_code } => "router authentication failed at "@
            + path + " with HTTP "@ + decimal(status_code as nat),
        DiscoveryErrorView::EndpointUnsupported { path, status_code } => "router endpoint "@ + path
            + " is unavailable on this runtime (HTTP "@ + decimal(status_code as nat) + ")"@,
        DiscoveryErrorView::HttpFailure { path, status_code, body_excerpt } => "router endpoint "@
            + path + " returned HTTP "@ + decimal(status_code as nat) + ": "@ + body_excerpt,
        DiscoveryErrorView::ProtocolDrift { path, message, body_excerpt } => "router protocol drift at "@
            + path + ": "@ + message + "; response="@ + body_excerpt,
        DiscoveryErrorView::LibraryLookup { message } => "failed to map router model to the M2 library: "@
            + message,
    }
}

impl RouterDiscoveryError {
    /// The error's message.
    pub fn message(&self) -> (r: String)
        ensures
            r@ == discovery_error_text(self@),
    {
        let mut out: Vec<char> = Vec::new();
        match self {
            RouterDiscoveryError::MissingServerEvidence => {
                push_str(&mut out, "selected llama.cpp installation does not contain llama-server evidence");
            },
            RouterDiscoveryError::HostResolution { host, message } => {
                push_str(&mut out, "router target host ");
                push_str(&mut out, host.as_str());
                push_str(&mut out, " could not be resolved: ");
                push_str(&mut out, message.as_str());
            },
            RouterDiscoveryError::Transport { path, message } => {
                push_str(&mut out, "router transport failed for ");
                push_str(&mut out, path.as_str());
                push_str(&mut out, ": ");
                push_str(&mut out, message.as_str());
            },
            RouterDiscoveryError::AuthenticationRejected { path, status_code } => {
                push_str(&mut out, "router authentication failed at ");
                push_str(&mut out, path.as_str());
                push_str(&mut out, " with HTTP ");
                let d = decimal_chars(*status_code as u64);
                push_chars(&mut out, d.as_slice());
            },
            RouterDiscoveryError::EndpointUnsupported { path, status_code } => {
                push_str(&mut out, "router endpoint ");
                push_str(&mut out, path.as_str());
                push_str(&mut out, " is unavailable on this runtime (HTTP ");
                let d = decimal_chars(*status_code as u64);
                push_chars(&mut out, d.as_slice());
                push_str(&mut out, ")");
            },
            RouterDiscoveryError::HttpFailure { path, status_code, body_excerpt } => {
                push_str(&mut out, "router endpoint ");
                push_str(&mut out, path.as_str());
                push_str(&mut out, " returned HTTP ");
                let d = decimal_chars(*status_code as u64);
                push_chars(&mut out, d.as_slice());
                push_str(&mut out, ": ");
                push_str(&mut out, body_excerpt.as_str());
            },
            RouterDiscoveryError::ProtocolDrift { path, message, body_excerpt } => {
                push_str(&mut out, "router protocol drift at ");
                push_str(&mut out, path.as_str());
                push_str(&mut out, ": ");
                push_str(&mut out, message.as_str());
                push_str(&mut out, "; response=");
                push_str(&mut out, body_excerpt.as_str());
            },
            RouterDiscoveryError::LibraryLookup { message } => {
                push_str(&mut out, "failed to map router model to the M2 library: ");
                push_str(&mut out, message.as_str());
            },
        }
        string_from_chars(out.as_slice())
    }
}

/// Status and body of one router HTTP exchange.
#[derive(Debug, Clone, PartialEq, Eq)]
pub struct RawHttpResponse {
    pub status_code: u16,
    pub body: String,
}

/// The first `MAX_ERROR_BODY_CHARS` characters of a body.
pub open spec fn excerpt_of(body: Seq<char>) -> Seq<char> {
    if body.len() <= 4096 {
        body
    } else {
        body.subrange(0, 4096)
    }
}

/// `body.chars().take(4096).collect()`.
pub fn excerpt(body: &str) -> (r: String)
    ensures
        r@ == excerpt_of(body@),
{
    let chars = chars_of(body);
    if chars.len() <= MAX_ERROR_BODY_CHARS {
        string_from_chars(chars.as_slice())
    } else {
        let head = crate::text::copy_range(chars.as_slice(), 0, MAX_ERROR_BODY_CHARS);
        string_from_chars(head.as_slice())
    }
}

/// How a router endpoint's status code is judged.
pub open spec fn status_outcome(path: Seq<char>, status: u16, body: Seq<char>) -> Result<(), DiscoveryErrorView> {
    if 200 <= status <= 299 {
        Ok(())
    } else if status == 401 || status == 403 {
        Err(DiscoveryErrorView::AuthenticationRejected { path, status_code: status })
    } else if status == 404 || status == 405 {
        Err(DiscoveryErrorView::EndpointUnsupported { path, status_code: status })
    } else {
        Err(DiscoveryErrorView::HttpFailure { path, status_code: status, body_excerpt: excerpt_of(body) })
    }
}

/// A discovery result with its error taken by its view.
pub open spec fn unit_outcome(r: Result<(), RouterDiscoveryError>) -> Result<(), DiscoveryErrorView> {
    match r {
        Ok(_) => Ok(()),
        Err(e) => Err(e@),
    }
}

/// Accepts a 2xx response and classifies any other status.
pub fn ensure_success(path: &str, response: &RawHttpResponse) -> (r: Result<(), RouterDiscoveryError>)
    ensures
        unit_outcome(r) == status_outcome(path@, response.status_code, response.body@),
{
    let status = response.status_code;
    if 200 <= status && status <= 299 {
        Ok(())
    } else if status == 401 || status == 403 {
        Err(RouterDiscoveryError::AuthenticationRejected { path: path.to_owned(), status_code: status })
    } else if status == 404 || status == 405 {
        Err(RouterDiscoveryError::EndpointUnsupported { path: path.to_owned(), status_code: status })
    } else {
        Err(RouterDiscoveryError::HttpFailure {
            path: path.to_owned(),
            status_code: status,
            body_excerpt: excerpt(response.body.as_str()),
        })
    }
}

/// A protocol-drift error for `path` that keeps an excerpt of the body.
pub fn protocol_drift(path: &str, message: String, body: &str) -> (r: RouterDiscoveryError)
    ensures
        r@ == (DiscoveryErrorView::ProtocolDrift {
            path: path@,
            message: message@,
            body_excerpt: excerpt_of(body@),
        }),
{
    RouterDiscoveryError::ProtocolDrift { path: path.to_owned(), message, body_excerpt: excerpt(body) }
}


/// Which live endpoints a router answered.
#[derive(Debug, Clone, PartialEq, Eq)]
pub struct RouterEndpointCapabilities {
    pub props: RouterFeatureEvidence,
    pub list_models: RouterFeatureEvidence,
    pub reload_models: RouterFeatureEvidence,
    pub load_model: RouterFeatureEvidence,
    pub unload_model: RouterFeatureEvidence,
    pub model_events: RouterFeatureEvidence,
}

/// A router model's lifecycle phase; phases this library does not know are
/// kept verbatim.
#[derive(Debug, Clone, PartialEq, Eq)]
pub enum RouterModelPhase {
    Unloaded,
    Downloading,
    Loading,
    Loaded,
    Sleeping,
    Unknown(String),
}

/// The phase that a status text names; a missing text is `Unknown("missing")`.
pub open spec fn phase_named(p: RouterModelPhase, t: Option<Seq<char>>) -> bool {
    match t {
        None => p matches RouterModelPhase::Unknown(s) && s@ == "missing"@,
        Some(x) => if x == "unloaded"@ {
            p is Unloaded
        } else if x == "downloading"@ {
            p is Downloading
        } else if x == "loading"@ {
            p is Loading
        } else if x == "loaded"@ {
            p is Loaded
        } else if x == "sleeping"@ {
            p is Sleeping
        } else {
            p matches RouterModelPhase::Unknown(s) && s@ == x
        },
    }
}

/// Whether two texts are the same.
pub fn str_is(a: &str, b: &str) -> (r: bool)
    ensures
        r == (a@ == b@),
{
    a.to_owned() == b.to_owned()
}

/// The phase a status text names.
pub fn phase_from_text(t: Option<&str>) -> (r: RouterModelPhase)
    ensures
        phase_named(r, match t { Some(x) => Some(x@), None => None }),
{
    match t {
        None => RouterModelPhase::Unknown("missing".to_owned()),
        Some(x) => if str_is(x, "unloaded") {
            RouterModelPhase::Unloaded
        } else if str_is(x, "downloading") {
            RouterModelPhase::Downloading
        } else if str_is(x, "loading") {
            RouterModelPhase::Loading
        } else if str_is(x, "loaded") {
            RouterModelPhase::Loaded
        } else if str_is(x, "sleeping") {
            RouterModelPhase::Sleeping
        } else {
            RouterModelPhase::Unknown(x.to_owned())
        },
    }
}

/// A router model's reported status.
#[derive(Debug, Clone, PartialEq)]
pub struct RouterModelStatus {
    pub phase: RouterModelPhase,
    pub failed: bool,
    pub exit_code: Option<i64>,
    pub args: Vec<String>,
    pub progress: Option<JsonValue>,
}

/// An optional reference taken by its value.
pub open spec fn opt_value(v: Option<&JsonValue>) -> Option<JsonValue> {
    match v {
        Some(x) => Some(*x),
        None => None,
    }
}

/// The string items of an optional array, none when it is no array.
pub open spec fn strings_or_empty(v: Option<JsonValue>) -> Seq<Seq<char>> {
    match json_items(v) {
        Some(a) => string_items(a),
        None => Seq::empty(),
    }
}

/// What `status` says of a model: a bare phase text, or an object with
/// `value`, `failed`, `exit_code`, `args` and `progress`.
pub open spec fn status_parsed(r: RouterModelStatus, v: Option<JsonValue>) -> bool {
    match v {
        Some(JsonValue::String(p)) => {
            &&& phase_named(r.phase, Some(p@))
            &&& !r.failed
            &&& r.exit_code is None
            &&& r.args@.len() == 0
            &&& r.progress is None
        },
        Some(JsonValue::Object(es)) => {
            let o = JsonValue::Object(es);
            &&& phase_named(r.phase, json_text(json_get(o, "value"@)))
            &&& r.failed == (json_flag(json_get(o, "failed"@)) == Some(true))
            &&& r.exit_code == json_int(json_get(o, "exit_code"@))
            &&& r.args@.map_values(|s: String| s@) == strings_or_empty(json_get(o, "args"@))
            &&& match json_get(o, "progress"@) {
                Some(p) => r.progress matches Some(q) && crate::json::json_view(q) == crate::json::json_view(p),
                None => r.progress is None,
            }
        },
        _ => {
            &&& phase_named(r.phase, None)
            &&& !r.failed
            &&& r.exit_code is None
            &&& r.args@.len() == 0
            &&& r.progress is None
        },
    }
}

/// Reads a model's `status` field.
pub fn parse_status(value: Option<&JsonValue>) -> (r: RouterModelStatus)
    ensures
        status_parsed(r, opt_value(value)),
{
    match value {
        Some(JsonValue::String(p)) => RouterModelStatus {
            phase: phase_from_text(Some(p.as_str())),
            failed: false,
            exit_code: None,
            args: Vec::new(),
            progress: None,
        },
        Some(o) => match o {
            JsonValue::Object(_) => {
                let text = match o.get("value") {
                    Some(x) => x.as_str(),
                    None => None,
                };
                let failed = match o.get("failed") {
                    Some(x) => match x.as_bool() {
                        Some(b) => b,
                        None => false,
                    },
                    None => false,
                };
                let exit_code = match o.get("exit_code") {
                    Some(x) => x.as_i64(),
                    None => None,
                };
                let args = match o.get("args") {
                    Some(x) => match x.as_array() {
                        Some(a) => string_array(a),
                        None => Vec::new(),
                    },
                    None => Vec::new(),
                };
                proof {
                    if json_items(json_get(*o, "args"@)) is None {
                        assert(args@.map_values(|s: String| s@) =~= Seq::<Seq<char>>::empty());
                    }
                }
                let progress = match o.get("progress") {
                    Some(x) => Some(crate::json::copy_json(x)),
                    None => None,
                };
                RouterModelStatus { phase: phase_from_text(text), failed, exit_code, args, progress }
            },
            _ => RouterModelStatus {
                phase: phase_from_text(None),
                failed: false,
                exit_code: None,
                args: Vec::new(),
                progress: None,
            },
        },
        None => RouterModelStatus {
            phase: phase_from_text(None),
            failed: false,
            exit_code: None,
            args: Vec::new(),
            progress: None,
        },
    }
}


#[derive(Debug, Clone, Copy, PartialEq, Eq, Structural)]
pub enum RouterLibraryLinkKind {
    ExactPath,
    Sha256,
    AmbiguousSha256,
    Unmatched,
}

/// How a router model was tied to a library model, if at all.
#[derive(Debug, Clone, PartialEq, Eq)]
pub struct RouterLibraryLink {
    pub kind: RouterLibraryLinkKind,
    pub model_id: Option<String>,
    pub candidates: Vec<String>,
    pub reason: String,
}

impl RouterLibraryLink {
    pub fn unmatched(reason: &str) -> (r: Self)
        ensures
            r.kind == RouterLibraryLinkKind::Unmatched,
            r.model_id is None,
            r.candidates@.len() == 0,
            r.reason@ == reason@,
    {
        RouterLibraryLink {
            kind: RouterLibraryLinkKind::Unmatched,
            model_id: None,
            candidates: Vec::new(),
            reason: reason.to_owned(),
        }
    }
}

/// One model of a router's registry. `resident` is `Some` only where the
/// router reported residency.
#[derive(Debug, Clone, PartialEq)]
pub struct RouterModel {
    pub id: String,
    pub routing_targets: Vec<String>,
    pub path: Option<String>,
    pub sha256: Option<String>,
    pub status: RouterModelStatus,
    pub resident: Option<bool>,
    pub input_modalities: Vec<String>,
    pub output_modalities: Vec<String>,
    pub library_link: RouterLibraryLink,
}

/// A router model with its texts taken by their characters.
pub ghost struct RouterModelView {
    pub id: Seq<char>,
    pub routing_targets: Seq<Seq<char>>,
    pub path: Option<Seq<char>>,
    pub sha256: Option<Seq<char>>,
    pub phase: Result<RouterModelPhase, Seq<char>>,
    pub failed: bool,
    pub exit_code: Option<i64>,
    pub args: Seq<Seq<char>>,
    pub progress: Option<crate::json::JsonView>,
    pub resident: Option<bool>,
    pub input_modalities: Seq<Seq<char>>,
    pub output_modalities: Seq<Seq<char>>,
    pub link: (RouterLibraryLinkKind, Option<Seq<char>>, Seq<Seq<char>>, Seq<char>),
}

pub open spec fn texts_view(v: Seq<String>) -> Seq<Seq<char>> {
    v.map_values(|s: String| s@)
}

pub open spec fn opt_text_view(o: Option<String>) -> Option<Seq<char>> {
    match o {
        Some(s) => Some(s@),
        None => None,
    }
}

/// A known phase as itself, an unknown one by its text.
pub open spec fn phase_view(p: RouterModelPhase) -> Result<RouterModelPhase, Seq<char>> {
    match p {
        RouterModelPhase::Unknown(t) => Err(t@),
        _ => Ok(p),
    }
}

pub open spec fn model_view(m: RouterModel) -> RouterModelView {
    RouterModelView {
        id: m.id@,
        routing_targets: texts_view(m.routing_targets@),
        path: opt_text_view(m.path),
        sha256: opt_text_view(m.sha256),
        phase: phase_view(m.status.phase),
        failed: m.status.failed,
        exit_code: m.status.exit_code,
        args: texts_view(m.status.args@),
        progress: match m.status.progress {
            Some(v) => Some(crate::json::json_view(v)),
            None => None,
        },
        resident: m.resident,
        input_modalities: texts_view(m.input_modalities@),
        output_modalities: texts_view(m.output_modalities@),
        link: (m.library_link.kind, opt_text_view(m.library_link.model_id), texts_view(m.library_link.candidates@), m.library_link.reason@),
    }
}

/// A live router registry.
#[derive(Debug, Clone, PartialEq)]
pub struct RouterRegistry {
    pub endpoint: String,
    pub role: RouterRole,
    pub static_capabilities: RouterStaticCapabilities,
    pub endpoints: RouterEndpointCapabilities,
    pub models: Vec<RouterModel>,
    pub observed_at_unix_ms: u128,
}

/// A string member that is present and not empty.
pub open spec fn nonempty_text(v: Option<JsonValue>) -> Option<Seq<char>> {
    match json_text(v) {
        Some(t) => if t.len() > 0 {
            Some(t)
        } else {
            None
        },
        None => None,
    }
}

/// The non-empty string items of an array, as a set.
pub open spec fn alias_item_set(a: Seq<JsonValue>) -> Set<Seq<char>>
    decreases a.len(),
{
    if a.len() == 0 {
        Set::empty()
    } else {
        alias_item_set(a.drop_last()).union(
            match a.last() {
                JsonValue::String(s) => if s@.len() > 0 {
                    set![s@]
                } else {
                    Set::empty()
                },
                _ => Set::empty(),
            },
        )
    }
}

/// The names a model can be routed by: its id, `alias` and `aliases`.
pub open spec fn routing_target_set(entry: JsonValue, id: Seq<char>) -> Set<Seq<char>> {
    let with_alias = match nonempty_text(json_get(entry, "alias"@)) {
        Some(a) => set![id, a],
        None => set![id],
    };
    match json_items(json_get(entry, "aliases"@)) {
        Some(items) => with_alias.union(alias_item_set(items)),
        None => with_alias,
    }
}

/// The first of two members that is present.
pub open spec fn member_or(entry: JsonValue, first: Seq<char>, second: Seq<char>) -> Option<JsonValue> {
    if json_get(entry, first) is Some {
        json_get(entry, first)
    } else {
        json_get(entry, second)
    }
}

/// The reason recorded when no library lookup was made.
pub open spec fn no_store_reason() -> Seq<char> {
    "no M2 ModelStore was supplied for evidence-backed identity mapping"@
}

/// Every field of `m` as read from the router's model entry `entry`.
pub open spec fn model_parsed(m: RouterModel, entry: JsonValue) -> bool {
    let id = nonempty_text(json_get(entry, "id"@))->0;
    let targets = m.routing_targets@.map_values(|s: String| s@);
    let arch = json_get(entry, "architecture"@);
    &&& m.id@ == id
    &&& crate::text::strictly_ascending(targets)
    &&& targets.to_set() == routing_target_set(entry, id)
    &&& match nonempty_text(json_get(entry, "path"@)) {
        Some(p) => m.path matches Some(x) && x@ == p,
        None => m.path is None,
    }
    &&& match nonempty_text(member_or(entry, "sha256"@, "file_sha256"@)) {
        Some(h) => m.sha256 matches Some(x) && x@ == h.map_values(|c: char| crate::text::ascii_lower(c)),
        None => m.sha256 is None,
    }
    &&& m.resident == json_flag(member_or(entry, "resident"@, "is_resident"@))
    &&& status_parsed(m.status, json_get(entry, "status"@))
    &&& m.input_modalities@.map_values(|s: String| s@) == strings_or_empty(json_member(arch, "input_modalities"@))
    &&& m.output_modalities@.map_values(|s: String| s@) == strings_or_empty(json_member(arch, "output_modalities"@))
    &&& m.library_link.kind == RouterLibraryLinkKind::Unmatched
    &&& m.library_link.model_id is None
    &&& m.library_link.candidates@.len() == 0
    &&& m.library_link.reason@ == no_store_reason()
}

/// The protocol drift that `/models` reports for a malformed model entry.
pub open spec fn model_entry_error(entry: JsonValue, body: Seq<char>) -> Option<DiscoveryErrorView> {
    if !(entry is Object) {
        Some(DiscoveryErrorView::ProtocolDrift {
            path: "/models"@,
            message: "model entry was not an object"@,
            body_excerpt: excerpt_of(body),
        })
    } else if nonempty_text(json_get(entry, "id"@)) is None {
        Some(DiscoveryErrorView::ProtocolDrift {
            path: "/models"@,
            message: "model entry is missing non-empty string field `id`"@,
            body_excerpt: excerpt_of(body),
        })
    } else {
        None
    }
}

fn nonempty_member(entry: &JsonValue, key: &str) -> (r: Option<String>)
    ensures
        match nonempty_text(json_get(*entry, key@)) {
            Some(t) => r matches Some(x) && x@ == t,
            None => r is None,
        },
{
    match entry.get(key) {
        Some(x) => match x.as_str() {
            Some(t) => if !t.is_empty() {
                Some(t.to_owned())
            } else {
                None
            },
            None => None,
        },
        None => None,
    }
}

fn first_present<'a>(entry: &'a JsonValue, first: &str, second: &str) -> (r: Option<&'a JsonValue>)
    ensures
        opt_value(r) == member_or(*entry, first@, second@),
{
    match entry.get(first) {
        Some(x) => Some(x),
        None => entry.get(second),
    }
}

fn lowercase_ascii(t: &str) -> (r: String)
    ensures
        r@ == t@.map_values(|c: char| crate::text::ascii_lower(c)),
{
    let cs = chars_of(t);
    let mut out: Vec<char> = Vec::new();
    let mut i: usize = 0;
    while i < cs.len()
        invariant
            i <= cs@.len(),
            out@ == cs@.subrange(0, i as int).map_values(|c: char| crate::text::ascii_lower(c)),
        decreases cs@.len() - i,
    {
        out.push(crate::text::to_ascii_lower(cs[i]));
        assert(out@ =~= cs@.subrange(0, i + 1).map_values(|c: char| crate::text::ascii_lower(c)));
        i = i + 1;
    }
    assert(cs@.subrange(0, cs@.len() as int) =~= cs@);
    string_from_chars(out.as_slice())
}

fn modalities(arch: Option<&JsonValue>, key: &str) -> (r: Vec<String>)
    ensures
        r@.map_values(|s: String| s@) == strings_or_empty(json_member(opt_value(arch), key@)),
{
    let found = match arch {
        Some(a) => a.get(key),
        None => None,
    };
    match found {
        Some(x) => match x.as_array() {
            Some(items) => string_array(items),
            None => {
                let v: Vec<String> = Vec::new();
                assert(v@.map_values(|s: String| s@) =~= Seq::<Seq<char>>::empty());
                v
            },
        },
        None => {
            let v: Vec<String> = Vec::new();
            assert(v@.map_values(|s: String| s@) =~= Seq::<Seq<char>>::empty());
            v
        },
    }
}

fn add_alias_items(set: &mut Vec<String>, items: &Vec<JsonValue>)
    requires
        crate::text::strictly_ascending(old(set)@.map_values(|s: String| s@)),
    ensures
        crate::text::strictly_ascending(final(set)@.map_values(|s: String| s@)),
        final(set)@.map_values(|s: String| s@).to_set() == old(set)@.map_values(|s: String| s@).to_set().union(
            alias_item_set(items@),
        ),
{
    let ghost base = set@.map_values(|s: String| s@).to_set();
    let mut i: usize = 0;
    while i < items.len()
        invariant
            i <= items@.len(),
            crate::text::strictly_ascending(set@.map_values(|s: String| s@)),
            set@.map_values(|s: String| s@).to_set() == base.union(alias_item_set(items@.subrange(0, i as int))),
        decreases items@.len() - i,
    {
        assert(items@.subrange(0, i + 1).drop_last() =~= items@.subrange(0, i as int));
        let ghost before = set@.map_values(|s: String| s@).to_set();
        match &items[i] {
            JsonValue::String(t) => {
                if !t.as_str().is_empty() {
                    crate::text::insert_text(set, t.clone());
                    assert(before.insert(t@) =~= base.union(alias_item_set(items@.subrange(0, i + 1))));
                } else {
                    assert(before =~= base.union(alias_item_set(items@.subrange(0, i + 1))));
                }
            },
            _ => {
                assert(before =~= base.union(alias_item_set(items@.subrange(0, i + 1))));
            },
        }
        i = i + 1;
    }
    assert(items@.subrange(0, items@.len() as int) =~= items@);
}

fn routing_targets(entry: &JsonValue, id: &String) -> (r: Vec<String>)
    ensures
        crate::text::strictly_ascending(r@.map_values(|s: String| s@)),
        r@.map_values(|s: String| s@).to_set() == routing_target_set(*entry, id@),
{
    let mut set: Vec<String> = Vec::new();
    proof {
        assert(set@.map_values(|s: String| s@) =~= Seq::<Seq<char>>::empty());
        assert(set@.map_values(|s: String| s@).to_set() =~= Set::<Seq<char>>::empty());
    }
    crate::text::insert_text(&mut set, id.clone());
    assert(Set::<Seq<char>>::empty().insert(id@) =~= set![id@]);
    match nonempty_member(entry, "alias") {
        Some(a) => {
            let ghost av = a@;
            crate::text::insert_text(&mut set, a);
            assert(set![id@].insert(av) =~= set![id@, av]);
        },
        None => {},
    }
    match entry.get("aliases") {
        Some(x) => match x.as_array() {
            Some(items) => add_alias_items(&mut set, items),
            None => {},
        },
        None => {},
    }
    set
}

/// Reads one model entry of `/models`.
pub fn parse_model(entry: &JsonValue, full_body: &str) -> (r: Result<RouterModel, RouterDiscoveryError>)
    ensures
        match model_entry_error(*entry, full_body@) {
            Some(e) => r matches Err(x) && x@ == e,
            None => r matches Ok(m) && model_parsed(m, *entry),
        },
{
    match entry {
        JsonValue::Object(_) => {},
        _ => {
            return Err(protocol_drift("/models", "model entry was not an object".to_owned(), full_body));
        },
    }
    let id = match nonempty_member(entry, "id") {
        Some(id) => id,
        None => {
            return Err(
                protocol_drift(
                    "/models",
                    "model entry is missing non-empty string field `id`".to_owned(),
                    full_body,
                ),
            );
        },
    };
    let targets = routing_targets(entry, &id);
    let path = nonempty_member(entry, "path");
    let sha256 = match first_present(entry, "sha256", "file_sha256") {
        Some(x) => match x.as_str() {
            Some(t) => if !t.is_empty() {
                Some(lowercase_ascii(t))
            } else {
                None
            },
            None => None,
        },
        None => None,
    };
    let resident = match first_present(entry, "resident", "is_resident") {
        Some(x) => x.as_bool(),
        None => None,
    };
    let status = parse_status(entry.get("status"));
    let arch = entry.get("architecture");
    let input_modalities = modalities(arch, "input_modalities");
    let output_modalities = modalities(arch, "output_modalities");
    Ok(RouterModel {
        id,
        routing_targets: targets,
        path,
        sha256,
        status,
        resident,
        input_modalities,
        output_modalities,
        library_link: RouterLibraryLink::unmatched(
            "no M2 ModelStore was supplied for evidence-backed identity mapping",
        ),
    })
}


/// The first malformed entry's error, from index `i` on.
pub open spec fn first_entry_error(entries: Seq<JsonValue>, body: Seq<char>, i: int) -> Option<DiscoveryErrorView>
    decreases entries.len() - i,
{
    if i < 0 || i >= entries.len() {
        None
    } else if model_entry_error(entries[i], body) is Some {
        model_entry_error(entries[i], body)
    } else {
        first_entry_error(entries, body, i + 1)
    }
}

/// What a `/models` response lists: a bare array, or an object whose `data`
/// member is one.
pub open spec fn model_entries(v: JsonValue) -> Result<Seq<JsonValue>, Seq<char>> {
    match v {
        JsonValue::Array(a) => Ok(a@),
        JsonValue::Object(_) => match json_items(json_get(v, "data"@)) {
            Some(a) => Ok(a),
            None => Err("expected an array response or object field `data` containing an array"@),
        },
        _ => Err("expected an array response or object response"@),
    }
}

/// Models read from entries: one per entry, each read from its entry.
pub open spec fn models_read(ms: Seq<RouterModel>, entries: Seq<JsonValue>) -> bool {
    &&& ms.len() == entries.len()
    &&& forall|i: int| 0 <= i < ms.len() ==> model_parsed(#[trigger] ms[i], entries[i])
}

/// Reads the model entries of a parsed `/models` document.
pub fn models_from_json(value: &JsonValue, body: &str) -> (r: Result<Vec<RouterModel>, RouterDiscoveryError>)
    ensures
        match model_entries(*value) {
            Err(m) => r matches Err(e) && e@ == (DiscoveryErrorView::ProtocolDrift {
                path: "/models"@,
                message: m,
                body_excerpt: excerpt_of(body@),
            }),
            Ok(entries) => match first_entry_error(entries, body@, 0) {
                Some(e) => r matches Err(x) && x@ == e,
                None => r matches Ok(ms) && models_read(ms@, entries),
            },
        },
{
    let entries: &Vec<JsonValue> = match value {
        JsonValue::Array(a) => a,
        JsonValue::Object(_) => match value.get("data") {
            Some(d) => match d.as_array() {
                Some(a) => a,
                None => {
                    return Err(protocol_drift(
                        "/models",
                        "expected an array response or object field `data` containing an array".to_owned(),
                        body,
                    ));
                },
            },
            None => {
                return Err(protocol_drift(
                    "/models",
                    "expected an array response or object field `data` containing an array".to_owned(),
                    body,
                ));
            },
        },
        _ => {
            return Err(protocol_drift(
                "/models",
                "expected an array response or object response".to_owned(),
                body,
            ));
        },
    };
    let ghost es = entries@;
    assert(model_entries(*value) == Ok::<Seq<JsonValue>, Seq<char>>(es));
    let mut models: Vec<RouterModel> = Vec::new();
    let mut i: usize = 0;
    while i < entries.len()
        invariant
            es == entries@,
            model_entries(*value) == Ok::<Seq<JsonValue>, Seq<char>>(es),
            i <= es.len(),
            first_entry_error(es, body@, 0) == first_entry_error(es, body@, i as int),
            models@.len() == i,
            forall|k: int| 0 <= k < i ==> model_parsed(#[trigger] models@[k], es[k]),
        decreases es.len() - i,
    {
        match parse_model(&entries[i], body) {
            Ok(m) => {
                models.push(m);
            },
            Err(e) => {
                return Err(e);
            },
        }
        i = i + 1;
    }
    Ok(models)
}

/// Reads a `/models` response body.
pub fn parse_models(body: &str) -> (r: Result<Vec<RouterModel>, RouterDiscoveryError>)
    ensures
        match crate::json::json_document(body@) {
            Err(m) => r matches Err(e) && e@ == (DiscoveryErrorView::ProtocolDrift {
                path: "/models"@,
                message: "response was not valid JSON: "@ + m,
                body_excerpt: excerpt_of(body@),
            }),
            Ok(v) => match model_entries(v) {
                Err(m) => r matches Err(e) && e@ == (DiscoveryErrorView::ProtocolDrift {
                    path: "/models"@,
                    message: m,
                    body_excerpt: excerpt_of(body@),
                }),
                Ok(entries) => match first_entry_error(entries, body@, 0) {
                    Some(e) => r matches Err(x) && x@ == e,
                    None => r matches Ok(ms) && models_read(ms@, entries),
                },
            },
        },
{
    match parse_json(body) {
        Err(m) => {
            let mut text: Vec<char> = Vec::new();
            push_str(&mut text, "response was not valid JSON: ");
            push_str(&mut text, m.as_str());
            Err(protocol_drift("/models", string_from_chars(text.as_slice()), body))
        },
        Ok(v) => models_from_json(&v, body),
    }
}

/// The role a `/props` document reports, or why it cannot be read.
pub open spec fn role_of(v: JsonValue) -> Result<RouterRole, Seq<char>> {
    match json_text(json_get(v, "role"@)) {
        None => Err("expected string field `role`"@),
        Some(t) => if t == "router"@ {
            Ok(RouterRole::Router)
        } else if t == "model"@ || t == "server"@ || t == "single-model"@ || t == "single_model"@ {
            Ok(RouterRole::SingleModel)
        } else {
            Err("unrecognized role `"@ + t + "`"@)
        },
    }
}

/// The role of a parsed `/props` document.
pub fn role_from_json(value: &JsonValue, body: &str) -> (r: Result<RouterRole, RouterDiscoveryError>)
    ensures
        match role_of(*value) {
            Ok(role) => r == Ok::<RouterRole, RouterDiscoveryError>(role),
            Err(m) => r matches Err(e) && e@ == (DiscoveryErrorView::ProtocolDrift {
                path: "/props"@,
                message: m,
                body_excerpt: excerpt_of(body@),
            }),
        },
{
    let role = match value.get("role") {
        Some(x) => x.as_str(),
        None => None,
    };
    match role {
        None => Err(protocol_drift("/props", "expected string field `role`".to_owned(), body)),
        Some(t) => if str_is(t, "router") {
            Ok(RouterRole::Router)
        } else if str_is(t, "model") || str_is(t, "server") || str_is(t, "single-model") || str_is(
            t,
            "single_model",
        ) {
            Ok(RouterRole::SingleModel)
        } else {
            let mut text: Vec<char> = Vec::new();
            push_str(&mut text, "unrecognized role `");
            push_str(&mut text, t);
            push_str(&mut text, "`");
            Err(protocol_drift("/props", string_from_chars(text.as_slice()), body))
        },
    }
}

/// Reads the role from a `/props` response body.
pub fn parse_role(body: &str) -> (r: Result<RouterRole, RouterDiscoveryError>)
    ensures
        match crate::json::json_document(body@) {
            Err(m) => r matches Err(e) && e@ == (DiscoveryErrorView::ProtocolDrift {
                path: "/props"@,
                message: "response was not valid JSON: "@ + m,
                body_excerpt: excerpt_of(body@),
            }),
            Ok(v) => match role_of(v) {
                Ok(role) => r == Ok::<RouterRole, RouterDiscoveryError>(role),
                Err(m) => r matches Err(e) && e@ == (DiscoveryErrorView::ProtocolDrift {
                    path: "/props"@,
                    message: m,
                    body_excerpt: excerpt_of(body@),
                }),
            },
        },
{
    match parse_json(body) {
        Err(m) => {
            let mut text: Vec<char> = Vec::new();
            push_str(&mut text, "response was not valid JSON: ");
            push_str(&mut text, m.as_str());
            Err(protocol_drift("/props", string_from_chars(text.as_slice()), body))
        },
        Ok(v) => role_from_json(&v, body),
    }
}


/// Why a tracker's snapshot is no longer live.
#[derive(Debug, Clone, PartialEq, Eq)]
pub struct RouterDisconnectEvidence {
    pub error: String,
    pub observed_at_unix_ms: u128,
}

/// Tracks the latest live router snapshot without turning a disconnect into
/// stale success: after a failed refresh the previous snapshot is kept for
/// diagnostics, and `disconnect` says it is not current.
#[derive(Debug, Clone, PartialEq)]
pub struct RouterRegistryTracker {
    pub current: Option<RouterRegistry>,
    pub disconnect: Option<RouterDisconnectEvidence>,
}

/// Whether a tracker holds a current snapshot.
pub open spec fn tracker_live(t: RouterRegistryTracker) -> bool {
    t.current is Some && t.disconnect is None
}

impl Default for RouterRegistryTracker {
    fn default() -> (r: Self)
        ensures
            r.current is None,
            r.disconnect is None,
    {
        RouterRegistryTracker { current: None, disconnect: None }
    }
}

impl RouterRegistryTracker {
    /// Records the outcome of one discovery.
    pub fn reconcile(&mut self, result: Result<RouterRegistry, RouterDiscoveryError>)
        ensures
            match result {
                Ok(registry) => {
                    &&& final(self).current == Some(registry)
                    &&& final(self).disconnect is None
                    &&& tracker_live(*final(self))
                },
                Err(error) => {
                    &&& final(self).current == old(self).current
                    &&& final(self).disconnect matches Some(d) && d.error@ == discovery_error_text(error@)
                    &&& !tracker_live(*final(self))
                },
            },
    {
        match result {
            Ok(registry) => {
                self.current = Some(registry);
                self.disconnect = None;
            },
            Err(error) => {
                let observed = clock_unix_ms();
                self.disconnect = Some(RouterDisconnectEvidence { error: error.message(), observed_at_unix_ms: observed });
            },
        }
    }

    /// Whether the tracker holds a snapshot from a discovery that succeeded
    /// after the last failure.
    pub fn is_live(&self) -> (r: bool)
        ensures
            r == tracker_live(*self),
    {
        self.current.is_some() && self.disconnect.is_none()
    }
}

/// The reason recorded for every router-only endpoint of a single-model server.
pub open spec fn single_model_reason() -> Seq<char> {
    "live /props role is a single-model server, not router mode"@
}

/// The endpoint evidence of a server whose `/props` reports a single model.
pub open spec fn single_model_endpoints(e: RouterEndpointCapabilities) -> bool {
    &&& e.props.state == RouterFeatureState::Supported
    &&& e.props.reason@ == "GET /props returned a recognized live llama-server role"@
    &&& e.list_models.state == RouterFeatureState::Unsupported
    &&& e.list_models.reason@ == single_model_reason()
    &&& e.reload_models.state == RouterFeatureState::Unsupported
    &&& e.reload_models.reason@ == single_model_reason()
    &&& e.load_model.state == RouterFeatureState::Unsupported
    &&& e.load_model.reason@ == single_model_reason()
    &&& e.unload_model.state == RouterFeatureState::Unsupported
    &&& e.unload_model.reason@ == single_model_reason()
    &&& e.model_events.state == RouterFeatureState::Unsupported
    &&& e.model_events.reason@ == single_model_reason()
}

/// The endpoint evidence of a router whose `/models` was read: mutating and
/// streaming endpoints stay unknown until they are exercised.
pub open spec fn router_endpoints(e: RouterEndpointCapabilities) -> bool {
    &&& e.props.state == RouterFeatureState::Supported
    &&& e.props.reason@ == "GET /props returned a recognized live llama-server role"@
    &&& e.list_models.state == RouterFeatureState::Supported
    &&& e.list_models.reason@ == "GET /models returned a valid live router registry"@
    &&& e.reload_models.state == RouterFeatureState::Unknown
    &&& e.reload_models.reason@ == "not mutated during discovery; verify GET /models?reload=1 before enabling"@
    &&& e.load_model.state == RouterFeatureState::Unknown
    &&& e.load_model.reason@ == "not mutated during discovery; verify POST /models/load before enabling"@
    &&& e.unload_model.state == RouterFeatureState::Unknown
    &&& e.unload_model.reason@ == "not mutated during discovery; verify POST /models/unload before enabling"@
    &&& e.model_events.state == RouterFeatureState::Unknown
    &&& e.model_events.reason@ == "SSE endpoint is not opened during one-shot discovery"@
}

fn props_evidence() -> (r: RouterFeatureEvidence)
    ensures
        r.state == RouterFeatureState::Supported,
        r.reason@ == "GET /props returned a recognized live llama-server role"@,
{
    RouterFeatureEvidence::supported("GET /props returned a recognized live llama-server role")
}

/// The registry of a single-model server: no models, every router endpoint
/// unsupported.
pub fn single_model_registry(endpoint: &crate::server_readiness::ServerEndpoint, static_capabilities: RouterStaticCapabilities, observed_at_unix_ms: u128) -> (r: RouterRegistry)
    ensures
        r.endpoint@ == crate::server_readiness::authority_of(endpoint.host@, endpoint.port),
        r.role == RouterRole::SingleModel,
        r.static_capabilities == static_capabilities,
        single_model_endpoints(r.endpoints),
        r.models@.len() == 0,
        r.observed_at_unix_ms == observed_at_unix_ms,
{
    let reason = "live /props role is a single-model server, not router mode";
    RouterRegistry {
        endpoint: endpoint.authority(),
        role: RouterRole::SingleModel,
        static_capabilities,
        endpoints: RouterEndpointCapabilities {
            props: props_evidence(),
            list_models: RouterFeatureEvidence::unsupported(reason),
            reload_models: RouterFeatureEvidence::unsupported(reason),
            load_model: RouterFeatureEvidence::unsupported(reason),
            unload_model: RouterFeatureEvidence::unsupported(reason),
            model_events: RouterFeatureEvidence::unsupported(reason),
        },
        models: Vec::new(),
        observed_at_unix_ms,
    }
}

/// The registry of a router with the models its `/models` listed.
pub fn router_registry(endpoint: &crate::server_readiness::ServerEndpoint, static_capabilities: RouterStaticCapabilities, models: Vec<RouterModel>, observed_at_unix_ms: u128) -> (r: RouterRegistry)
    ensures
        r.endpoint@ == crate::server_readiness::authority_of(endpoint.host@, endpoint.port),
        r.role == RouterRole::Router,
        r.static_capabilities == static_capabilities,
        router_endpoints(r.endpoints),
        r.models == models,
        r.observed_at_unix_ms == observed_at_unix_ms,
{
    RouterRegistry {
        endpoint: endpoint.authority(),
        role: RouterRole::Router,
        static_capabilities,
        endpoints: RouterEndpointCapabilities {
            props: props_evidence(),
            list_models: RouterFeatureEvidence::supported("GET /models returned a valid live router registry"),
            reload_models: RouterFeatureEvidence::unknown(
                "not mutated during discovery; verify GET /models?reload=1 before enabling",
            ),
            load_model: RouterFeatureEvidence::unknown(
                "not mutated during discovery; verify POST /models/load before enabling",
            ),
            unload_model: RouterFeatureEvidence::unknown(
                "not mutated during discovery; verify POST /models/unload before enabling",
            ),
            model_events: RouterFeatureEvidence::unknown(
                "SSE endpoint is not opened during one-shot discovery",
            ),
        },
        models,
        observed_at_unix_ms,
    }
}

/// The role a `/props` exchange establishes: the status is checked first,
/// then the body is read.
pub fn role_from_props(response: &RawHttpResponse) -> (r: Result<RouterRole, RouterDiscoveryError>)
    ensures
        match status_outcome("/props"@, response.status_code, response.body@) {
            Err(e) => r matches Err(x) && x@ == e,
            Ok(_) => match crate::json::json_document(response.body@) {
                Err(m) => r matches Err(e) && e@ == (DiscoveryErrorView::ProtocolDrift {
                    path: "/props"@,
                    message: "response was not valid JSON: "@ + m,
                    body_excerpt: excerpt_of(response.body@),
                }),
                Ok(v) => match role_of(v) {
                    Ok(role) => r == Ok::<RouterRole, RouterDiscoveryError>(role),
                    Err(m) => r matches Err(e) && e@ == (DiscoveryErrorView::ProtocolDrift {
                        path: "/props"@,
                        message: m,
                        body_excerpt: excerpt_of(response.body@),
                    }),
                },
            },
        },
{
    match ensure_success("/props", response) {
        Err(e) => Err(e),
        Ok(()) => parse_role(response.body.as_str()),
    }
}

/// The models a `/models` exchange lists: the status is checked first,
/// then the body is read.
pub fn models_from_response(response: &RawHttpResponse) -> (r: Result<Vec<RouterModel>, RouterDiscoveryError>)
    ensures
        match status_outcome("/models"@, response.status_code, response.body@) {
            Err(e) => r matches Err(x) && x@ == e,
            Ok(_) => match crate::json::json_document(response.body@) {
                Err(m) => r matches Err(e) && e@ == (DiscoveryErrorView::ProtocolDrift {
                    path: "/models"@,
                    message: "response was not valid JSON: "@ + m,
                    body_excerpt: excerpt_of(response.body@),
                }),
                Ok(v) => match model_entries(v) {
                    Err(m) => r matches Err(e) && e@ == (DiscoveryErrorView::ProtocolDrift {
                        path: "/models"@,
                        message: m,
                        body_excerpt: excerpt_of(response.body@),
                    }),
                    Ok(entries) => match first_entry_error(entries, response.body@, 0) {
                        Some(e) => r matches Err(x) && x@ == e,
                        None => r matches Ok(ms) && models_read(ms@, entries),
                    },
                },
            },
        },
{
    match ensure_success("/models", response) {
        Err(e) => Err(e),
        Ok(()) => parse_models(response.body.as_str()),
    }
}

/// Discovery needs an installation with server evidence.
pub fn require_server_evidence(installation: &LlamaInstallation) -> (r: Result<(), RouterDiscoveryError>)
    ensures
        installation.server is Some <==> r is Ok,
        r matches Err(e) ==> e@ == DiscoveryErrorView::MissingServerEvidence,
{
    match installation.server {
        Some(_) => Ok(()),
        None => Err(RouterDiscoveryError::MissingServerEvidence),
    }
}


/// Port zero names no router: it is refused before any address is resolved.
pub fn check_router_port(endpoint: &crate::server_readiness::ServerEndpoint) -> (r: Result<(), RouterDiscoveryError>)
    ensures
        endpoint.port == 0 ==> (r matches Err(e) && e@ == (DiscoveryErrorView::HostResolution {
            host: endpoint.host@,
            message: "port must be in 1..=65535"@,
        })),
        endpoint.port != 0 ==> r is Ok,
{
    if endpoint.port == 0 {
        Err(RouterDiscoveryError::HostResolution {
            host: endpoint.host.clone(),
            message: "port must be in 1..=65535".to_owned(),
        })
    } else {
        Ok(())
    }
}

/// The resolved router addresses may be contacted only if there is one and,
/// without the endpoint's opt-in, all are loopback addresses.
pub fn check_router_addresses(endpoint: &crate::server_readiness::ServerEndpoint, address_count: usize, any_non_loopback: bool) -> (r: Result<(), RouterDiscoveryError>)
    ensures
        address_count == 0 ==> (r matches Err(e) && e@ == (DiscoveryErrorView::HostResolution {
            host: endpoint.host@,
            message: "host resolved to no addresses"@,
        })),
        address_count > 0 && any_non_loopback && !endpoint.allow_non_loopback ==> (r matches Err(e) && e@
            == (DiscoveryErrorView::HostResolution {
            host: endpoint.host@,
            message: "non-loopback router target requires explicit opt-in"@,
        })),
        address_count > 0 && !(any_non_loopback && !endpoint.allow_non_loopback) ==> r is Ok,
{
    if address_count == 0 {
        return Err(RouterDiscoveryError::HostResolution {
            host: endpoint.host.clone(),
            message: "host resolved to no addresses".to_owned(),
        });
    }
    if any_non_loopback && !endpoint.allow_non_loopback {
        return Err(RouterDiscoveryError::HostResolution {
            host: endpoint.host.clone(),
            message: "non-loopback router target requires explicit opt-in".to_owned(),
        });
    }
    Ok(())
}

/// The request text of one JSON exchange with a router.
pub open spec fn json_request_text(endpoint: crate::server_readiness::ServerEndpoint, method: Seq<char>, path: Seq<char>, body: Seq<char>, body_bytes: nat) -> Seq<char> {
    method + " "@ + path + " HTTP/1.1\r\nHost: "@ + crate::server_readiness::authority_of(endpoint.host@, endpoint.port)
        + "\r\nConnection: close\r\nAccept: application/json\r\n"@ + crate::streaming_probe::auth_header(endpoint) + if body.len() > 0 {
        "Content-Type: application/json\r\n"@
    } else {
        Seq::empty()
    } + "Content-Length: "@ + decimal(body_bytes) + "\r\n\r\n"@ + body
}

/// Builds the request for one JSON exchange with a router; an absent body is
/// sent as an empty one.
pub fn json_request(endpoint: &crate::server_readiness::ServerEndpoint, method: &str, path: &str, body: Option<&str>) -> (r: String)
    ensures
        match body {
            Some(b) => r@ == json_request_text(*endpoint, method@, path@, b@, b.len() as nat),
            None => r@ == json_request_text(*endpoint, method@, path@, Seq::empty(), 0),
        },
{
    let b: &str = match body {
        Some(b) => b,
        None => "",
    };
    proof {
        if body is None {
            reveal_strlit("");
        }
    }
    let mut out: Vec<char> = Vec::new();
    push_str(&mut out, method);
    push_str(&mut out, " ");
    push_str(&mut out, path);
    push_str(&mut out, " HTTP/1.1\r\nHost: ");
    let authority = endpoint.authority();
    push_str(&mut out, authority.as_str());
    push_str(&mut out, "\r\nConnection: close\r\nAccept: application/json\r\n");
    let ghost before_key = out@;
    crate::streaming_probe::append_auth_header(&mut out, endpoint);
    let ghost before_type = out@;
    if !b.is_empty() {
        push_str(&mut out, "Content-Type: application/json\r\n");
    }
    let ghost before_length = out@;
    push_str(&mut out, "Content-Length: ");
    let n = b.len();
    let digits = decimal_chars(n as u64);
    push_chars(&mut out, digits.as_slice());
    push_str(&mut out, "\r\n\r\n");
    push_str(&mut out, b);
    proof {
        let key_part = crate::streaming_probe::auth_header(*endpoint);
        let type_part = if b@.len() > 0 {
            "Content-Type: application/json\r\n"@
        } else {
            Seq::<char>::empty()
        };
        assert(before_type == before_key + key_part);
        assert(before_length == before_type + type_part);
        assert(out@ =~= json_request_text(*endpoint, method@, path@, b@, n as nat));
    }
    string_from_chars(out.as_slice())
}

/// How a raw router response is read: the status from its first line and
/// the body after the blank line.
pub open spec fn router_response_outcome(text: Seq<char>, path: Seq<char>) -> Result<(u16, Seq<char>), DiscoveryErrorView> {
    match crate::text::first_line(text) {
        None => Err(DiscoveryErrorView::Transport { path, message: "empty HTTP response"@ }),
        Some(line) => match crate::text::status_code_of(text) {
            None => Err(DiscoveryErrorView::Transport { path, message: "invalid HTTP status line: "@ + line }),
            Some(code) => Ok((code, crate::text::body_after_head(text))),
        },
    }
}

/// Reads a raw router response (decoded as lossy UTF-8).
pub fn read_router_response(bytes: &[u8], path: &str) -> (r: Result<RawHttpResponse, RouterDiscoveryError>)
    ensures
        match router_response_outcome(crate::strings::utf8_lossy(bytes@), path@) {
            Err(e) => r matches Err(x) && x@ == e,
            Ok((code, body)) => r matches Ok(resp) && resp.status_code == code && resp.body@ == body,
        },
{
    let text = crate::strings::lossy_chars(bytes);
    if text.len() == 0 {
        return Err(RouterDiscoveryError::Transport { path: path.to_owned(), message: "empty HTTP response".to_owned() });
    }
    match crate::text::status_code_from_text(text.as_slice()) {
        None => {
            let (end, _next) = crate::text::line_end_exec(text.as_slice(), 0);
            let line = crate::text::copy_range(text.as_slice(), 0, end);
            let mut msg: Vec<char> = Vec::new();
            push_str(&mut msg, "invalid HTTP status line: ");
            push_chars(&mut msg, line.as_slice());
            Err(RouterDiscoveryError::Transport { path: path.to_owned(), message: string_from_chars(msg.as_slice()) })
        },
        Some(code) => {
            let body = crate::text::body_after_head_exec(text.as_slice());
            Ok(RawHttpResponse { status_code: code, body: string_from_chars(body.as_slice()) })
        },
    }
}

/// The link for a router path that a library model location matches exactly.
pub fn exact_path_link(path: &str, model_id: String) -> (r: RouterLibraryLink)
    ensures
        r.kind == RouterLibraryLinkKind::ExactPath,
        r.model_id matches Some(id) && id@ == model_id@,
        r.candidates@.len() == 1 && r.candidates@[0]@ == model_id@,
        r.reason@ == "router path exactly matches a persisted M2 model location: "@ + path@,
{
    let mut reason: Vec<char> = Vec::new();
    push_str(&mut reason, "router path exactly matches a persisted M2 model location: ");
    push_str(&mut reason, path);
    let candidates = vec![model_id.clone()];
    RouterLibraryLink {
        kind: RouterLibraryLinkKind::ExactPath,
        model_id: Some(model_id),
        candidates,
        reason: string_from_chars(reason.as_slice()),
    }
}

/// The link for the library models whose SHA-256 equals the router's: one
/// match links, none is unmatched, several are refused as ambiguous.
pub fn sha256_link(ids: Vec<String>) -> (r: RouterLibraryLink)
    ensures
        ids@.len() == 1 ==> {
            &&& r.kind == RouterLibraryLinkKind::Sha256
            &&& r.model_id matches Some(id) && id == ids@[0]
            &&& r.candidates == ids
            &&& r.reason@ == "router-provided SHA-256 uniquely matches persisted M2 model evidence"@
        },
        ids@.len() == 0 ==> {
            &&& r.kind == RouterLibraryLinkKind::Unmatched
            &&& r.model_id is None
            &&& r.candidates@.len() == 0
            &&& r.reason@ == "router path/SHA-256 did not match persisted M2 evidence"@
        },
        ids@.len() > 1 ==> {
            &&& r.kind == RouterLibraryLinkKind::AmbiguousSha256
            &&& r.model_id is None
            &&& r.candidates == ids
            &&& r.reason@ == "router-provided SHA-256 matches multiple persisted model identities; refusing to guess"@
        },
{
    if ids.len() == 1 {
        let id = ids[0].clone();
        RouterLibraryLink {
            kind: RouterLibraryLinkKind::Sha256,
            model_id: Some(id),
            candidates: ids,
            reason: "router-provided SHA-256 uniquely matches persisted M2 model evidence".to_owned(),
        }
    } else if ids.len() == 0 {
        RouterLibraryLink::unmatched("router path/SHA-256 did not match persisted M2 evidence")
    } else {
        RouterLibraryLink {
            kind: RouterLibraryLinkKind::AmbiguousSha256,
            model_id: None,
            candidates: ids,
            reason: "router-provided SHA-256 matches multiple persisted model identities; refusing to guess".to_owned(),
        }
    }
}

/// The link for a router model with neither a matching path nor a SHA-256.
pub fn no_evidence_link() -> (r: RouterLibraryLink)
    ensures
        r.kind == RouterLibraryLinkKind::Unmatched,
        r.model_id is None,
        r.candidates@.len() == 0,
        r.reason@ == "router supplied neither an exact persisted path match nor content SHA-256; filename matching is intentionally not used"@,
{
    RouterLibraryLink::unmatched(
        "router supplied neither an exact persisted path match nor content SHA-256; filename matching is intentionally not used",
    )
}

} // verus!
