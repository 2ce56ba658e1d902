//! Typed llama-server launch specifications built only from options that
//! the selected server's own help output exposes, with redacted diagnostics.
use vstd::prelude::*;
use crate::installation::LlamaInstallation;
use crate::strings::{chars_of, decimal, decimal_chars, push_chars, push_str, string_from_chars};
use crate::text::{trim, trimmed_tokens, trimmed_tokens_exec, tokens_contain};

verus! {

/// An environment variable value, marked when it must not be shown.
#[derive(Debug, Clone, PartialEq, Eq)]
pub struct ServerEnvironmentValue {
    pub value: String,
    pub sensitive: bool,
}

impl ServerEnvironmentValue {
    pub fn plain(value: String) -> (r: Self)
        ensures
            r.value == value,
            !r.sensitive,
    {
        ServerEnvironmentValue { value, sensitive: false }
    }

    pub fn secret(value: String) -> (r: Self)
        ensures
            r.value == value,
            r.sensitive,
    {
        ServerEnvironmentValue { value, sensitive: true }
    }
}

/// Variable names in strictly increasing order, so that none occurs twice:
/// the order of a map kept sorted by key.
pub open spec fn environment_in_key_order<V>(env: Seq<(String, V)>) -> bool {
    forall|i: int, j: int|
        0 <= i < j < env.len() ==> crate::text::text_less((#[trigger] env[i]).0@, (#[trigger] env[j]).0@)
}

/// The environment by variable name and value.
pub open spec fn environment_view<V>(env: Seq<(String, V)>) -> Seq<(Seq<char>, V)> {
    env.map_values(|p: (String, V)| (p.0@, p.1))
}

/// Sets the variable `key` to `value` in an environment kept in key order,
/// as a map insert does: an existing variable of that name gets the new
/// value in place; otherwise the variable is added where its name sorts.
pub fn insert_environment_variable(env: &mut Vec<(String, ServerEnvironmentValue)>, key: String, value: ServerEnvironmentValue)
    requires
        environment_in_key_order(old(env)@),
    ensures
        environment_in_key_order(final(env)@),
        (exists|p: int| 0 <= p < old(env)@.len() && (#[trigger] old(env)@[p]).0@ == key@) ==> exists|p: int|
            0 <= p < old(env)@.len() && (#[trigger] old(env)@[p]).0@ == key@ && environment_view(final(env)@)
                == environment_view(old(env)@).update(p, (key@, value)),
        (forall|p: int| 0 <= p < old(env)@.len() ==> (#[trigger] old(env)@[p]).0@ != key@) ==> exists|p: int|
            0 <= p <= old(env)@.len() && environment_view(final(env)@) == #[trigger] environment_view(old(env)@).insert(
                p,
                (key@, value),
            ),
{
    let ghost e0 = env@;
    let kc = crate::text::chars_of_string(&key);
    let mut i: usize = 0;
    while i < env.len() && crate::text::string_less(&env[i].0, kc.as_slice())
        invariant
            env@ == e0,
            kc@ == key@,
            environment_in_key_order(e0),
            i <= e0.len(),
            forall|m: int| 0 <= m < i ==> crate::text::text_less((#[trigger] e0[m]).0@, key@),
        decreases e0.len() - i,
    {
        i = i + 1;
    }
    let ghost kv = key@;
    let ghost vv = value;
    if i < env.len() && env[i].0 == key {
        env.set(i, (key, value));
        proof {
            assert(environment_view(env@) =~= environment_view(e0).update(i as int, (kv, vv)));
            assert forall|a: int, b: int| 0 <= a < b < env@.len() implies crate::text::text_less(
                (#[trigger] env@[a]).0@,
                (#[trigger] env@[b]).0@,
            ) by {
                assert(e0[a].0@ == env@[a].0@ && e0[b].0@ == env@[b].0@);
            }
            assert(e0[i as int].0@ == kv);
        }
    } else {
        proof {
            if i < e0.len() {
                crate::text::lemma_text_less_total(e0[i as int].0@, kv);
            }
            assert forall|p: int| 0 <= p < e0.len() implies (#[trigger] e0[p]).0@ != kv by {
                if p < i {
                    crate::text::lemma_text_less_irreflexive(kv);
                } else if p > i {
                    crate::text::lemma_text_less_transitive(kv, e0[i as int].0@, e0[p].0@);
                    crate::text::lemma_text_less_irreflexive(kv);
                }
            }
        }
        env.insert(i, (key, value));
        proof {
            assert(environment_view(env@) =~= environment_view(e0).insert(i as int, (kv, vv)));
            assert forall|a: int, b: int| 0 <= a < b < env@.len() implies crate::text::text_less(
                (#[trigger] env@[a]).0@,
                (#[trigger] env@[b]).0@,
            ) by {
                if b < i {
                    assert(env@[a] == e0[a] && env@[b] == e0[b]);
                } else if b == i {
                    assert(env@[a] == e0[a]);
                } else if a < i {
                    assert(env@[a] == e0[a] && env@[b] == e0[b - 1]);
                } else if a == i {
                    assert(env@[b] == e0[b - 1]);
                    if b - 1 > i {
                        crate::text::lemma_text_less_transitive(kv, e0[i as int].0@, e0[b - 1].0@);
                    }
                } else {
                    assert(env@[a] == e0[a - 1] && env@[b] == e0[b - 1]);
                }
            }
        }
    }
}

/// What the user asked the server to be launched with. `environment` lists
/// each variable once, in key order (see `wf`).
#[derive(Debug, Clone, PartialEq, Eq)]
pub struct ServerLaunchSettings {
    pub model: String,
    pub mmproj: Option<String>,
    pub config: Option<String>,
    pub host: Option<String>,
    pub port: Option<u16>,
    pub threads: Option<u32>,
    pub context_size: Option<u64>,
    pub gpu_layers: Option<u32>,
    pub batch_size: Option<u64>,
    pub ubatch_size: Option<u64>,
    pub api_key: Option<String>,
    pub api_key_file: Option<String>,
    pub environment: Vec<(String, ServerEnvironmentValue)>,
}

impl ServerLaunchSettings {
    /// The environment names each variable once, in key order.
    pub open spec fn wf(&self) -> bool {
        environment_in_key_order(self.environment@)
    }
}

impl Default for ServerLaunchSettings {
    /// No model path, no options and no environment.
    fn default() -> (r: Self)
        ensures
            r.model@.len() == 0,
            r.mmproj is None,
            r.config is None,
            r.host is None,
            r.port is None,
            r.threads is None,
            r.context_size is None,
            r.gpu_layers is None,
            r.batch_size is None,
            r.ubatch_size is None,
            r.api_key is None,
            r.api_key_file is None,
            r.environment@.len() == 0,
    {
        ServerLaunchSettings {
            model: String::new(),
            mmproj: None,
            config: None,
            host: None,
            port: None,
            threads: None,
            context_size: None,
            gpu_layers: None,
            batch_size: None,
            ubatch_size: None,
            api_key: None,
            api_key_file: None,
            environment: Vec::new(),
        }
    }
}

/// The exact process to start: executable, argument vector, working
/// directory and environment, with the positions of secret arguments and
/// the names of secret variables.
#[derive(Debug, Clone, PartialEq, Eq)]
pub struct ServerLaunchSpec {
    pub executable: String,
    pub argv: Vec<String>,
    pub cwd: String,
    pub environment: Vec<(String, String)>,
    pub sensitive_argv_indexes: Vec<usize>,
    pub sensitive_environment_keys: Vec<String>,
}

#[derive(Debug, Clone, PartialEq, Eq)]
pub enum ServerCommandError {
    ServerMissing,
    ModelPathEmpty,
    UnsupportedOption { option: String },
    InvalidValue { field: String, reason: String },
}

/// An error as plain character data: a tag and its two texts.
pub open spec fn err_view(e: ServerCommandError) -> (int, Seq<char>, Seq<char>) {
    match e {
        ServerCommandError::ServerMissing => (0, Seq::empty(), Seq::empty()),
        ServerCommandError::ModelPathEmpty => (1, Seq::empty(), Seq::empty()),
        ServerCommandError::UnsupportedOption { option } => (2, option@, Seq::empty()),
        ServerCommandError::InvalidValue { field, reason } => (3, field@, reason@),
    }
}

pub open spec fn invalid(field: Seq<char>, reason: Seq<char>) -> (int, Seq<char>, Seq<char>) {
    (3, field, reason)
}

fn invalid_value(field: &str, reason: Vec<char>) -> (r: ServerCommandError)
    ensures
        err_view(r) == invalid(field@, reason@),
{
    let f = chars_of(field);
    ServerCommandError::InvalidValue {
        field: string_from_chars(f.as_slice()),
        reason: string_from_chars(reason.as_slice()),
    }
}

/// Server options a launch can set.
#[derive(Debug, Clone, Copy, PartialEq, Eq, Structural)]
pub enum LaunchOption {
    Model,
    Mmproj,
    Config,
    Host,
    Port,
    Threads,
    CtxSize,
    GpuLayers,
    BatchSize,
    UbatchSize,
    ApiKey,
    ApiKeyFile,
}

/// The spellings of an option, preferred first.
pub open spec fn aliases(o: LaunchOption) -> Seq<Seq<char>> {
    match o {
        LaunchOption::Model => seq!["--model"@, "-m"@],
        LaunchOption::Mmproj => seq!["--mmproj"@, "-mm"@],
        LaunchOption::Config => seq!["--config"@],
        LaunchOption::Host => seq!["--host"@],
        LaunchOption::Port => seq!["--port"@],
        LaunchOption::Threads => seq!["--threads"@, "-t"@],
        LaunchOption::CtxSize => seq!["--ctx-size"@, "-c"@],
        LaunchOption::GpuLayers => seq!["--n-gpu-layers"@, "-ngl"@],
        LaunchOption::BatchSize => seq!["--batch-size"@, "-b"@],
        LaunchOption::UbatchSize => seq!["--ubatch-size"@, "-ub"@],
        LaunchOption::ApiKey => seq!["--api-key"@],
        LaunchOption::ApiKeyFile => seq!["--api-key-file"@],
    }
}

fn alias_strs(o: LaunchOption) -> (r: (&'static str, Option<&'static str>))
    ensures
        r.0@ == aliases(o)[0],
        aliases(o).len() == 1 ==> r.1 is None,
        aliases(o).len() == 2 ==> (r.1 matches Some(a) && a@ == aliases(o)[1]),
        1 <= aliases(o).len() <= 2,
{
    match o {
        LaunchOption::Model => ("--model", Some("-m")),
        LaunchOption::Mmproj => ("--mmproj", Some("-mm")),
        LaunchOption::Config => ("--config", None),
        LaunchOption::Host => ("--host", None),
        LaunchOption::Port => ("--port", None),
        LaunchOption::Threads => ("--threads", Some("-t")),
        LaunchOption::CtxSize => ("--ctx-size", Some("-c")),
        LaunchOption::GpuLayers => ("--n-gpu-layers", Some("-ngl")),
        LaunchOption::BatchSize => ("--batch-size", Some("-b")),
        LaunchOption::UbatchSize => ("--ubatch-size", Some("-ub")),
        LaunchOption::ApiKey => ("--api-key", None),
        LaunchOption::ApiKeyFile => ("--api-key-file", None),
    }
}

/// Whether the server's help output exposes option `a`: an option token
/// starts with `-` once `,;:[]()`<>` are trimmed from it.
pub open spec fn has_cap(help: Seq<char>, a: Seq<char>) -> bool {
    a.len() > 0 && a[0] == '-' && exists|k: int|
        0 <= k < trimmed_tokens(help, 0, true).len() && #[trigger] trimmed_tokens(help, 0, true)[k]
            == a
}

/// The first spelling of `o` that the help output exposes.
pub open spec fn chosen(help: Seq<char>, o: LaunchOption) -> Option<Seq<char>> {
    let al = aliases(o);
    if has_cap(help, al[0]) {
        Some(al[0])
    } else if al.len() > 1 && has_cap(help, al[1]) {
        Some(al[1])
    } else {
        None
    }
}

/// One planned step of a launch: refuse with an error, add a path option
/// (refused when empty), or add a value option.
pub enum LaunchStep {
    Reject(ServerCommandError),
    Path(LaunchOption, String),
    Value(LaunchOption, String, bool),
}

/// A step as plain data: (kind, option, value, sensitive, error).
pub open spec fn step_view(st: LaunchStep) -> (int, LaunchOption, Seq<char>, bool, (int, Seq<char>, Seq<char>)) {
    match st {
        LaunchStep::Reject(e) => (0, LaunchOption::Model, Seq::empty(), false, err_view(e)),
        LaunchStep::Path(o, v) => (1, o, v@, false, (0, Seq::empty(), Seq::empty())),
        LaunchStep::Value(o, v, s) => (2, o, v@, s, (0, Seq::empty(), Seq::empty())),
    }
}

pub open spec fn reject(e: (int, Seq<char>, Seq<char>)) -> (int, LaunchOption, Seq<char>, bool, (int, Seq<char>, Seq<char>)) {
    (0, LaunchOption::Model, Seq::empty(), false, e)
}

pub open spec fn path_step(o: LaunchOption, v: Seq<char>) -> (int, LaunchOption, Seq<char>, bool, (int, Seq<char>, Seq<char>)) {
    (1, o, v, false, (0, Seq::empty(), Seq::empty()))
}

pub open spec fn value_step(o: LaunchOption, v: Seq<char>, s: bool) -> (int, LaunchOption, Seq<char>, bool, (int, Seq<char>, Seq<char>)) {
    (2, o, v, s, (0, Seq::empty(), Seq::empty()))
}

pub open spec fn positive_msg() -> Seq<char> {
    "value must be greater than zero"@
}

pub open spec fn opt_path(p: Option<String>, o: LaunchOption) -> Seq<(int, LaunchOption, Seq<char>, bool, (int, Seq<char>, Seq<char>))> {
    match p {
        Some(v) => seq![path_step(o, v@)],
        None => Seq::empty(),
    }
}

pub open spec fn opt_positive(v: Option<u64>, o: LaunchOption, field: Seq<char>) -> Seq<(int, LaunchOption, Seq<char>, bool, (int, Seq<char>, Seq<char>))> {
    match v {
        Some(n) => if n == 0 {
            seq![reject(invalid(field, positive_msg()))]
        } else {
            seq![value_step(o, decimal(n as nat), false)]
        },
        None => Seq::empty(),
    }
}

pub open spec fn host_steps(host: Option<String>) -> Seq<(int, LaunchOption, Seq<char>, bool, (int, Seq<char>, Seq<char>))> {
    match host {
        Some(h) => if trim(h@).len() == 0 {
            seq![reject(invalid("host"@, "host cannot be empty"@))]
        } else {
            seq![value_step(LaunchOption::Host, h@, false)]
        },
        None => Seq::empty(),
    }
}

pub open spec fn api_key_steps(key: Option<String>) -> Seq<(int, LaunchOption, Seq<char>, bool, (int, Seq<char>, Seq<char>))> {
    match key {
        Some(k) => if k@.len() == 0 {
            seq![reject(invalid("api_key"@, "API key cannot be empty when configured"@))]
        } else {
            seq![value_step(LaunchOption::ApiKey, k@, true)]
        },
        None => Seq::empty(),
    }
}

/// The launch plan of `s`, in the order the options are checked and added.
pub open spec fn launch_steps(s: ServerLaunchSettings) -> Seq<(int, LaunchOption, Seq<char>, bool, (int, Seq<char>, Seq<char>))> {
    let host = host_steps(s.host);
    let port = port_steps(s.port);
    let threads = match s.threads {
        Some(t) => opt_positive(Some(t as u64), LaunchOption::Threads, "threads"@),
        None => Seq::empty(),
    };
    let gpu = gpu_steps(s.gpu_layers);
    let ubatch = ubatch_steps(s.ubatch_size, s.batch_size);
    let api_key = api_key_steps(s.api_key);
    seq![path_step(LaunchOption::Model, s.model@)] + opt_path(s.mmproj, LaunchOption::Mmproj)
        + opt_path(s.config, LaunchOption::Config) + host + port + threads + opt_positive(
        s.context_size,
        LaunchOption::CtxSize,
        "context_size"@,
    ) + gpu + opt_positive(s.batch_size, LaunchOption::BatchSize, "batch_size"@) + ubatch + api_key
        + opt_path(s.api_key_file, LaunchOption::ApiKeyFile)
}

/// Runs the plan from step `i` on, extending `argv` and the secret indexes.
pub open spec fn run_steps(
    help: Seq<char>,
    steps: Seq<(int, LaunchOption, Seq<char>, bool, (int, Seq<char>, Seq<char>))>,
    i: int,
    argv: Seq<Seq<char>>,
    sens: Seq<int>,
) -> Result<(Seq<Seq<char>>, Seq<int>), (int, Seq<char>, Seq<char>)>
    decreases steps.len() - i,
{
    if i < 0 || i >= steps.len() {
        Ok((argv, sens))
    } else {
        let st = steps[i];
        if st.0 == 0 {
            Err(st.4)
        } else if st.0 == 1 && st.2.len() == 0 {
            Err(invalid("path"@, "path cannot be empty"@))
        } else {
            match chosen(help, st.1) {
                None => Err((2, aliases(st.1)[0], Seq::empty())),
                Some(a) => run_steps(
                    help,
                    steps,
                    i + 1,
                    argv.push(a).push(st.2),
                    if st.3 {
                        sens.push(argv.len() + 1int)
                    } else {
                        sens
                    },
                ),
            }
        }
    }
}

pub open spec fn env_view(env: Seq<(String, ServerEnvironmentValue)>) -> Seq<(Seq<char>, Seq<char>)> {
    env.map_values(|p: (String, ServerEnvironmentValue)| (p.0@, p.1.value@))
}

pub open spec fn env_secret_keys(env: Seq<(String, ServerEnvironmentValue)>) -> Seq<Seq<char>>
    decreases env.len(),
{
    if env.len() == 0 {
        Seq::empty()
    } else {
        env_secret_keys(env.drop_last()) + if env.last().1.sensitive {
            seq![env.last().0@]
        } else {
            Seq::empty()
        }
    }
}

/// Whether some environment variable has an empty name.
pub open spec fn env_has_empty_key(env: Seq<(String, ServerEnvironmentValue)>) -> bool {
    exists|k: int| 0 <= k < env.len() && (#[trigger] env[k]).0@.len() == 0
}

pub open spec fn argv_view(v: Seq<String>) -> Seq<Seq<char>> {
    v.map_values(|a: String| a@)
}

pub open spec fn sens_view(v: Seq<usize>) -> Seq<int> {
    v.map_values(|x: usize| x as int)
}

/// A launch specification as plain data.
pub open spec fn spec_view(s: ServerLaunchSpec) -> (Seq<char>, Seq<Seq<char>>, Seq<char>, Seq<(Seq<char>, Seq<char>)>, Seq<int>, Seq<Seq<char>>) {
    (
        s.executable@,
        argv_view(s.argv@),
        s.cwd@,
        s.environment@.map_values(|p: (String, String)| (p.0@, p.1@)),
        sens_view(s.sensitive_argv_indexes@),
        s.sensitive_environment_keys@.map_values(|k: String| k@),
    )
}

/// What `build_server_launch_spec` yields for an installation and settings.
pub open spec fn launch_result(inst: LlamaInstallation, s: ServerLaunchSettings) -> Result<
    (Seq<char>, Seq<Seq<char>>, Seq<char>, Seq<(Seq<char>, Seq<char>)>, Seq<int>, Seq<Seq<char>>),
    (int, Seq<char>, Seq<char>),
> {
    match inst.server {
        None => Err((0, Seq::empty(), Seq::empty())),
        Some(server) => if s.model@.len() == 0 {
            Err((1, Seq::empty(), Seq::empty()))
        } else {
            match run_steps(server.help_output@, launch_steps(s), 0, Seq::empty(), Seq::empty()) {
                Err(e) => Err(e),
                Ok((argv, sens)) => if env_has_empty_key(s.environment@) {
                    Err(invalid("environment"@, "environment variable name cannot be empty"@))
                } else {
                    Ok(
                        (
                            server.path@,
                            argv,
                            inst.root_path@,
                            env_view(s.environment@),
                            sens,
                            env_secret_keys(s.environment@),
                        ),
                    )
                },
            }
        },
    }
}

fn has_cap_exec(caps: &Vec<Vec<char>>, alias: &str, Ghost(help): Ghost<Seq<char>>) -> (r: bool)
    requires
        caps@.len() == trimmed_tokens(help, 0, true).len(),
        forall|k: int| 0 <= k < caps@.len() ==> (#[trigger] caps@[k])@ == trimmed_tokens(help, 0, true)[k],
    ensures
        r == has_cap(help, alias@),
{
    let a = chars_of(alias);
    if a.len() == 0 || a[0] != '-' {
        return false;
    }
    let r = tokens_contain(caps, a.as_slice());
    proof {
        if r {
            let k = choose|k: int| 0 <= k < caps@.len() && (#[trigger] caps@[k])@ == a@;
            assert(trimmed_tokens(help, 0, true)[k] == alias@);
        } else {
            assert forall|k: int| 0 <= k < trimmed_tokens(help, 0, true).len() implies #[trigger] trimmed_tokens(
                help,
                0,
                true,
            )[k] != alias@ by {
                assert((caps@[k])@ == trimmed_tokens(help, 0, true)[k]);
            }
        }
    }
    r
}

fn choose_option(caps: &Vec<Vec<char>>, o: LaunchOption, Ghost(help): Ghost<Seq<char>>) -> (r: Result<
    &'static str,
    ServerCommandError,
>)
    requires
        caps@.len() == trimmed_tokens(help, 0, true).len(),
        forall|k: int| 0 <= k < caps@.len() ==> (#[trigger] caps@[k])@ == trimmed_tokens(help, 0, true)[k],
    ensures
        match chosen(help, o) {
            Some(a) => r matches Ok(s) && s@ == a,
            None => r matches Err(e) && err_view(e) == (2int, aliases(o)[0], Seq::<char>::empty()),
        },
{
    let (first, second) = alias_strs(o);
    if has_cap_exec(caps, first, Ghost(help)) {
        return Ok(first);
    }
    match second {
        Some(s) => {
            if has_cap_exec(caps, s, Ghost(help)) {
                return Ok(s);
            }
        },
        None => {},
    }
    let v = chars_of(first);
    Err(ServerCommandError::UnsupportedOption { option: string_from_chars(v.as_slice()) })
}

fn chars_string(v: &Vec<char>) -> (r: String)
    ensures
        r@ == v@,
{
    string_from_chars(v.as_slice())
}

fn positive_step(v: u64, o: LaunchOption, field: &str) -> (r: LaunchStep)
    ensures
        v == 0 ==> step_view(r) == reject(invalid(field@, positive_msg())),
        v != 0 ==> step_view(r) == value_step(o, decimal(v as nat), false),
{
    if v == 0 {
        let m = chars_of("value must be greater than zero");
        LaunchStep::Reject(invalid_value(field, m))
    } else {
        LaunchStep::Value(o, chars_string(&decimal_chars(v)), false)
    }
}

fn str_string(s: &str) -> (r: String)
    ensures
        r@ == s@,
{
    let v = chars_of(s);
    string_from_chars(v.as_slice())
}

pub open spec fn steps_view(v: Seq<LaunchStep>) -> Seq<(int, LaunchOption, Seq<char>, bool, (int, Seq<char>, Seq<char>))> {
    v.map_values(|st: LaunchStep| step_view(st))
}

fn path_part(p: &Option<String>, o: LaunchOption) -> (r: Vec<LaunchStep>)
    ensures
        steps_view(r@) == opt_path(*p, o),
{
    let mut v: Vec<LaunchStep> = Vec::new();
    match p {
        Some(x) => {
            v.push(LaunchStep::Path(o, x.clone()));
        },
        None => {},
    }
    assert(steps_view(v@) =~= opt_path(*p, o));
    v
}

fn positive_part(value: Option<u64>, o: LaunchOption, field: &str) -> (r: Vec<LaunchStep>)
    ensures
        steps_view(r@) == opt_positive(value, o, field@),
{
    let mut v: Vec<LaunchStep> = Vec::new();
    match value {
        Some(n) => {
            v.push(positive_step(n, o, field));
        },
        None => {},
    }
    assert(steps_view(v@) =~= opt_positive(value, o, field@));
    v
}

fn host_part(host: &Option<String>) -> (r: Vec<LaunchStep>)
    ensures
        steps_view(r@) == host_steps(*host),
{
    let mut v: Vec<LaunchStep> = Vec::new();
    match host {
        Some(h) => {
            let hv = chars_of(h.as_str());
            let t = crate::text::trim_chars(hv.as_slice());
            if t.len() == 0 {
                let m = chars_of("host cannot be empty");
                v.push(LaunchStep::Reject(invalid_value("host", m)));
            } else {
                v.push(LaunchStep::Value(LaunchOption::Host, h.clone(), false));
            }
        },
        None => {},
    }
    assert(steps_view(v@) =~= host_steps(*host));
    v
}

pub open spec fn port_steps(port: Option<u16>) -> Seq<(int, LaunchOption, Seq<char>, bool, (int, Seq<char>, Seq<char>))> {
    match port {
        Some(p) => if p == 0 {
            seq![reject(invalid("port"@, "port must be in 1..=65535"@))]
        } else {
            seq![value_step(LaunchOption::Port, decimal(p as nat), false)]
        },
        None => Seq::empty(),
    }
}

fn port_part(port: Option<u16>) -> (r: Vec<LaunchStep>)
    ensures
        steps_view(r@) == port_steps(port),
{
    let mut v: Vec<LaunchStep> = Vec::new();
    match port {
        Some(p) => {
            if p == 0 {
                let m = chars_of("port must be in 1..=65535");
                v.push(LaunchStep::Reject(invalid_value("port", m)));
            } else {
                v.push(LaunchStep::Value(LaunchOption::Port, chars_string(&decimal_chars(p as u64)), false));
            }
        },
        None => {},
    }
    assert(steps_view(v@) =~= port_steps(port));
    v
}

pub open spec fn gpu_steps(g: Option<u32>) -> Seq<(int, LaunchOption, Seq<char>, bool, (int, Seq<char>, Seq<char>))> {
    match g {
        Some(g) => seq![value_step(LaunchOption::GpuLayers, decimal(g as nat), false)],
        None => Seq::empty(),
    }
}

fn gpu_part(g: Option<u32>) -> (r: Vec<LaunchStep>)
    ensures
        steps_view(r@) == gpu_steps(g),
{
    let mut v: Vec<LaunchStep> = Vec::new();
    match g {
        Some(g) => {
            v.push(LaunchStep::Value(LaunchOption::GpuLayers, chars_string(&decimal_chars(g as u64)), false));
        },
        None => {},
    }
    assert(steps_view(v@) =~= gpu_steps(g));
    v
}

pub open spec fn ubatch_steps(ubatch: Option<u64>, batch: Option<u64>) -> Seq<(int, LaunchOption, Seq<char>, bool, (int, Seq<char>, Seq<char>))> {
    match ubatch {
        Some(u) => if u == 0 {
            seq![reject(invalid("ubatch_size"@, positive_msg()))]
        } else if batch matches Some(b) && u > b {
            seq![
                reject(
                    invalid(
                        "ubatch_size"@,
                        "ubatch-size "@ + decimal(u as nat) + " exceeds batch-size "@ + decimal(
                            batch->0 as nat,
                        ),
                    ),
                ),
            ]
        } else {
            seq![value_step(LaunchOption::UbatchSize, decimal(u as nat), false)]
        },
        None => Seq::empty(),
    }
}

fn ubatch_part(ubatch: Option<u64>, batch: Option<u64>) -> (r: Vec<LaunchStep>)
    ensures
        steps_view(r@) == ubatch_steps(ubatch, batch),
{
    let mut v: Vec<LaunchStep> = Vec::new();
    match ubatch {
        Some(u) => {
            if u == 0 {
                let m = chars_of("value must be greater than zero");
                v.push(LaunchStep::Reject(invalid_value("ubatch_size", m)));
            } else {
                match batch {
                    Some(b) if u > b => {
                        let mut m: Vec<char> = Vec::new();
                        push_str(&mut m, "ubatch-size ");
                        push_chars(&mut m, decimal_chars(u).as_slice());
                        push_str(&mut m, " exceeds batch-size ");
                        push_chars(&mut m, decimal_chars(b).as_slice());
                        v.push(LaunchStep::Reject(invalid_value("ubatch_size", m)));
                    },
                    _ => {
                        v.push(LaunchStep::Value(LaunchOption::UbatchSize, chars_string(&decimal_chars(u)), false));
                    },
                }
            }
        },
        None => {},
    }
    assert(steps_view(v@) =~= ubatch_steps(ubatch, batch));
    v
}

fn api_key_part(key: &Option<String>) -> (r: Vec<LaunchStep>)
    ensures
        steps_view(r@) == api_key_steps(*key),
{
    let mut v: Vec<LaunchStep> = Vec::new();
    match key {
        Some(k) => {
            if k.as_str().is_empty() {
                let m = chars_of("API key cannot be empty when configured");
                v.push(LaunchStep::Reject(invalid_value("api_key", m)));
            } else {
                v.push(LaunchStep::Value(LaunchOption::ApiKey, k.clone(), true));
            }
        },
        None => {},
    }
    assert(steps_view(v@) =~= api_key_steps(*key));
    v
}

fn append_steps(a: &mut Vec<LaunchStep>, b: Vec<LaunchStep>)
    ensures
        steps_view(final(a)@) == steps_view(old(a)@) + steps_view(b@),
{
    let mut b = b;
    let ghost a0 = a@;
    let ghost b0 = b@;
    a.append(&mut b);
    assert(steps_view(a@) =~= steps_view(a0) + steps_view(b0));
}

fn plan_launch(s: &ServerLaunchSettings) -> (r: Vec<LaunchStep>)
    ensures
        steps_view(r@) == launch_steps(*s),
{
    let mut steps: Vec<LaunchStep> = Vec::new();
    steps.push(LaunchStep::Path(LaunchOption::Model, s.model.clone()));
    assert(steps_view(steps@) =~= seq![path_step(LaunchOption::Model, s.model@)]);
    append_steps(&mut steps, path_part(&s.mmproj, LaunchOption::Mmproj));
    append_steps(&mut steps, path_part(&s.config, LaunchOption::Config));
    append_steps(&mut steps, host_part(&s.host));
    append_steps(&mut steps, port_part(s.port));
    let threads = match s.threads {
        Some(t) => Some(t as u64),
        None => None,
    };
    append_steps(&mut steps, positive_part(threads, LaunchOption::Threads, "threads"));
    append_steps(&mut steps, positive_part(s.context_size, LaunchOption::CtxSize, "context_size"));
    append_steps(&mut steps, gpu_part(s.gpu_layers));
    append_steps(&mut steps, positive_part(s.batch_size, LaunchOption::BatchSize, "batch_size"));
    append_steps(&mut steps, ubatch_part(s.ubatch_size, s.batch_size));
    append_steps(&mut steps, api_key_part(&s.api_key));
    append_steps(&mut steps, path_part(&s.api_key_file, LaunchOption::ApiKeyFile));
    assert(steps_view(steps@) =~= launch_steps(*s));
    steps
}

/// Builds the launch specification of `settings` for the installation's
/// `llama-server`, refusing any option its help output does not expose.
pub fn build_server_launch_spec(installation: &LlamaInstallation, settings: &ServerLaunchSettings) -> (r: Result<
    ServerLaunchSpec,
    ServerCommandError,
>)
    requires
        settings.wf(),
    ensures
        match launch_result(*installation, *settings) {
            Ok(v) => r matches Ok(spec) && spec_view(spec) == v,
            Err(e) => r matches Err(err) && err_view(err) == e,
        },
        r matches Ok(spec) ==> environment_in_key_order(spec.environment@),
{
    let server = match &installation.server {
        Some(server) => server,
        None => {
            return Err(ServerCommandError::ServerMissing);
        },
    };
    if settings.model.as_str().is_empty() {
        return Err(ServerCommandError::ModelPathEmpty);
    }
    let help = chars_of(server.help_output.as_str());
    let caps = trimmed_tokens_exec(help.as_slice(), true);
    let steps = plan_launch(settings);
    let ghost views = steps_view(steps@);
    let mut argv: Vec<String> = Vec::new();
    let mut sens: Vec<usize> = Vec::new();
    assert(argv_view(argv@) =~= Seq::<Seq<char>>::empty());
    assert(sens_view(sens@) =~= Seq::<int>::empty());
    let mut i: usize = 0;
    while i < steps.len()
        invariant
            views == steps_view(steps@),
            views == launch_steps(*settings),
            i <= steps@.len(),
            caps@.len() == trimmed_tokens(help@, 0, true).len(),
            forall|k: int| 0 <= k < caps@.len() ==> (#[trigger] caps@[k])@ == trimmed_tokens(help@, 0, true)[k],
            help@ == server.help_output@,
            installation.server == Some(*server),
            settings.model@.len() > 0,
            run_steps(help@, views, 0, Seq::empty(), Seq::empty()) == run_steps(
                help@,
                views,
                i as int,
                argv_view(argv@),
                sens_view(sens@),
            ),
        decreases steps@.len() - i,
    {
        let ghost av = argv_view(argv@);
        let ghost sv = sens_view(sens@);
        assert(views[i as int] == step_view(steps@[i as int]));
        match &steps[i] {
            LaunchStep::Reject(e) => {
                return Err(copy_error(e));
            },
            LaunchStep::Path(o, v) => {
                if v.as_str().is_empty() {
                    let m = chars_of("path cannot be empty");
                    return Err(invalid_value("path", m));
                }
                let opt = match choose_option(&caps, *o, Ghost(help@)) {
                    Ok(opt) => opt,
                    Err(e) => {
                        return Err(e);
                    },
                };
                argv.push(str_string(opt));
                argv.push(v.clone());
            },
            LaunchStep::Value(o, v, secret) => {
                let opt = match choose_option(&caps, *o, Ghost(help@)) {
                    Ok(opt) => opt,
                    Err(e) => {
                        return Err(e);
                    },
                };
                argv.push(str_string(opt));
                argv.push(v.clone());
                if *secret {
                    sens.push(argv.len() - 1);
                }
            },
        }
        proof {
            let st = views[i as int];
            let a = chosen(help@, st.1)->0;
            assert(argv_view(argv@) =~= av.push(a).push(st.2));
            if st.3 {
                assert(sens_view(sens@) =~= sv.push(av.len() + 1int));
            } else {
                assert(sens_view(sens@) =~= sv);
            }
        }
        i = i + 1;
    }
    let ghost av = argv_view(argv@);
    let ghost sv = sens_view(sens@);
    assert(run_steps(help@, views, i as int, av, sv) == Ok::<(Seq<Seq<char>>, Seq<int>), (int, Seq<char>, Seq<char>)>((av, sv)));
    let mut environment: Vec<(String, String)> = Vec::new();
    let mut secret_keys: Vec<String> = Vec::new();
    let env = &settings.environment;
    let mut k: usize = 0;
    while k < env.len()
        invariant
            k <= env@.len(),
            env@ == settings.environment@,
            installation.server == Some(*server),
            settings.model@.len() > 0,
            help@ == server.help_output@,
            run_steps(help@, launch_steps(*settings), 0, Seq::empty(), Seq::empty()) == Ok::<(Seq<Seq<char>>, Seq<int>), (int, Seq<char>, Seq<char>)>((av, sv)),
            forall|m: int| 0 <= m < k ==> (#[trigger] env@[m]).0@.len() != 0,
            environment@.map_values(|p: (String, String)| (p.0@, p.1@)) == env_view(env@.subrange(0, k as int)),
            secret_keys@.map_values(|s: String| s@) == env_secret_keys(env@.subrange(0, k as int)),
        decreases env@.len() - k,
    {
        let ghost prefix = env@.subrange(0, k as int + 1);
        assert(prefix.drop_last() == env@.subrange(0, k as int));
        let (key, value) = &env[k];
        if key.as_str().is_empty() {
            assert(env@[k as int].0@.len() == 0);
            let m = chars_of("environment variable name cannot be empty");
            return Err(invalid_value("environment", m));
        }
        let ghost before_env = environment@.map_values(|p: (String, String)| (p.0@, p.1@));
        let ghost before_keys = secret_keys@.map_values(|s: String| s@);
        environment.push((key.clone(), value.value.clone()));
        if value.sensitive {
            secret_keys.push(key.clone());
        }
        proof {
            assert(environment@.map_values(|p: (String, String)| (p.0@, p.1@)) =~= before_env.push((key@, value.value@)));
            assert(env_view(prefix) =~= env_view(env@.subrange(0, k as int)).push((key@, value.value@)));
            if value.sensitive {
                assert(secret_keys@.map_values(|s: String| s@) =~= before_keys.push(key@));
            } else {
                assert(secret_keys@.map_values(|s: String| s@) =~= before_keys);
            }
        }
        k = k + 1;
    }
    assert(env@.subrange(0, env@.len() as int) == env@);
    proof {
        let ev = environment@.map_values(|p: (String, String)| (p.0@, p.1@));
        assert forall|a: int, b: int| 0 <= a < b < environment@.len() implies crate::text::text_less(
            (#[trigger] environment@[a]).0@,
            (#[trigger] environment@[b]).0@,
        ) by {
            assert(ev[a] == env_view(env@)[a]);
            assert(ev[b] == env_view(env@)[b]);
        }
    }
    Ok(
        ServerLaunchSpec {
            executable: server.path.clone(),
            argv,
            cwd: installation.root_path.clone(),
            environment,
            sensitive_argv_indexes: sens,
            sensitive_environment_keys: secret_keys,
        },
    )
}

fn copy_error(e: &ServerCommandError) -> (r: ServerCommandError)
    ensures
        err_view(r) == err_view(*e),
{
    match e {
        ServerCommandError::ServerMissing => ServerCommandError::ServerMissing,
        ServerCommandError::ModelPathEmpty => ServerCommandError::ModelPathEmpty,
        ServerCommandError::UnsupportedOption { option } => ServerCommandError::UnsupportedOption {
            option: option.clone(),
        },
        ServerCommandError::InvalidValue { field, reason } => ServerCommandError::InvalidValue {
            field: field.clone(),
            reason: reason.clone(),
        },
    }
}

pub open spec fn backslashes(n: nat) -> Seq<char> {
    Seq::new(n, |i: int| '\\')
}

/// Whether a command-line word must be quoted.
pub open spec fn needs_quote(s: Seq<char>) -> bool {
    s.len() == 0 || exists|i: int|
        0 <= i < s.len() && (crate::text::is_ws(#[trigger] s[i]) || s[i] == '"' || s[i] == '\\')
}

/// The quoted body from index `i` on with `b` pending backslashes: a run of
/// backslashes is doubled before a quote (which is escaped) and at the end.
pub open spec fn quote_body(s: Seq<char>, i: int, b: nat) -> Seq<char>
    decreases s.len() - i,
{
    if i < 0 || i >= s.len() {
        backslashes(2 * b) + seq!['"']
    } else if s[i] == '\\' {
        quote_body(s, i + 1, b + 1)
    } else if s[i] == '"' {
        backslashes(2 * b + 1) + seq!['"'] + quote_body(s, i + 1, 0)
    } else {
        backslashes(b) + seq![s[i]] + quote_body(s, i + 1, 0)
    }
}

/// A word as it is shown on a Windows-style command line.
pub open spec fn quoted(s: Seq<char>) -> Seq<char> {
    if needs_quote(s) {
        seq!['"'] + quote_body(s, 0, 0)
    } else {
        s
    }
}

fn push_backslashes(out: &mut Vec<char>, n: usize)
    ensures
        final(out)@ == old(out)@ + backslashes(n as nat),
{
    let mut k: usize = 0;
    let ghost start = out@;
    while k < n
        invariant
            k <= n,
            out@ == start + backslashes(k as nat),
        decreases n - k,
    {
        out.push('\\');
        k = k + 1;
        assert(backslashes(k as nat) =~= backslashes((k - 1) as nat).push('\\'));
    }
}

/// Quotes `value` for display on a command line.
pub fn quote_os(value: &str) -> (r: String)
    requires
        value@.len() <= usize::MAX / 4,
    ensures
        r@ == quoted(value@),
{
    let v = chars_of(value);
    let mut plain = v.len() > 0;
    let mut i: usize = 0;
    while i < v.len()
        invariant
            v@ == value@,
            i <= v@.len(),
            plain == (v@.len() > 0 && forall|k: int|
                0 <= k < i ==> !(crate::text::is_ws(#[trigger] v@[k]) || v@[k] == '"' || v@[k] == '\\')),
        decreases v@.len() - i,
    {
        let c = v[i];
        if crate::text::is_whitespace_char(c) || c == '"' || c == '\\' {
            plain = false;
        }
        i = i + 1;
    }
    if plain {
        return string_from_chars(v.as_slice());
    }
    let mut out: Vec<char> = Vec::new();
    out.push('"');
    let mut b: usize = 0;
    let mut j: usize = 0;
    while j < v.len()
        invariant
            v@ == value@,
            j <= v@.len(),
            b <= j,
            v@.len() <= usize::MAX / 4,
            out@ + quote_body(v@, j as int, b as nat) == seq!['"'] + quote_body(v@, 0, 0),
        decreases v@.len() - j,
    {
        let c = v[j];
        let ghost before = out@;
        if c == '\\' {
            b = b + 1;
        } else if c == '"' {
            let bb = b;
            push_backslashes(&mut out, 2 * bb + 1);
            out.push('"');
            b = 0;
            assert(out@ == before + backslashes((2 * (bb as nat) + 1) as nat) + seq!['"']);
            assert(before + (backslashes((2 * (bb as nat) + 1) as nat) + seq!['"'] + quote_body(v@, j + 1, 0)) == out@ + quote_body(v@, j + 1, 0));
        } else {
            push_backslashes(&mut out, b);
            out.push(c);
            b = 0;
        }
        j = j + 1;
    }
    push_backslashes(&mut out, 2 * b);
    out.push('"');
    string_from_chars(out.as_slice())
}

/// Words joined by single spaces.
pub open spec fn join_words(ws: Seq<Seq<char>>) -> Seq<char>
    decreases ws.len(),
{
    if ws.len() == 0 {
        Seq::empty()
    } else if ws.len() == 1 {
        ws[0]
    } else {
        join_words(ws.drop_last()) + seq![' '] + ws.last()
    }
}

/// The diagnostic words of a launch: the quoted executable, then each
/// argument quoted, with secret arguments shown as `<redacted>`.
pub open spec fn shown_words(s: ServerLaunchSpec) -> Seq<Seq<char>> {
    seq![quoted(s.executable@)] + Seq::new(
        s.argv@.len(),
        |i: int|
            if s.sensitive_argv_indexes@.contains(i as usize) {
                quoted("<redacted>"@)
            } else {
                quoted(s.argv@[i]@)
            },
    )
}

/// The environment as shown: secret variables' values are `<redacted>`.
pub open spec fn shown_environment(s: ServerLaunchSpec) -> Seq<(Seq<char>, Seq<char>)> {
    Seq::new(
        s.environment@.len(),
        |i: int|
            (
                s.environment@[i].0@,
                if exists|k: int|
                    0 <= k < s.sensitive_environment_keys@.len()
                        && #[trigger] s.sensitive_environment_keys@[k]@ == s.environment@[i].0@ {
                    "<redacted>"@
                } else {
                    s.environment@[i].1@
                },
            ),
    )
}

fn contains_index(v: &Vec<usize>, x: usize) -> (r: bool)
    ensures
        r == v@.contains(x),
{
    let mut k: usize = 0;
    while k < v.len()
        invariant
            k <= v@.len(),
            forall|m: int| 0 <= m < k ==> v@[m] != x,
        decreases v@.len() - k,
    {
        if v[k] == x {
            assert(v@[k as int] == x);
            return true;
        }
        k = k + 1;
    }
    false
}

impl ServerLaunchSpec {
    /// The command line for logs and UI, with secrets redacted.
    pub fn diagnostic_command(&self) -> (r: String)
        requires
            self.executable@.len() <= usize::MAX / 4,
            forall|i: int| 0 <= i < self.argv@.len() ==> (#[trigger] self.argv@[i])@.len() <= usize::MAX / 4,
        ensures
            r@ == join_words(shown_words(*self)),
    {
        let ghost words = shown_words(*self);
        let mut out: Vec<char> = Vec::new();
        let first = quote_os(self.executable.as_str());
        push_str(&mut out, first.as_str());
        assert(words.subrange(0, 1) =~= seq![words[0]]);
        let mut i: usize = 0;
        while i < self.argv.len()
            invariant
                words == shown_words(*self),
                i <= self.argv@.len(),
                forall|k: int| 0 <= k < self.argv@.len() ==> (#[trigger] self.argv@[k])@.len() <= usize::MAX / 4,
                out@ == join_words(words.subrange(0, i + 1)),
            decreases self.argv@.len() - i,
        {
            out.push(' ');
            let shown = if contains_index(&self.sensitive_argv_indexes, i) {
                proof {
                    reveal_strlit("<redacted>");
                }
                quote_os("<redacted>")
            } else {
                quote_os(self.argv[i].as_str())
            };
            push_str(&mut out, shown.as_str());
            assert(words.subrange(0, i + 2).drop_last() =~= words.subrange(0, i + 1));
            i = i + 1;
        }
        assert(words.subrange(0, self.argv@.len() as int + 1) =~= words);
        string_from_chars(out.as_slice())
    }

    /// The environment for logs and UI, with secret values redacted.
    pub fn diagnostic_environment(&self) -> (r: Vec<(String, String)>)
        ensures
            r@.map_values(|p: (String, String)| (p.0@, p.1@)) == shown_environment(*self),
    {
        let mut out: Vec<(String, String)> = Vec::new();
        let mut i: usize = 0;
        while i < self.environment.len()
            invariant
                i <= self.environment@.len(),
                out@.map_values(|p: (String, String)| (p.0@, p.1@)) == shown_environment(*self).subrange(0, i as int),
            decreases self.environment@.len() - i,
        {
            let (key, value) = &self.environment[i];
            let kv = chars_of(key.as_str());
            let mut secret = false;
            let mut k: usize = 0;
            while k < self.sensitive_environment_keys.len()
                invariant
                    kv@ == key@,
                    k <= self.sensitive_environment_keys@.len(),
                    secret == exists|m: int| 0 <= m < k && #[trigger] self.sensitive_environment_keys@[m]@ == key@,
                decreases self.sensitive_environment_keys@.len() - k,
            {
                let sk = chars_of(self.sensitive_environment_keys[k].as_str());
                if crate::text::chars_equal(sk.as_slice(), kv.as_slice()) {
                    secret = true;
                }
                k = k + 1;
            }
            let shown = if secret {
                str_string("<redacted>")
            } else {
                value.clone()
            };
            let ghost before = out@.map_values(|p: (String, String)| (p.0@, p.1@));
            out.push((key.clone(), shown));
            assert(out@.map_values(|p: (String, String)| (p.0@, p.1@)) =~= before.push((key@, shown@)));
            assert(shown_environment(*self).subrange(0, i + 1) =~= shown_environment(*self).subrange(0, i as int).push(shown_environment(*self)[i as int]));
            i = i + 1;
        }
        assert(shown_environment(*self).subrange(0, self.environment@.len() as int) =~= shown_environment(*self));
        out
    }
}

proof fn lemma_plain_quote_body(s: Seq<char>, i: int, b: nat)
    requires
        0 <= i <= s.len(),
        forall|k: int| i <= k < s.len() ==> #[trigger] s[k] != '"',
        s.len() > 0 ==> s[s.len() - 1] != '\\',
        i == s.len() ==> b == 0,
    ensures
        quote_body(s, i, b) == backslashes(b) + s.subrange(i, s.len() as int) + seq!['"'],
    decreases s.len() - i,
{
    if i == s.len() {
        assert(quote_body(s, i, b) =~= backslashes(b) + s.subrange(i, s.len() as int) + seq!['"']);
    } else if s[i] == '\\' {
        lemma_plain_quote_body(s, i + 1, b + 1);
        assert(backslashes(b + 1) =~= backslashes(b) + seq!['\\']);
        assert(s.subrange(i, s.len() as int) =~= seq![s[i]] + s.subrange(i + 1, s.len() as int));
        assert(quote_body(s, i, b) =~= backslashes(b) + s.subrange(i, s.len() as int) + seq!['"']);
    } else {
        lemma_plain_quote_body(s, i + 1, 0);
        assert(backslashes(0) =~= Seq::<char>::empty());
        assert(s.subrange(i, s.len() as int) =~= seq![s[i]] + s.subrange(i + 1, s.len() as int));
        assert(quote_body(s, i, b) =~= backslashes(b) + s.subrange(i, s.len() as int) + seq!['"']);
    }
}

/// Quoting keeps a word as it is when the Windows argument rules need no
/// escape in it: a word with no double quote that does not end in a
/// backslash is shown as itself, wrapped in one pair of quotes when it
/// needs quoting (every backslash inside stays single).
pub proof fn law_plain_words_are_quoted_verbatim(s: Seq<char>)
    requires
        forall|k: int| 0 <= k < s.len() ==> #[trigger] s[k] != '"',
        s.len() > 0 ==> s[s.len() - 1] != '\\',
    ensures
        needs_quote(s) ==> quoted(s) == seq!['"'] + s + seq!['"'],
        !needs_quote(s) ==> quoted(s) == s,
{
    lemma_plain_quote_body(s, 0, 0);
    assert(backslashes(0) =~= Seq::<char>::empty());
    assert(s.subrange(0, s.len() as int) =~= s);
    assert(seq!['"'] + (backslashes(0) + s.subrange(0, s.len() as int) + seq!['"']) =~= seq!['"'] + s + seq!['"']);
}

/// Reads back the inside of a quoted word by the Windows argument rules,
/// `b` backslashes pending: `2n` backslashes before a quote give `n` and the
/// quote ends the word (it must be the last character); `2n + 1` give `n`
/// and a literal quote; backslashes before anything else stand for
/// themselves.
pub open spec fn unquoted_body(t: Seq<char>, b: nat) -> Option<Seq<char>>
    decreases t.len(),
{
    if t.len() == 0 {
        None
    } else if t[0] == '\\' {
        unquoted_body(t.drop_first(), b + 1)
    } else if t[0] == '"' {
        if b % 2 == 0 {
            if t.len() == 1 {
                Some(backslashes(b / 2))
            } else {
                None
            }
        } else {
            match unquoted_body(t.drop_first(), 0) {
                Some(r) => Some(backslashes(b / 2) + seq!['"'] + r),
                None => None,
            }
        }
    } else {
        match unquoted_body(t.drop_first(), 0) {
            Some(r) => Some(backslashes(b) + seq![t[0]] + r),
            None => None,
        }
    }
}

proof fn lemma_unquote_backslashes(k: nat, u: Seq<char>, b: nat)
    ensures
        unquoted_body(backslashes(k) + u, b) == unquoted_body(u, b + k),
    decreases k,
{
    if k > 0 {
        let t = backslashes(k) + u;
        assert(t[0] == '\\');
        assert(t.drop_first() =~= backslashes((k - 1) as nat) + u);
        lemma_unquote_backslashes((k - 1) as nat, u, b + 1);
    } else {
        assert(backslashes(0) + u =~= u);
    }
}

proof fn lemma_quote_body_reads_back(s: Seq<char>, i: int, b: nat)
    requires
        0 <= i <= s.len(),
    ensures
        unquoted_body(quote_body(s, i, b), 0) == Some(backslashes(b) + s.subrange(i, s.len() as int)),
    decreases s.len() - i,
{
    if i == s.len() {
        lemma_unquote_backslashes(2 * b, seq!['"'], 0);
        assert((2 * b) / 2 == b) by (nonlinear_arith);
        assert((0 + 2 * b) % 2 == 0) by (nonlinear_arith);
        assert(s.subrange(i, s.len() as int) =~= Seq::<char>::empty());
        assert(backslashes(b) + Seq::<char>::empty() =~= backslashes(b));
    } else if s[i] == '\\' {
        lemma_quote_body_reads_back(s, i + 1, b + 1);
        assert(backslashes(b + 1) + s.subrange(i + 1, s.len() as int) =~= backslashes(b) + s.subrange(i, s.len() as int));
    } else if s[i] == '"' {
        let rest = quote_body(s, i + 1, 0);
        lemma_quote_body_reads_back(s, i + 1, 0);
        lemma_unquote_backslashes(2 * b + 1, seq!['"'] + rest, 0);
        assert((2 * b + 1) / 2 == b) by (nonlinear_arith);
        assert((0 + 2 * b + 1) % 2 == 1) by (nonlinear_arith);
        assert(backslashes(2 * b + 1) + seq!['"'] + rest =~= backslashes(2 * b + 1) + (seq!['"'] + rest));
        assert((seq!['"'] + rest).drop_first() =~= rest);
        assert(backslashes(0) =~= Seq::<char>::empty());
        assert(backslashes(b) + seq!['"'] + (backslashes(0) + s.subrange(i + 1, s.len() as int)) =~= backslashes(b)
            + s.subrange(i, s.len() as int));
    } else {
        let rest = quote_body(s, i + 1, 0);
        lemma_quote_body_reads_back(s, i + 1, 0);
        lemma_unquote_backslashes(b, seq![s[i]] + rest, 0);
        assert(backslashes(b) + seq![s[i]] + rest =~= backslashes(b) + (seq![s[i]] + rest));
        assert((seq![s[i]] + rest).drop_first() =~= rest);
        assert(backslashes(0) =~= Seq::<char>::empty());
        assert(backslashes(b) + seq![s[i]] + (backslashes(0) + s.subrange(i + 1, s.len() as int)) =~= backslashes(b)
            + s.subrange(i, s.len() as int));
    }
}

/// Quoting round-trips under the Windows argument rules: a word that needs
/// quoting is shown as a quote followed by a body that reads back as the
/// word itself; any other word is shown as it is.
pub proof fn law_quoted_words_read_back(s: Seq<char>)
    ensures
        needs_quote(s) ==> quoted(s).len() >= 1 && quoted(s)[0] == '"' && unquoted_body(quoted(s).drop_first(), 0)
            == Some(s),
        !needs_quote(s) ==> quoted(s) == s,
{
    if needs_quote(s) {
        lemma_quote_body_reads_back(s, 0, 0);
        assert((seq!['"'] + quote_body(s, 0, 0)).drop_first() =~= quote_body(s, 0, 0));
        assert(backslashes(0) + s.subrange(0, s.len() as int) =~= s);
    }
}

} // verus!
