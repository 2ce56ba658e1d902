//! Fallback of the inference probe from a llama.cpp router to the child
//! server of the selected model: child selection, child port discovery and
//! the slot answer of the child.
use vstd::prelude::*;
use crate::server_readiness::ServerEndpoint;
use crate::streaming_probe::StreamingInferenceProbeError;
use crate::strings::{chars_of, decimal, decimal_chars, push_chars, push_str, string_from_chars};
use crate::text::parse_unsigned;
use crate::json::{JsonValue, json_get, json_items, json_member, json_text};
use crate::streaming_probe::{entry_last_used, entry_status, serving_entry, serving_status};

verus! {

/// Largest control response read from a router or child.
pub const FALLBACK_MAX_CONTROL_BYTES: usize = 1048576;

/// A loaded router model with the port of its child server, when reported.
#[derive(Debug, Clone, PartialEq, Eq)]
pub struct RouterChildCandidate {
    pub id: String,
    pub last_used: Option<u64>,
    pub child_port: Option<u16>,
}

/// What a child's `/slots?fail_on_no_slot=1` answered.
#[derive(Debug, Clone, Copy, PartialEq, Eq, Structural)]
pub enum ChildSlotState {
    Available,
    Busy,
    Unsupported,
}

pub open spec fn newest_child(s: Seq<RouterChildCandidate>) -> Option<u64>
    decreases s.len(),
{
    if s.len() == 0 {
        None
    } else {
        let rest = newest_child(s.drop_last());
        match s.last().last_used {
            None => rest,
            Some(v) => match rest {
                None => Some(v),
                Some(m) => Some(if v > m { v } else { m }),
            },
        }
    }
}

pub open spec fn count_child(s: Seq<RouterChildCandidate>, t: u64) -> nat
    decreases s.len(),
{
    if s.len() == 0 {
        0
    } else {
        count_child(s.drop_last(), t) + if s.last().last_used == Some(t) {
            1nat
        } else {
            0nat
        }
    }
}

/// Index of the child the fallback goes to: the only candidate, or the
/// unique most recently used one.
pub open spec fn child_choice(s: Seq<RouterChildCandidate>) -> Option<int> {
    if s.len() == 0 {
        None
    } else if s.len() == 1 {
        Some(0)
    } else {
        match newest_child(s) {
            None => None,
            Some(t) => if count_child(s, t) == 1 {
                Some(choose|i: int| 0 <= i < s.len() && s[i].last_used == Some(t))
            } else {
                None
            },
        }
    }
}

proof fn lemma_count_child_positive(s: Seq<RouterChildCandidate>, t: u64, k: int)
    requires
        0 <= k < s.len(),
        s[k].last_used == Some(t),
    ensures
        count_child(s, t) > 0,
    decreases s.len(),
{
    if k < s.len() - 1 {
        assert(s.drop_last()[k] == s[k]);
        lemma_count_child_positive(s.drop_last(), t, k);
    }
}

proof fn lemma_count_child_unique(s: Seq<RouterChildCandidate>, t: u64, i: int, j: int)
    requires
        count_child(s, t) == 1,
        0 <= i < s.len(),
        0 <= j < s.len(),
        s[i].last_used == Some(t),
        s[j].last_used == Some(t),
    ensures
        i == j,
    decreases s.len(),
{
    let n = s.len() - 1;
    if i != j {
        if i == n || j == n {
            let k = if i == n { j } else { i };
            assert(s.drop_last()[k] == s[k]);
            lemma_count_child_positive(s.drop_last(), t, k);
        } else {
            assert(s.drop_last()[i] == s[i]);
            assert(s.drop_last()[j] == s[j]);
            if s.last().last_used == Some(t) {
                lemma_count_child_positive(s.drop_last(), t, i);
            } else {
                lemma_count_child_unique(s.drop_last(), t, i, j);
            }
        }
    }
}

/// Picks the child whose port the fallback probes.
pub fn select_router_child(candidates: Vec<RouterChildCandidate>) -> (r: Option<RouterChildCandidate>)
    ensures
        match child_choice(candidates@) {
            Some(i) => r == Some(candidates@[i]),
            None => r is None,
        },
{
    let count = candidates.len();
    if count == 0 {
        return None;
    }
    if count == 1 {
        return Some(copy_candidate(&candidates[0]));
    }
    let mut newest: Option<u64> = None;
    let mut i: usize = 0;
    while i < count
        invariant
            count == candidates@.len(),
            i <= count,
            newest == newest_child(candidates@.subrange(0, i as int)),
        decreases count - i,
    {
        let ghost prefix = candidates@.subrange(0, i as int + 1);
        assert(prefix.drop_last() == candidates@.subrange(0, i as int));
        match candidates[i].last_used {
            None => {},
            Some(v) => {
                newest = match newest {
                    None => Some(v),
                    Some(m) => Some(if v > m { v } else { m }),
                };
            },
        }
        i = i + 1;
    }
    assert(candidates@.subrange(0, count as int) == candidates@);
    let t = match newest {
        None => {
            return None;
        },
        Some(t) => t,
    };
    let mut matches: usize = 0;
    let mut found: usize = 0;
    let mut j: usize = 0;
    while j < count
        invariant
            count == candidates@.len(),
            j <= count,
            matches <= j,
            matches == count_child(candidates@.subrange(0, j as int), t),
            matches > 0 ==> found < count && candidates@[found as int].last_used == Some(t),
        decreases count - j,
    {
        let ghost prefix = candidates@.subrange(0, j as int + 1);
        assert(prefix.drop_last() == candidates@.subrange(0, j as int));
        if candidates[j].last_used == Some(t) {
            matches = matches + 1;
            found = j;
        }
        j = j + 1;
    }
    assert(candidates@.subrange(0, count as int) == candidates@);
    if matches != 1 {
        return None;
    }
    proof {
        let w = choose|w: int| 0 <= w < candidates@.len() && candidates@[w].last_used == Some(t);
        lemma_count_child_unique(candidates@, t, w, found as int);
    }
    Some(copy_candidate(&candidates[found]))
}

fn copy_candidate(c: &RouterChildCandidate) -> (r: RouterChildCandidate)
    ensures
        r == *c,
{
    RouterChildCandidate { id: c.id.clone(), last_used: c.last_used, child_port: c.child_port }
}

/// The result of the child's slot query for status `status`.
pub open spec fn child_slot_result(status: u16) -> Result<ChildSlotState, Seq<char>> {
    if 200 <= status <= 299 {
        Ok(ChildSlotState::Available)
    } else if 403 <= status <= 405 {
        Ok(ChildSlotState::Unsupported)
    } else if status == 503 {
        Ok(ChildSlotState::Busy)
    } else {
        Err("autodiscovered child /slots returned HTTP "@ + decimal(status as nat))
    }
}

/// Reads the HTTP status of a child's `/slots` answer.
pub fn child_slot_state(status: u16) -> (r: Result<ChildSlotState, String>)
    ensures
        match child_slot_result(status) {
            Ok(s) => r == Ok::<ChildSlotState, String>(s),
            Err(m) => r matches Err(e) && e@ == m,
        },
{
    if 200 <= status && status <= 299 {
        Ok(ChildSlotState::Available)
    } else if 403 <= status && status <= 405 {
        Ok(ChildSlotState::Unsupported)
    } else if status == 503 {
        Ok(ChildSlotState::Busy)
    } else {
        let mut out: Vec<char> = Vec::new();
        push_str(&mut out, "autodiscovered child /slots returned HTTP ");
        let digits = decimal_chars(status as u64);
        push_chars(&mut out, digits.as_slice());
        Err(string_from_chars(out.as_slice()))
    }
}

/// Whether the probe failed while asking the router for slot availability,
/// the one failure the child fallback answers.
pub open spec fn is_slot_transport_failure(e: StreamingInferenceProbeError) -> bool {
    e matches StreamingInferenceProbeError::Io { phase, .. } && phase@ == "slot availability"@
}

pub fn is_router_slot_transport_failure(error: &StreamingInferenceProbeError) -> (r: bool)
    ensures
        r == is_slot_transport_failure(*error),
{
    match error {
        StreamingInferenceProbeError::Io { phase, .. } => {
            let p = chars_of(phase.as_str());
            let target = chars_of("slot availability");
            crate::text::chars_equal(p.as_slice(), target.as_slice())
        },
        _ => false,
    }
}

/// A router-reported value that may name a port: text, an unsigned number,
/// or anything else.
#[derive(Debug, Clone, PartialEq, Eq)]
pub enum PortValue {
    Text(String),
    Unsigned(u64),
    Other,
}

/// A non-zero `u16` port read from a reported value.
pub open spec fn port_of(v: PortValue) -> Option<u16> {
    match v {
        PortValue::Unsigned(n) => if 0 < n <= 65535 {
            Some(n as u16)
        } else {
            None
        },
        PortValue::Text(s) => match parse_unsigned(s@, 65535) {
            Some(n) => if n > 0 {
                Some(n as u16)
            } else {
                None
            },
            None => None,
        },
        PortValue::Other => None,
    }
}

pub fn parse_port_value(value: &PortValue) -> (r: Option<u16>)
    ensures
        r == port_of(*value),
{
    match value {
        PortValue::Unsigned(n) => {
            if 0 < *n && *n <= 65535 {
                Some(*n as u16)
            } else {
                None
            }
        },
        PortValue::Text(s) => {
            let v = chars_of(s.as_str());
            match crate::text::parse_unsigned_chars(v.as_slice(), 65535) {
                Some(n) => if n > 0 {
                    Some(n as u16)
                } else {
                    None
                },
                None => None,
            }
        },
        PortValue::Other => None,
    }
}

pub open spec fn is_port_flag(s: Seq<char>) -> bool {
    s == "--port"@ || s == "-p"@
}

pub open spec fn text_of(v: PortValue) -> Option<Seq<char>> {
    match v {
        PortValue::Text(s) => Some(s@),
        _ => None,
    }
}

/// The port named by an argument `--port=<n>`.
pub open spec fn inline_port(arg: Seq<char>) -> Option<u16> {
    let prefix = "--port="@;
    if arg.len() >= prefix.len() && arg.subrange(0, prefix.len() as int) == prefix {
        match parse_unsigned(arg.subrange(prefix.len() as int, arg.len() as int), 65535) {
            Some(n) => if n > 0 {
                Some(n as u16)
            } else {
                None
            },
            None => None,
        }
    } else {
        None
    }
}

/// The child port that a router argument list names from index `i` on:
/// `--port N`, `-p N` or `--port=N`.
pub open spec fn port_from_args(args: Seq<PortValue>, i: int) -> Option<u16>
    decreases args.len() + 1 - i,
{
    if i < 0 || i >= args.len() {
        None
    } else {
        match text_of(args[i]) {
            None => port_from_args(args, i + 1),
            Some(a) => if is_port_flag(a) {
                if i + 1 < args.len() && port_of(args[i + 1]) is Some {
                    port_of(args[i + 1])
                } else {
                    port_from_args(args, i + 2)
                }
            } else if inline_port(a) is Some {
                inline_port(a)
            } else {
                port_from_args(args, i + 1)
            },
        }
    }
}

fn inline_port_exec(arg: &[char]) -> (r: Option<u16>)
    ensures
        r == inline_port(arg@),
{
    let prefix = chars_of("--port=");
    let n = prefix.len();
    if arg.len() < n {
        return None;
    }
    let head = crate::text::copy_range(arg, 0, n);
    if !crate::text::chars_equal(head.as_slice(), prefix.as_slice()) {
        return None;
    }
    let rest = crate::text::copy_range(arg, n, arg.len());
    match crate::text::parse_unsigned_chars(rest.as_slice(), 65535) {
        Some(v) => if v > 0 {
            Some(v as u16)
        } else {
            None
        },
        None => None,
    }
}

/// The child server port named in a router model's argument list.
pub fn child_port_from_args(args: &[PortValue]) -> (r: Option<u16>)
    ensures
        r == port_from_args(args@, 0),
{
    let flag_long = chars_of("--port");
    let flag_short = chars_of("-p");
    let mut index: usize = 0;
    while index < args.len()
        invariant
            flag_long@ == "--port"@,
            flag_short@ == "-p"@,
            port_from_args(args@, 0) == port_from_args(args@, index as int),
        decreases args@.len() - index,
    {
        match &args[index] {
            PortValue::Text(s) => {
                let a = chars_of(s.as_str());
                if crate::text::chars_equal(a.as_slice(), flag_long.as_slice())
                    || crate::text::chars_equal(a.as_slice(), flag_short.as_slice()) {
                    if index + 1 < args.len() {
                        match parse_port_value(&args[index + 1]) {
                            Some(port) => {
                                return Some(port);
                            },
                            None => {},
                        }
                    }
                    if args.len() - index <= 2 {
                        assert(port_from_args(args@, index + 2) is None);
                        return None;
                    }
                    index = index + 2;
                } else {
                    match inline_port_exec(a.as_slice()) {
                        Some(port) => {
                            return Some(port);
                        },
                        None => {},
                    }
                    index = index + 1;
                }
            },
            _ => {
                index = index + 1;
            },
        }
    }
    None
}

/// The port of `candidate`'s child server, unless it is missing or the
/// router's own port.
pub open spec fn fallback_port(candidate: RouterChildCandidate, router_port: u16) -> Option<u16> {
    match candidate.child_port {
        Some(p) => if p != router_port {
            Some(p)
        } else {
            None
        },
        None => None,
    }
}

/// The loopback endpoint of the selected child, carrying the router's API
/// key, when the candidate reports a usable port.
pub fn child_endpoint(endpoint: &ServerEndpoint, candidate: &RouterChildCandidate) -> (r: Option<
    ServerEndpoint,
>)
    ensures
        match fallback_port(*candidate, endpoint.port) {
            None => r is None,
            Some(p) => (r matches Some(c) && c.host@ == "127.0.0.1"@ && c.port == p && c.api_key
                == endpoint.api_key && !c.allow_non_loopback),
        },
{
    match candidate.child_port {
        Some(p) => {
            if p == endpoint.port {
                return None;
            }
            let mut child = ServerEndpoint::loopback(p);
            child.api_key = endpoint.api_key.clone();
            Some(child)
        },
        None => None,
    }
}

/// After each read of a fallback control reply: more than
/// `FALLBACK_MAX_CONTROL_BYTES` is an error; the reply is complete once its
/// declared size has arrived.
pub fn fallback_read_step(received: &[u8]) -> (r: Result<bool, String>)
    ensures
        received@.len() > FALLBACK_MAX_CONTROL_BYTES ==> (r matches Err(m) && m@ == "control response exceeded 1048576 bytes"@),
        received@.len() <= FALLBACK_MAX_CONTROL_BYTES ==> r == Ok::<bool, String>(
            crate::streaming_probe::declared_total(received@) matches Some(t) && received@.len() >= t,
        ),
{
    if received.len() > FALLBACK_MAX_CONTROL_BYTES {
        return Err("control response exceeded 1048576 bytes".to_owned());
    }
    let sep: Vec<u8> = vec![13u8, 10u8, 13u8, 10u8];
    assert(sep@ =~= seq![13u8, 10u8, 13u8, 10u8]);
    let h = match crate::streaming_probe::find_bytes(received, sep.as_slice()) {
        None => {
            return Ok(false);
        },
        Some(h) => h,
    };
    let head = crate::streaming_probe::byte_range(received, 0, h);
    match crate::streaming_probe::parse_content_length(head.as_slice()) {
        None => Ok(false),
        Some(cl) => {
            let total: u128 = h as u128 + 4 + cl as u128;
            Ok(received.len() as u128 >= total)
        },
    }
}

/// Reads a finished fallback control reply: status and body, the body cut to
/// a declared length.
pub fn finish_fallback_response(received: &[u8]) -> (r: Result<(u16, Vec<u8>), String>)
    ensures
        match crate::streaming_probe::head_end(received@) {
            None => r matches Err(m) && m@ == "control response ended before HTTP headers completed"@,
            Some(h) => match crate::text::status_code_of(crate::strings::utf8_lossy(received@.subrange(0, h))) {
                None => r matches Err(m) && m@ == "control response returned an invalid HTTP status line"@,
                Some(code) => r matches Ok((c, body)) && c == code && body@ == match crate::streaming_probe::content_length_of(received@.subrange(0, h)) {
                    Some(cl) => crate::streaming_probe::truncated(received@.subrange(h + 4, received@.len() as int), cl as int),
                    None => received@.subrange(h + 4, received@.len() as int),
                },
            },
        },
{
    let sep: Vec<u8> = vec![13u8, 10u8, 13u8, 10u8];
    assert(sep@ =~= seq![13u8, 10u8, 13u8, 10u8]);
    let h = match crate::streaming_probe::find_bytes(received, sep.as_slice()) {
        None => {
            return Err("control response ended before HTTP headers completed".to_owned());
        },
        Some(h) => h,
    };
    let head = crate::streaming_probe::byte_range(received, 0, h);
    let code = match crate::streaming_probe::parse_status_code(head.as_slice()) {
        Err(_) => {
            return Err("control response returned an invalid HTTP status line".to_owned());
        },
        Ok(c) => c,
    };
    let n = received.len();
    let rest = crate::streaming_probe::byte_range(received, h + 4, n);
    let body = match crate::streaming_probe::parse_content_length(head.as_slice()) {
        Some(cl) => if rest.len() <= cl {
            rest
        } else {
            crate::streaming_probe::byte_range(rest.as_slice(), 0, cl)
        },
        None => rest,
    };
    Ok((code, body))
}

/// What the fallback does once the child's slot answer is known: a busy
/// child ends the probe with `Busy`, anything else lets it go on.
pub fn after_child_slot(slot: &Result<ChildSlotState, String>, model: String) -> (r: Result<
    (),
    StreamingInferenceProbeError,
>)
    ensures
        (*slot == Ok::<ChildSlotState, String>(ChildSlotState::Busy)) ==> r == Err::<(), _>(
            StreamingInferenceProbeError::Busy { model },
        ),
        (*slot != Ok::<ChildSlotState, String>(ChildSlotState::Busy)) ==> r is Ok,
{
    match slot {
        Ok(ChildSlotState::Busy) => Err(StreamingInferenceProbeError::Busy { model }),
        _ => Ok(()),
    }
}


/// How a JSON value reads as a port: an unsigned number, a text, or neither.
pub open spec fn json_port_value(v: JsonValue) -> PortValue {
    match v {
        JsonValue::Number(n) => match n.as_u64 {
            Some(x) => PortValue::Unsigned(x),
            None => PortValue::Other,
        },
        JsonValue::String(s) => PortValue::Text(s),
        _ => PortValue::Other,
    }
}

pub fn to_port_value(v: &JsonValue) -> (r: PortValue)
    ensures
        r == json_port_value(*v),
{
    match v {
        JsonValue::Number(n) => match n.as_u64 {
            Some(x) => PortValue::Unsigned(x),
            None => PortValue::Other,
        },
        JsonValue::String(s) => PortValue::Text(s.clone()),
        _ => PortValue::Other,
    }
}

/// The port reading of an optional member.
pub open spec fn member_port(v: Option<JsonValue>) -> Option<u16> {
    match v {
        Some(x) => port_of(json_port_value(x)),
        None => None,
    }
}

/// The child server port a router reports for a model: its `port`, else
/// `/status/port`, else the port in `/status/args`.
pub open spec fn model_child_port(m: JsonValue) -> Option<u16> {
    let direct = member_port(json_get(m, "port"@));
    let status = json_get(m, "status"@);
    let nested = member_port(json_member(status, "port"@));
    if direct is Some {
        direct
    } else if nested is Some {
        nested
    } else {
        match json_items(json_member(status, "args"@)) {
            Some(a) => port_from_args(a.map_values(|x: JsonValue| json_port_value(x)), 0),
            None => None,
        }
    }
}

fn member_port_exec(v: Option<&JsonValue>) -> (r: Option<u16>)
    ensures
        r == member_port(crate::router::opt_value(v)),
{
    match v {
        Some(x) => {
            let pv = to_port_value(x);
            parse_port_value(&pv)
        },
        None => None,
    }
}

/// The child server port a router reports for a model.
pub fn child_port_from_model(model: &JsonValue) -> (r: Option<u16>)
    ensures
        r == model_child_port(*model),
{
    let direct = member_port_exec(model.get("port"));
    if direct.is_some() {
        return direct;
    }
    let status = model.get("status");
    let nested = match status {
        Some(st) => member_port_exec(st.get("port")),
        None => None,
    };
    if nested.is_some() {
        return nested;
    }
    let args = match status {
        Some(st) => match st.get("args") {
            Some(a) => a.as_array(),
            None => None,
        },
        None => None,
    };
    match args {
        Some(items) => {
            let mut converted: Vec<PortValue> = Vec::new();
            let mut i: usize = 0;
            while i < items.len()
                invariant
                    i <= items@.len(),
                    converted@ == items@.subrange(0, i as int).map_values(|x: JsonValue| json_port_value(x)),
                decreases items@.len() - i,
            {
                converted.push(to_port_value(&items[i]));
                assert(converted@ =~= items@.subrange(0, i + 1).map_values(|x: JsonValue| json_port_value(x)));
                i = i + 1;
            }
            assert(items@.subrange(0, items@.len() as int) =~= items@);
            child_port_from_args(converted.as_slice())
        },
        None => None,
    }
}

/// `cs` lists the serving entries of `ms` in order, each with its id, last
/// use and reported child port.
pub open spec fn child_candidates(cs: Seq<RouterChildCandidate>, ms: Seq<JsonValue>) -> bool
    decreases ms.len(),
{
    if ms.len() == 0 {
        cs.len() == 0
    } else if serving_entry(ms.last()) {
        &&& cs.len() > 0
        &&& cs.last().id@ == json_text(json_get(ms.last(), "id"@))->0
        &&& cs.last().last_used == entry_last_used(ms.last())
        &&& cs.last().child_port == model_child_port(ms.last())
        &&& child_candidates(cs.drop_last(), ms.drop_last())
    } else {
        child_candidates(cs, ms.drop_last())
    }
}

/// The serving models of a router list with their child ports.
pub fn router_children(ms: &Vec<JsonValue>) -> (r: Vec<RouterChildCandidate>)
    ensures
        child_candidates(r@, ms@),
{
    let mut out: Vec<RouterChildCandidate> = Vec::new();
    let mut i: usize = 0;
    while i < ms.len()
        invariant
            i <= ms@.len(),
            child_candidates(out@, ms@.subrange(0, i as int)),
        decreases ms@.len() - i,
    {
        let ghost pre = ms@.subrange(0, i as int);
        let ghost next = ms@.subrange(0, i + 1);
        assert(next.drop_last() =~= pre);
        assert(next.last() == ms@[i as int]);
        let (id, status) = crate::streaming_probe::entry_id_and_status(&ms[i]);
        match id {
            Some(id) => {
                let serving = match status {
                    Some(t) => crate::streaming_probe::is_serving_status(t),
                    None => false,
                };
                if serving {
                    let last_used = crate::streaming_probe::entry_last_used_exec(&ms[i]);
                    let child_port = child_port_from_model(&ms[i]);
                    let ghost before = out@;
                    out.push(RouterChildCandidate { id: id.to_owned(), last_used, child_port });
                    assert(out@.drop_last() =~= before);
                }
            },
            None => {},
        }
        i = i + 1;
    }
    assert(ms@.subrange(0, ms@.len() as int) =~= ms@);
    out
}

/// The child endpoint that the fallback probes, read from a loopback
/// router's `/models` answer; `loopback` says whether the router endpoint
/// resolved to loopback addresses only.
pub fn router_child_from_listing(endpoint: &ServerEndpoint, loopback: bool, status: u16, body: &[u8]) -> (r: Result<Option<(String, ServerEndpoint)>, String>)
    ensures
        !loopback ==> r == Ok::<Option<(String, ServerEndpoint)>, String>(None),
        loopback && !(200 <= status <= 299) ==> r == Ok::<Option<(String, ServerEndpoint)>, String>(None),
        loopback && 200 <= status <= 299 ==> match crate::json::json_document_bytes(body@) {
            Err(m) => r matches Err(e) && e@ == m,
            Ok(v) => match json_items(json_get(v, "data"@)) {
                None => r == Ok::<Option<(String, ServerEndpoint)>, String>(None),
                Some(ms) => exists|cs: Seq<RouterChildCandidate>| child_candidates(cs, ms) && match child_choice(cs) {
                    None => r == Ok::<Option<(String, ServerEndpoint)>, String>(None),
                    Some(i) => match fallback_port(cs[i], endpoint.port) {
                        None => r == Ok::<Option<(String, ServerEndpoint)>, String>(None),
                        Some(p) => r matches Ok(Some((id, c))) && id == cs[i].id && c.host@ == "127.0.0.1"@ && c.port == p
                            && c.api_key == endpoint.api_key && !c.allow_non_loopback,
                    },
                },
            },
        },
{
    if !loopback {
        return Ok(None);
    }
    if !(200 <= status && status <= 299) {
        return Ok(None);
    }
    let payload = match crate::json::parse_json_bytes(body) {
        Ok(v) => v,
        Err(m) => {
            return Err(m);
        },
    };
    let models = match payload.get("data") {
        Some(d) => match d.as_array() {
            Some(a) => a,
            None => {
                return Ok(None);
            },
        },
        None => {
            return Ok(None);
        },
    };
    let candidates = router_children(models);
    let ghost cs = candidates@;
    let r = match select_router_child(candidates) {
        None => Ok(None),
        Some(c) => match child_endpoint(endpoint, &c) {
            None => Ok(None),
            Some(child) => Ok(Some((c.id, child))),
        },
    };
    assert(child_candidates(cs, models@));
    r
}

} // verus!
