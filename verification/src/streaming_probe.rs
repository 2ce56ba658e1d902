//! Request-bound llama.cpp inference probe: router model selection, slot
//! availability, HTTP request construction and response framing.
use vstd::prelude::*;
use vstd::string::StringSliceAdditionalSpecFns;
use crate::server_readiness::{ServerEndpoint, authority_of};
use crate::strings::{chars_of, lossy_chars, push_str, string_from_chars, utf8_lossy};
use crate::text::{content_length_from, content_length_from_text, status_code_from_text, status_code_of};
use crate::json::{JsonValue, json_get, json_items, json_member, json_text, json_uint};

verus! {

/// Largest buffered control response.
pub const MAX_CONTROL_BYTES: usize = 262144;

/// Largest streamed completion response.
pub const MAX_STREAM_BYTES: usize = 524288;

#[derive(Debug, Clone, PartialEq, Eq)]
pub enum StreamingInferenceProbeError {
    InvalidPort,
    InvalidApiKey,
    HostResolution { host: String, message: String },
    NonLoopbackDenied { host: String },
    Connect { endpoint: String, message: String },
    Io { phase: String, message: String },
    ResponseTooLarge { limit: usize },
    InvalidStatusLine,
    HttpRejected { status_code: u16 },
    MissingHeaders,
    NoLoadedRouterModel,
    AmbiguousRouterModels { count: usize },
    Busy { model: String },
    MissingFirstToken,
    MissingTimings,
    TelemetryParse(String),
}

/// A model the router reports as loaded or sleeping.
#[derive(Debug, Clone)]
pub struct RouterModelCandidate {
    pub id: String,
    pub last_used: Option<u64>,
}

/// The most recent `last_used` among the candidates that report one.
pub open spec fn newest_last_used(s: Seq<RouterModelCandidate>) -> Option<u64>
    decreases s.len(),
{
    if s.len() == 0 {
        None
    } else {
        let rest = newest_last_used(s.drop_last());
        match s.last().last_used {
            None => rest,
            Some(v) => match rest {
                None => Some(v),
                Some(m) => Some(if v > m { v } else { m }),
            },
        }
    }
}

/// How many candidates report `last_used == Some(t)`.
pub open spec fn count_last_used(s: Seq<RouterModelCandidate>, t: u64) -> nat
    decreases s.len(),
{
    if s.len() == 0 {
        0
    } else {
        count_last_used(s.drop_last(), t) + if s.last().last_used == Some(t) {
            1nat
        } else {
            0nat
        }
    }
}

/// The model a probe goes to when the router has `loaded` models: the only
/// one, or the unique most recently used one.
pub open spec fn router_model_choice(loaded: Seq<RouterModelCandidate>) -> Option<int> {
    if loaded.len() == 1 {
        Some(0)
    } else {
        match newest_last_used(loaded) {
            None => None,
            Some(t) => if count_last_used(loaded, t) == 1 {
                Some(choose|i: int| 0 <= i < loaded.len() && loaded[i].last_used == Some(t))
            } else {
                None
            },
        }
    }
}

proof fn lemma_count_positive_witness(s: Seq<RouterModelCandidate>, t: u64)
    requires
        count_last_used(s, t) > 0,
    ensures
        exists|i: int| 0 <= i < s.len() && s[i].last_used == Some(t),
    decreases s.len(),
{
    if s.last().last_used != Some(t) {
        lemma_count_positive_witness(s.drop_last(), t);
        let i = choose|i: int| 0 <= i < s.drop_last().len() && s.drop_last()[i].last_used == Some(t);
        assert(s[i] == s.drop_last()[i]);
    }
}

proof fn lemma_count_one_unique(s: Seq<RouterModelCandidate>, t: u64, i: int, j: int)
    requires
        count_last_used(s, t) == 1,
        0 <= i < s.len(),
        0 <= j < s.len(),
        s[i].last_used == Some(t),
        s[j].last_used == Some(t),
    ensures
        i == j,
    decreases s.len(),
{
    let n = s.len() - 1;
    if i != j {
        if i == n || j == n {
            let k = if i == n { j } else { i };
            assert(s.drop_last()[k] == s[k]);
            lemma_count_positive_for(s.drop_last(), t, k);
        } else {
            assert(s.drop_last()[i] == s[i]);
            assert(s.drop_last()[j] == s[j]);
            if s.last().last_used == Some(t) {
                lemma_count_positive_for(s.drop_last(), t, i);
            } else {
                lemma_count_one_unique(s.drop_last(), t, i, j);
            }
        }
    }
}

proof fn lemma_count_positive_for(s: Seq<RouterModelCandidate>, t: u64, k: int)
    requires
        0 <= k < s.len(),
        s[k].last_used == Some(t),
    ensures
        count_last_used(s, t) > 0,
    decreases s.len(),
{
    if k < s.len() - 1 {
        assert(s.drop_last()[k] == s[k]);
        lemma_count_positive_for(s.drop_last(), t, k);
    }
}

/// Picks the router model to probe among the `loaded` candidates.
pub fn select_loaded_router_model(loaded: Vec<RouterModelCandidate>) -> (r: Result<
    String,
    StreamingInferenceProbeError,
>)
    ensures
        loaded@.len() == 0 ==> r == Err::<String, _>(StreamingInferenceProbeError::NoLoadedRouterModel),
        loaded@.len() > 0 ==> match router_model_choice(loaded@) {
            Some(i) => r == Ok::<String, StreamingInferenceProbeError>(loaded@[i].id),
            None => r == Err::<String, _>(
                StreamingInferenceProbeError::AmbiguousRouterModels { count: loaded@.len() as usize },
            ),
        },
{
    let count = loaded.len();
    if count == 0 {
        return Err(StreamingInferenceProbeError::NoLoadedRouterModel);
    }
    if count == 1 {
        return Ok(loaded[0].id.clone());
    }
    let mut newest: Option<u64> = None;
    let mut i: usize = 0;
    while i < count
        invariant
            count == loaded@.len(),
            i <= count,
            newest == newest_last_used(loaded@.subrange(0, i as int)),
        decreases count - i,
    {
        let ghost prefix = loaded@.subrange(0, i as int + 1);
        assert(prefix.drop_last() == loaded@.subrange(0, i as int));
        match loaded[i].last_used {
            None => {},
            Some(v) => {
                newest = match newest {
                    None => Some(v),
                    Some(m) => Some(if v > m { v } else { m }),
                };
            },
        }
        i = i + 1;
    }
    assert(loaded@.subrange(0, count as int) == loaded@);
    let t = match newest {
        None => {
            return Err(StreamingInferenceProbeError::AmbiguousRouterModels { count });
        },
        Some(t) => t,
    };
    let mut matches: usize = 0;
    let mut found: usize = 0;
    let mut j: usize = 0;
    while j < count
        invariant
            count == loaded@.len(),
            j <= count,
            matches == count_last_used(loaded@.subrange(0, j as int), t),
            matches <= j,
            matches > 0 ==> found < count && loaded@[found as int].last_used == Some(t),
        decreases count - j,
    {
        let ghost prefix = loaded@.subrange(0, j as int + 1);
        assert(prefix.drop_last() == loaded@.subrange(0, j as int));
        if loaded[j].last_used == Some(t) {
            matches = matches + 1;
            found = j;
        }
        j = j + 1;
    }
    assert(loaded@.subrange(0, count as int) == loaded@);
    if matches != 1 {
        return Err(StreamingInferenceProbeError::AmbiguousRouterModels { count });
    }
    proof {
        let w = choose|w: int| 0 <= w < loaded@.len() && loaded@[w].last_used == Some(t);
        lemma_count_one_unique(loaded@, t, w, found as int);
    }
    Ok(loaded[found].id.clone())
}

/// Reads the status of a router slot query for `model`.
pub fn router_slot_status(status: u16, model: &str) -> (r: Result<(), StreamingInferenceProbeError>)
    ensures
        r is Ok <==> (200 <= status <= 299 || 403 <= status <= 405),
        status == 503 ==> (r matches Err(StreamingInferenceProbeError::Busy { model: m }) && m@ == model@),
        !(200 <= status <= 299 || 403 <= status <= 405 || status == 503) ==> r == Err::<(), _>(
            StreamingInferenceProbeError::HttpRejected { status_code: status },
        ),
{
    if (200 <= status && status <= 299) || (403 <= status && status <= 405) {
        Ok(())
    } else if status == 503 {
        let v = chars_of(model);
        Err(StreamingInferenceProbeError::Busy { model: string_from_chars(v.as_slice()) })
    } else {
        Err(StreamingInferenceProbeError::HttpRejected { status_code: status })
    }
}

/// Whether a byte stays as it is in a query value.
pub open spec fn is_unreserved(b: u8) -> bool {
    ||| (0x30 <= b && b <= 0x39)
    ||| (0x41 <= b && b <= 0x5a)
    ||| (0x61 <= b && b <= 0x7a)
    ||| b == 0x2d
    ||| b == 0x2e
    ||| b == 0x5f
    ||| b == 0x7e
}

/// Upper-case hexadecimal digit.
pub open spec fn hex_digit(d: nat) -> char {
    if d < 10 {
        ((d + 48) as u32) as char
    } else {
        ((d + 55) as u32) as char
    }
}

pub open spec fn encode_byte(b: u8) -> Seq<char> {
    if is_unreserved(b) {
        seq![(b as u32) as char]
    } else {
        seq!['%', hex_digit((b / 16) as nat), hex_digit((b % 16) as nat)]
    }
}

/// Percent-encoding of `bytes` for a query value.
pub open spec fn percent_encoded(bytes: Seq<u8>) -> Seq<char>
    decreases bytes.len(),
{
    if bytes.len() == 0 {
        Seq::empty()
    } else {
        percent_encoded(bytes.drop_last()) + encode_byte(bytes.last())
    }
}

fn hex_char(d: u8) -> (c: char)
    requires
        d < 16,
    ensures
        c == hex_digit(d as nat),
{
    if d < 10 {
        crate::text::char_from_ascii((d as u32) + 48)
    } else {
        crate::text::char_from_ascii((d as u32) + 55)
    }
}

/// Percent-encodes the UTF-8 bytes of `value` for a query string.
pub fn percent_encode_query(value: &str) -> (r: String)
    ensures
        r@ == percent_encoded(value.spec_bytes()),
{
    let bytes = value.as_bytes();
    let mut out: Vec<char> = Vec::new();
    let mut i: usize = 0;
    while i < bytes.len()
        invariant
            bytes@ == value.spec_bytes(),
            i <= bytes@.len(),
            out@ == percent_encoded(bytes@.subrange(0, i as int)),
        decreases bytes@.len() - i,
    {
        let b = bytes[i];
        let ghost prefix = bytes@.subrange(0, i as int + 1);
        assert(prefix.drop_last() == bytes@.subrange(0, i as int));
        let unreserved = (0x30 <= b && b <= 0x39) || (0x41 <= b && b <= 0x5a) || (0x61 <= b && b
            <= 0x7a) || b == 0x2d || b == 0x2e || b == 0x5f || b == 0x7e;
        if unreserved {
            out.push(crate::text::char_from_ascii(b as u32));
        } else {
            out.push('%');
            out.push(hex_char(b / 16));
            out.push(hex_char(b % 16));
        }
        i = i + 1;
    }
    assert(bytes@.subrange(0, bytes@.len() as int) == bytes@);
    string_from_chars(out.as_slice())
}

/// First position at or after `i` where `needle` occurs in `hay`.
pub open spec fn first_match(hay: Seq<u8>, needle: Seq<u8>, i: int) -> Option<int>
    decreases hay.len() + 1 - i,
{
    if i < 0 || i + needle.len() > hay.len() {
        None
    } else if hay.subrange(i, i + needle.len()) == needle {
        Some(i)
    } else {
        first_match(hay, needle, i + 1)
    }
}

/// `haystack.windows(needle.len()).position(|w| w == needle)`.
pub fn find_bytes(haystack: &[u8], needle: &[u8]) -> (r: Option<usize>)
    requires
        needle@.len() > 0,
    ensures
        r is Some <==> first_match(haystack@, needle@, 0) is Some,
        r is Some ==> first_match(haystack@, needle@, 0) == Some(r->0 as int),
        r is Some ==> r->0 + needle@.len() <= haystack@.len(),
{
    let n = needle.len();
    if n > haystack.len() {
        return None;
    }
    let mut i: usize = 0;
    let last = haystack.len() - n;
    while i <= last
        invariant
            n == needle@.len() > 0,
            last + n == haystack@.len(),
            i <= last + 1,
            first_match(haystack@, needle@, 0) == first_match(haystack@, needle@, i as int),
        decreases last + 1 - i,
    {
        let mut k: usize = 0;
        let mut same = true;
        while k < n
            invariant
                n == needle@.len(),
                i + n <= haystack@.len(),
                haystack@.len() == haystack.len(),
                k <= n,
                same == (forall|m: int| 0 <= m < k ==> haystack@[i + m] == needle@[m]),
            decreases n - k,
        {
            if haystack[i + k] != needle[k] {
                same = false;
            }
            k = k + 1;
        }
        if same {
            assert(haystack@.subrange(i as int, i + n) =~= needle@);
            return Some(i);
        } else {
            let ghost w = choose|m: int| 0 <= m < n && haystack@[i + m] != needle@[m];
            assert(haystack@.subrange(i as int, i + n)[w] != needle@[w]);
        }
        assert(i < last + 1);
        i = i + 1;
    }
    None
}

/// The status code that `parse_status_code` reads from response headers.
pub open spec fn status_of_headers(headers: Seq<u8>) -> Result<u16, StreamingInferenceProbeError> {
    match status_code_of(utf8_lossy(headers)) {
        Some(v) => Ok(v),
        None => Err(StreamingInferenceProbeError::InvalidStatusLine),
    }
}

/// Status code of the first line of the lossily decoded `headers`.
pub fn parse_status_code(headers: &[u8]) -> (r: Result<u16, StreamingInferenceProbeError>)
    ensures
        r == status_of_headers(headers@),
{
    let text = lossy_chars(headers);
    match status_code_from_text(text.as_slice()) {
        Some(v) => Ok(v),
        None => Err(StreamingInferenceProbeError::InvalidStatusLine),
    }
}

/// The `Content-Length` that `parse_content_length` reads from headers.
pub open spec fn content_length_of(headers: Seq<u8>) -> Option<usize> {
    match content_length_from(utf8_lossy(headers), 0, usize::MAX as nat) {
        Some(v) => Some(v as usize),
        None => None,
    }
}

/// The first `Content-Length` header (name compared case-insensitively) of
/// the lossily decoded `headers`, read as a `usize`.
pub fn parse_content_length(headers: &[u8]) -> (r: Option<usize>)
    ensures
        r == content_length_of(headers@),
{
    let text = lossy_chars(headers);
    proof {
        crate::text::lemma_content_length_bound(text@, 0, usize::MAX as nat);
    }
    match content_length_from_text(text.as_slice(), usize::MAX as u64) {
        Some(v) => Some(v as usize),
        None => None,
    }
}

/// Whether an API key would split the request head.
pub open spec fn api_key_is_invalid(endpoint: ServerEndpoint) -> bool {
    match endpoint.api_key {
        Some(k) => k@.contains('\r') || k@.contains('\n'),
        None => false,
    }
}

/// Port zero is refused before any address is resolved.
pub fn check_probe_port(endpoint: &ServerEndpoint) -> (r: Result<(), StreamingInferenceProbeError>)
    ensures
        endpoint.port == 0 ==> r == Err::<(), _>(StreamingInferenceProbeError::InvalidPort),
        endpoint.port != 0 ==> r is Ok,
{
    if endpoint.port == 0 {
        Err(StreamingInferenceProbeError::InvalidPort)
    } else {
        Ok(())
    }
}

/// The resolved addresses may be probed only if there is one and, without
/// the endpoint's opt-in, all are loopback addresses.
pub fn check_probe_addresses(endpoint: &ServerEndpoint, address_count: usize, any_non_loopback: bool) -> (r: Result<(), StreamingInferenceProbeError>)
    ensures
        address_count == 0 ==> (r matches Err(StreamingInferenceProbeError::HostResolution { host, message }) && host@ == endpoint.host@
            && message@ == "host resolved to no addresses"@),
        address_count > 0 && any_non_loopback && !endpoint.allow_non_loopback ==> (r matches Err(
            StreamingInferenceProbeError::NonLoopbackDenied { host },
        ) && host@ == endpoint.host@),
        address_count > 0 && !(any_non_loopback && !endpoint.allow_non_loopback) ==> r is Ok,
{
    if address_count == 0 {
        return Err(StreamingInferenceProbeError::HostResolution {
            host: endpoint.host.clone(),
            message: "host resolved to no addresses".to_owned(),
        });
    }
    if any_non_loopback && !endpoint.allow_non_loopback {
        return Err(StreamingInferenceProbeError::NonLoopbackDenied { host: endpoint.host.clone() });
    }
    Ok(())
}

/// Rejects an API key that holds CR or LF.
pub fn validate_api_key(endpoint: &ServerEndpoint) -> (r: Result<(), StreamingInferenceProbeError>)
    ensures
        api_key_is_invalid(*endpoint) ==> r == Err::<(), _>(StreamingInferenceProbeError::InvalidApiKey),
        !api_key_is_invalid(*endpoint) ==> r is Ok,
{
    match &endpoint.api_key {
        Some(key) => {
            if crate::strings::contains_char(key.as_str(), '\r') || crate::strings::contains_char(
                key.as_str(),
                '\n',
            ) {
                Err(StreamingInferenceProbeError::InvalidApiKey)
            } else {
                Ok(())
            }
        },
        None => Ok(()),
    }
}

/// The authorization header line that a configured API key adds.
pub open spec fn auth_header(endpoint: ServerEndpoint) -> Seq<char> {
    match endpoint.api_key {
        Some(k) => "Authorization: Bearer "@ + k@ + "\r\n"@,
        None => Seq::empty(),
    }
}

/// Appends the authorization header when the endpoint has an API key.
pub fn append_auth_header(request: &mut Vec<char>, endpoint: &ServerEndpoint)
    ensures
        final(request)@ == old(request)@ + auth_header(*endpoint),
{
    match &endpoint.api_key {
        Some(key) => {
            push_str(request, "Authorization: Bearer ");
            push_str(request, key.as_str());
            push_str(request, "\r\n");
        },
        None => {},
    }
}

/// The bodiless GET request that control queries send.
pub open spec fn get_request(endpoint: ServerEndpoint, path: Seq<char>) -> Seq<char> {
    "GET "@ + path + " HTTP/1.1\r\nHost: "@ + authority_of(endpoint.host@, endpoint.port)
        + "\r\nConnection: close\r\nAccept: application/json\r\n"@ + auth_header(endpoint)
        + "\r\n"@
}

/// Renders a bodiless GET request for `path`.
pub fn build_get_request(endpoint: &ServerEndpoint, path: &str) -> (r: String)
    ensures
        r@ == get_request(*endpoint, path@),
{
    let mut request: Vec<char> = Vec::new();
    push_str(&mut request, "GET ");
    push_str(&mut request, path);
    push_str(&mut request, " HTTP/1.1\r\nHost: ");
    let authority = endpoint.authority();
    push_str(&mut request, authority.as_str());
    push_str(&mut request, "\r\nConnection: close\r\nAccept: application/json\r\n");
    append_auth_header(&mut request, endpoint);
    push_str(&mut request, "\r\n");
    string_from_chars(request.as_slice())
}

/// Path of the slot query for a model with UTF-8 bytes `model`.
pub open spec fn slot_path(model: Seq<u8>) -> Seq<char> {
    "/slots?model="@ + percent_encoded(model) + "&fail_on_no_slot=1"@
}

/// Renders the slot query path for `model`.
pub fn slot_query_path(model: &str) -> (r: String)
    ensures
        r@ == slot_path(model.spec_bytes()),
{
    let mut path: Vec<char> = Vec::new();
    push_str(&mut path, "/slots?model=");
    let encoded = percent_encode_query(model);
    push_str(&mut path, encoded.as_str());
    push_str(&mut path, "&fail_on_no_slot=1");
    string_from_chars(path.as_slice())
}


/// The bytes `s[a..b]`.
pub fn byte_range(s: &[u8], a: usize, b: usize) -> (r: Vec<u8>)
    requires
        a <= b <= s@.len(),
    ensures
        r@ == s@.subrange(a as int, b as int),
{
    let mut out: Vec<u8> = Vec::new();
    let mut i: usize = a;
    while i < b
        invariant
            a <= i <= b,
            b <= s@.len(),
            out@ == s@.subrange(a as int, i as int),
        decreases b - i,
    {
        out.push(s[i]);
        assert(out@ =~= s@.subrange(a as int, i + 1));
        i = i + 1;
    }
    out
}


/// The status text of a router model entry (`/status/value`).
pub open spec fn entry_status(m: JsonValue) -> Option<Seq<char>> {
    json_text(json_member(json_get(m, "status"@), "value"@))
}

/// When a router model entry was last used: `/status/last_used`, else
/// `last_used`, else `last_used_ms`.
pub open spec fn entry_last_used(m: JsonValue) -> Option<u64> {
    let a = json_uint(json_member(json_get(m, "status"@), "last_used"@));
    let b = json_uint(json_get(m, "last_used"@));
    if a is Some {
        a
    } else if b is Some {
        b
    } else {
        json_uint(json_get(m, "last_used_ms"@))
    }
}

/// A status under which the model can take a request.
pub open spec fn serving_status(t: Option<Seq<char>>) -> bool {
    t == Some("loaded"@) || t == Some("sleeping"@)
}

/// An entry with a string id whose status is loaded or sleeping.
pub open spec fn serving_entry(m: JsonValue) -> bool {
    json_text(json_get(m, "id"@)) is Some && serving_status(entry_status(m))
}

/// `cs` lists the serving entries of `ms` in order, each with its id and
/// last use.
pub open spec fn serving_candidates(cs: Seq<RouterModelCandidate>, ms: Seq<JsonValue>) -> bool
    decreases ms.len(),
{
    if ms.len() == 0 {
        cs.len() == 0
    } else if serving_entry(ms.last()) {
        &&& cs.len() > 0
        &&& cs.last().id@ == json_text(json_get(ms.last(), "id"@))->0
        &&& cs.last().last_used == entry_last_used(ms.last())
        &&& serving_candidates(cs.drop_last(), ms.drop_last())
    } else {
        serving_candidates(cs, ms.drop_last())
    }
}

/// Whether some entry with an id reports a non-empty status, the mark of a
/// router's model list.
pub open spec fn router_shaped(ms: Seq<JsonValue>) -> bool {
    exists|i: int| 0 <= i < ms.len() && #[trigger] shaped_entry(ms[i])
}

/// An entry with a string id and a non-empty status text.
pub open spec fn shaped_entry(m: JsonValue) -> bool {
    json_text(json_get(m, "id"@)) is Some && match entry_status(m) {
        Some(t) => t.len() > 0,
        None => false,
    }
}

/// The last-use reading of an entry.
pub fn entry_last_used_exec(m: &JsonValue) -> (r: Option<u64>)
    ensures
        r == entry_last_used(*m),
{
    let a = match m.get("status") {
        Some(st) => match st.get("last_used") {
            Some(x) => x.as_u64(),
            None => None,
        },
        None => None,
    };
    if a.is_some() {
        return a;
    }
    let b = match m.get("last_used") {
        Some(x) => x.as_u64(),
        None => None,
    };
    if b.is_some() {
        return b;
    }
    match m.get("last_used_ms") {
        Some(x) => x.as_u64(),
        None => None,
    }
}

/// The id and status text of an entry.
pub fn entry_id_and_status<'a>(m: &'a JsonValue) -> (r: (Option<&'a str>, Option<&'a str>))
    ensures
        match json_text(json_get(*m, "id"@)) {
            Some(t) => r.0 matches Some(x) && x@ == t,
            None => r.0 is None,
        },
        match entry_status(*m) {
            Some(t) => r.1 matches Some(x) && x@ == t,
            None => r.1 is None,
        },
{
    let id = match m.get("id") {
        Some(x) => x.as_str(),
        None => None,
    };
    let status = match m.get("status") {
        Some(st) => match st.get("value") {
            Some(x) => x.as_str(),
            None => None,
        },
        None => None,
    };
    (id, status)
}

/// Whether a status text is loaded or sleeping.
pub fn is_serving_status(t: &str) -> (r: bool)
    ensures
        r == serving_status(Some(t@)),
{
    crate::router::str_is(t, "loaded") || crate::router::str_is(t, "sleeping")
}

/// The serving candidates of a router model list, and whether the list has
/// a router's shape.
pub fn serving_models(ms: &Vec<JsonValue>) -> (r: (Vec<RouterModelCandidate>, bool))
    ensures
        serving_candidates(r.0@, ms@),
        r.1 == router_shaped(ms@),
{
    let mut out: Vec<RouterModelCandidate> = Vec::new();
    let mut shape = false;
    let mut i: usize = 0;
    while i < ms.len()
        invariant
            i <= ms@.len(),
            serving_candidates(out@, ms@.subrange(0, i as int)),
            shape == router_shaped(ms@.subrange(0, i as int)),
        decreases ms@.len() - i,
    {
        let ghost pre = ms@.subrange(0, i as int);
        let ghost next = ms@.subrange(0, i + 1);
        assert(next.drop_last() =~= pre);
        assert(next.last() == ms@[i as int]);
        let (id, status) = entry_id_and_status(&ms[i]);
        match id {
            Some(id) => {
                let shaped_here = match status {
                    Some(t) => !t.is_empty(),
                    None => false,
                };
                let serving = match status {
                    Some(t) => is_serving_status(t),
                    None => false,
                };
                proof {
                    assert(shaped_here == shaped_entry(next[i as int]));
                    assert(router_shaped(next) == (router_shaped(pre) || shaped_here)) by {
                        if router_shaped(next) && !shaped_here {
                            let k = choose|k: int| 0 <= k < next.len() && #[trigger] shaped_entry(next[k]);
                            assert(k < i);
                            assert(pre[k] == next[k]);
                        }
                        if router_shaped(pre) {
                            let k = choose|k: int| 0 <= k < pre.len() && #[trigger] shaped_entry(pre[k]);
                            assert(next[k] == pre[k]);
                        }
                    }
                }
                shape = shape || shaped_here;
                if serving {
                    let last_used = entry_last_used_exec(&ms[i]);
                    let ghost before = out@;
                    out.push(RouterModelCandidate { id: id.to_owned(), last_used });
                    assert(out@.drop_last() =~= before);
                }
            },
            None => {
                proof {
                    assert(router_shaped(next) == router_shaped(pre)) by {
                        if router_shaped(next) {
                            let k = choose|k: int| 0 <= k < next.len() && #[trigger] shaped_entry(next[k]);
                            assert(k < i);
                            assert(pre[k] == next[k]);
                        }
                        if router_shaped(pre) {
                            let k = choose|k: int| 0 <= k < pre.len() && #[trigger] shaped_entry(pre[k]);
                            assert(next[k] == pre[k]);
                        }
                    }
                }
            },
        }
        i = i + 1;
    }
    assert(ms@.subrange(0, ms@.len() as int) =~= ms@);
    (out, shape)
}

/// What the model-discovery step concludes from a router's `/models`
/// answer, when the candidates `cs` were read from its list: a single-model
/// server (404/405, unreadable or non-router lists) gives no model.
pub open spec fn listing_selects(r: Result<Option<String>, StreamingInferenceProbeError>, cs: Seq<RouterModelCandidate>) -> bool {
    &&& cs.len() == 0 ==> r == Err::<Option<String>, StreamingInferenceProbeError>(StreamingInferenceProbeError::NoLoadedRouterModel)
    &&& cs.len() > 0 ==> match router_model_choice(cs) {
        Some(i) => r == Ok::<Option<String>, StreamingInferenceProbeError>(Some(cs[i].id)),
        None => r == Err::<Option<String>, StreamingInferenceProbeError>(
            StreamingInferenceProbeError::AmbiguousRouterModels { count: cs.len() as usize },
        ),
    }
}

/// The model to probe, read from a router's `/models` answer.
pub fn router_model_from_listing(status: u16, body: &[u8]) -> (r: Result<Option<String>, StreamingInferenceProbeError>)
    ensures
        (status == 404 || status == 405) ==> r == Ok::<Option<String>, StreamingInferenceProbeError>(None),
        !(status == 404 || status == 405) && !(200 <= status <= 299) ==> r == Err::<Option<String>, StreamingInferenceProbeError>(
            StreamingInferenceProbeError::HttpRejected { status_code: status },
        ),
        200 <= status <= 299 ==> match crate::json::json_document_bytes(body@) {
            Err(_) => r == Ok::<Option<String>, StreamingInferenceProbeError>(None),
            Ok(v) => match json_items(json_get(v, "data"@)) {
                None => r == Ok::<Option<String>, StreamingInferenceProbeError>(None),
                Some(ms) => if !router_shaped(ms) {
                    r == Ok::<Option<String>, StreamingInferenceProbeError>(None)
                } else {
                    exists|cs: Seq<RouterModelCandidate>| serving_candidates(cs, ms) && listing_selects(r, cs)
                },
            },
        },
{
    if status == 404 || status == 405 {
        return Ok(None);
    }
    if !(200 <= status && status <= 299) {
        return Err(StreamingInferenceProbeError::HttpRejected { status_code: status });
    }
    let payload = match crate::json::parse_json_bytes(body) {
        Ok(v) => v,
        Err(_) => {
            return Ok(None);
        },
    };
    let models = match payload.get("data") {
        Some(d) => match d.as_array() {
            Some(a) => a,
            None => {
                return Ok(None);
            },
        },
        None => {
            return Ok(None);
        },
    };
    let (loaded, shape) = serving_models(models);
    if !shape {
        return Ok(None);
    }
    let ghost cs = loaded@;
    let r = match select_loaded_router_model(loaded) {
        Ok(id) => Ok(Some(id)),
        Err(e) => Err(e),
    };
    assert(serving_candidates(cs, models@) && listing_selects(r, cs));
    r
}


/// Status and body of a buffered control exchange.
#[derive(Debug, Clone, PartialEq, Eq)]
pub struct BufferedHttpResponse {
    pub status_code: u16,
    pub body: Vec<u8>,
}

/// Where the head of a reply ends (the first blank line), if it has.
pub open spec fn head_end(bytes: Seq<u8>) -> Option<int> {
    first_match(bytes, seq![13u8, 10u8, 13u8, 10u8], 0)
}

/// The total size a reply declares: its head, the blank line and the
/// declared body length.
pub open spec fn declared_total(bytes: Seq<u8>) -> Option<int> {
    match head_end(bytes) {
        None => None,
        Some(h) => match content_length_of(bytes.subrange(0, h)) {
            None => None,
            Some(cl) => Some(h + 4 + cl),
        },
    }
}

fn find_head_end(bytes: &[u8]) -> (r: Option<usize>)
    ensures
        match head_end(bytes@) {
            Some(h) => r matches Some(x) && x as int == h && h + 4 <= bytes@.len(),
            None => r is None,
        },
{
    let sep: Vec<u8> = vec![13u8, 10u8, 13u8, 10u8];
    let ss = sep.as_slice();
    assert(ss@ =~= seq![13u8, 10u8, 13u8, 10u8]);
    find_bytes(bytes, ss)
}

/// After each read of a control reply: too many bytes is an error, as is a
/// declared size beyond the limit; the reply is complete once the declared
/// size has arrived.
pub fn control_read_step(received: &[u8]) -> (r: Result<bool, StreamingInferenceProbeError>)
    ensures
        received@.len() > MAX_CONTROL_BYTES ==> r == Err::<bool, StreamingInferenceProbeError>(
            StreamingInferenceProbeError::ResponseTooLarge { limit: MAX_CONTROL_BYTES },
        ),
        received@.len() <= MAX_CONTROL_BYTES ==> match declared_total(received@) {
            None => r == Ok::<bool, StreamingInferenceProbeError>(false),
            Some(t) => if t > MAX_CONTROL_BYTES {
                r == Err::<bool, StreamingInferenceProbeError>(StreamingInferenceProbeError::ResponseTooLarge { limit: MAX_CONTROL_BYTES })
            } else {
                r == Ok::<bool, StreamingInferenceProbeError>(received@.len() >= t)
            },
        },
{
    if received.len() > MAX_CONTROL_BYTES {
        return Err(StreamingInferenceProbeError::ResponseTooLarge { limit: MAX_CONTROL_BYTES });
    }
    let h = match find_head_end(received) {
        None => {
            return Ok(false);
        },
        Some(h) => h,
    };
    let head = byte_range(received, 0, h);
    let cl = match parse_content_length(head.as_slice()) {
        None => {
            return Ok(false);
        },
        Some(cl) => cl,
    };
    if cl > MAX_CONTROL_BYTES || h + 4 + cl > MAX_CONTROL_BYTES {
        return Err(StreamingInferenceProbeError::ResponseTooLarge { limit: MAX_CONTROL_BYTES });
    }
    Ok(received.len() >= h + 4 + cl)
}

/// The bytes `s` cut to at most `n`.
pub open spec fn truncated(s: Seq<u8>, n: int) -> Seq<u8> {
    if s.len() <= n {
        s
    } else {
        s.subrange(0, n)
    }
}

/// Reads a finished control reply: the head must be complete, a declared
/// length must have arrived, the body is cut to the declared length, and the
/// status line must parse.
pub fn finish_control_response(received: &[u8], phase: &str) -> (r: Result<BufferedHttpResponse, StreamingInferenceProbeError>)
    ensures
        match head_end(received@) {
            None => r == Err::<BufferedHttpResponse, StreamingInferenceProbeError>(StreamingInferenceProbeError::MissingHeaders),
            Some(h) => match declared_total(received@) {
                Some(t) => if t > usize::MAX {
                    r == Err::<BufferedHttpResponse, StreamingInferenceProbeError>(StreamingInferenceProbeError::ResponseTooLarge { limit: MAX_CONTROL_BYTES })
                } else if received@.len() < t {
                    r matches Err(StreamingInferenceProbeError::Io { phase: p, message }) && p@ == phase@ && message@
                        == "response ended before declared Content-Length completed: received "@ + crate::strings::decimal(received@.len())
                        + " of "@ + crate::strings::decimal(t as nat) + " bytes"@
                } else {
                    match status_of_headers(received@.subrange(0, h)) {
                        Err(e) => r == Err::<BufferedHttpResponse, StreamingInferenceProbeError>(e),
                        Ok(code) => r matches Ok(resp) && resp.status_code == code
                            && resp.body@ == truncated(received@.subrange(h + 4, received@.len() as int), t - h - 4),
                    }
                },
                None => match status_of_headers(received@.subrange(0, h)) {
                    Err(e) => r == Err::<BufferedHttpResponse, StreamingInferenceProbeError>(e),
                    Ok(code) => r matches Ok(resp) && resp.status_code == code
                        && resp.body@ == received@.subrange(h + 4, received@.len() as int),
                },
            },
        },
{
    let n = received.len();
    let h = match find_head_end(received) {
        None => {
            return Err(StreamingInferenceProbeError::MissingHeaders);
        },
        Some(h) => h,
    };
    let head = byte_range(received, 0, h);
    let cl = parse_content_length(head.as_slice());
    match cl {
        Some(c) => {
            let total: u128 = h as u128 + 4 + c as u128;
            if total > usize::MAX as u128 {
                return Err(StreamingInferenceProbeError::ResponseTooLarge { limit: MAX_CONTROL_BYTES });
            }
            if (n as u128) < total {
                let mut msg: Vec<char> = Vec::new();
                push_str(&mut msg, "response ended before declared Content-Length completed: received ");
                let d1 = crate::strings::decimal_chars(n as u64);
                crate::strings::push_chars(&mut msg, d1.as_slice());
                push_str(&mut msg, " of ");
                proof {
                    assert(total <= u64::MAX);
                }
                let d2 = crate::strings::decimal_chars(total as u64);
                crate::strings::push_chars(&mut msg, d2.as_slice());
                push_str(&mut msg, " bytes");
                return Err(StreamingInferenceProbeError::Io { phase: phase.to_owned(), message: string_from_chars(msg.as_slice()) });
            }
        },
        None => {},
    }
    let code = match parse_status_code(head.as_slice()) {
        Err(e) => {
            return Err(e);
        },
        Ok(code) => code,
    };
    let rest = byte_range(received, h + 4, n);
    let body = match cl {
        Some(c) => if rest.len() <= c {
            rest
        } else {
            byte_range(rest.as_slice(), 0, c)
        },
        None => rest,
    };
    Ok(BufferedHttpResponse { status_code: code, body })
}

/// The body of the telemetry completion probe, keys in `serde_json` order.
pub open spec fn completion_body(model: Option<Seq<char>>) -> Seq<char> {
    match model {
        Some(m) => "{\"model\":"@ + seq!['"'] + crate::json::json_escaped(m) + seq!['"']
            + ",\"n_predict\":4,\"prompt\":\"Telemetry probe: reply OK\",\"stream\":true,\"temperature\":0}"@,
        None => "{\"n_predict\":4,\"prompt\":\"Telemetry probe: reply OK\",\"stream\":true,\"temperature\":0}"@,
    }
}

/// The streaming completion request of the telemetry probe.
pub open spec fn completion_request(endpoint: ServerEndpoint, body: Seq<char>, body_bytes: nat) -> Seq<char> {
    "POST /completion HTTP/1.1\r\nHost: "@ + authority_of(endpoint.host@, endpoint.port)
        + "\r\nConnection: close\r\nAccept: text/event-stream\r\nContent-Type: application/json\r\n"@
        + auth_header(endpoint) + "Content-Length: "@ + crate::strings::decimal(body_bytes) + "\r\n\r\n"@ + body
}

/// Renders the probe's completion request, routed to `model` when given.
pub fn build_completion_request(endpoint: &ServerEndpoint, model: Option<&str>) -> (r: String)
    ensures
        ({
            let body = completion_body(match model { Some(m) => Some(m@), None => None });
            r@ == completion_request(*endpoint, body, (vstd::utf8::encode_utf8(body).len() as usize) as nat)
        }),
{
    let mut b: Vec<char> = Vec::new();
    match model {
        Some(m) => {
            push_str(&mut b, "{\"model\":");
            let q = crate::json::json_quote(m);
            push_str(&mut b, q.as_str());
            push_str(&mut b, ",\"n_predict\":4,\"prompt\":\"Telemetry probe: reply OK\",\"stream\":true,\"temperature\":0}");
        },
        None => {
            push_str(&mut b, "{\"n_predict\":4,\"prompt\":\"Telemetry probe: reply OK\",\"stream\":true,\"temperature\":0}");
        },
    }
    let body = string_from_chars(b.as_slice());
    let mut request: Vec<char> = Vec::new();
    push_str(&mut request, "POST /completion HTTP/1.1\r\nHost: ");
    let authority = endpoint.authority();
    push_str(&mut request, authority.as_str());
    push_str(&mut request, "\r\nConnection: close\r\nAccept: text/event-stream\r\nContent-Type: application/json\r\n");
    append_auth_header(&mut request, endpoint);
    push_str(&mut request, "Content-Length: ");
    let n = body.as_str().len();
    let digits = crate::strings::decimal_chars(n as u64);
    crate::strings::push_chars(&mut request, digits.as_slice());
    push_str(&mut request, "\r\n\r\n");
    push_str(&mut request, body.as_str());
    assert(body@ =~= completion_body(match model { Some(m) => Some(m@), None => None }));
    assert(request@ =~= completion_request(*endpoint, body@, n as nat));
    string_from_chars(request.as_slice())
}


/// What one line of the event stream carries.
#[derive(Debug, Clone, PartialEq, Eq)]
pub enum SseLine {
    Ignored,
    Event { has_token: bool, is_final: bool, payload: String },
}

/// The `data: ` payload of a decoded line, trimmed, if the line has one.
pub open spec fn sse_payload(text: Seq<char>) -> Option<Seq<char>> {
    let t = crate::text::trim(text);
    match crate::text::text_match(t, "data: "@, 0) {
        None => None,
        Some(p) => Some(crate::text::trim(t.subrange(p + 6, t.len() as int))),
    }
}

/// Whether an event shows a generated token: non-empty `content`, or a
/// non-empty `tokens` array.
pub open spec fn event_has_token(v: JsonValue) -> bool {
    (json_text(json_get(v, "content"@)) matches Some(c) && c.len() > 0)
        || (json_items(json_get(v, "tokens"@)) matches Some(a) && a.len() > 0)
}

/// The meaning of one line: empty payloads, `[DONE]` and payloads that are
/// not JSON are ignored; an event with `timings` is the final one.
pub open spec fn sse_line_holds(r: SseLine, line: Seq<u8>) -> bool {
    match sse_payload(utf8_lossy(line)) {
        None => r == SseLine::Ignored,
        Some(p) => if p.len() == 0 || p == "[DONE]"@ {
            r == SseLine::Ignored
        } else {
            match crate::json::json_document(p) {
                Err(_) => r == SseLine::Ignored,
                Ok(v) => r matches SseLine::Event { has_token, is_final, payload } && has_token == event_has_token(v)
                    && is_final == (json_get(v, "timings"@) is Some) && payload@ == p,
            }
        },
    }
}

/// Classifies one line of the event stream (without its newline).
pub fn classify_sse_line(line: &[u8]) -> (r: SseLine)
    ensures
        sse_line_holds(r, line@),
{
    let decoded = lossy_chars(line);
    let t = crate::text::trim_chars(decoded.as_slice());
    let marker = chars_of("data: ");
    proof {
        reveal_strlit("data: ");
    }
    let tl = t.len();
    assert(marker@.len() == 6);
    let pos = match crate::text::find_text(t.as_slice(), marker.as_slice()) {
        None => {
            return SseLine::Ignored;
        },
        Some(p) => p,
    };
    let rest = crate::text::copy_range(t.as_slice(), pos + 6, tl);
    let payload_chars = crate::text::trim_chars(rest.as_slice());
    let payload = string_from_chars(payload_chars.as_slice());
    if payload_chars.len() == 0 || crate::router::str_is(payload.as_str(), "[DONE]") {
        return SseLine::Ignored;
    }
    let event = match crate::json::parse_json(payload.as_str()) {
        Err(_) => {
            return SseLine::Ignored;
        },
        Ok(v) => v,
    };
    let content_token = match event.get("content") {
        Some(c) => match c.as_str() {
            Some(text) => !text.is_empty(),
            None => false,
        },
        None => false,
    };
    let tokens_token = match event.get("tokens") {
        Some(x) => match x.as_array() {
            Some(a) => a.len() > 0,
            None => false,
        },
        None => false,
    };
    let is_final = event.get("timings").is_some();
    SseLine::Event { has_token: content_token || tokens_token, is_final, payload }
}

/// What the event stream has shown so far.
#[derive(Debug, Clone, PartialEq, Eq)]
pub struct SseScan {
    pub event_count: usize,
    pub first_token: bool,
    pub final_event: Option<String>,
}

/// A scan taken by its counts and its final payload's characters.
pub open spec fn scan_view(s: SseScan) -> (usize, bool, Option<Seq<char>>) {
    (s.event_count, s.first_token, match s.final_event {
        Some(f) => Some(f@),
        None => None,
    })
}

/// A scan after one classified line.
pub open spec fn scan_step(st: (usize, bool, Option<Seq<char>>), line: SseLine) -> (usize, bool, Option<Seq<char>>) {
    match line {
        SseLine::Ignored => st,
        SseLine::Event { has_token, is_final, payload } => (
            if st.0 == usize::MAX { st.0 } else { (st.0 + 1) as usize },
            st.1 || has_token,
            if is_final { Some(payload@) } else { st.2 },
        ),
    }
}

/// The first newline byte of `p`.
pub open spec fn newline_in(p: Seq<u8>, i: int) -> Option<int>
    decreases p.len() - i,
{
    if i < 0 || i >= p.len() {
        None
    } else if p[i] == 10u8 {
        Some(i)
    } else {
        newline_in(p, i + 1)
    }
}

pub proof fn lemma_newline_in_bounds(p: Seq<u8>, i: int)
    requires
        0 <= i,
    ensures
        newline_in(p, i) matches Some(n) ==> i <= n < p.len() && p[n] == 10u8,
    decreases p.len() - i,
{
    if i < p.len() && p[i] != 10u8 {
        lemma_newline_in_bounds(p, i + 1);
    }
}

/// Whether `rest` and `after` are what scanning the complete lines of
/// `pending` from `before` leaves: lines are taken from the front, each is
/// classified as `sse_line_holds` says, and scanning stops after a final
/// event or at the first incomplete line.
pub open spec fn scanned(pending: Seq<u8>, before: (usize, bool, Option<Seq<char>>), rest: Seq<u8>, after: (usize, bool, Option<Seq<char>>)) -> bool
    decreases pending.len(),
{
    if before.2 is Some {
        rest == pending && after == before
    } else {
        match newline_in(pending, 0) {
            None => rest == pending && after == before,
            Some(n) => exists|l: SseLine| #[trigger] sse_line_holds(l, pending.subrange(0, n)) && {
                proof {
                    lemma_newline_in_bounds(pending, 0);
                }
                let next = scan_step(before, l);
                let tail = pending.subrange(n + 1, pending.len() as int);
                if next.2 is Some {
                    rest == tail && after == next
                } else {
                    n + 1 <= pending.len() && scanned(tail, next, rest, after)
                }
            },
        }
    }
}

fn first_newline(p: &[u8]) -> (r: Option<usize>)
    ensures
        match newline_in(p@, 0) {
            Some(n) => r matches Some(x) && x as int == n,
            None => r is None,
        },
{
    let mut i: usize = 0;
    while i < p.len()
        invariant
            i <= p@.len(),
            newline_in(p@, 0) == newline_in(p@, i as int),
        decreases p@.len() - i,
    {
        if p[i] == 10u8 {
            return Some(i);
        }
        i = i + 1;
    }
    None
}

/// Consumes the complete lines of `pending` into `scan`, stopping after the
/// final event; the unconsumed bytes stay in `pending`.
pub fn consume_sse_lines(pending: &mut Vec<u8>, scan: &mut SseScan)
    ensures
        scanned(old(pending)@, scan_view(*old(scan)), final(pending)@, scan_view(*final(scan))),
    decreases old(pending)@.len(),
{
    if scan.final_event.is_some() {
        return;
    }
    let nl = match first_newline(pending.as_slice()) {
        None => {
            return;
        },
        Some(n) => n,
    };
    proof {
        lemma_newline_in_bounds(pending@, 0);
    }
    let len = pending.len();
    let line = byte_range(pending.as_slice(), 0, nl);
    let tail = byte_range(pending.as_slice(), nl + 1, len);
    let ghost before = scan_view(*scan);
    let ghost old_pending = pending@;
    let classified = classify_sse_line(line.as_slice());
    match &classified {
        SseLine::Ignored => {},
        SseLine::Event { has_token, is_final, payload } => {
            if scan.event_count < usize::MAX {
                scan.event_count = scan.event_count + 1;
            }
            scan.first_token = scan.first_token || *has_token;
            if *is_final {
                scan.final_event = Some(payload.clone());
            }
        },
    }
    assert(scan_view(*scan) == scan_step(before, classified));
    *pending = tail;
    if scan.final_event.is_some() {
        assert(sse_line_holds(classified, old_pending.subrange(0, nl as int)));
        return;
    }
    consume_sse_lines(pending, scan);
    assert(sse_line_holds(classified, old_pending.subrange(0, nl as int)));
}


/// `u8::is_ascii_whitespace`.
pub open spec fn ascii_space(b: u8) -> bool {
    b == 32u8 || b == 9u8 || b == 10u8 || b == 12u8 || b == 13u8
}

/// At the end of the stream, a last line without its newline is still read
/// when no final event was seen and it holds more than whitespace.
pub fn flush_sse_tail(pending: &mut Vec<u8>, scan: &mut SseScan)
    ensures
        (scan_view(*old(scan)).2 is None && exists|i: int| 0 <= i < old(pending)@.len() && !ascii_space(old(pending)@[i]))
            ==> scanned(old(pending)@.push(10u8), scan_view(*old(scan)), final(pending)@, scan_view(*final(scan))),
        !(scan_view(*old(scan)).2 is None && exists|i: int| 0 <= i < old(pending)@.len() && !ascii_space(old(pending)@[i]))
            ==> *final(pending) == *old(pending) && *final(scan) == *old(scan),
{
    if scan.final_event.is_some() {
        return;
    }
    let mut i: usize = 0;
    let mut content = false;
    while i < pending.len()
        invariant
            i <= pending@.len(),
            content == exists|k: int| 0 <= k < i && !ascii_space(pending@[k]),
        decreases pending@.len() - i,
    {
        let b = pending[i];
        if !(b == 32u8 || b == 9u8 || b == 10u8 || b == 12u8 || b == 13u8) {
            content = true;
        }
        i = i + 1;
    }
    if content {
        pending.push(10u8);
        consume_sse_lines(pending, scan);
    }
}

/// How a finished stream is judged: the head must have arrived, a token must
/// have been generated, and the final event (the one with `timings`) is the
/// probe's result.
pub fn stream_verdict(headers_done: bool, scan: &SseScan) -> (r: Result<String, StreamingInferenceProbeError>)
    ensures
        !headers_done ==> r == Err::<String, StreamingInferenceProbeError>(StreamingInferenceProbeError::MissingHeaders),
        headers_done && !scan.first_token ==> r == Err::<String, StreamingInferenceProbeError>(StreamingInferenceProbeError::MissingFirstToken),
        headers_done && scan.first_token ==> match scan.final_event {
            Some(f) => r == Ok::<String, StreamingInferenceProbeError>(f),
            None => r == Err::<String, StreamingInferenceProbeError>(StreamingInferenceProbeError::MissingTimings),
        },
{
    if !headers_done {
        return Err(StreamingInferenceProbeError::MissingHeaders);
    }
    if !scan.first_token {
        return Err(StreamingInferenceProbeError::MissingFirstToken);
    }
    match &scan.final_event {
        Some(f) => Ok(f.clone()),
        None => Err(StreamingInferenceProbeError::MissingTimings),
    }
}

/// The stream is refused once more than `MAX_STREAM_BYTES` have arrived.
pub fn check_stream_size(total_bytes: usize) -> (r: Result<(), StreamingInferenceProbeError>)
    ensures
        total_bytes > MAX_STREAM_BYTES ==> r == Err::<(), StreamingInferenceProbeError>(
            StreamingInferenceProbeError::ResponseTooLarge { limit: MAX_STREAM_BYTES },
        ),
        total_bytes <= MAX_STREAM_BYTES ==> r is Ok,
{
    if total_bytes > MAX_STREAM_BYTES {
        Err(StreamingInferenceProbeError::ResponseTooLarge { limit: MAX_STREAM_BYTES })
    } else {
        Ok(())
    }
}

/// Reads the head of a streamed reply once it is complete: the status must
/// parse and be 2xx; the bytes after the head start the event stream.
pub fn stream_head(received: &[u8]) -> (r: Result<Option<(u16, Vec<u8>)>, StreamingInferenceProbeError>)
    ensures
        match head_end(received@) {
            None => r == Ok::<Option<(u16, Vec<u8>)>, StreamingInferenceProbeError>(None),
            Some(h) => match status_of_headers(received@.subrange(0, h)) {
                Err(e) => r == Err::<Option<(u16, Vec<u8>)>, StreamingInferenceProbeError>(e),
                Ok(code) => if 200 <= code <= 299 {
                    r matches Ok(Some((c, body))) && c == code && body@ == received@.subrange(h + 4, received@.len() as int)
                } else {
                    r == Err::<Option<(u16, Vec<u8>)>, StreamingInferenceProbeError>(StreamingInferenceProbeError::HttpRejected { status_code: code })
                },
            },
        },
{
    let n = received.len();
    let h = match find_head_end(received) {
        None => {
            return Ok(None);
        },
        Some(h) => h,
    };
    let head = byte_range(received, 0, h);
    let code = match parse_status_code(head.as_slice()) {
        Err(e) => {
            return Err(e);
        },
        Ok(c) => c,
    };
    if !(200 <= code && code <= 299) {
        return Err(StreamingInferenceProbeError::HttpRejected { status_code: code });
    }
    Ok(Some((code, byte_range(received, h + 4, n))))
}

/// Whether the stream line `line` is an event that shows a generated token:
/// its `data: ` payload is a JSON document with a non-empty `content` text
/// or a non-empty `tokens` array.
pub open spec fn line_shows_token(line: Seq<u8>) -> bool {
    match sse_payload(utf8_lossy(line)) {
        None => false,
        Some(p) => p.len() > 0 && p != "[DONE]"@ && match crate::json::json_document(p) {
            Err(_) => false,
            Ok(v) => (json_text(json_get(v, "content"@)) matches Some(c) && c.len() > 0) || (json_items(
                json_get(v, "tokens"@),
            ) matches Some(a) && a.len() > 0),
        },
    }
}

/// `p[a..n]` is a complete line of `p`: it starts the buffer or follows a
/// newline, holds no newline, and a newline ends it.
pub open spec fn complete_line(p: Seq<u8>, a: int, n: int) -> bool {
    &&& 0 <= a <= n < p.len()
    &&& p[n] == 10u8
    &&& (a == 0 || p[a - 1] == 10u8)
    &&& forall|k: int| a <= k < n ==> #[trigger] p[k] != 10u8
}

proof fn lemma_newline_in_first(p: Seq<u8>, i: int)
    requires
        0 <= i,
    ensures
        newline_in(p, i) matches Some(n) ==> forall|k: int| i <= k < n ==> #[trigger] p[k] != 10u8,
    decreases p.len() - i,
{
    if i < p.len() && p[i] != 10u8 {
        lemma_newline_in_first(p, i + 1);
    }
}

/// A scan records a first token only from a consumed line that shows one: if
/// the scan had none before and has one after, some complete line of the
/// consumed bytes is an event with non-empty `content` or `tokens`. A final
/// (timings) event alone never counts. A recorded token is never lost.
pub proof fn law_first_token_needs_a_token_line(
    pending: Seq<u8>,
    before: (usize, bool, Option<Seq<char>>),
    rest: Seq<u8>,
    after: (usize, bool, Option<Seq<char>>),
)
    requires
        scanned(pending, before, rest, after),
    ensures
        after.1 && !before.1 ==> exists|a: int, n: int| complete_line(pending, a, n) && #[trigger] line_shows_token(
            pending.subrange(a, n),
        ),
        before.1 ==> after.1,
    decreases pending.len(),
{
    if before.2 is None {
        if let Some(n) = newline_in(pending, 0) {
            lemma_newline_in_bounds(pending, 0);
            lemma_newline_in_first(pending, 0);
            let l = choose|l: SseLine| #[trigger] sse_line_holds(l, pending.subrange(0, n)) && {
                let next = scan_step(before, l);
                let tail = pending.subrange(n + 1, pending.len() as int);
                if next.2 is Some {
                    rest == tail && after == next
                } else {
                    n + 1 <= pending.len() && scanned(tail, next, rest, after)
                }
            };
            let next = scan_step(before, l);
            let tail = pending.subrange(n + 1, pending.len() as int);
            if next.1 && !before.1 {
                assert(complete_line(pending, 0, n));
                assert(line_shows_token(pending.subrange(0, n)));
            } else if next.2 is None {
                law_first_token_needs_a_token_line(tail, next, rest, after);
                if after.1 && !before.1 {
                    assert(!next.1);
                    let (a, m) = choose|a: int, m: int| complete_line(tail, a, m) && #[trigger] line_shows_token(
                        tail.subrange(a, m),
                    );
                    assert(tail.subrange(a, m) =~= pending.subrange(a + n + 1, m + n + 1));
                    assert forall|k: int| a + n + 1 <= k < m + n + 1 implies #[trigger] pending[k] != 10u8 by {
                        assert(pending[k] == tail[k - n - 1]);
                    }
                    if a > 0 {
                        assert(pending[a + n] == tail[a - 1]);
                    }
                    assert(pending[m + n + 1] == tail[m]);
                    assert(complete_line(pending, a + n + 1, m + n + 1));
                }
            }
        }
    }
}

/// What scanning leaves unconsumed is the end of what it was given.
proof fn lemma_scan_rest_is_suffix(
    pending: Seq<u8>,
    before: (usize, bool, Option<Seq<char>>),
    rest: Seq<u8>,
    after: (usize, bool, Option<Seq<char>>),
)
    requires
        scanned(pending, before, rest, after),
    ensures
        rest.len() <= pending.len(),
        rest == pending.subrange(pending.len() - rest.len(), pending.len() as int),
        before.1 ==> after.1,
    decreases pending.len(),
{
    if before.2 is None {
        if let Some(n) = newline_in(pending, 0) {
            lemma_newline_in_bounds(pending, 0);
            let l = choose|l: SseLine| #[trigger] sse_line_holds(l, pending.subrange(0, n)) && {
                let next = scan_step(before, l);
                let tail = pending.subrange(n + 1, pending.len() as int);
                if next.2 is Some {
                    rest == tail && after == next
                } else {
                    n + 1 <= pending.len() && scanned(tail, next, rest, after)
                }
            };
            let next = scan_step(before, l);
            let tail = pending.subrange(n + 1, pending.len() as int);
            if next.2 is None {
                lemma_scan_rest_is_suffix(tail, next, rest, after);
                assert(rest =~= pending.subrange(pending.len() - rest.len(), pending.len() as int));
            } else {
                assert(rest =~= pending.subrange(pending.len() - rest.len(), pending.len() as int));
            }
        } else {
            assert(rest =~= pending.subrange(0, pending.len() as int));
        }
    } else {
        assert(rest =~= pending.subrange(0, pending.len() as int));
    }
}

/// Every consumed line that shows a generated token is recorded: once a
/// complete line that ends before the unconsumed rest is an event with
/// non-empty `content` or `tokens`, the scan has its first token.
pub proof fn law_token_lines_are_recorded(
    pending: Seq<u8>,
    before: (usize, bool, Option<Seq<char>>),
    rest: Seq<u8>,
    after: (usize, bool, Option<Seq<char>>),
    a: int,
    n: int,
)
    requires
        scanned(pending, before, rest, after),
        complete_line(pending, a, n),
        n < pending.len() - rest.len(),
        line_shows_token(pending.subrange(a, n)),
    ensures
        after.1,
    decreases pending.len(),
{
    lemma_scan_rest_is_suffix(pending, before, rest, after);
    if before.2 is None {
        if let Some(n0) = newline_in(pending, 0) {
            lemma_newline_in_bounds(pending, 0);
            lemma_newline_in_first(pending, 0);
            let l = choose|l: SseLine| #[trigger] sse_line_holds(l, pending.subrange(0, n0)) && {
                let next = scan_step(before, l);
                let tail = pending.subrange(n0 + 1, pending.len() as int);
                if next.2 is Some {
                    rest == tail && after == next
                } else {
                    n0 + 1 <= pending.len() && scanned(tail, next, rest, after)
                }
            };
            let next = scan_step(before, l);
            let tail = pending.subrange(n0 + 1, pending.len() as int);
            if a == 0 {
                if n0 < n {
                    assert(pending[n0] != 10u8);
                }
                if n < n0 {
                    assert(pending[n] != 10u8);
                }
                assert(n == n0);
                assert(next.1);
                if next.2 is None {
                    lemma_scan_rest_is_suffix(tail, next, rest, after);
                }
            } else {
                if a - 1 < n0 {
                    assert(pending[a - 1] != 10u8);
                }
                assert(a - 1 >= n0);
                if next.2 is Some {
                    assert(rest == tail);
                    assert(false);
                } else {
                    let a2 = a - n0 - 1;
                    let n2 = n - n0 - 1;
                    assert(tail.subrange(a2, n2) =~= pending.subrange(a, n));
                    assert forall|k: int| a2 <= k < n2 implies #[trigger] tail[k] != 10u8 by {
                        assert(tail[k] == pending[k + n0 + 1]);
                    }
                    if a2 > 0 {
                        assert(tail[a2 - 1] == pending[a - 1]);
                    }
                    assert(tail[n2] == pending[n]);
                    assert(complete_line(tail, a2, n2));
                    law_token_lines_are_recorded(tail, next, rest, after, a2, n2);
                }
            }
        } else {
            assert(rest == pending);
        }
    } else {
        assert(rest == pending);
    }
}

} // verus!
