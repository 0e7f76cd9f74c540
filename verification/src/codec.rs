//! The wire codec: requests and responses travel as one self-describing text
//! document each. Encoding is canonical; decoding accepts exactly the
//! canonical documents, and decoding an encoded value gives the value back.
//!
//! A request document reads `{"id":"<id>","request":"<operation>"}`; a
//! response document reads `{"id":"<id>","response":{"Success":"<payload>"}}`
//! or `{"id":"<id>","response":{"Err":"<message>"}}`. Quotes and backslashes
//! inside strings are escaped with a backslash.

use vstd::prelude::*;

use crate::command::{
    CommandRequest, CommandResponse, ReqView, RequestType, RespTypeView, RespView, ResponseType,
};
use crate::errors::NetworkError;
use crate::strutil::{push_char, str_eq};
use vstd::string::StringSliceAdditionalSpecFns;
use vstd::utf8::{decode_utf8, valid_utf8};

verus! {

/// How one character is written inside a quoted string.
pub open spec fn esc_char(c: char) -> Seq<char> {
    if c == '"' || c == '\\' {
        seq!['\\', c]
    } else {
        seq![c]
    }
}

/// How a string is written inside quotes: each character escaped.
pub open spec fn escaped(s: Seq<char>) -> Seq<char>
    decreases s.len(),
{
    if s.len() == 0 {
        Seq::empty()
    } else {
        esc_char(s[0]) + escaped(s.skip(1))
    }
}

/// The document tag of an operation.
pub open spec fn kind_name(kind: RequestType) -> Seq<char> {
    match kind {
        RequestType::SocketTurnOn => "SocketTurnOn"@,
        RequestType::SocketTurnOff => "SocketTurnOff"@,
        RequestType::SocketGetState => "SocketGetState"@,
        RequestType::ThermGetTemp => "ThermGetTemp"@,
    }
}

/// The request document for a target id and an operation.
pub open spec fn req_doc(id: Seq<char>, kind: RequestType) -> Seq<char> {
    "{\"id\":\""@ + escaped(id) + "\",\"request\":\""@ + kind_name(kind) + "\"}"@
}

/// The response document for an echoed id and an outcome.
pub open spec fn resp_doc(id: Seq<char>, rt: RespTypeView) -> Seq<char> {
    "{\"id\":\""@ + escaped(id) + "\",\"response\":{\""@ + (match rt {
        RespTypeView::Success(p) => "Success\":\""@ + escaped(p),
        RespTypeView::Error(p) => "Err\":\""@ + escaped(p),
    }) + "\"}}"@
}

/// Reading a quoted string from position `i`: the characters up to the first
/// unescaped quote, unescaped, together with that quote's position. Nothing
/// is read when the string ends, or an escape is dangling or unknown, before
/// a closing quote.
pub open spec fn unescape_from(s: Seq<char>, i: nat) -> Option<(Seq<char>, nat)>
    decreases s.len() - i,
{
    if i >= s.len() {
        None
    } else if s[i as int] == '"' {
        Some((Seq::empty(), i))
    } else if s[i as int] == '\\' {
        if i + 1 < s.len() && (s[i + 1 as int] == '"' || s[i + 1 as int] == '\\') {
            match unescape_from(s, i + 2) {
                None => None,
                Some((t, e)) => Some((seq![s[i + 1 as int]] + t, e)),
            }
        } else {
            None
        }
    } else {
        match unescape_from(s, i + 1) {
            None => None,
            Some((t, e)) => Some((seq![s[i as int]] + t, e)),
        }
    }
}

/// Where reading a quoted string ends: at a quote inside the document.
pub proof fn lemma_unescape_bounds(s: Seq<char>, i: nat)
    ensures
        match unescape_from(s, i) {
            Some((t, e)) => i <= e < s.len() && s[e as int] == '"',
            None => true,
        },
    decreases s.len() - i,
{
    if i >= s.len() {
    } else if s[i as int] == '"' {
    } else if s[i as int] == '\\' {
        if i + 1 < s.len() && (s[i + 1 as int] == '"' || s[i + 1 as int] == '\\') {
            lemma_unescape_bounds(s, i + 2);
        }
    } else {
        lemma_unescape_bounds(s, i + 1);
    }
}

/// Reading a quoted string back from its escaped form recovers the original:
/// when the document holds the escaped string from position `i` and then a
/// quote, reading from `i` gives the string and stops at that quote.
pub proof fn lemma_unescape_escaped(s: Seq<char>, i: nat, id: Seq<char>, suffix: Seq<char>)
    requires
        i + escaped(id).len() + suffix.len() == s.len(),
        s.subrange(i as int, i + escaped(id).len() as int) == escaped(id),
        s.subrange(i + escaped(id).len() as int, s.len() as int) == suffix,
        suffix.len() > 0,
        suffix[0] == '"',
    ensures
        unescape_from(s, i) == Some((id, (i + escaped(id).len()) as nat)),
    decreases id.len(),
{
    let ll = escaped(id).len();
    assert forall|k: int| 0 <= k < ll implies s[i + k] == escaped(id)[k] by {
        assert(s.subrange(i as int, i + ll as int)[k] == s[i + k]);
    }
    assert forall|k: int| 0 <= k < suffix.len() implies s[i + ll + k] == suffix[k] by {
        assert(s.subrange(i + ll as int, s.len() as int)[k] == s[i + ll + k]);
    }
    if id.len() == 0 {
        assert(escaped(id) =~= Seq::<char>::empty());
        assert(s[i as int] == suffix[0]);
        assert(id =~= Seq::<char>::empty());
    } else {
        let c = id[0];
        let rest = id.skip(1);
        assert(escaped(id) == esc_char(c) + escaped(rest));
        if c == '"' || c == '\\' {
            assert(esc_char(c) =~= seq!['\\', c]);
            assert(escaped(id)[0] == '\\');
            assert(escaped(id)[1] == c);
            assert(s[i as int] == '\\');
            assert(s[i + 1 as int] == c);
            assert(i + 1 < s.len());
            assert(escaped(rest).len() + 2 == ll);
            assert forall|k: int| 0 <= k < escaped(rest).len() implies escaped(id)[2 + k]
                == escaped(rest)[k] by {
                assert((esc_char(c) + escaped(rest))[2 + k] == escaped(rest)[k]);
            }
            assert(s.subrange((i + 2) as int, (i + 2) + escaped(rest).len() as int) =~= escaped(
                rest,
            ));
            assert(s.subrange((i + 2) + escaped(rest).len() as int, s.len() as int) =~= suffix);
            lemma_unescape_escaped(s, i + 2, rest, suffix);
            assert(seq![s[i + 1 as int]] + rest =~= id);
        } else {
            assert(esc_char(c) =~= seq![c]);
            assert(escaped(id)[0] == c);
            assert(s[i as int] == c);
            assert(escaped(rest).len() + 1 == ll);
            assert forall|k: int| 0 <= k < escaped(rest).len() implies escaped(id)[1 + k]
                == escaped(rest)[k] by {
                assert((esc_char(c) + escaped(rest))[1 + k] == escaped(rest)[k]);
            }
            assert(s.subrange((i + 1) as int, (i + 1) + escaped(rest).len() as int) =~= escaped(
                rest,
            ));
            assert(s.subrange((i + 1) + escaped(rest).len() as int, s.len() as int) =~= suffix);
            lemma_unescape_escaped(s, i + 1, rest, suffix);
            assert(seq![s[i as int]] + rest =~= id);
        }
    }
}

/// What decoding a request document yields: the target id and the operation
/// of a canonical request document, nothing of any other text.
pub open spec fn parse_request_chars(s: Seq<char>) -> Option<ReqView> {
    let pre = "{\"id\":\""@;
    let mid = "\",\"request\":\""@;
    if s.len() < pre.len() || s.subrange(0, pre.len() as int) != pre {
        None
    } else {
        match unescape_from(s, pre.len() as nat) {
            None => None,
            Some((id, e)) => {
                if s.len() < e + mid.len() || s.subrange(e as int, e + mid.len() as int) != mid {
                    None
                } else {
                    let rest = s.subrange(e + mid.len() as int, s.len() as int);
                    if rest == "SocketTurnOn\"}"@ {
                        Some(ReqView { id, kind: RequestType::SocketTurnOn })
                    } else if rest == "SocketTurnOff\"}"@ {
                        Some(ReqView { id, kind: RequestType::SocketTurnOff })
                    } else if rest == "SocketGetState\"}"@ {
                        Some(ReqView { id, kind: RequestType::SocketGetState })
                    } else if rest == "ThermGetTemp\"}"@ {
                        Some(ReqView { id, kind: RequestType::ThermGetTemp })
                    } else {
                        None
                    }
                }
            },
        }
    }
}

/// What decoding a response document yields: the echoed id and the outcome of
/// a canonical response document, nothing of any other text.
pub open spec fn parse_response_chars(s: Seq<char>) -> Option<RespView> {
    let pre = "{\"id\":\""@;
    let mid = "\",\"response\":{\""@;
    let okhead = "Success\":\""@;
    let errhead = "Err\":\""@;
    let tail = "\"}}"@;
    if s.len() < pre.len() || s.subrange(0, pre.len() as int) != pre {
        None
    } else {
        match unescape_from(s, pre.len() as nat) {
            None => None,
            Some((id, e)) => {
                if s.len() < e + mid.len() || s.subrange(e as int, e + mid.len() as int) != mid {
                    None
                } else {
                    let v = e + mid.len();
                    if s.len() >= v + okhead.len() && s.subrange(v as int, v + okhead.len() as int)
                        == okhead {
                        match unescape_from(s, (v + okhead.len()) as nat) {
                            None => None,
                            Some((p, f)) => {
                                if s.len() == f + tail.len() && s.subrange(f as int, s.len() as int)
                                    == tail {
                                    Some(RespView { id, resp: RespTypeView::Success(p) })
                                } else {
                                    None
                                }
                            },
                        }
                    } else if s.len() >= v + errhead.len() && s.subrange(
                        v as int,
                        v + errhead.len() as int,
                    ) == errhead {
                        match unescape_from(s, (v + errhead.len()) as nat) {
                            None => None,
                            Some((p, f)) => {
                                if s.len() == f + tail.len() && s.subrange(f as int, s.len() as int)
                                    == tail {
                                    Some(RespView { id, resp: RespTypeView::Error(p) })
                                } else {
                                    None
                                }
                            },
                        }
                    } else {
                        None
                    }
                }
            },
        }
    }
}

/// Appending a character to a string appends its escaped form.
proof fn lemma_escaped_push(s: Seq<char>, c: char)
    ensures
        escaped(s.push(c)) == escaped(s) + esc_char(c),
    decreases s.len(),
{
    if s.len() == 0 {
        assert(s.push(c)[0] == c);
        assert(s.push(c).skip(1) =~= Seq::<char>::empty());
        assert(escaped(s.push(c)) == esc_char(c) + escaped(s.push(c).skip(1)));
        assert(escaped(s.push(c).skip(1)) == Seq::<char>::empty());
        assert(escaped(s) == Seq::<char>::empty());
        assert(escaped(s.push(c)) =~= escaped(s) + esc_char(c));
    } else {
        assert(s.push(c)[0] == s[0]);
        assert(s.push(c).skip(1) =~= s.skip(1).push(c));
        lemma_escaped_push(s.skip(1), c);
        assert(escaped(s.push(c)) == esc_char(s[0]) + escaped(s.skip(1).push(c)));
        assert(escaped(s.push(c)) =~= escaped(s) + esc_char(c));
    }
}

/// Appends the escaped form of `s` to `out`.
fn escape_append(out: &mut String, s: &str)
    ensures
        final(out)@ == old(out)@ + escaped(s@),
{
    let n = s.unicode_len();
    let mut i: usize = 0;
    proof {
        assert(s@.take(0) =~= Seq::<char>::empty());
        assert(out@ + escaped(s@.take(0)) =~= out@);
    }
    while i < n
        invariant
            n == s@.len(),
            i <= n,
            out@ == old(out)@ + escaped(s@.take(i as int)),
        decreases n - i,
    {
        let c = s.get_char(i);
        if c == '"' || c == '\\' {
            push_char(out, '\\');
            push_char(out, c);
        } else {
            push_char(out, c);
        }
        proof {
            assert(s@.take(i + 1) =~= s@.take(i as int).push(c));
            lemma_escaped_push(s@.take(i as int), c);
            assert(out@ =~= old(out)@ + escaped(s@.take(i + 1)));
        }
        i = i + 1;
    }
    proof {
        assert(s@.take(n as int) =~= s@);
    }
}

/// Encodes a request as its canonical document.
pub fn encode_request(request: &CommandRequest) -> (r: String)
    ensures
        r@ == req_doc(request@.id, request@.kind),
{
    let mut out = "{\"id\":\"".to_owned();
    escape_append(&mut out, request.id());
    out.append("\",\"request\":\"");
    match *request.req_type() {
        RequestType::SocketTurnOn => out.append("SocketTurnOn"),
        RequestType::SocketTurnOff => out.append("SocketTurnOff"),
        RequestType::SocketGetState => out.append("SocketGetState"),
        RequestType::ThermGetTemp => out.append("ThermGetTemp"),
    }
    out.append("\"}");
    proof {
        assert(out@ =~= req_doc(request@.id, request@.kind));
    }
    out
}

/// Encodes a response as its canonical document.
pub fn encode_response(response: &CommandResponse) -> (r: String)
    ensures
        r@ == resp_doc(response@.id, response@.resp),
{
    let mut out = "{\"id\":\"".to_owned();
    escape_append(&mut out, response.id());
    out.append("\",\"response\":{\"");
    match response.response() {
        ResponseType::Success(p) => {
            out.append("Success\":\"");
            escape_append(&mut out, p.as_str());
        },
        ResponseType::Error(p) => {
            out.append("Err\":\"");
            escape_append(&mut out, p.as_str());
        },
    }
    out.append("\"}}");
    proof {
        assert(out@ =~= resp_doc(response@.id, response@.resp));
    }
    out
}

/// Reads a quoted string from position `start`, as `unescape_from` reads it.
fn unescape_exec(s: &str, start: usize) -> (r: Option<(String, usize)>)
    ensures
        match r {
            Some(p) => unescape_from(s@, start as nat) == Some((p.0@, p.1 as nat)) && start <= p.1
                < s@.len(),
            None => unescape_from(s@, start as nat) is None,
        },
    decreases s@.len() - start,
{
    let n = s.unicode_len();
    if start >= n {
        return None;
    }
    let c = s.get_char(start);
    if c == '"' {
        proof {
            lemma_unescape_bounds(s@, start as nat);
        }
        Some((String::new(), start))
    } else if c == '\\' {
        if start + 1 < n {
            let c2 = s.get_char(start + 1);
            if c2 == '"' || c2 == '\\' {
                match unescape_exec(s, start + 2) {
                    None => None,
                    Some((t, e)) => {
                        let mut out = String::new();
                        push_char(&mut out, c2);
                        out.append(t.as_str());
                        proof {
                            assert(out@ =~= seq![s@[start + 1]] + t@);
                        }
                        Some((out, e))
                    },
                }
            } else {
                None
            }
        } else {
            None
        }
    } else {
        match unescape_exec(s, start + 1) {
            None => None,
            Some((t, e)) => {
                let mut out = String::new();
                push_char(&mut out, c);
                out.append(t.as_str());
                proof {
                    assert(out@ =~= seq![s@[start as int]] + t@);
                }
                Some((out, e))
            },
        }
    }
}

/// Decodes a request document; exactly the canonical documents decode.
pub fn decode_request(s: &str) -> (r: Option<CommandRequest>)
    ensures
        match r {
            Some(req) => parse_request_chars(s@) == Some(req@),
            None => parse_request_chars(s@) is None,
        },
{
    proof {
        reveal_strlit("{\"id\":\"");
        reveal_strlit("\",\"request\":\"");
    }
    let n = s.unicode_len();
    if n < 7 {
        return None;
    }
    if !str_eq(s.substring_char(0, 7), "{\"id\":\"") {
        return None;
    }
    match unescape_exec(s, 7) {
        None => None,
        Some((id, e)) => {
            if n - e < 13 {
                return None;
            }
            if !str_eq(s.substring_char(e, e + 13), "\",\"request\":\"") {
                return None;
            }
            let rest = s.substring_char(e + 13, n);
            proof {
                reveal_strlit("SocketTurnOn\"}");
                reveal_strlit("SocketTurnOff\"}");
                reveal_strlit("SocketGetState\"}");
                reveal_strlit("ThermGetTemp\"}");
            }
            if str_eq(rest, "SocketTurnOn\"}") {
                Some(CommandRequest::from_parts(id.as_str(), RequestType::SocketTurnOn))
            } else if str_eq(rest, "SocketTurnOff\"}") {
                Some(CommandRequest::from_parts(id.as_str(), RequestType::SocketTurnOff))
            } else if str_eq(rest, "SocketGetState\"}") {
                Some(CommandRequest::from_parts(id.as_str(), RequestType::SocketGetState))
            } else if str_eq(rest, "ThermGetTemp\"}") {
                Some(CommandRequest::from_parts(id.as_str(), RequestType::ThermGetTemp))
            } else {
                None
            }
        },
    }
}

/// Decodes a response document; exactly the canonical documents decode.
pub fn decode_response(s: &str) -> (r: Option<CommandResponse>)
    ensures
        match r {
            Some(resp) => parse_response_chars(s@) == Some(resp@),
            None => parse_response_chars(s@) is None,
        },
{
    proof {
        reveal_strlit("{\"id\":\"");
        reveal_strlit("\",\"response\":{\"");
        reveal_strlit("Success\":\"");
        reveal_strlit("Err\":\"");
        reveal_strlit("\"}}");
    }
    let n = s.unicode_len();
    if n < 7 {
        return None;
    }
    if !str_eq(s.substring_char(0, 7), "{\"id\":\"") {
        return None;
    }
    match unescape_exec(s, 7) {
        None => None,
        Some((id, e)) => {
            if n - e < 15 {
                return None;
            }
            if !str_eq(s.substring_char(e, e + 15), "\",\"response\":{\"") {
                return None;
            }
            let v = e + 15;
            if n - v >= 10 && str_eq(s.substring_char(v, v + 10), "Success\":\"") {
                match unescape_exec(s, v + 10) {
                    None => None,
                    Some((p, f)) => {
                        if n - f == 3 && str_eq(s.substring_char(f, n), "\"}}") {
                            Some(
                                CommandResponse::new(
                                    id.as_str(),
                                    ResponseType::Success(p),
                                ),
                            )
                        } else {
                            None
                        }
                    },
                }
            } else if n - v >= 6 && str_eq(s.substring_char(v, v + 6), "Err\":\"") {
                match unescape_exec(s, v + 6) {
                    None => None,
                    Some((p, f)) => {
                        if n - f == 3 && str_eq(s.substring_char(f, n), "\"}}") {
                            Some(
                                CommandResponse::new(
                                    id.as_str(),
                                    ResponseType::Error(p),
                                ),
                            )
                        } else {
                            None
                        }
                    },
                }
            } else {
                None
            }
        },
    }
}

/// Relies on std's str::from_utf8: exactly the valid UTF-8 slices convert,
/// to the string slice with those very bytes.
#[verifier::external_body]
fn bytes_to_str(b: &[u8]) -> (r: Option<&str>)
    ensures
        match r {
            Some(s) => valid_utf8(b@) && s.spec_bytes() == b@,
            None => !valid_utf8(b@),
        },
{
    std::str::from_utf8(b).ok()
}

impl CommandRequest {
    /// Decodes a request document received as raw bytes; bytes that are not
    /// UTF-8 or not a canonical document are refused.
    pub fn request_from(buf: &[u8]) -> (r: Result<CommandRequest, NetworkError>)
        ensures
            match r {
                Ok(req) => valid_utf8(buf@) && parse_request_chars(decode_utf8(buf@)) == Some(
                    req@,
                ),
                Err(e) => e is Serialization && (valid_utf8(buf@)
                    ==> parse_request_chars(decode_utf8(buf@)) is None),
            },
    {
        broadcast use vstd::utf8::encode_utf8_decode_utf8;

        match bytes_to_str(buf) {
            Some(text) => match decode_request(text) {
                Some(req) => Ok(req),
                None => Err(NetworkError::Serialization("malformed request".to_owned())),
            },
            None => Err(NetworkError::Serialization("malformed request".to_owned())),
        }
    }
}

/// Decoding the canonical request document gives the request back, for every
/// target id and every operation.
pub proof fn lemma_request_round_trip(id: Seq<char>, kind: RequestType)
    ensures
        parse_request_chars(req_doc(id, kind)) == Some(ReqView { id, kind }),
{
    reveal_strlit("{\"id\":\"");
    reveal_strlit("\",\"request\":\"");
    reveal_strlit("SocketTurnOn");
    reveal_strlit("SocketTurnOff");
    reveal_strlit("SocketGetState");
    reveal_strlit("ThermGetTemp");
    reveal_strlit("\"}");
    reveal_strlit("SocketTurnOn\"}");
    reveal_strlit("SocketTurnOff\"}");
    reveal_strlit("SocketGetState\"}");
    reveal_strlit("ThermGetTemp\"}");
    let s = req_doc(id, kind);
    let pre = "{\"id\":\""@;
    let mid = "\",\"request\":\""@;
    let suffix = mid + kind_name(kind) + "\"}"@;
    assert(s.subrange(0, pre.len() as int) =~= pre);
    assert(s.subrange(pre.len() as int, (pre.len() + escaped(id).len()) as int) =~= escaped(id));
    assert(s.subrange((pre.len() + escaped(id).len()) as int, s.len() as int) =~= suffix);
    lemma_unescape_escaped(s, pre.len() as nat, id, suffix);
    let e = pre.len() + escaped(id).len();
    assert(s.subrange(e as int, (e + mid.len()) as int) =~= mid);
    let rest = s.subrange((e + mid.len()) as int, s.len() as int);
    assert(rest =~= kind_name(kind) + "\"}"@);
    match kind {
        RequestType::SocketTurnOn => {
            assert(rest =~= "SocketTurnOn\"}"@);
        },
        RequestType::SocketTurnOff => {
            assert(rest =~= "SocketTurnOff\"}"@);
            assert(rest != "SocketTurnOn\"}"@);
        },
        RequestType::SocketGetState => {
            assert(rest =~= "SocketGetState\"}"@);
            assert(rest != "SocketTurnOn\"}"@);
            assert(rest != "SocketTurnOff\"}"@);
        },
        RequestType::ThermGetTemp => {
            assert(rest =~= "ThermGetTemp\"}"@);
            assert(rest[0] != "SocketTurnOn\"}"@[0]);
            assert(rest != "SocketTurnOn\"}"@);
            assert(rest != "SocketTurnOff\"}"@);
            assert(rest != "SocketGetState\"}"@);
        },
    }
}

/// Decoding the canonical response document gives the response back, for
/// every echoed id and every outcome.
pub proof fn lemma_response_round_trip(id: Seq<char>, rt: RespTypeView)
    ensures
        parse_response_chars(resp_doc(id, rt)) == Some(RespView { id, resp: rt }),
{
    reveal_strlit("{\"id\":\"");
    reveal_strlit("\",\"response\":{\"");
    reveal_strlit("Success\":\"");
    reveal_strlit("Err\":\"");
    reveal_strlit("\"}}");
    let s = resp_doc(id, rt);
    let pre = "{\"id\":\""@;
    let mid = "\",\"response\":{\""@;
    let okhead = "Success\":\""@;
    let errhead = "Err\":\""@;
    let tail = "\"}}"@;
    let payload = match rt {
        RespTypeView::Success(p) => p,
        RespTypeView::Error(p) => p,
    };
    let head = match rt {
        RespTypeView::Success(_) => okhead,
        RespTypeView::Error(_) => errhead,
    };
    let suffix = mid + head + escaped(payload) + tail;
    assert(s.subrange(0, pre.len() as int) =~= pre);
    assert(s.subrange(pre.len() as int, (pre.len() + escaped(id).len()) as int) =~= escaped(id));
    assert(s.subrange((pre.len() + escaped(id).len()) as int, s.len() as int) =~= suffix);
    lemma_unescape_escaped(s, pre.len() as nat, id, suffix);
    let e = pre.len() + escaped(id).len();
    assert(s.subrange(e as int, (e + mid.len()) as int) =~= mid);
    let v = e + mid.len();
    match rt {
        RespTypeView::Success(p) => {
            assert(s.subrange(v as int, (v + okhead.len()) as int) =~= okhead);
            let w = v + okhead.len();
            assert(s.subrange(w as int, (w + escaped(p).len()) as int) =~= escaped(p));
            assert(s.subrange((w + escaped(p).len()) as int, s.len() as int) =~= tail);
            lemma_unescape_escaped(s, w as nat, p, tail);
            let f = w + escaped(p).len();
            assert(s.subrange(f as int, s.len() as int) =~= tail);
        },
        RespTypeView::Error(p) => {
            assert(s.subrange(v as int, (v + errhead.len()) as int) =~= errhead);
            if s.len() >= v + okhead.len() {
                assert(s[v as int] == errhead[0]);
                assert(errhead[0] != okhead[0]);
                assert(s.subrange(v as int, (v + okhead.len()) as int)[0] == s[v as int]);
                assert(s.subrange(v as int, (v + okhead.len()) as int) != okhead);
            }
            let w = v + errhead.len();
            assert(s.subrange(w as int, (w + escaped(p).len()) as int) =~= escaped(p));
            assert(s.subrange((w + escaped(p).len()) as int, s.len() as int) =~= tail);
            lemma_unescape_escaped(s, w as nat, p, tail);
            let f = w + escaped(p).len();
            assert(s.subrange(f as int, s.len() as int) =~= tail);
        },
    }
}

} // verus!
