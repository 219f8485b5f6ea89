//! JSON-RPC calls as plain values, and the reading of what an endpoint
//! sent back. Sending and receiving over HTTP happens outside the library.
use vstd::prelude::*;

verus! {

/// One positional parameter of a JSON-RPC call.
#[derive(Clone, Debug, PartialEq, Eq)]
pub enum RpcParam {
    /// A JSON string.
    Text(String),
    /// A call object `{"to": .., "data": ..}` for `eth_call`.
    Call { to: String, data: String },
}

/// A JSON-RPC 2.0 request, `{"jsonrpc":"2.0","method":..,"params":[..],"id":1}`
/// once serialized.
#[derive(Clone, Debug, PartialEq, Eq)]
pub struct RpcCall {
    pub method: String,
    pub params: Vec<RpcParam>,
}

/// What an endpoint answered over HTTP.
#[derive(Clone, Debug, PartialEq, Eq)]
pub struct HttpReply {
    pub status: u16,
    pub body: String,
}

/// The outcome of sending one request.
#[derive(Clone, Debug, PartialEq, Eq)]
pub enum Reply {
    Received(HttpReply),
    /// No HTTP answer came: the connection failed or the deadline passed.
    NoResponse(String),
}

#[derive(Clone, Debug, PartialEq, Eq)]
pub enum RpcError {
    /// The endpoint answered with a status outside 200..=299.
    Transport { status: u16, body: String },
    /// No HTTP answer came; reported like a transport failure.
    Unreachable { reason: String },
    /// The body is not a JSON object with a string `result`, or the result is
    /// not the value that was asked for. A JSON-RPC `error` object from the
    /// endpoint lands here too: it carries no `result`.
    Decode,
}

/// The string member `key` of the JSON object written in `text`, if `text`
/// is such an object and the member is a string.
pub uninterp spec fn json_string_field_of(text: Seq<char>, key: Seq<char>) -> Option<Seq<char>>;

/// Relies on serde_json::from_str into a serde_json::Value, then Value::get
/// and Value::as_str: the string member `key` of the JSON object in `text`.
#[verifier::external_body]
fn json_string_field(text: &str, key: &str) -> (r: Option<String>)
    ensures
        match r {
            Some(s) => json_string_field_of(text@, key@) == Some(s@),
            None => json_string_field_of(text@, key@) is None,
        },
{
    let v: serde_json::Value = serde_json::from_str(text).ok()?;
    v.get(key).and_then(|f| f.as_str()).map(|s| s.to_string())
}

pub open spec fn text_param_is(p: RpcParam, t: Seq<char>) -> bool {
    match p {
        RpcParam::Text(a) => a@ == t,
        _ => false,
    }
}

pub open spec fn call_param_is(p: RpcParam, to: Seq<char>, data: Seq<char>) -> bool {
    match p {
        RpcParam::Call { to: a, data: d } => a@ == to && d@ == data,
        _ => false,
    }
}

/// `eth_call` of `data` on the contract at `to`, at the latest block.
pub open spec fn is_eth_call(c: RpcCall, to: Seq<char>, data: Seq<char>) -> bool {
    &&& c.method@ == "eth_call"@
    &&& c.params@.len() == 2
    &&& call_param_is(c.params@[0], to, data)
    &&& text_param_is(c.params@[1], "latest"@)
}

pub fn text_param(s: &str) -> (p: RpcParam)
    ensures
        text_param_is(p, s@),
{
    RpcParam::Text(String::from_str(s))
}

/// The request `eth_call` of `data` on the contract at `to`, at the latest
/// block.
pub fn eth_call_request(to: String, data: String) -> (c: RpcCall)
    ensures
        is_eth_call(c, to@, data@),
{
    let mut params: Vec<RpcParam> = Vec::new();
    params.push(RpcParam::Call { to, data });
    params.push(text_param("latest"));
    RpcCall { method: String::from_str("eth_call"), params }
}

pub open spec fn is_success(status: u16) -> bool {
    200 <= status <= 299
}

/// The `result` text of a reply, when there is one.
pub open spec fn reply_result(reply: Reply) -> Option<Seq<char>> {
    match reply {
        Reply::Received(h) => if is_success(h.status) {
            json_string_field_of(h.body@, "result"@)
        } else {
            None
        },
        Reply::NoResponse(_) => None,
    }
}

/// How a reply reads: the `result` text on success; otherwise the
/// transport failure, or a decode failure for a success status whose body
/// holds no string `result`.
pub open spec fn reply_reads_as(reply: Reply, r: Result<String, RpcError>) -> bool {
    match r {
        Ok(t) => reply_result(reply) == Some(t@),
        Err(RpcError::Transport { status, body }) => match reply {
            Reply::Received(h) => !is_success(h.status) && status == h.status && body@ == h.body@,
            Reply::NoResponse(_) => false,
        },
        Err(RpcError::Unreachable { reason }) => match reply {
            Reply::Received(_) => false,
            Reply::NoResponse(m) => reason@ == m@,
        },
        Err(RpcError::Decode) => match reply {
            Reply::Received(h) => is_success(h.status) && reply_result(reply) is None,
            Reply::NoResponse(_) => false,
        },
    }
}

/// Reads a reply: the `result` text, returned verbatim, or the error.
pub fn rpc_result(reply: &Reply) -> (r: Result<String, RpcError>)
    ensures
        reply_reads_as(*reply, r),
{
    match reply {
        Reply::Received(h) => {
            if 200 <= h.status && h.status <= 299 {
                match json_string_field(h.body.as_str(), "result") {
                    Some(t) => Ok(t),
                    None => Err(RpcError::Decode),
                }
            } else {
                Err(RpcError::Transport { status: h.status, body: h.body.clone() })
            }
        },
        Reply::NoResponse(m) => Err(RpcError::Unreachable { reason: m.clone() }),
    }
}

/// A string written as a JSON string literal: quoted, with the characters
/// that JSON requires escaped.
pub uninterp spec fn json_string_of(s: Seq<char>) -> Seq<char>;

/// Relies on serde_json::to_string on a `str`: the JSON string literal of
/// the text. Writing a string into memory does not fail.
#[verifier::external_body]
fn json_string(s: &str) -> (r: String)
    ensures
        r@ == json_string_of(s@),
{
    match serde_json::to_string(s) {
        Ok(t) => t,
        Err(_) => String::new(),
    }
}

pub open spec fn param_json(p: RpcParam) -> Seq<char> {
    match p {
        RpcParam::Text(t) => json_string_of(t@),
        RpcParam::Call { to, data } => "{\"to\":"@ + json_string_of(to@) + ",\"data\":"@
            + json_string_of(data@) + "}"@,
    }
}

/// The parameters as JSON values separated by commas.
pub open spec fn params_json(ps: Seq<RpcParam>) -> Seq<char>
    decreases ps.len(),
{
    if ps.len() == 0 {
        Seq::empty()
    } else if ps.len() == 1 {
        param_json(ps[0])
    } else {
        params_json(ps.drop_last()) + ","@ + param_json(ps.last())
    }
}

/// The JSON-RPC 2.0 envelope of a call, with request id 1.
pub open spec fn request_json(c: RpcCall) -> Seq<char> {
    "{\"jsonrpc\":\"2.0\",\"method\":"@ + json_string_of(c.method@) + ",\"params\":["@
        + params_json(c.params@) + "],\"id\":1}"@
}

fn append_param(out: &mut String, p: &RpcParam)
    ensures
        final(out)@ == old(out)@ + param_json(*p),
{
    match p {
        RpcParam::Text(t) => out.append(json_string(t.as_str()).as_str()),
        RpcParam::Call { to, data } => {
            out.append("{\"to\":");
            out.append(json_string(to.as_str()).as_str());
            out.append(",\"data\":");
            out.append(json_string(data.as_str()).as_str());
            out.append("}");
        },
    }
    assert(out@ =~= old(out)@ + param_json(*p));
}

/// The request body to POST for a call:
/// `{"jsonrpc":"2.0","method":..,"params":[..],"id":1}`.
pub fn request_body(c: &RpcCall) -> (r: String)
    ensures
        r@ == request_json(*c),
{
    let mut out = String::from_str("{\"jsonrpc\":\"2.0\",\"method\":");
    out.append(json_string(c.method.as_str()).as_str());
    out.append(",\"params\":[");
    let ghost head = out@;
    let mut i: usize = 0;
    while i < c.params.len()
        invariant
            0 <= i <= c.params@.len(),
            out@ == head + params_json(c.params@.take(i as int)),
        decreases c.params@.len() - i,
    {
        let ghost ps = c.params@.take(i + 1);
        assert(ps.drop_last() =~= c.params@.take(i as int));
        if i > 0 {
            out.append(",");
        }
        append_param(&mut out, &c.params[i]);
        i = i + 1;
        assert(out@ =~= head + params_json(ps));
    }
    assert(c.params@.take(c.params@.len() as int) =~= c.params@);
    out.append("],\"id\":1}");
    assert(out@ =~= request_json(*c));
    out
}

} // verus!
