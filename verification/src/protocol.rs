//! The calls the servers make on one another: how a received request names
//! the call it wants, and the requests a server or the balancer sends.

use vstd::prelude::*;
use vstd::string::StringExecFns;
use vstd::utf8::{decode_utf8, encode_utf8, valid_utf8};
use crate::headers::{
    first_header_value, header_values_are_text, headers_view, last_header_text, last_value,
    lemma_last_value_absent, lemma_last_value_ignores_other_headers, lemma_last_value_is_last_named,
    read_request_headers, httparse_request_headers, text_from_bytes, text_or_empty, values_are_text,
    HeaderField, HEADER_SLOTS,
};

verus! {

broadcast use {vstd::utf8::group_utf8_lib, vstd::string::group_string_axioms};

/// The call a request asks a server to perform.
#[derive(Debug, Clone, Copy, PartialEq, Eq, Structural)]
pub enum RemoteCall {
    /// Start an election: find the lowest id and have that server step down.
    InitElection,
    /// Step down: sleep, then rejoin under a fresh, highest id.
    ForceFailure,
    /// Another server announces that it changed its id.
    BroadcastId,
    /// A client request relayed by the balancer.
    Ping,
    /// Anything else, including a request without a call name.
    Unknown,
}

/// The call that a call name denotes.
pub open spec fn call_named(name: Seq<char>) -> RemoteCall {
    if name == "init_election"@ {
        RemoteCall::InitElection
    } else if name == "force_failure"@ {
        RemoteCall::ForceFailure
    } else if name == "broadcast_id"@ {
        RemoteCall::BroadcastId
    } else if name == "ping"@ {
        RemoteCall::Ping
    } else {
        RemoteCall::Unknown
    }
}

/// The call that a request with headers `hs` asks for: the one named by its
/// last `fn` header (none at all reads as the empty name).
pub open spec fn requested_call(hs: Seq<(Seq<char>, Seq<u8>)>) -> RemoteCall {
    call_named(text_or_empty(last_value(hs, "fn"@)))
}

/// The call that `headers` ask for.
pub fn requested_function(headers: &Vec<HeaderField>) -> (res: RemoteCall)
    requires
        values_are_text(headers_view(headers@), "fn"@),
    ensures
        res == requested_call(headers_view(headers@)),
{
    let key = "fn".to_owned();
    let name = last_header_text(headers, &key);
    if name == "init_election".to_owned() {
        RemoteCall::InitElection
    } else if name == "force_failure".to_owned() {
        RemoteCall::ForceFailure
    } else if name == "broadcast_id".to_owned() {
        RemoteCall::BroadcastId
    } else if name == "ping".to_owned() {
        RemoteCall::Ping
    } else {
        RemoteCall::Unknown
    }
}

/// Why a received request cannot be served.
#[derive(Debug, Clone, Copy, PartialEq, Eq, Structural)]
pub enum RequestError {
    /// The request head is not valid HTTP, or has more headers than slots.
    Malformed,
    /// An `fn` header carries bytes that are not UTF-8.
    CallNameNotText,
}

/// A received request: the call it asks for and all its headers.
pub struct RoutedRequest {
    pub call: RemoteCall,
    pub headers: Vec<HeaderField>,
}

/// Reads the request head in `buffer` and finds the call it asks for.
pub fn route_request(buffer: &[u8]) -> (res: Result<RoutedRequest, RequestError>)
    ensures
        match httparse_request_headers(buffer@, HEADER_SLOTS as nat) {
            None => res == Err::<RoutedRequest, RequestError>(RequestError::Malformed),
            Some(hs) => if values_are_text(hs, "fn"@) {
                res matches Ok(r) && headers_view(r.headers@) == hs && r.call == requested_call(hs)
            } else {
                res == Err::<RoutedRequest, RequestError>(RequestError::CallNameNotText)
            },
        },
{
    match read_request_headers(buffer) {
        None => Err(RequestError::Malformed),
        Some(headers) => {
            let key = "fn".to_owned();
            if header_values_are_text(&headers, &key) {
                let call = requested_function(&headers);
                Ok(RoutedRequest { call, headers })
            } else {
                Err(RequestError::CallNameNotText)
            }
        },
    }
}

/// A request to send: the address it goes to and its headers.
pub struct OutgoingRequest {
    pub url: String,
    pub headers: Vec<HeaderField>,
}

impl View for OutgoingRequest {
    type V = (Seq<char>, Seq<(Seq<char>, Seq<u8>)>);

    open spec fn view(&self) -> (Seq<char>, Seq<(Seq<char>, Seq<u8>)>) {
        (self.url@, headers_view(self.headers@))
    }
}

/// A header whose value is the UTF-8 encoding of a text.
pub open spec fn text_header(name: Seq<char>, value: Seq<char>) -> (Seq<char>, Seq<u8>) {
    (name, encode_utf8(value))
}

fn make_header(name: &str, value: &[u8]) -> (res: HeaderField)
    ensures
        res@ == (name@, value@),
{
    HeaderField { name: name.to_owned(), value: vstd::slice::slice_to_vec(value) }
}

/// The request that asks the server at `url` to step down.
pub open spec fn failure_request_view(url: Seq<char>) -> (Seq<char>, Seq<(Seq<char>, Seq<u8>)>) {
    (url, seq![text_header("fn"@, "force_failure"@)])
}

/// The request that asks the server at `url` to start an election.
pub open spec fn election_request_view(url: Seq<char>) -> (Seq<char>, Seq<(Seq<char>, Seq<u8>)>) {
    (url, seq![text_header("fn"@, "init_election"@), text_header("id"@, "1"@)])
}

/// The request that relays a client request with id `id` to the server at `url`.
pub open spec fn ping_request_view(url: Seq<char>, id: Seq<u8>) -> (Seq<char>, Seq<(Seq<char>, Seq<u8>)>) {
    (url, seq![text_header("fn"@, "ping"@), ("id"@, id)])
}

/// The request that tells the server at `url` that `old_id` is now `new_id`,
/// reached at `new_ip`.
pub open spec fn id_change_request_view(
    url: Seq<char>,
    old_id: Seq<char>,
    new_id: Seq<char>,
    new_ip: Seq<char>,
) -> (Seq<char>, Seq<(Seq<char>, Seq<u8>)>) {
    (
        url,
        seq![
            text_header("fn"@, "broadcast_id"@),
            text_header("old_id"@, old_id),
            text_header("new_id"@, new_id),
            text_header("new_ip"@, new_ip),
        ],
    )
}

/// A request asking the server at `url` to step down.
pub fn failure_request(url: &String) -> (res: OutgoingRequest)
    ensures
        res@ == failure_request_view(url@),
{
    let headers = vec![make_header("fn", "force_failure".as_bytes())];
    let res = OutgoingRequest { url: url.clone(), headers };
    assert(res@.1 =~= failure_request_view(url@).1);
    res
}

/// A request asking the server at `url` to start an election.
pub fn election_request(url: &String) -> (res: OutgoingRequest)
    ensures
        res@ == election_request_view(url@),
{
    let headers = vec![make_header("fn", "init_election".as_bytes()), make_header("id", "1".as_bytes())];
    let res = OutgoingRequest { url: url.clone(), headers };
    assert(res@.1 =~= election_request_view(url@).1);
    res
}

/// A request relaying a client request with id `id` to the server at `url`.
pub fn ping_request(url: &String, id: &[u8]) -> (res: OutgoingRequest)
    ensures
        res@ == ping_request_view(url@, id@),
{
    let headers = vec![make_header("fn", "ping".as_bytes()), make_header("id", id)];
    let res = OutgoingRequest { url: url.clone(), headers };
    assert(res@.1 =~= ping_request_view(url@, id@).1);
    res
}

/// A request telling the server at `url` that `old_id` now goes by `new_id`
/// and is reached at `new_ip`.
pub fn id_change_request(url: &String, old_id: &String, new_id: &String, new_ip: &String) -> (res: OutgoingRequest)
    ensures
        res@ == id_change_request_view(url@, old_id@, new_id@, new_ip@),
{
    let headers = vec![
        make_header("fn", "broadcast_id".as_bytes()),
        make_header("old_id", old_id.as_str().as_bytes()),
        make_header("new_id", new_id.as_str().as_bytes()),
        make_header("new_ip", new_ip.as_str().as_bytes()),
    ];
    let res = OutgoingRequest { url: url.clone(), headers };
    assert(res@.1 =~= id_change_request_view(url@, old_id@, new_id@, new_ip@).1);
    res
}

/// The client id a relayed request carries: the value of its first `id`
/// header.
pub fn request_id(headers: &Vec<HeaderField>) -> (res: Option<Vec<u8>>)
    ensures
        match res {
            Some(v) => crate::headers::first_value(headers_view(headers@), "id"@) == Some(v@),
            None => crate::headers::first_value(headers_view(headers@), "id"@) is None,
        },
{
    let key = "id".to_owned();
    first_header_value(headers, &key)
}

/// Why a relayed client request names no client.
#[derive(Debug, Clone, Copy, PartialEq, Eq, Structural)]
pub enum PingError {
    /// The request has no `id` header.
    MissingId,
    /// The first `id` header carries bytes that are not UTF-8.
    IdNotText,
}

/// The client id of a relayed request, as text: the value of its first
/// `id` header.
pub fn ping_caller_id(headers: &Vec<HeaderField>) -> (res: Result<String, PingError>)
    ensures
        match crate::headers::first_value(headers_view(headers@), "id"@) {
            None => res == Err::<String, PingError>(PingError::MissingId),
            Some(v) => if valid_utf8(v) {
                res matches Ok(t) && t@ == decode_utf8(v)
            } else {
                res == Err::<String, PingError>(PingError::IdNotText)
            },
        },
{
    match request_id(headers) {
        None => Err(PingError::MissingId),
        Some(bytes) => match text_from_bytes(bytes) {
            Some(text) => Ok(text),
            None => Err(PingError::IdNotText),
        },
    }
}

/// The address a server at `host` is called at: `http://` followed by `host`.
pub fn server_url(host: &String) -> (res: String)
    ensures
        res@ == "http://"@ + host@,
{
    "http://".to_owned().concat(host.as_str())
}

/// A step-down request, as received, asks for `ForceFailure`.
pub proof fn lemma_failure_request_routes(url: Seq<char>)
    ensures
        values_are_text(failure_request_view(url).1, "fn"@),
        requested_call(failure_request_view(url).1) == RemoteCall::ForceFailure,
{
    let hs = failure_request_view(url).1;
    reveal_strlit("force_failure");
    reveal_strlit("init_election");
    assert(hs.drop_last() =~= Seq::<(Seq<char>, Seq<u8>)>::empty());
    assert("force_failure"@[0] != "init_election"@[0]);
}

/// An election request, as received, asks for `InitElection`.
pub proof fn lemma_election_request_routes(url: Seq<char>)
    ensures
        values_are_text(election_request_view(url).1, "fn"@),
        requested_call(election_request_view(url).1) == RemoteCall::InitElection,
{
    let hs = election_request_view(url).1;
    reveal_strlit("fn");
    reveal_strlit("id");
    assert(hs.drop_last() =~= seq![text_header("fn"@, "init_election"@)]);
    assert(hs.drop_last().drop_last() =~= Seq::<(Seq<char>, Seq<u8>)>::empty());
    assert("fn"@[0] != "id"@[0]);
    assert(last_value(hs.drop_last(), "fn"@) == Some(encode_utf8("init_election"@)));
    assert(last_value(hs, "fn"@) == Some(encode_utf8("init_election"@)));
    assert(decode_utf8(encode_utf8("init_election"@)) == "init_election"@);
}

/// A relayed client request, as received, asks for `Ping` and carries the
/// client's id.
pub proof fn lemma_ping_request_routes(url: Seq<char>, id: Seq<u8>)
    ensures
        values_are_text(ping_request_view(url, id).1, "fn"@),
        requested_call(ping_request_view(url, id).1) == RemoteCall::Ping,
        crate::headers::first_value(ping_request_view(url, id).1, "id"@) == Some(id),
{
    let hs = ping_request_view(url, id).1;
    reveal_strlit("fn");
    reveal_strlit("id");
    reveal_strlit("ping");
    reveal_strlit("init_election");
    reveal_strlit("force_failure");
    reveal_strlit("broadcast_id");
    assert(hs.drop_last() =~= seq![text_header("fn"@, "ping"@)]);
    assert(hs.drop_last().drop_last() =~= Seq::<(Seq<char>, Seq<u8>)>::empty());
    assert("fn"@[0] != "id"@[0]);
    assert("ping"@[0] != "init_election"@[0]);
    assert("ping"@[0] != "force_failure"@[0]);
    assert("ping"@[0] != "broadcast_id"@[0]);
    assert(last_value(hs, "fn"@) == last_value(hs.drop_last(), "fn"@));
    assert(last_value(hs, "fn"@) == Some(encode_utf8("ping"@)));
    assert(decode_utf8(encode_utf8("ping"@)) == "ping"@);
    assert(crate::headers::first_value(hs.drop_last().drop_last(), "id"@) is None);
    assert(crate::headers::first_value(hs.drop_last(), "id"@) is None);
}

/// An id-change notice, as received, asks for `BroadcastId`, and its
/// `old_id`, `new_id` and `new_ip` headers read back as the texts it was
/// made from.
pub proof fn lemma_id_change_request_reads_back(
    url: Seq<char>,
    old_id: Seq<char>,
    new_id: Seq<char>,
    new_ip: Seq<char>,
)
    ensures
        ({
            let hs = id_change_request_view(url, old_id, new_id, new_ip).1;
            &&& values_are_text(hs, "fn"@)
            &&& values_are_text(hs, "old_id"@)
            &&& values_are_text(hs, "new_id"@)
            &&& values_are_text(hs, "new_ip"@)
            &&& requested_call(hs) == RemoteCall::BroadcastId
            &&& text_or_empty(last_value(hs, "old_id"@)) == old_id
            &&& text_or_empty(last_value(hs, "new_id"@)) == new_id
            &&& text_or_empty(last_value(hs, "new_ip"@)) == new_ip
        }),
{
    let hs = id_change_request_view(url, old_id, new_id, new_ip).1;
    reveal_strlit("fn");
    reveal_strlit("old_id");
    reveal_strlit("new_id");
    reveal_strlit("new_ip");
    reveal_strlit("broadcast_id");
    reveal_strlit("init_election");
    reveal_strlit("force_failure");
    assert("fn"@.len() != "old_id"@.len());
    assert("fn"@.len() != "new_id"@.len());
    assert("fn"@.len() != "new_ip"@.len());
    assert("old_id"@[0] != "new_id"@[0]);
    assert("old_id"@[0] != "new_ip"@[0]);
    assert("new_id"@[5] != "new_ip"@[5]);
    assert("broadcast_id"@[0] != "init_election"@[0]);
    assert("broadcast_id"@[0] != "force_failure"@[0]);
    let h3 = hs.drop_last();
    let h2 = h3.drop_last();
    let h1 = h2.drop_last();
    assert(h3 =~= seq![hs[0], hs[1], hs[2]]);
    assert(h2 =~= seq![hs[0], hs[1]]);
    assert(h1 =~= seq![hs[0]]);
    assert(h1.drop_last() =~= Seq::<(Seq<char>, Seq<u8>)>::empty());
    assert(last_value(h1, "fn"@) == Some(encode_utf8("broadcast_id"@)));
    assert(last_value(h2, "fn"@) == Some(encode_utf8("broadcast_id"@)));
    assert(last_value(h3, "fn"@) == Some(encode_utf8("broadcast_id"@)));
    assert(last_value(hs, "fn"@) == Some(encode_utf8("broadcast_id"@)));
    assert(decode_utf8(encode_utf8("broadcast_id"@)) == "broadcast_id"@);
    assert(last_value(h2, "old_id"@) == Some(encode_utf8(old_id)));
    assert(last_value(h3, "old_id"@) == Some(encode_utf8(old_id)));
    assert(last_value(hs, "old_id"@) == Some(encode_utf8(old_id)));
    assert(last_value(h3, "new_id"@) == Some(encode_utf8(new_id)));
    assert(last_value(hs, "new_id"@) == Some(encode_utf8(new_id)));
    assert(last_value(hs, "new_ip"@) == Some(encode_utf8(new_ip)));
    assert(decode_utf8(encode_utf8(old_id)) == old_id);
    assert(decode_utf8(encode_utf8(new_id)) == new_id);
    assert(decode_utf8(encode_utf8(new_ip)) == new_ip);
    assert forall|i: int| 0 <= i < hs.len() implies vstd::utf8::valid_utf8((#[trigger] hs[i]).1) by {
        if i == 0 {
            assert(vstd::utf8::valid_utf8(encode_utf8("broadcast_id"@)));
        } else if i == 1 {
            assert(vstd::utf8::valid_utf8(encode_utf8(old_id)));
        } else if i == 2 {
            assert(vstd::utf8::valid_utf8(encode_utf8(new_id)));
        } else {
            assert(vstd::utf8::valid_utf8(encode_utf8(new_ip)));
        }
    }
}

/// A request asks for the call named by its last `fn` header, wherever that
/// header stands among the others; a request without one asks for nothing
/// known.
pub proof fn lemma_requested_call_follows_last_fn(hs: Seq<(Seq<char>, Seq<u8>)>, i: int)
    requires
        0 <= i < hs.len(),
        hs[i].0 == "fn"@,
        forall|j: int| i < j < hs.len() ==> (#[trigger] hs[j]).0 != "fn"@,
    ensures
        requested_call(hs) == call_named(decode_utf8(hs[i].1)),
{
    lemma_last_value_is_last_named(hs, "fn"@, i);
}

/// A request with no `fn` header asks for no known call.
pub proof fn lemma_requested_call_without_fn(hs: Seq<(Seq<char>, Seq<u8>)>)
    requires
        forall|j: int| 0 <= j < hs.len() ==> (#[trigger] hs[j]).0 != "fn"@,
    ensures
        requested_call(hs) == RemoteCall::Unknown,
{
    broadcast use vstd::string::group_string_axioms;
    lemma_last_value_absent(hs, "fn"@);
    reveal_strlit("init_election");
    reveal_strlit("force_failure");
    reveal_strlit("broadcast_id");
    reveal_strlit("ping");
    assert(Seq::<char>::empty().len() != "init_election"@.len());
    assert(Seq::<char>::empty().len() != "force_failure"@.len());
    assert(Seq::<char>::empty().len() != "broadcast_id"@.len());
    assert(Seq::<char>::empty().len() != "ping"@.len());
}

/// Adding a header of any other name, at any place, does not change the call
/// a request asks for.
pub proof fn lemma_requested_call_ignores_other_headers(
    hs: Seq<(Seq<char>, Seq<u8>)>,
    pos: int,
    h: (Seq<char>, Seq<u8>),
)
    requires
        0 <= pos <= hs.len(),
        h.0 != "fn"@,
    ensures
        requested_call(hs.insert(pos, h)) == requested_call(hs),
{
    lemma_last_value_ignores_other_headers(hs, "fn"@, pos, h);
}

} // verus!
