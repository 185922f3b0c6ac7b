//! Request headers as plain values: reading them from the bytes a
//! connection delivered, and looking up the values the servers exchange.

use vstd::prelude::*;
use vstd::utf8::{decode_utf8, valid_utf8};

verus! {

/// One header of a request: its name, and its value as raw bytes.
pub struct HeaderField {
    pub name: String,
    pub value: Vec<u8>,
}

impl View for HeaderField {
    type V = (Seq<char>, Seq<u8>);

    open spec fn view(&self) -> (Seq<char>, Seq<u8>) {
        (self.name@, self.value@)
    }
}

/// The headers of a list, each taken by its view.
pub open spec fn headers_view(hs: Seq<HeaderField>) -> Seq<(Seq<char>, Seq<u8>)> {
    hs.map_values(|h: HeaderField| h@)
}

/// The value of the first header called `name`, if any.
pub open spec fn first_value(hs: Seq<(Seq<char>, Seq<u8>)>, name: Seq<char>) -> Option<Seq<u8>>
    decreases hs.len(),
{
    if hs.len() == 0 {
        None
    } else {
        match first_value(hs.drop_last(), name) {
            Some(v) => Some(v),
            None => if hs.last().0 == name {
                Some(hs.last().1)
            } else {
                None
            },
        }
    }
}

/// The value of the last header called `name`, if any.
pub open spec fn last_value(hs: Seq<(Seq<char>, Seq<u8>)>, name: Seq<char>) -> Option<Seq<u8>>
    decreases hs.len(),
{
    if hs.len() == 0 {
        None
    } else if hs.last().0 == name {
        Some(hs.last().1)
    } else {
        last_value(hs.drop_last(), name)
    }
}

/// Every header called `name` carries a value that is valid UTF-8.
pub open spec fn values_are_text(hs: Seq<(Seq<char>, Seq<u8>)>, name: Seq<char>) -> bool {
    forall|i: int| 0 <= i < hs.len() && (#[trigger] hs[i]).0 == name ==> valid_utf8(hs[i].1)
}

/// The text of an optional UTF-8 value; the empty text when there is none.
pub open spec fn text_or_empty(v: Option<Seq<u8>>) -> Seq<char> {
    match v {
        Some(bytes) => decode_utf8(bytes),
        None => Seq::empty(),
    }
}

/// What `httparse` finds in `buf` when it reads a request head into
/// `capacity` header slots: `None` where it reports an error, else the
/// headers that `Request::headers` holds afterwards.
pub uninterp spec fn httparse_request_headers(buf: Seq<u8>, capacity: nat) -> Option<Seq<(Seq<char>, Seq<u8>)>>;

/// Reads a request head from `buf` with `httparse::Request::parse`, using
/// `capacity` header slots.
///
/// Trusted: the headers are `httparse_request_headers(buf, capacity)`, and
/// there are never more of them than slots (httparse shrinks the list to the
/// parsed headers, or leaves all slots in place on a partial read). Which
/// bytes httparse accepts is not stated.
#[verifier::external_body]
fn httparse_headers(buf: &[u8], capacity: usize) -> (res: Option<Vec<HeaderField>>)
    ensures
        match res {
            Some(hs) => httparse_request_headers(buf@, capacity as nat) == Some(headers_view(hs@))
                && hs.len() <= capacity,
            None => httparse_request_headers(buf@, capacity as nat) is None,
        },
{
    let mut slots = vec![httparse::EMPTY_HEADER; capacity];
    let mut req = httparse::Request::new(&mut slots);
    match req.parse(buf) {
        Ok(_) => Some(req.headers.iter().map(|h| HeaderField { name: h.name.to_string(), value: h.value.to_vec() }).collect()),
        Err(_) => None,
    }
}

/// The number of header slots a request head is read into.
pub const HEADER_SLOTS: usize = 16;

/// The headers of the request head at the start of `buffer`, read into
/// sixteen slots; `None` when the head is malformed or has more headers.
pub fn read_request_headers(buffer: &[u8]) -> (res: Option<Vec<HeaderField>>)
    ensures
        match res {
            Some(hs) => httparse_request_headers(buffer@, HEADER_SLOTS as nat) == Some(headers_view(hs@))
                && hs.len() <= HEADER_SLOTS,
            None => httparse_request_headers(buffer@, HEADER_SLOTS as nat) is None,
        },
{
    httparse_headers(buffer, HEADER_SLOTS)
}

/// Decodes `bytes` as UTF-8 with `String::from_utf8`.
///
/// Trusted: the call succeeds exactly on valid UTF-8 and then holds the
/// decoded characters.
#[verifier::external_body]
pub(crate) fn text_from_bytes(bytes: Vec<u8>) -> (res: Option<String>)
    ensures
        res is Some <==> valid_utf8(bytes@),
        res matches Some(s) ==> s@ == decode_utf8(bytes@),
{
    String::from_utf8(bytes).ok()
}

/// The value of the first header called `name`.
pub fn first_header_value(headers: &Vec<HeaderField>, name: &String) -> (res: Option<Vec<u8>>)
    ensures
        match res {
            Some(v) => first_value(headers_view(headers@), name@) == Some(v@),
            None => first_value(headers_view(headers@), name@) is None,
        },
{
    let ghost hs = headers_view(headers@);
    let mut found: Option<Vec<u8>> = None;
    let mut i: usize = 0;
    while i < headers.len()
        invariant
            i <= headers.len(),
            hs == headers_view(headers@),
            match found {
                Some(v) => first_value(hs.take(i as int), name@) == Some(v@),
                None => first_value(hs.take(i as int), name@) is None,
            },
        decreases headers.len() - i,
    {
        proof {
            assert(hs.take(i + 1).drop_last() =~= hs.take(i as int));
            assert(hs[i as int] == headers@[i as int]@);
        }
        if found.is_none() && headers[i].name == *name {
            found = Some(vstd::slice::slice_to_vec(headers[i].value.as_slice()));
        }
        i = i + 1;
    }
    proof {
        assert(hs.take(headers.len() as int) =~= hs);
    }
    found
}

/// Whether every header called `name` carries valid UTF-8.
pub fn header_values_are_text(headers: &Vec<HeaderField>, name: &String) -> (res: bool)
    ensures
        res == values_are_text(headers_view(headers@), name@),
{
    let ghost hs = headers_view(headers@);
    let mut i: usize = 0;
    while i < headers.len()
        invariant
            i <= headers.len(),
            hs == headers_view(headers@),
            forall|j: int| 0 <= j < i && (#[trigger] hs[j]).0 == name@ ==> valid_utf8(hs[j].1),
        decreases headers.len() - i,
    {
        proof {
            assert(hs[i as int] == headers@[i as int]@);
        }
        if headers[i].name == *name {
            let copy = vstd::slice::slice_to_vec(headers[i].value.as_slice());
            let text = text_from_bytes(copy);
            if text.is_none() {
                return false;
            }
        }
        i = i + 1;
    }
    true
}

/// The text of the last header called `name`, or the empty text when no
/// header has that name.
pub fn last_header_text(headers: &Vec<HeaderField>, name: &String) -> (res: String)
    requires
        values_are_text(headers_view(headers@), name@),
    ensures
        res@ == text_or_empty(last_value(headers_view(headers@), name@)),
{
    let ghost hs = headers_view(headers@);
    let mut current = String::new();
    let mut i: usize = 0;
    while i < headers.len()
        invariant
            i <= headers.len(),
            hs == headers_view(headers@),
            values_are_text(hs, name@),
            current@ == text_or_empty(last_value(hs.take(i as int), name@)),
        decreases headers.len() - i,
    {
        proof {
            assert(hs.take(i + 1).drop_last() =~= hs.take(i as int));
            assert(hs[i as int] == headers@[i as int]@);
        }
        if headers[i].name == *name {
            let copy = vstd::slice::slice_to_vec(headers[i].value.as_slice());
            let text = text_from_bytes(copy);
            current = text.unwrap();
        }
        i = i + 1;
    }
    proof {
        assert(hs.take(headers.len() as int) =~= hs);
    }
    current
}

/// With no header called `name`, there is no first value of that name.
pub proof fn lemma_first_value_absent(hs: Seq<(Seq<char>, Seq<u8>)>, name: Seq<char>)
    requires
        forall|j: int| 0 <= j < hs.len() ==> (#[trigger] hs[j]).0 != name,
    ensures
        first_value(hs, name) is None,
    decreases hs.len(),
{
    if hs.len() > 0 {
        let front = hs.drop_last();
        assert forall|j: int| 0 <= j < front.len() implies (#[trigger] front[j]).0 != name by {
            assert(front[j] == hs[j]);
        }
        lemma_first_value_absent(front, name);
        assert(hs.last() == hs[hs.len() - 1]);
    }
}

/// The first value of `name` is the value of the first header called
/// `name`, whatever headers come before or after it.
pub proof fn lemma_first_value_is_first_named(hs: Seq<(Seq<char>, Seq<u8>)>, name: Seq<char>, i: int)
    requires
        0 <= i < hs.len(),
        hs[i].0 == name,
        forall|j: int| 0 <= j < i ==> (#[trigger] hs[j]).0 != name,
    ensures
        first_value(hs, name) == Some(hs[i].1),
    decreases hs.len(),
{
    let front = hs.drop_last();
    if i == hs.len() - 1 {
        assert forall|j: int| 0 <= j < front.len() implies (#[trigger] front[j]).0 != name by {
            assert(front[j] == hs[j]);
        }
        lemma_first_value_absent(front, name);
    } else {
        assert(front[i] == hs[i]);
        assert forall|j: int| 0 <= j < i implies (#[trigger] front[j]).0 != name by {
            assert(front[j] == hs[j]);
        }
        lemma_first_value_is_first_named(front, name, i);
    }
}

/// With no header called `name`, there is no last value of that name.
pub proof fn lemma_last_value_absent(hs: Seq<(Seq<char>, Seq<u8>)>, name: Seq<char>)
    requires
        forall|j: int| 0 <= j < hs.len() ==> (#[trigger] hs[j]).0 != name,
    ensures
        last_value(hs, name) is None,
    decreases hs.len(),
{
    if hs.len() > 0 {
        let front = hs.drop_last();
        assert forall|j: int| 0 <= j < front.len() implies (#[trigger] front[j]).0 != name by {
            assert(front[j] == hs[j]);
        }
        assert(hs.last() == hs[hs.len() - 1]);
        lemma_last_value_absent(front, name);
    }
}

/// The last value of `name` is the value of the last header called `name`,
/// whatever headers come before or after it.
pub proof fn lemma_last_value_is_last_named(hs: Seq<(Seq<char>, Seq<u8>)>, name: Seq<char>, i: int)
    requires
        0 <= i < hs.len(),
        hs[i].0 == name,
        forall|j: int| i < j < hs.len() ==> (#[trigger] hs[j]).0 != name,
    ensures
        last_value(hs, name) == Some(hs[i].1),
    decreases hs.len(),
{
    if i < hs.len() - 1 {
        let front = hs.drop_last();
        assert(hs.last() == hs[hs.len() - 1]);
        assert(front[i] == hs[i]);
        assert forall|j: int| i < j < front.len() implies (#[trigger] front[j]).0 != name by {
            assert(front[j] == hs[j]);
        }
        lemma_last_value_is_last_named(front, name, i);
    }
}

/// Inserting a header with another name anywhere leaves the last value of
/// `name` as it was.
pub proof fn lemma_last_value_ignores_other_headers(
    hs: Seq<(Seq<char>, Seq<u8>)>,
    name: Seq<char>,
    pos: int,
    h: (Seq<char>, Seq<u8>),
)
    requires
        0 <= pos <= hs.len(),
        h.0 != name,
    ensures
        last_value(hs.insert(pos, h), name) == last_value(hs, name),
    decreases hs.len(),
{
    let longer = hs.insert(pos, h);
    if pos == hs.len() {
        assert(longer.drop_last() =~= hs);
    } else {
        assert(longer.last() == hs.last());
        assert(longer.drop_last() =~= hs.drop_last().insert(pos, h));
        if hs.last().0 != name {
            lemma_last_value_ignores_other_headers(hs.drop_last(), name, pos, h);
        }
    }
}

/// Inserting a header with another name anywhere leaves the first value of
/// `name` as it was.
pub proof fn lemma_first_value_ignores_other_headers(
    hs: Seq<(Seq<char>, Seq<u8>)>,
    name: Seq<char>,
    pos: int,
    h: (Seq<char>, Seq<u8>),
)
    requires
        0 <= pos <= hs.len(),
        h.0 != name,
    ensures
        first_value(hs.insert(pos, h), name) == first_value(hs, name),
    decreases hs.len(),
{
    let longer = hs.insert(pos, h);
    if pos == hs.len() {
        assert(longer.drop_last() =~= hs);
    } else {
        assert(longer.last() == hs.last());
        assert(longer.drop_last() =~= hs.drop_last().insert(pos, h));
        lemma_first_value_ignores_other_headers(hs.drop_last(), name, pos, h);
    }
}

} // verus!
