//! Objects of the standard library: buffers, requests, responses and
//! regular expressions.

use vstd::prelude::*;
use vstd::string::StringExecFns;

use crate::error::{ErrorV, Lovm2Error, Lovm2Result};
use crate::util::{ascii_lower, to_ascii_lower};

verus! {

/// Bytes with a read offset.
pub struct Buffer {
    pub inner: Vec<u8>,
    pub roff: usize,
}

impl Buffer {
    /// An empty buffer.
    pub fn new() -> (r: Buffer)
        ensures
            r.inner@.len() == 0,
            r.roff == 0,
    {
        Buffer { inner: Vec::new(), roff: 0 }
    }
}

/// Request method of HTTP.
#[derive(Clone, Copy, PartialEq, Eq, Structural)]
pub enum Method {
    Delete,
    Get,
    Post,
    Put,
}

/// ASCII lower case of a text.
pub open spec fn ascii_lowercase(s: Seq<char>) -> Seq<char> {
    s.map_values(|c: char| ascii_lower(c))
}

/// The method a name stands for, ignoring ASCII case.
pub open spec fn method_of(name: Seq<char>) -> Option<Method> {
    let n = ascii_lowercase(name);
    if n == "delete"@ {
        Some(Method::Delete)
    } else if n == "get"@ {
        Some(Method::Get)
    } else if n == "post"@ {
        Some(Method::Post)
    } else if n == "put"@ {
        Some(Method::Put)
    } else {
        None
    }
}

/// Error of a name that is no request method.
pub open spec fn invalid_method() -> ErrorV {
    ErrorV { ty: None, msg: "not a valid request method"@ }
}

impl Method {
    /// The method named `from`, ignoring ASCII case.
    pub fn try_from(from: String) -> (r: Lovm2Result<Method>)
        ensures
            match method_of(from@) {
                Some(m) => r == Ok::<Method, Lovm2Error>(m),
                None => r matches Err(e) && e@ == invalid_method(),
            },
    {
        let n = from.as_str().unicode_len();
        let mut lower = String::new();
        let mut i: usize = 0;
        while i < n
            invariant
                n == from@.len(),
                i <= n,
                lower@ == ascii_lowercase(from@.take(i as int)),
            decreases n - i,
        {
            let c = from.as_str().get_char(i);
            crate::text::push_char(&mut lower, to_ascii_lower(c));
            assert(ascii_lowercase(from@.take(i + 1)) =~= ascii_lowercase(from@.take(i as int)).push(ascii_lower(c)));
            i += 1;
        }
        assert(from@.take(n as int) =~= from@);
        if lower == String::from_str("delete") {
            Ok(Method::Delete)
        } else if lower == String::from_str("get") {
            Ok(Method::Get)
        } else if lower == String::from_str("post") {
            Ok(Method::Post)
        } else if lower == String::from_str("put") {
            Ok(Method::Put)
        } else {
            Err(Lovm2Error::from_msg("not a valid request method"))
        }
    }
}

/// A request of HTTP to send.
pub struct Request {
    pub url: String,
    pub headers: Vec<(String, String)>,
    pub method: Method,
    pub body: Vec<u8>,
}

/// The answer to a request.
pub struct Response {
    pub status: i64,
    pub headers: Vec<(String, String)>,
    pub body: Vec<u8>,
}

/// Headers as pairs of names and values.
pub open spec fn headers_v(h: Seq<(String, String)>) -> Seq<(Seq<char>, Seq<char>)> {
    h.map_values(|p: (String, String)| (p.0@, p.1@))
}

/// Headers after setting `k` to `v`: an existing header keeps its place.
pub open spec fn header_set(h: Seq<(Seq<char>, Seq<char>)>, k: Seq<char>, v: Seq<char>) -> Seq<(Seq<char>, Seq<char>)> {
    if exists|i: int| 0 <= i < h.len() && h[i].0 == k {
        let i = choose|i: int| 0 <= i < h.len() && h[i].0 == k && forall|j: int| 0 <= j < i ==> h[j].0 != k;
        h.update(i, (k, v))
    } else {
        h.push((k, v))
    }
}

/// A GET request to `url` without headers or body.
pub fn new_request(url: String) -> (r: Request)
    ensures
        r.url == url,
        r.headers@.len() == 0,
        r.method == Method::Get,
        r.body@.len() == 0,
{
    Request { url, headers: Vec::new(), method: Method::Get, body: Vec::new() }
}

/// Set the header `key` of the request to `val`.
pub fn set_header(req: &mut Request, key: String, val: String)
    ensures
        headers_v(final(req).headers@) == header_set(headers_v(old(req).headers@), key@, val@),
        final(req).url == old(req).url,
        final(req).method == old(req).method,
        final(req).body == old(req).body,
{
    let ghost h = headers_v(req.headers@);
    let mut i: usize = 0;
    while i < req.headers.len()
        invariant
            i <= req.headers@.len(),
            h == headers_v(req.headers@),
            req.url == old(req).url,
            req.method == old(req).method,
            req.body == old(req).body,
            req.headers == old(req).headers,
            forall|j: int| 0 <= j < i ==> h[j].0 != key@,
        decreases req.headers@.len() - i,
    {
        if req.headers[i].0 == key {
            proof {
                let c = choose|c: int| 0 <= c < h.len() && h[c].0 == key@ && forall|j: int| 0 <= j < c ==> h[j].0 != key@;
                assert(h[i as int].0 == key@);
                if c < i {
                } else if c > i {
                }
            }
            req.headers.set(i, (key, val));
            assert(headers_v(req.headers@) =~= h.update(i as int, (key@, val@)));
            return;
        }
        i += 1;
    }
    req.headers.push((key, val));
    assert(headers_v(req.headers@) =~= h.push((key@, val@)));
}

/// Set the method of the request from its name.
pub fn set_method(req: &mut Request, method: String) -> (r: Lovm2Result<bool>)
    ensures
        match method_of(method@) {
            Some(m) => r == Ok::<bool, Lovm2Error>(true) && final(req).method == m,
            None => r matches Err(e) && e@ == invalid_method() && final(req).method == old(req).method,
        },
        final(req).url == old(req).url,
        final(req).headers == old(req).headers,
        final(req).body == old(req).body,
{
    match Method::try_from(method) {
        Ok(m) => {
            req.method = m;
            Ok(true)
        },
        Err(e) => Err(e),
    }
}

/// Set the body of the request to the UTF-8 bytes of `body`.
pub fn set_body(req: &mut Request, body: &str) -> (r: bool)
    ensures
        r,
        final(req).body@ == vstd::utf8::encode_utf8(body@),
        final(req).url == old(req).url,
        final(req).headers == old(req).headers,
        final(req).method == old(req).method,
{
    let bytes = body.as_bytes();
    let mut v: Vec<u8> = Vec::new();
    let mut i: usize = 0;
    while i < bytes.len()
        invariant
            i <= bytes@.len(),
            v@ == bytes@.take(i as int),
        decreases bytes@.len() - i,
    {
        v.push(bytes[i]);
        assert(bytes@.take(i + 1) =~= bytes@.take(i as int).push(bytes@[i as int]));
        i += 1;
    }
    assert(bytes@.take(i as int) =~= bytes@);
    req.body = v;
    true
}

/// The URL the request goes to.
pub fn get_url(req: &Request) -> (r: String)
    ensures
        r@ == req.url@,
{
    req.url.clone()
}

/// The status code of the response.
pub fn get_status(res: &Response) -> (r: i64)
    ensures
        r == res.status,
{
    res.status
}

/// The body of the response as text; an error where it is not UTF-8.
pub fn get_body_as_string(res: &Response) -> (r: Lovm2Result<String>)
    ensures
        match r {
            Ok(s) => vstd::utf8::valid_utf8(res.body@) && vstd::utf8::encode_utf8(s@) == res.body@,
            Err(e) => !vstd::utf8::valid_utf8(res.body@) && e@ == (ErrorV { ty: None, msg: "response is not valid utf-8"@ }),
        },
{
    let bytes = copy_bytes(&res.body);
    match super::string::utf8_to_string(bytes) {
        Ok(s) => Ok(s),
        Err(_) => Err(Lovm2Error::from_msg("response is not valid utf-8")),
    }
}

/// The body of the response in a new buffer.
pub fn get_body_as_buffer(res: &Response) -> (r: Buffer)
    ensures
        r.inner@ == res.body@,
        r.roff == 0,
{
    Buffer { inner: copy_bytes(&res.body), roff: 0 }
}

/// Copy of bytes.
fn copy_bytes(b: &Vec<u8>) -> (r: Vec<u8>)
    ensures
        r@ == b@,
{
    let mut v: Vec<u8> = Vec::new();
    let mut i: usize = 0;
    while i < b.len()
        invariant
            i <= b@.len(),
            v@ == b@.take(i as int),
        decreases b@.len() - i,
    {
        v.push(b[i]);
        assert(b@.take(i + 1) =~= b@.take(i as int).push(b@[i as int]));
        i += 1;
    }
    assert(b@.take(i as int) =~= b@);
    v
}

} // verus!
