//! A WSGI gateway: reading the head of an HTTP request, the environment
//! handed to the application, and the head of the response.

use crate::assoc::{assoc_put, assoc_view};
use crate::pypi::version::{digits_value, is_digit};
use crate::text::{chars_of, decimal, decimal_text, push_str, str_eq, string_from_lit, string_of_range};
use std::path::PathBuf;
use std::str::Utf8Error;
use vstd::prelude::*;
use vstd::utf8::{decode_utf8, valid_utf8};

verus! {

// ---------------------------------------------------------------------------
// Calls into std and httparse
// ---------------------------------------------------------------------------

/// The Unicode uppercase of `s`, as `str::to_uppercase` gives it.
pub uninterp spec fn uppercase(s: Seq<char>) -> Seq<char>;

/// The request that `httparse::Request::parse` reads from `buf` with room
/// for `slots` headers: `None` on an error, `Some(None)` when the head is
/// incomplete.
pub uninterp spec fn http_parse(buf: Seq<u8>, slots: usize) -> Option<Option<RequestView>>;

/// The number of headers a request head may hold.
pub const HEADER_SLOTS: usize = 64;

/// Calls `std::str::from_utf8`: the text that `bytes` encode, or the error
/// when they are not valid UTF-8.
#[verifier::external_body]
fn utf8_text(bytes: &[u8]) -> (r: Result<String, Utf8Error>)
    ensures
        match r {
            Ok(s) => valid_utf8(bytes@) && s@ == decode_utf8(bytes@),
            Err(_) => !valid_utf8(bytes@),
        },
{
    std::str::from_utf8(bytes).map(|s| s.to_string())
}

/// Calls `str::to_uppercase`; the result is named `uppercase`.
#[verifier::external_body]
fn to_uppercase(s: &str) -> (r: String)
    ensures
        r@ == uppercase(s@),
{
    s.to_uppercase()
}

/// Calls `httparse::Request::parse` on `buf` with `slots` header slots and
/// copies out the method, path, version and headers of a complete head;
/// `None` on an error. The result is named `http_parse`; the HTTP grammar
/// is not stated.
#[verifier::external_body]
fn parse_http(buf: &[u8], slots: usize) -> (r: Option<Option<HttpRequest>>)
    ensures
        match r {
            Some(Some(q)) => http_parse(buf@, slots) == Some(Some(q@)),
            Some(None) => http_parse(buf@, slots) == Some(None::<RequestView>),
            None => http_parse(buf@, slots) is None,
        },
{
    let mut headers = vec![httparse::EMPTY_HEADER; slots];
    let mut req = httparse::Request::new(&mut headers);
    match req.parse(buf) {
        Ok(httparse::Status::Complete(_)) => Some(Some(HttpRequest { method: req.method.map(|m| m.to_string()),
            path: req.path.map(|p| p.to_string()), version: req.version,
            headers: req.headers.iter().map(|h| (h.name.to_string(), h.value.to_vec())).collect() })),
        Ok(httparse::Status::Partial) => Some(None),
        Err(_) => None,
    }
}

// ---------------------------------------------------------------------------
// Requests
// ---------------------------------------------------------------------------

/// The head of an HTTP request.
pub struct HttpRequest {
    pub method: Option<String>,
    pub path: Option<String>,
    pub version: Option<u8>,
    pub headers: Vec<(String, Vec<u8>)>,
}

/// The head of a request as plain values.
pub struct RequestView {
    pub method: Option<Seq<char>>,
    pub path: Option<Seq<char>>,
    pub version: Option<u8>,
    pub headers: Seq<(Seq<char>, Seq<u8>)>,
}

pub open spec fn opt_text(s: Option<String>) -> Option<Seq<char>> {
    match s {
        Some(t) => Some(t@),
        None => None,
    }
}

impl View for HttpRequest {
    type V = RequestView;

    open spec fn view(&self) -> RequestView {
        RequestView {
            method: opt_text(self.method),
            path: opt_text(self.path),
            version: self.version,
            headers: self.headers@.map_values(|h: (String, Vec<u8>)| (h.0@, h.1@)),
        }
    }
}

// ---------------------------------------------------------------------------
// The environment
// ---------------------------------------------------------------------------

/// What the request headers give the environment: the content type and
/// length, the server's name and port, and the other headers under their
/// `HTTP_` keys.
pub struct EnvHeaders {
    pub content_type: Option<Seq<char>>,
    pub content_length: Option<Seq<char>>,
    pub server: (Seq<char>, Seq<char>),
    pub http_headers: Map<Seq<char>, Seq<char>>,
}

/// `s` with each `-` written `_`.
pub open spec fn dashes_to_underscores(s: Seq<char>) -> Seq<char> {
    s.map_values(|c: char| if c == '-' { '_' } else { c })
}

/// The environment key of a header: `HTTP_` and its name in uppercase,
/// dashes written as underscores.
pub open spec fn header_key(name: Seq<char>) -> Seq<char> {
    "HTTP_"@ + uppercase(dashes_to_underscores(name))
}

/// What the environment takes of the header `name: value`, where `addr`
/// is the IP and port of `value` read as a socket address, if it is one.
pub open spec fn take_header(acc: EnvHeaders, name: Seq<char>, value: Seq<char>, addr: Option<(Seq<char>, Seq<char>)>) -> EnvHeaders {
    let up = uppercase(name);
    if up == "CONTENT-TYPE"@ {
        EnvHeaders {
            content_type: Some(value),
            content_length: acc.content_length,
            server: acc.server,
            http_headers: acc.http_headers,
        }
    } else if up == "CONTENT-LENGTH"@ {
        EnvHeaders {
            content_type: acc.content_type,
            content_length: Some(value),
            server: acc.server,
            http_headers: acc.http_headers,
        }
    } else if up == "HOST"@ {
        match addr {
            Some(p) => EnvHeaders {
                content_type: acc.content_type,
                content_length: acc.content_length,
                server: p,
                http_headers: acc.http_headers,
            },
            None => acc,
        }
    } else {
        EnvHeaders {
            content_type: acc.content_type,
            content_length: acc.content_length,
            server: acc.server,
            http_headers: acc.http_headers.insert(header_key(name), value),
        }
    }
}

/// What the environment takes of the headers `hs`, in order, `addrs`
/// giving each value read as a socket address; the server is
/// `127.0.0.1:80` unless a `Host` header names another socket address.
pub open spec fn env_headers(hs: Seq<(Seq<char>, Seq<u8>)>, addrs: Seq<Option<(Seq<char>, Seq<char>)>>) -> EnvHeaders
    decreases hs.len(),
{
    if hs.len() == 0 {
        EnvHeaders {
            content_type: None,
            content_length: None,
            server: ("127.0.0.1"@, "80"@),
            http_headers: Map::empty(),
        }
    } else {
        take_header(
            env_headers(hs.drop_last(), addrs),
            hs.last().0,
            decode_utf8(hs.last().1),
            addrs[hs.len() - 1],
        )
    }
}

/// The position of the first `c` at or after `i` in `s`, or its end.
pub open spec fn find_char(s: Seq<char>, c: char, i: int) -> int
    decreases s.len() - i,
{
    if 0 <= i < s.len() && s[i] != c {
        find_char(s, c, i + 1)
    } else {
        i
    }
}

/// The path of a request target: what comes before the first `?`.
pub open spec fn path_part(target: Seq<char>) -> Seq<char> {
    target.subrange(0, find_char(target, '?', 0))
}

/// The query of a request target: what comes after the first `?`.
pub open spec fn query_part(target: Seq<char>) -> Option<Seq<char>> {
    let q = find_char(target, '?', 0);
    if q < target.len() {
        Some(target.subrange(q + 1, target.len() as int))
    } else {
        None
    }
}

/// The environment of a WSGI application.
pub struct WsgiEnviron {
    pub request_method: String,
    pub script_name: String,
    pub path_info: String,
    pub query_string: Option<String>,
    pub content_type: Option<String>,
    pub content_length: Option<String>,
    pub server_name: String,
    pub server_port: String,
    pub server_protocol: String,
    pub remote_addr: String,
    pub remote_host: String,
    pub https: bool,
    pub http_headers: Vec<(String, String)>,
    pub debug: bool,
}

/// `env` is the environment of the request `req` from `remote_addr`, where
/// `addrs` gives each header value read as a socket address.
pub open spec fn is_environ_of(req: RequestView, addrs: Seq<Option<(Seq<char>, Seq<char>)>>, remote_addr: Seq<char>, debug: bool, env: WsgiEnviron) -> bool {
    let target = match req.path {
        Some(p) => p,
        None => "/"@,
    };
    let h = env_headers(req.headers, addrs);
    &&& env.request_method@ == match req.method {
        Some(m) => m,
        None => "GET"@,
    }
    &&& env.script_name@.len() == 0
    &&& env.path_info@ == path_part(target)
    &&& opt_text(env.query_string) == query_part(target)
    &&& opt_text(env.content_type) == h.content_type
    &&& opt_text(env.content_length) == h.content_length
    &&& env.server_name@ == h.server.0
    &&& env.server_port@ == h.server.1
    &&& env.server_protocol@ == "HTTP/1."@ + decimal(
        match req.version {
            Some(v) => v as nat,
            None => 0,
        },
    )
    &&& env.remote_addr@ == remote_addr
    &&& env.remote_host@ == remote_addr
    &&& !env.https
    &&& assoc_view(env.http_headers@) == h.http_headers
    &&& env.debug == debug
}

/// The socket addresses as text.
pub open spec fn addrs_view(a: Seq<Option<(String, String)>>) -> Seq<Option<(Seq<char>, Seq<char>)>> {
    a.map_values(|x: Option<(String, String)>| match x {
        Some((ip, port)) => Some((ip@, port@)),
        None => None,
    })
}

/// Every header value is valid UTF-8.
pub open spec fn headers_utf8(hs: Seq<(Seq<char>, Seq<u8>)>) -> bool {
    forall|i: int| 0 <= i < hs.len() ==> valid_utf8(#[trigger] hs[i].1)
}

fn dashes_to_underscores_exec(s: &str) -> (r: String)
    ensures
        r@ == dashes_to_underscores(s@),
{
    let cs = chars_of(s);
    let mut r = String::new();
    let mut k: usize = 0;
    while k < cs.len()
        invariant
            k <= cs@.len(),
            cs@ == s@,
            r@ == dashes_to_underscores(cs@.take(k as int)),
        decreases cs.len() - k,
    {
        let c = cs[k];
        r.push(if c == '-' { '_' } else { c });
        assert(dashes_to_underscores(cs@.take(k + 1)) =~= dashes_to_underscores(cs@.take(k as int)).push(
            if c == '-' { '_' } else { c },
        ));
        k = k + 1;
    }
    assert(cs@.take(cs@.len() as int) =~= cs@);
    r
}

impl WsgiEnviron {
    /// The environment of the request `req` from `remote_addr`; the error
    /// of the first header value that is not UTF-8. `socket_addrs` gives,
    /// for each header, the IP and port of its value read as a socket
    /// address, when it is one.
    pub fn new(req: &HttpRequest, socket_addrs: &Vec<Option<(String, String)>>, remote_addr: String, debug: bool) -> (r: Result<WsgiEnviron, Utf8Error>)
        requires
            socket_addrs@.len() == req.headers@.len(),
        ensures
            match r {
                Ok(env) => headers_utf8(req@.headers) && is_environ_of(req@, addrs_view(socket_addrs@), remote_addr@, debug, env),
                Err(_) => !headers_utf8(req@.headers),
            },
    {
        let ghost addrs = addrs_view(socket_addrs@);
        let ghost hs = req@.headers;
        let mut headers: Vec<(String, String)> = Vec::new();
        let mut content_type: Option<String> = None;
        let mut content_length: Option<String> = None;
        let mut server_name = string_from_lit(&['1', '2', '7', '.', '0', '.', '0', '.', '1']);
        let mut server_port = string_from_lit(&['8', '0']);
        proof {
            reveal_strlit("127.0.0.1");
            reveal_strlit("80");
            assert(assoc_view(headers@) =~= Map::<Seq<char>, Seq<char>>::empty());
        }
        let mut i: usize = 0;
        while i < req.headers.len()
            invariant
                i <= req.headers@.len(),
                hs == req@.headers,
                hs.len() == req.headers@.len(),
                addrs == addrs_view(socket_addrs@),
                addrs.len() == hs.len(),
                forall|k: int| 0 <= k < i ==> valid_utf8(#[trigger] hs[k].1),
                opt_text(content_type) == env_headers(hs.take(i as int), addrs).content_type,
                opt_text(content_length) == env_headers(hs.take(i as int), addrs).content_length,
                (server_name@, server_port@) == env_headers(hs.take(i as int), addrs).server,
                assoc_view(headers@) == env_headers(hs.take(i as int), addrs).http_headers,
            decreases req.headers.len() - i,
        {
            let name = req.headers[i].0.as_str();
            assert(hs[i as int] == (req.headers@[i as int].0@, req.headers@[i as int].1@));
            assert(hs.take(i + 1).drop_last() =~= hs.take(i as int));
            let value = match utf8_text(req.headers[i].1.as_slice()) {
                Ok(v) => v,
                Err(e) => {
                    assert(!valid_utf8(hs[i as int].1));
                    return Err(e);
                },
            };
            let up = to_uppercase(name);
            if str_eq(up.as_str(), "CONTENT-TYPE") {
                content_type = Some(value);
            } else if str_eq(up.as_str(), "CONTENT-LENGTH") {
                content_length = Some(value);
            } else if str_eq(up.as_str(), "HOST") {
                if let Some((ip, port)) = &socket_addrs[i] {
                    server_name = ip.clone();
                    server_port = port.clone();
                }
            } else {
                let key_tail = to_uppercase(dashes_to_underscores_exec(name).as_str());
                let mut key = String::new();
                push_str(&mut key, "HTTP_");
                push_str(&mut key, key_tail.as_str());
                assert(key@ =~= header_key(name@));
                assoc_put(&mut headers, key, value);
            }
            i = i + 1;
        }
        assert(hs.take(hs.len() as int) =~= hs);
        let target = match &req.path {
            Some(p) => p.as_str(),
            None => "/",
        };
        let cs = chars_of(target);
        let mut q: usize = 0;
        while q < cs.len() && cs[q] != '?'
            invariant
                q <= cs@.len(),
                find_char(cs@, '?', q as int) == find_char(cs@, '?', 0),
            decreases cs.len() - q,
        {
            q = q + 1;
        }
        let path_info = string_of_range(&cs, 0, q);
        let query_string = if q < cs.len() {
            Some(string_of_range(&cs, q + 1, cs.len()))
        } else {
            None
        };
        let request_method = match &req.method {
            Some(m) => m.clone(),
            None => "GET".to_owned(),
        };
        let mut server_protocol = String::new();
        push_str(&mut server_protocol, "HTTP/1.");
        let version = match req.version {
            Some(v) => v,
            None => 0,
        };
        let digits = decimal_text(version as u64);
        push_str(&mut server_protocol, digits.as_str());
        Ok(
            WsgiEnviron {
                request_method,
                script_name: String::new(),
                path_info,
                query_string,
                content_type,
                content_length,
                server_name,
                server_port,
                server_protocol,
                remote_addr: remote_addr.clone(),
                remote_host: remote_addr,
                https: false,
                http_headers: headers,
                debug,
            },
        )
    }
}

// ---------------------------------------------------------------------------
// The environment dictionary
// ---------------------------------------------------------------------------

/// The number that `str::parse::<usize>` reads from `s`: an optional `+`
/// and decimal digits, at most `usize::MAX`.
pub open spec fn usize_text(s: Seq<char>) -> Option<usize> {
    let start: int = if s.len() > 1 && s[0] == '+' {
        1
    } else {
        0
    };
    if start < s.len() && (forall|k: int| start <= k < s.len() ==> is_digit(#[trigger] s[k]))
        && digits_value(s, start, s.len() as int) <= usize::MAX {
        Some(digits_value(s, start, s.len() as int) as usize)
    } else {
        None
    }
}

proof fn lemma_digits_grow(s: Seq<char>, i: int, k: int, j: int)
    requires
        i <= k <= j,
        forall|m: int| i <= m < j ==> is_digit(#[trigger] s[m]),
    ensures
        digits_value(s, i, k) <= digits_value(s, i, j),
    decreases j - k,
{
    if k < j {
        lemma_digits_grow(s, i, k, j - 1);
    }
}

/// The number written `s`, as `str::parse::<usize>` reads it.
pub fn parse_usize(s: &str) -> (r: Option<usize>)
    ensures
        r == usize_text(s@),
{
    let cs = chars_of(s);
    let start: usize = if cs.len() > 1 && cs[0] == '+' {
        1
    } else {
        0
    };
    if start >= cs.len() {
        return None;
    }
    let mut acc: usize = 0;
    let mut k: usize = start;
    while k < cs.len()
        invariant
            cs@ == s@,
            start <= k <= cs@.len(),
            start < cs@.len(),
            start == (if cs@.len() > 1 && cs@[0] == '+' { 1int } else { 0int }),
            forall|m: int| start <= m < k ==> is_digit(#[trigger] cs@[m]),
            acc as nat == digits_value(cs@, start as int, k as int),
        decreases cs.len() - k,
    {
        let c = cs[k];
        if !('0' <= c && c <= '9') {
            assert(!is_digit(cs@[k as int]));
            return None;
        }
        let d = (c as u32 - '0' as u32) as usize;
        match acc.checked_mul(10) {
            Some(t) => match t.checked_add(d) {
                Some(v) => {
                    acc = v;
                },
                None => {
                    proof {
                        assert forall|m: int| start <= m < k + 1 implies is_digit(#[trigger] cs@[m]) by {}
                        if forall|m: int| start <= m < cs@.len() ==> is_digit(#[trigger] cs@[m]) {
                            lemma_digits_grow(cs@, start as int, k + 1, cs@.len() as int);
                        }
                    }
                    return None;
                },
            },
            None => {
                proof {
                    if forall|m: int| start <= m < cs@.len() ==> is_digit(#[trigger] cs@[m]) {
                        lemma_digits_grow(cs@, start as int, k + 1, cs@.len() as int);
                    }
                }
                return None;
            },
        }
        k = k + 1;
    }
    Some(acc)
}

/// A value of the environment dictionary.
pub enum EnvironValue {
    Text(String),
    Flag(bool),
    Version(u8, u8),
    /// The request body, of `length` bytes.
    Input { length: usize, debug: bool },
    /// The error stream.
    Errors,
}

/// A value of the environment dictionary as plain values.
pub enum EnvironValueView {
    Text(Seq<char>),
    Flag(bool),
    Version(u8, u8),
    Input(usize, bool),
    Errors,
}

impl View for EnvironValue {
    type V = EnvironValueView;

    open spec fn view(&self) -> EnvironValueView {
        match self {
            EnvironValue::Text(t) => EnvironValueView::Text(t@),
            EnvironValue::Flag(b) => EnvironValueView::Flag(*b),
            EnvironValue::Version(a, b) => EnvironValueView::Version(*a, *b),
            EnvironValue::Input { length, debug } => EnvironValueView::Input(*length, *debug),
            EnvironValue::Errors => EnvironValueView::Errors,
        }
    }
}

pub open spec fn items_view(v: Seq<(String, EnvironValue)>) -> Seq<(Seq<char>, EnvironValueView)> {
    v.map_values(|p: (String, EnvironValue)| (p.0@, p.1@))
}

/// The item `key: value` when there is a value.
pub open spec fn opt_item(key: Seq<char>, value: Option<String>) -> Seq<(Seq<char>, EnvironValueView)> {
    match value {
        Some(v) => seq![(key, EnvironValueView::Text(v@))],
        None => Seq::empty(),
    }
}

/// The length of the request body: its `Content-Length`, or 0.
pub open spec fn body_length(env: WsgiEnviron) -> Option<usize> {
    match env.content_length {
        Some(l) => usize_text(l@),
        None => Some(0),
    }
}

/// The CGI variables of `env`, in the order they are set.
pub open spec fn cgi_items(env: WsgiEnviron) -> Seq<(Seq<char>, EnvironValueView)> {
    seq![
        ("REQUEST_METHOD"@, EnvironValueView::Text(env.request_method@)),
        ("SCRIPT_NAME"@, EnvironValueView::Text(env.script_name@)),
        ("PATH_INFO"@, EnvironValueView::Text(env.path_info@)),
    ] + opt_item("QUERY_STRING"@, env.query_string) + opt_item("CONTENT_TYPE"@, env.content_type)
        + opt_item("CONTENT_LENGTH"@, env.content_length) + seq![
        ("SERVER_NAME"@, EnvironValueView::Text(env.server_name@)),
        ("SERVER_PORT"@, EnvironValueView::Text(env.server_port@)),
        ("SERVER_PROTOCOL"@, EnvironValueView::Text(env.server_protocol@)),
        ("REMOTE_ADDR"@, EnvironValueView::Text(env.remote_addr@)),
        ("REMOTE_HOST"@, EnvironValueView::Text(env.remote_host@)),
        (
            "HTTPS"@,
            EnvironValueView::Text(
                if env.https {
                    "on"@
                } else {
                    "off"@
                },
            ),
        ),
    ]
}

/// The headers of `env`, each under its key.
pub open spec fn header_items(headers: Seq<(String, String)>) -> Seq<(Seq<char>, EnvironValueView)> {
    headers.map_values(|p: (String, String)| (p.0@, EnvironValueView::Text(p.1@)))
}

/// The `wsgi.` entries, with a body of `length` bytes.
pub open spec fn wsgi_items(env: WsgiEnviron, length: usize) -> Seq<(Seq<char>, EnvironValueView)> {
    seq![
        ("wsgi.input"@, EnvironValueView::Input(length, env.debug)),
        ("wsgi.errors"@, EnvironValueView::Errors),
        ("wsgi.version"@, EnvironValueView::Version(1, 0)),
        (
            "wsgi.url_scheme"@,
            EnvironValueView::Text(
                if env.https {
                    "https"@
                } else {
                    "http"@
                },
            ),
        ),
        ("wsgi.multithread"@, EnvironValueView::Flag(true)),
        ("wsgi.multiprocess"@, EnvironValueView::Flag(false)),
        ("wsgi.run_once"@, EnvironValueView::Flag(false)),
    ]
}

/// The items of the environment dictionary of `env`, in the order they are
/// set, with a body of `length` bytes.
pub open spec fn environ_items(env: WsgiEnviron, length: usize) -> Seq<(Seq<char>, EnvironValueView)> {
    cgi_items(env) + header_items(env.http_headers@) + wsgi_items(env, length)
}

/// The value that a dictionary filled with `items`, in order, holds for
/// `key`: that of the last item with that key.
pub open spec fn dict_value(items: Seq<(Seq<char>, EnvironValueView)>, key: Seq<char>) -> Option<EnvironValueView>
    decreases items.len(),
{
    if items.len() == 0 {
        None
    } else if items.last().0 == key {
        Some(items.last().1)
    } else {
        dict_value(items.drop_last(), key)
    }
}

/// Whatever the request, its environment dictionary tells the application
/// that the server runs it on several threads of one process, more than
/// once, under WSGI 1.0, over HTTPS exactly when the server serves HTTPS.
pub proof fn lemma_wsgi_constants(env: WsgiEnviron, length: usize)
    ensures
        dict_value(environ_items(env, length), "wsgi.multithread"@) == Some(EnvironValueView::Flag(true)),
        dict_value(environ_items(env, length), "wsgi.multiprocess"@) == Some(EnvironValueView::Flag(false)),
        dict_value(environ_items(env, length), "wsgi.run_once"@) == Some(EnvironValueView::Flag(false)),
        dict_value(environ_items(env, length), "wsgi.version"@) == Some(EnvironValueView::Version(1, 0)),
        dict_value(environ_items(env, length), "wsgi.url_scheme"@) == Some(
            EnvironValueView::Text(if env.https { "https"@ } else { "http"@ }),
        ),
{
    reveal_strlit("wsgi.input");
    reveal_strlit("wsgi.errors");
    reveal_strlit("wsgi.version");
    reveal_strlit("wsgi.url_scheme");
    reveal_strlit("wsgi.multithread");
    reveal_strlit("wsgi.multiprocess");
    reveal_strlit("wsgi.run_once");
    let all = environ_items(env, length);
    let w = wsgi_items(env, length);
    let n = all.len();
    assert(all.drop_last() =~= all.subrange(0, n - 1));
    assert(all.subrange(0, n - 1).drop_last() =~= all.subrange(0, n - 2));
    assert(all.subrange(0, n - 2).drop_last() =~= all.subrange(0, n - 3));
    assert(all.subrange(0, n - 3).drop_last() =~= all.subrange(0, n - 4));
    assert(all[n - 1] == w[6]);
    assert(all[n - 2] == w[5]);
    assert(all[n - 3] == w[4]);
    assert(all[n - 4] == w[3]);
    assert(all[n - 5] == w[2]);
    assert(all.subrange(0, n - 2).last() == all[n - 3]);
    assert(all.subrange(0, n - 1).last() == all[n - 2]);
    assert("wsgi.run_once"@[5] != "wsgi.multithread"@[5]);
    assert("wsgi.run_once"@ != "wsgi.multithread"@);
    assert("wsgi.multiprocess"@[10] != "wsgi.multithread"@[10]);
    assert("wsgi.multiprocess"@ != "wsgi.multithread"@);
    assert("wsgi.run_once"@[5] != "wsgi.multiprocess"@[5]);
    assert("wsgi.run_once"@ != "wsgi.multiprocess"@);
    assert("wsgi.run_once"@[5] != "wsgi.version"@[5]);
    assert("wsgi.run_once"@ != "wsgi.version"@);
    assert("wsgi.multiprocess"@[5] != "wsgi.version"@[5]);
    assert("wsgi.multiprocess"@ != "wsgi.version"@);
    assert("wsgi.multithread"@[5] != "wsgi.version"@[5]);
    assert("wsgi.multithread"@ != "wsgi.version"@);
    assert("wsgi.url_scheme"@[5] != "wsgi.version"@[5]);
    assert("wsgi.url_scheme"@ != "wsgi.version"@);
    assert("wsgi.run_once"@[5] != "wsgi.url_scheme"@[5]);
    assert("wsgi.run_once"@ != "wsgi.url_scheme"@);
    assert("wsgi.multiprocess"@[5] != "wsgi.url_scheme"@[5]);
    assert("wsgi.multiprocess"@ != "wsgi.url_scheme"@);
    assert("wsgi.multithread"@[5] != "wsgi.url_scheme"@[5]);
    assert("wsgi.multithread"@ != "wsgi.url_scheme"@);
    assert(dict_value(all.subrange(0, n - 2), "wsgi.multithread"@) == Some(EnvironValueView::Flag(true)));
    assert(dict_value(all.subrange(0, n - 1), "wsgi.multithread"@) == Some(EnvironValueView::Flag(true)));
    assert(dict_value(all.subrange(0, n - 1), "wsgi.multiprocess"@) == Some(EnvironValueView::Flag(false)));
    assert(all.subrange(0, n - 3).last() == all[n - 4]);
    assert(all.subrange(0, n - 4).last() == all[n - 5]);
    let scheme = EnvironValueView::Text(if env.https { "https"@ } else { "http"@ });
    assert(dict_value(all.subrange(0, n - 3), "wsgi.url_scheme"@) == Some(scheme));
    assert(dict_value(all.subrange(0, n - 2), "wsgi.url_scheme"@) == Some(scheme));
    assert(dict_value(all.subrange(0, n - 1), "wsgi.url_scheme"@) == Some(scheme));
    let version = EnvironValueView::Version(1, 0);
    assert(dict_value(all.subrange(0, n - 4), "wsgi.version"@) == Some(version));
    assert(dict_value(all.subrange(0, n - 3), "wsgi.version"@) == Some(version));
    assert(dict_value(all.subrange(0, n - 2), "wsgi.version"@) == Some(version));
    assert(dict_value(all.subrange(0, n - 1), "wsgi.version"@) == Some(version));
}

fn text_item(key: &str, value: &String) -> (r: (String, EnvironValue))
    ensures
        r.0@ == key@,
        r.1@ == EnvironValueView::Text(value@),
{
    (key.to_owned(), EnvironValue::Text(value.clone()))
}

fn push_opt_item(items: &mut Vec<(String, EnvironValue)>, key: &str, value: &Option<String>)
    ensures
        items_view(final(items)@) == items_view(old(items)@) + opt_item(key@, *value),
{
    let ghost before = items@;
    if let Some(v) = value {
        items.push(text_item(key, v));
        assert(items_view(items@) =~= items_view(before) + opt_item(key@, *value));
    } else {
        assert(items_view(items@) =~= items_view(before) + opt_item(key@, *value));
    }
}

fn push_item(items: &mut Vec<(String, EnvironValue)>, item: (String, EnvironValue))
    ensures
        items_view(final(items)@) == items_view(old(items)@).push((item.0@, item.1@)),
{
    items.push(item);
    assert(items_view(items@) =~= items_view(old(items)@).push((item.0@, item.1@)));
}

impl WsgiEnviron {
    fn cgi_items(&self) -> (r: Vec<(String, EnvironValue)>)
        ensures
            items_view(r@) == cgi_items(*self),
    {
        let mut items: Vec<(String, EnvironValue)> = Vec::new();
        push_item(&mut items, text_item("REQUEST_METHOD", &self.request_method));
        push_item(&mut items, text_item("SCRIPT_NAME", &self.script_name));
        push_item(&mut items, text_item("PATH_INFO", &self.path_info));
        push_opt_item(&mut items, "QUERY_STRING", &self.query_string);
        push_opt_item(&mut items, "CONTENT_TYPE", &self.content_type);
        push_opt_item(&mut items, "CONTENT_LENGTH", &self.content_length);
        push_item(&mut items, text_item("SERVER_NAME", &self.server_name));
        push_item(&mut items, text_item("SERVER_PORT", &self.server_port));
        push_item(&mut items, text_item("SERVER_PROTOCOL", &self.server_protocol));
        push_item(&mut items, text_item("REMOTE_ADDR", &self.remote_addr));
        push_item(&mut items, text_item("REMOTE_HOST", &self.remote_host));
        let https = if self.https {
            "on"
        } else {
            "off"
        };
        push_item(&mut items, ("HTTPS".to_owned(), EnvironValue::Text(https.to_owned())));
        assert(items_view(items@) =~= cgi_items(*self));
        items
    }

    fn push_headers(&self, items: &mut Vec<(String, EnvironValue)>)
        ensures
            items_view(final(items)@) == items_view(old(items)@) + header_items(self.http_headers@),
    {
        let ghost fixed = items_view(items@);
        let mut k: usize = 0;
        while k < self.http_headers.len()
            invariant
                k <= self.http_headers@.len(),
                items_view(items@) == fixed + header_items(self.http_headers@.take(k as int)),
            decreases self.http_headers.len() - k,
        {
            push_item(items, text_item(self.http_headers[k].0.as_str(), &self.http_headers[k].1));
            assert(header_items(self.http_headers@.take(k + 1)) =~= header_items(
                self.http_headers@.take(k as int),
            ).push((self.http_headers@[k as int].0@, EnvironValueView::Text(self.http_headers@[k as int].1@))));
            k = k + 1;
        }
        assert(self.http_headers@.take(self.http_headers@.len() as int) =~= self.http_headers@);
    }

    fn push_wsgi_items(&self, items: &mut Vec<(String, EnvironValue)>, length: usize)
        ensures
            items_view(final(items)@) == items_view(old(items)@) + wsgi_items(*self, length),
    {
        let ghost before = items_view(items@);
        push_item(items, ("wsgi.input".to_owned(), EnvironValue::Input { length, debug: self.debug }));
        push_item(items, ("wsgi.errors".to_owned(), EnvironValue::Errors));
        push_item(items, ("wsgi.version".to_owned(), EnvironValue::Version(1, 0)));
        let scheme = if self.https {
            "https"
        } else {
            "http"
        };
        push_item(items, ("wsgi.url_scheme".to_owned(), EnvironValue::Text(scheme.to_owned())));
        push_item(items, ("wsgi.multithread".to_owned(), EnvironValue::Flag(true)));
        push_item(items, ("wsgi.multiprocess".to_owned(), EnvironValue::Flag(false)));
        push_item(items, ("wsgi.run_once".to_owned(), EnvironValue::Flag(false)));
        assert(items_view(items@) =~= before + wsgi_items(*self, length));
    }

    /// The items of the environment dictionary, in the order they are set:
    /// the CGI variables, the headers, and the `wsgi.` entries, the input
    /// reading as many bytes as the `Content-Length` gives.
    pub fn to_dict(&self) -> (r: Vec<(String, EnvironValue)>)
        requires
            body_length(*self) is Some,
        ensures
            items_view(r@) == environ_items(*self, body_length(*self)->0),
    {
        let mut items = self.cgi_items();
        self.push_headers(&mut items);
        let length = match &self.content_length {
            Some(l) => match parse_usize(l.as_str()) {
                Some(n) => n,
                None => 0,
            },
            None => 0,
        };
        self.push_wsgi_items(&mut items, length);
        items
    }
}

// ---------------------------------------------------------------------------
// Reading the head of a request
// ---------------------------------------------------------------------------

/// The head of a request as its bytes arrive: the complete lines so far,
/// and the line being read.
pub struct HeaderReader {
    pub head: Vec<u8>,
    pub line: Vec<u8>,
}

impl HeaderReader {
    pub fn new() -> (r: Self)
        ensures
            r.head@.len() == 0,
            r.line@.len() == 0,
    {
        HeaderReader { head: Vec::new(), line: Vec::new() }
    }

    /// Takes the next byte of the connection, `None` when no more can be
    /// read; whether the head is complete. A line ends at a line feed; the
    /// head ends after an empty line (`CR LF`) or where the bytes end.
    pub fn feed(&mut self, byte: Option<u8>) -> (done: bool)
        ensures
            match byte {
                Some(b) => if b == 10 {
                    &&& final(self).head@ == old(self).head@ + old(self).line@.push(b)
                    &&& final(self).line@.len() == 0
                    &&& done == (old(self).line@.push(b) == seq![13u8, 10u8])
                } else {
                    &&& final(self).head@ == old(self).head@
                    &&& final(self).line@ == old(self).line@.push(b)
                    &&& !done
                },
                None => final(self).head@ == old(self).head@ + old(self).line@ && final(self).line@.len()
                    == 0 && done,
            },
    {
        match byte {
            Some(b) => {
                self.line.push(b);
                if b == 10 {
                    let done = self.line.len() == 2 && self.line[0] == 13;
                    proof {
                        if self.line@ == seq![13u8, 10u8] {
                            assert(self.line@[0] == 13);
                        }
                        if done {
                            assert(self.line@ =~= seq![13u8, 10u8]);
                        }
                    }
                    self.head.append(&mut self.line);
                    done
                } else {
                    false
                }
            },
            None => {
                self.head.append(&mut self.line);
                true
            },
        }
    }
}

/// The head and the open line of a reader fed `bytes`, none of which
/// completed the head.
pub open spec fn reader_after(bytes: Seq<u8>) -> (Seq<u8>, Seq<u8>)
    decreases bytes.len(),
{
    if bytes.len() == 0 {
        (Seq::<u8>::empty(), Seq::<u8>::empty())
    } else {
        let (head, line) = reader_after(bytes.drop_last());
        if bytes.last() == 10 {
            (head + line.push(bytes.last()), Seq::<u8>::empty())
        } else {
            (head, line.push(bytes.last()))
        }
    }
}

/// `s` ends with an empty line: a CR LF that starts a line.
pub open spec fn ends_empty_line(s: Seq<u8>) -> bool {
    &&& s.len() >= 2
    &&& s[s.len() - 2] == 13
    &&& s[s.len() - 1] == 10
    &&& (s.len() == 2 || s[s.len() - 3] == 10)
}

proof fn lemma_reader_shape(bytes: Seq<u8>)
    ensures
        reader_after(bytes).0 + reader_after(bytes).1 == bytes,
        forall|i: int|
            0 <= i < reader_after(bytes).1.len() ==> #[trigger] reader_after(bytes).1[i] != 10,
        reader_after(bytes).0.len() == 0 || reader_after(bytes).0.last() == 10,
    decreases bytes.len(),
{
    if bytes.len() > 0 {
        lemma_reader_shape(bytes.drop_last());
        let (head, line) = reader_after(bytes.drop_last());
        let b = bytes.last();
        assert(bytes =~= bytes.drop_last().push(b));
        if b == 10 {
            assert(head + line.push(b) + Seq::<u8>::empty() =~= bytes);
        } else {
            assert(head + line.push(b) =~= bytes);
        }
    }
}

/// Fed the bytes of a connection one at a time, a reader holds them all,
/// in order, and its open line holds no line feed; it reports the head
/// complete on a byte exactly when that byte ends an empty line, so at the
/// end of the first one.
pub proof fn lemma_reader_completes(bytes: Seq<u8>, b: u8)
    ensures
        reader_after(bytes).0 + reader_after(bytes).1 == bytes,
        forall|i: int|
            0 <= i < reader_after(bytes).1.len() ==> #[trigger] reader_after(bytes).1[i] != 10,
        (b == 10 && reader_after(bytes).1.push(b) == seq![13u8, 10u8]) <==> ends_empty_line(
            bytes.push(b),
        ),
{
    lemma_reader_shape(bytes);
    let (head, line) = reader_after(bytes);
    let s = bytes.push(b);
    if b == 10 && line.push(b) == seq![13u8, 10u8] {
        assert(line.len() == 1 && line[0] == 13);
        assert(s[s.len() - 2] == line[0]);
        if s.len() > 2 {
            assert(head.len() > 0);
            assert(s[s.len() - 3] == head.last());
        }
    }
    if ends_empty_line(s) {
        assert(s[s.len() - 2] == bytes.last());
        assert(bytes.last() != 10);
        if line.len() == 0 {
            assert(bytes.len() == 0 || bytes.last() == head.last());
        }
        assert(line.len() > 0);
        assert(line.last() == 13);
        if line.len() >= 2 {
            assert(line[line.len() - 2] == s[s.len() - 3]);
        }
        assert(line.len() == 1);
        assert(line.push(b) =~= seq![13u8, 10u8]);
    }
}

/// What to do with the head of a request once it is read.
pub enum HeadAction {
    /// Serve the request.
    Serve(HttpRequest),
    /// The head is incomplete: answer with an error.
    Incomplete,
    /// The head is not HTTP: drop the connection.
    Invalid,
}

/// What to do with the head `head`.
pub fn head_action(head: &[u8]) -> (r: HeadAction)
    ensures
        match r {
            HeadAction::Serve(q) => http_parse(head@, HEADER_SLOTS) == Some(Some(q@)),
            HeadAction::Incomplete => http_parse(head@, HEADER_SLOTS) == Some(None::<RequestView>),
            HeadAction::Invalid => http_parse(head@, HEADER_SLOTS) is None,
        },
{
    match parse_http(head, HEADER_SLOTS) {
        Some(Some(q)) => HeadAction::Serve(q),
        Some(None) => HeadAction::Incomplete,
        None => HeadAction::Invalid,
    }
}

/// The answer to a request that could not be served, in HTTP/1.`minor`.
pub fn internal_error(minor: u8) -> (r: String)
    ensures
        r@ == "HTTP/1."@ + decimal(minor as nat) + " 500 INTERNAL SERVER ERROR\r\n\r\n"@,
{
    let mut r = String::new();
    push_str(&mut r, "HTTP/1.");
    let digits = decimal_text(minor as u64);
    push_str(&mut r, digits.as_str());
    push_str(&mut r, " 500 INTERNAL SERVER ERROR\r\n\r\n");
    assert(r@ =~= "HTTP/1."@ + decimal(minor as nat) + " 500 INTERNAL SERVER ERROR\r\n\r\n"@);
    r
}

/// The error answer for the head action `a`: for an incomplete head, the
/// answer sent at once, in HTTP/1.0; for a request to serve, the answer sent
/// if serving it fails, in HTTP/1.1; none for a head that is not HTTP.
pub fn error_reply(a: &HeadAction) -> (r: Option<String>)
    ensures
        match a {
            HeadAction::Incomplete => r matches Some(s) && s@ == "HTTP/1."@ + decimal(0) + " 500 INTERNAL SERVER ERROR\r\n\r\n"@,
            HeadAction::Serve(_) => r matches Some(s) && s@ == "HTTP/1."@ + decimal(1) + " 500 INTERNAL SERVER ERROR\r\n\r\n"@,
            HeadAction::Invalid => r is None,
        },
{
    match a {
        HeadAction::Incomplete => Some(internal_error(0)),
        HeadAction::Serve(_) => Some(internal_error(1)),
        HeadAction::Invalid => None,
    }
}

// ---------------------------------------------------------------------------
// The head of the response
// ---------------------------------------------------------------------------

/// The header lines `name: value` CR LF of `headers`.
pub open spec fn header_lines(headers: Seq<(String, String)>) -> Seq<char>
    decreases headers.len(),
{
    if headers.len() == 0 {
        Seq::<char>::empty()
    } else {
        header_lines(headers.drop_last()) + headers.last().0@ + ": "@ + headers.last().1@ + "\r\n"@
    }
}

/// The head of the response with `status` and `headers`: the status
/// line, the header lines, and an empty line.
pub fn response_head(status: &str, headers: &Vec<(String, String)>) -> (r: String)
    ensures
        r@ == "HTTP/1.1 "@ + status@ + "\r\n"@ + header_lines(headers@) + "\r\n"@,
{
    let mut r = String::new();
    push_str(&mut r, "HTTP/1.1 ");
    push_str(&mut r, status);
    push_str(&mut r, "\r\n");
    let ghost start = r@;
    let mut k: usize = 0;
    while k < headers.len()
        invariant
            k <= headers@.len(),
            r@ == start + header_lines(headers@.take(k as int)),
        decreases headers.len() - k,
    {
        push_str(&mut r, headers[k].0.as_str());
        push_str(&mut r, ": ");
        push_str(&mut r, headers[k].1.as_str());
        push_str(&mut r, "\r\n");
        assert(headers@.take(k + 1).drop_last() =~= headers@.take(k as int));
        assert(r@ =~= start + header_lines(headers@.take(k + 1)));
        k = k + 1;
    }
    assert(headers@.take(headers@.len() as int) =~= headers@);
    push_str(&mut r, "\r\n");
    assert(r@ =~= "HTTP/1.1 "@ + status@ + "\r\n"@ + header_lines(headers@) + "\r\n"@);
    r
}

/// Takes the next byte `b` of a line of the request body read with at most
/// `limit` bytes; whether the line is complete: at a line feed, or when it
/// has reached `limit` bytes.
pub fn readline_step(line: &mut Vec<u8>, b: u8, limit: usize) -> (stop: bool)
    ensures
        final(line)@ == old(line)@.push(b),
        stop == (b == 10 || final(line)@.len() == limit),
{
    line.push(b);
    b == 10 || line.len() == limit
}

// ---------------------------------------------------------------------------
// The server
// ---------------------------------------------------------------------------

/// A WSGI server for the application in the file `application`.
pub struct WsgiServer {
    pub application: PathBuf,
    pub debug: bool,
}

impl WsgiServer {
    pub fn new(application: PathBuf, debug: bool) -> (r: WsgiServer)
        ensures
            r.application == application,
            r.debug == debug,
    {
        WsgiServer { application, debug }
    }
}

} // verus!
