//! The dispatcher's decision logic: from the bytes a connection read, and the
//! shared read-only configuration, to the one action the handler performs.
//!
//! The handler itself (the reads and writes) lives outside the library; it
//! carries out the returned [`Action`] and closes the connection.

use vstd::prelude::*;
use vstd::slice::{slice_index_get, slice_subrange};

use crate::parse::{
    Header, Parsed, SpecHeader, SpecParsed, SpecStartLine, parse_request, parse_two_tier_spec,
};
use crate::response::{
    not_found_bytes, not_found_response, octet_response, octet_response_bytes, ok_empty_bytes,
    ok_empty_response, text_response, text_response_bytes, uri_too_long_bytes,
    uri_too_long_response,
};

verus! {

/// The shared read-only configuration: an optional directory that `/files/`
/// requests are served from. Built once at startup and never mutated.
#[derive(Clone)]
pub struct Config {
    pub directory: Option<Vec<u8>>,
}

impl View for Config {
    type V = Option<Seq<u8>>;

    open spec fn view(&self) -> Option<Seq<u8>> {
        match self.directory {
            Some(d) => Some(d@),
            None => None,
        }
    }
}

/// What the connection handler must do after one read.
#[derive(Debug, PartialEq, Eq)]
pub enum Action {
    /// Send exactly these bytes, then close.
    Write(Vec<u8>),
    /// Read the file at this path; send its contents as an
    /// `application/octet-stream` response if it exists, else `404 Not Found`.
    ReadFile(Vec<u8>),
    /// Send nothing and close (non-GET method, or `/user-agent` without a
    /// matching header).
    Silent,
    /// Neither the full parse nor the start-line fallback succeeded; fatal to
    /// this connection only.
    ParseFailure,
    /// A `/files/` request arrived with no configured directory; fatal to
    /// this connection only.
    MissingDirectory,
}

#[verifier::ext_equal]
pub enum SpecAction {
    Write(Seq<u8>),
    ReadFile(Seq<u8>),
    Silent,
    ParseFailure,
    MissingDirectory,
}

impl View for Action {
    type V = SpecAction;

    open spec fn view(&self) -> SpecAction {
        match self {
            Action::Write(bytes) => SpecAction::Write(bytes@),
            Action::ReadFile(path) => SpecAction::ReadFile(path@),
            Action::Silent => SpecAction::Silent,
            Action::ParseFailure => SpecAction::ParseFailure,
            Action::MissingDirectory => SpecAction::MissingDirectory,
        }
    }
}

/// The bytes of `GET`.
pub open spec fn get_method() -> Seq<u8> {
    seq![71u8, 69u8, 84u8]
}

/// The bytes of `/echo/`.
pub open spec fn echo_prefix() -> Seq<u8> {
    seq![47u8, 101u8, 99u8, 104u8, 111u8, 47u8]
}

/// The bytes of `/files/`.
pub open spec fn files_prefix() -> Seq<u8> {
    seq![47u8, 102u8, 105u8, 108u8, 101u8, 115u8, 47u8]
}

/// The bytes of `/user-agent`.
pub open spec fn user_agent_prefix() -> Seq<u8> {
    seq![47u8, 117u8, 115u8, 101u8, 114u8, 45u8, 97u8, 103u8, 101u8, 110u8, 116u8]
}

/// The bytes of `User-Agent` (matched case-sensitively, as the header name).
pub open spec fn user_agent_name() -> Seq<u8> {
    seq![85u8, 115u8, 101u8, 114u8, 45u8, 65u8, 103u8, 101u8, 110u8, 116u8]
}

/// The bytes of `/`.
pub open spec fn root_uri() -> Seq<u8> {
    seq![47u8]
}

pub open spec fn has_prefix(s: Seq<u8>, p: Seq<u8>) -> bool {
    p.len() <= s.len() && s.subrange(0, p.len() as int) == p
}

/// The first value of the first header whose name equals `name` exactly.
pub open spec fn first_matching_value(hs: Seq<SpecHeader>, name: Seq<u8>) -> Option<Seq<u8>>
    decreases hs.len(),
{
    if hs.len() == 0 {
        None
    } else if hs[0].name == name && hs[0].values.len() > 0 {
        Some(hs[0].values[0])
    } else {
        first_matching_value(hs.skip(1), name)
    }
}

/// The route table on a parsed request: method, then URI prefix, in the order
/// the dispatcher tries them.
pub open spec fn route_parsed_spec(
    rl: SpecStartLine,
    hs: Seq<SpecHeader>,
    dir: Option<Seq<u8>>,
) -> SpecAction {
    if rl.method != get_method() {
        SpecAction::Silent
    } else if has_prefix(rl.uri, echo_prefix()) {
        SpecAction::Write(text_response(rl.uri.skip(6)))
    } else if has_prefix(rl.uri, files_prefix()) {
        match dir {
            Some(d) => SpecAction::ReadFile(d + rl.uri.skip(6)),
            None => SpecAction::MissingDirectory,
        }
    } else if has_prefix(rl.uri, user_agent_prefix()) {
        match first_matching_value(hs, user_agent_name()) {
            Some(v) => SpecAction::Write(text_response(v)),
            None => SpecAction::Silent,
        }
    } else if rl.uri == root_uri() {
        SpecAction::Write(ok_empty_response())
    } else {
        SpecAction::Write(not_found_response())
    }
}

/// One whole read-parse-route cycle on the bytes of a request buffer.
pub open spec fn route_spec(s: Seq<u8>, dir: Option<Seq<u8>>) -> SpecAction {
    match parse_two_tier_spec(s) {
        SpecParsed::Full(rl, hs) => route_parsed_spec(rl, hs, dir),
        SpecParsed::StartLineOnly(rl) => route_parsed_spec(rl, Seq::<SpecHeader>::empty(), dir),
        SpecParsed::Unparseable => SpecAction::ParseFailure,
    }
}

fn bytes_eq(a: &[u8], b: &[u8]) -> (r: bool)
    ensures
        r == (a@ == b@),
{
    if a.len() != b.len() {
        return false;
    }
    let mut k: usize = 0;
    while k < a.len()
        invariant
            k <= a@.len() == b@.len(),
            forall|j: int| 0 <= j < k ==> a@[j] == b@[j],
        ensures
            if k < a@.len() {
                a@[k as int] != b@[k as int]
            } else {
                forall|j: int| 0 <= j < a@.len() ==> a@[j] == b@[j]
            },
        decreases a@.len() - k,
    {
        if *slice_index_get(a, k) != *slice_index_get(b, k) {
            break;
        }
        k = k + 1;
    }
    if k < a.len() {
        false
    } else {
        proof {
            assert(a@ =~= b@);
        }
        true
    }
}

fn starts_with(s: &[u8], p: &[u8]) -> (r: bool)
    ensures
        r == has_prefix(s@, p@),
{
    if p.len() > s.len() {
        return false;
    }
    let head = slice_subrange(s, 0, p.len());
    bytes_eq(head, p)
}

fn first_value_of<'a>(headers: &'a Vec<Header>, name: &[u8]) -> (r: Option<&'a Vec<u8>>)
    ensures
        ({
            match first_matching_value(headers.deep_view(), name@) {
                Some(v) => r matches Some(rv) && rv@ == v,
                None => r is None,
            }
        }),
{
    let ghost hs = headers.deep_view();
    proof {
        assert(hs.skip(0) =~= hs);
    }
    let mut k: usize = 0;
    while k < headers.len()
        invariant
            k <= headers@.len(),
            hs == headers.deep_view(),
            hs.len() == headers@.len(),
            first_matching_value(hs, name@) == first_matching_value(hs.skip(k as int), name@),
        ensures
            k <= headers@.len(),
            k < headers@.len() ==> (hs[k as int].name == name@ && hs[k as int].values.len() > 0
                && first_matching_value(hs, name@) == Some(hs[k as int].values[0])),
            k == headers@.len() ==> first_matching_value(hs, name@) is None,
        decreases headers@.len() - k,
    {
        proof {
            assert(hs.skip(k as int).len() == hs.len() - k);
            assert(hs.skip(k as int)[0] == hs[k as int]);
            assert(hs.skip(k as int).skip(1) =~= hs.skip(k as int + 1));
        }
        let h = &headers[k];
        if bytes_eq(h.name.as_slice(), name) {
            if h.values.len() > 0 {
                break;
            }
        }
        k = k + 1;
    }
    if k < headers.len() {
        Some(&headers[k].values[0])
    } else {
        None
    }
}

fn route_parsed(rl: &crate::parse::StartLine, headers: &Vec<Header>, config: &Config) -> (a:
    Action)
    ensures
        a@ == route_parsed_spec(rl@, headers.deep_view(), config@),
{
    let mut get: Vec<u8> = Vec::new();
    get.push(71);
    get.push(69);
    get.push(84);
    proof {
        assert(get@ =~= get_method());
    }
    if !bytes_eq(rl.method.as_slice(), get.as_slice()) {
        return Action::Silent;
    }
    let uri = rl.uri.as_slice();

    let mut echo: Vec<u8> = Vec::new();
    echo.push(47);
    echo.push(101);
    echo.push(99);
    echo.push(104);
    echo.push(111);
    echo.push(47);
    proof {
        assert(echo@ =~= echo_prefix());
    }
    if starts_with(uri, echo.as_slice()) {
        let tail = slice_subrange(uri, 6, uri.len());
        proof {
            assert(tail@ =~= rl@.uri.skip(6));
        }
        return Action::Write(text_response_bytes(tail));
    }

    let mut files: Vec<u8> = Vec::new();
    files.push(47);
    files.push(102);
    files.push(105);
    files.push(108);
    files.push(101);
    files.push(115);
    files.push(47);
    proof {
        assert(files@ =~= files_prefix());
    }
    if starts_with(uri, files.as_slice()) {
        match &config.directory {
            Some(d) => {
                let mut path: Vec<u8> = Vec::new();
                crate::response::append_range(&mut path, d.as_slice(), 0, d.len());
                crate::response::append_range(&mut path, uri, 6, uri.len());
                proof {
                    assert(path@ =~= d@ + rl@.uri.skip(6));
                }
                return Action::ReadFile(path);
            },
            None => {
                return Action::MissingDirectory;
            },
        }
    }

    let mut ua_pre: Vec<u8> = Vec::new();
    ua_pre.push(47);
    ua_pre.push(117);
    ua_pre.push(115);
    ua_pre.push(101);
    ua_pre.push(114);
    ua_pre.push(45);
    ua_pre.push(97);
    ua_pre.push(103);
    ua_pre.push(101);
    ua_pre.push(110);
    ua_pre.push(116);
    proof {
        assert(ua_pre@ =~= user_agent_prefix());
    }
    if starts_with(uri, ua_pre.as_slice()) {
        let mut ua_name: Vec<u8> = Vec::new();
        ua_name.push(85);
        ua_name.push(115);
        ua_name.push(101);
        ua_name.push(114);
        ua_name.push(45);
        ua_name.push(65);
        ua_name.push(103);
        ua_name.push(101);
        ua_name.push(110);
        ua_name.push(116);
        proof {
            assert(ua_name@ =~= user_agent_name());
        }
        return match first_value_of(headers, ua_name.as_slice()) {
            Some(v) => Action::Write(text_response_bytes(v.as_slice())),
            None => Action::Silent,
        };
    }

    let mut root: Vec<u8> = Vec::new();
    root.push(47);
    proof {
        assert(root@ =~= root_uri());
    }
    if bytes_eq(uri, root.as_slice()) {
        return Action::Write(ok_empty_bytes());
    }
    Action::Write(not_found_bytes())
}

/// Parse the buffer (full parse, else start-line fallback) and route on
/// method and URI prefix, as one pure decision over the bytes.
pub fn route(input: &[u8], config: &Config) -> (a: Action)
    ensures
        a@ == route_spec(input@, config@),
{
    match parse_request(input) {
        Parsed::Full(rl, hs) => route_parsed(&rl, &hs, config),
        Parsed::StartLineOnly(rl) => {
            let no_headers: Vec<Header> = Vec::new();
            proof {
                assert(no_headers.deep_view() =~= Seq::<SpecHeader>::empty());
            }
            route_parsed(&rl, &no_headers, config)
        },
        Parsed::Unparseable => Action::ParseFailure,
    }
}

/// One whole read cycle: a read that fills the buffer is answered with
/// `414 URI Too Long`; anything shorter is parsed and routed.
pub fn handle_request(buffer: &[u8], read: usize, config: &Config) -> (a: Action)
    requires
        read <= buffer@.len(),
    ensures
        read == buffer@.len() ==> a@ == SpecAction::Write(uri_too_long_response()),
        read < buffer@.len() ==> a@ == route_spec(buffer@.take(read as int), config@),
{
    if read >= buffer.len() {
        Action::Write(uri_too_long_bytes())
    } else {
        let head = slice_subrange(buffer, 0, read);
        proof {
            assert(head@ =~= buffer@.take(read as int));
        }
        route(head, config)
    }
}

/// The response for a `/files/` request whose file was read successfully.
pub fn file_response(contents: &[u8]) -> (r: Vec<u8>)
    ensures
        r@ == octet_response(contents@),
{
    octet_response_bytes(contents)
}

/// The response for a `/files/` request whose file does not exist.
pub fn missing_file_response() -> (r: Vec<u8>)
    ensures
        r@ == not_found_response(),
{
    not_found_bytes()
}

} // verus!
