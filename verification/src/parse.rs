//! The request parser: start line and headers out of a raw byte buffer.
//!
//! The grammar is stated once, as spec functions over `Seq<u8>`; every
//! executable parser returns exactly what those functions describe, so the
//! result is a function of the input bytes alone.

use vstd::prelude::*;
use vstd::slice::slice_index_get;

use crate::token::{ByteClass, run_end, lemma_run_end, scan, CR, LF, SP, COLON};

verus! {

/// The start line of a request: method, URI, and version, all byte strings.
#[verifier::ext_equal]
pub struct SpecStartLine {
    pub method: Seq<u8>,
    pub uri: Seq<u8>,
    pub version: Seq<u8>,
}

/// One header: a name and its value lines, in order.
#[verifier::ext_equal]
pub struct SpecHeader {
    pub name: Seq<u8>,
    pub values: Seq<Seq<u8>>,
}

/// The bytes of the literal `HTTP/`.
pub open spec fn http_slash() -> Seq<u8> {
    seq![72u8, 84u8, 84u8, 80u8, 47u8]
}

/// A line terminator at `i`: `\r\n` or a bare `\n`; returns the position
/// just past it.
pub open spec fn line_end_at(s: Seq<u8>, i: int) -> Option<int> {
    if 0 <= i && i + 2 <= s.len() && s[i] == CR && s[i + 1] == LF {
        Some(i + 2)
    } else if 0 <= i && i + 1 <= s.len() && s[i] == LF {
        Some(i + 1)
    } else {
        None
    }
}

/// Parse the start line from the front of `s`: a token run (method), exactly
/// one space, a non-space run (URI), exactly one space, the literal `HTTP/`,
/// a version run, and a line terminator. Returns the position just past the
/// terminator.
pub open spec fn parse_start_line_spec(s: Seq<u8>) -> Option<(SpecStartLine, int)> {
    let m_end = run_end(s, 0, ByteClass::Token);
    if m_end <= 0 || s.len() <= m_end || s[m_end] != SP {
        None
    } else {
        let u_start = m_end + 1;
        let u_end = run_end(s, u_start, ByteClass::NotSpace);
        if u_end <= u_start || s.len() <= u_end || s[u_end] != SP {
            None
        } else {
            let t_start = u_end + 1;
            let v_start = t_start + 5;
            if s.len() < v_start || s.subrange(t_start, v_start) != http_slash() {
                None
            } else {
                let v_end = run_end(s, v_start, ByteClass::Version);
                if v_end <= v_start {
                    None
                } else {
                    match line_end_at(s, v_end) {
                        Some(le) => Some(
                            (
                                SpecStartLine {
                                    method: s.subrange(0, m_end),
                                    uri: s.subrange(u_start, u_end),
                                    version: s.subrange(v_start, v_end),
                                },
                                le,
                            ),
                        ),
                        None => None,
                    }
                }
            }
        }
    }
}

/// Parse one value line at `i`: a non-empty horizontal-whitespace run
/// (consumed and discarded), a non-empty run of non-line-ending bytes
/// (the value), and a line terminator.
pub open spec fn parse_value_spec(s: Seq<u8>, i: int) -> Option<(Seq<u8>, int)> {
    let w_end = run_end(s, i, ByteClass::HorizontalSpace);
    let v_end = run_end(s, w_end, ByteClass::NotLineEnding);
    if w_end <= i || v_end <= w_end {
        None
    } else {
        match line_end_at(s, v_end) {
            Some(le) => Some((s.subrange(w_end, v_end), le)),
            None => None,
        }
    }
}

/// Parse zero or more value lines starting at `i` (header folding:
/// continuation lines accumulate into one header's values).
pub open spec fn parse_values_spec(s: Seq<u8>, i: int) -> (Seq<Seq<u8>>, int)
    decreases s.len() - i,
{
    if 0 <= i <= s.len() {
        match parse_value_spec(s, i) {
            Some(p) => {
                if i < p.1 <= s.len() {
                    let r = parse_values_spec(s, p.1);
                    (seq![p.0] + r.0, r.1)
                } else {
                    (Seq::<Seq<u8>>::empty(), i)
                }
            },
            None => (Seq::<Seq<u8>>::empty(), i),
        }
    } else {
        (Seq::<Seq<u8>>::empty(), i)
    }
}

/// Parse one header at `i`: a token run (the name), a colon, then one or
/// more value lines.
pub open spec fn parse_header_spec(s: Seq<u8>, i: int) -> Option<(SpecHeader, int)> {
    let n_end = run_end(s, i, ByteClass::Token);
    if n_end <= i || s.len() <= n_end || s[n_end] != COLON {
        None
    } else {
        match parse_value_spec(s, n_end + 1) {
            Some(p) => {
                let r = parse_values_spec(s, p.1);
                Some((SpecHeader { name: s.subrange(i, n_end), values: seq![p.0] + r.0 }, r.1))
            },
            None => None,
        }
    }
}

/// Parse zero or more headers starting at `i`.
pub open spec fn parse_headers_spec(s: Seq<u8>, i: int) -> (Seq<SpecHeader>, int)
    decreases s.len() - i,
{
    if 0 <= i <= s.len() {
        match parse_header_spec(s, i) {
            Some(p) => {
                if i < p.1 <= s.len() {
                    let r = parse_headers_spec(s, p.1);
                    (seq![p.0] + r.0, r.1)
                } else {
                    (Seq::<SpecHeader>::empty(), i)
                }
            },
            None => (Seq::<SpecHeader>::empty(), i),
        }
    } else {
        (Seq::<SpecHeader>::empty(), i)
    }
}

/// Parse a whole request from the front of `s`: start line, headers, and the
/// blank line that ends the header section. Trailing bytes are ignored.
pub open spec fn parse_request_spec(s: Seq<u8>) -> Option<(SpecStartLine, Seq<SpecHeader>, int)> {
    match parse_start_line_spec(s) {
        Some(p) => {
            let r = parse_headers_spec(s, p.1);
            match line_end_at(s, r.1) {
                Some(end) => Some((p.0, r.0, end)),
                None => None,
            }
        },
        None => None,
    }
}

/// The two-tier result: the full parse if it succeeds, else the start line
/// alone if it parses, else nothing.
#[verifier::ext_equal]
pub enum SpecParsed {
    Full(SpecStartLine, Seq<SpecHeader>),
    StartLineOnly(SpecStartLine),
    Unparseable,
}

pub open spec fn parse_two_tier_spec(s: Seq<u8>) -> SpecParsed {
    match parse_request_spec(s) {
        Some(p) => SpecParsed::Full(p.0, p.1),
        None => match parse_start_line_spec(s) {
            Some(q) => SpecParsed::StartLineOnly(q.0),
            None => SpecParsed::Unparseable,
        },
    }
}

// ---------------------------------------------------------------------------
// Bounds and shape of the spec parse results.
// ---------------------------------------------------------------------------

pub proof fn lemma_parse_start_line_some(s: Seq<u8>, rl: SpecStartLine, le: int)
    requires
        parse_start_line_spec(s) == Some((rl, le)),
    ensures
        0 < le <= s.len(),
        s[le - 1] == LF,
        rl.method.len() > 0,
        rl.uri.len() > 0,
        rl.version.len() > 0,
{
    lemma_run_end(s, 0, ByteClass::Token);
    let m_end = run_end(s, 0, ByteClass::Token);
    lemma_run_end(s, m_end + 1, ByteClass::NotSpace);
    let u_end = run_end(s, m_end + 1, ByteClass::NotSpace);
    lemma_run_end(s, u_end + 6, ByteClass::Version);
}

pub proof fn lemma_parse_value_some(s: Seq<u8>, i: int, v: Seq<u8>, j: int)
    requires
        0 <= i <= s.len(),
        parse_value_spec(s, i) == Some((v, j)),
    ensures
        i < j <= s.len(),
        v.len() > 0,
        s[j - 1] == LF,
{
    lemma_run_end(s, i, ByteClass::HorizontalSpace);
    let w_end = run_end(s, i, ByteClass::HorizontalSpace);
    lemma_run_end(s, w_end, ByteClass::NotLineEnding);
}

pub proof fn lemma_parse_values_props(s: Seq<u8>, i: int)
    requires
        0 <= i <= s.len(),
    ensures
        i <= parse_values_spec(s, i).1 <= s.len(),
        parse_values_spec(s, i).1 > i ==> s[parse_values_spec(s, i).1 - 1] == LF,
    decreases s.len() - i,
{
    match parse_value_spec(s, i) {
        Some(p) => {
            lemma_parse_value_some(s, i, p.0, p.1);
            lemma_parse_values_props(s, p.1);
        },
        None => {},
    }
}

pub proof fn lemma_parse_header_some(s: Seq<u8>, i: int, h: SpecHeader, j: int)
    requires
        0 <= i <= s.len(),
        parse_header_spec(s, i) == Some((h, j)),
    ensures
        i < j <= s.len(),
        s[j - 1] == LF,
        h.name.len() > 0,
        h.values.len() > 0,
{
    lemma_run_end(s, i, ByteClass::Token);
    let n_end = run_end(s, i, ByteClass::Token);
    match parse_value_spec(s, n_end + 1) {
        Some(p) => {
            lemma_parse_value_some(s, n_end + 1, p.0, p.1);
            lemma_parse_values_props(s, p.1);
        },
        None => {},
    }
}

pub proof fn lemma_parse_headers_props(s: Seq<u8>, i: int)
    requires
        0 <= i <= s.len(),
    ensures
        i <= parse_headers_spec(s, i).1 <= s.len(),
        (0 < i && s[i - 1] == LF) ==> (0 < parse_headers_spec(s, i).1 && s[parse_headers_spec(
            s,
            i,
        ).1 - 1] == LF),
        forall|k: int|
            0 <= k < parse_headers_spec(s, i).0.len() ==> (#[trigger] parse_headers_spec(
                s,
                i,
            ).0[k]).name.len() > 0 && parse_headers_spec(s, i).0[k].values.len() > 0,
    decreases s.len() - i,
{
    match parse_header_spec(s, i) {
        Some(p) => {
            lemma_parse_header_some(s, i, p.0, p.1);
            lemma_parse_headers_props(s, p.1);
        },
        None => {},
    }
}

// ---------------------------------------------------------------------------
// Executable data and parsers.
// ---------------------------------------------------------------------------

/// Malformed or incomplete start line or headers.
#[derive(Debug, PartialEq, Eq)]
pub struct ParseError;

/// Owned copy of a parsed start line.
#[derive(Debug, PartialEq, Eq)]
pub struct StartLine {
    pub method: Vec<u8>,
    pub uri: Vec<u8>,
    pub version: Vec<u8>,
}

impl View for StartLine {
    type V = SpecStartLine;

    open spec fn view(&self) -> SpecStartLine {
        SpecStartLine { method: self.method@, uri: self.uri@, version: self.version@ }
    }
}

/// Owned copy of a parsed header.
#[derive(Debug, PartialEq, Eq)]
pub struct Header {
    pub name: Vec<u8>,
    pub values: Vec<Vec<u8>>,
}

impl View for Header {
    type V = SpecHeader;

    open spec fn view(&self) -> SpecHeader {
        SpecHeader { name: self.name@, values: self.values.deep_view() }
    }
}

impl DeepView for Header {
    type V = SpecHeader;

    open spec fn deep_view(&self) -> SpecHeader {
        self.view()
    }
}

/// Result of the two-tier parse: the full request, the start line alone as
/// the fallback when the header section is bad or unfinished, or nothing.
#[derive(Debug, PartialEq, Eq)]
pub enum Parsed {
    Full(StartLine, Vec<Header>),
    StartLineOnly(StartLine),
    Unparseable,
}

impl View for Parsed {
    type V = SpecParsed;

    open spec fn view(&self) -> SpecParsed {
        match self {
            Parsed::Full(rl, hs) => SpecParsed::Full(rl@, hs.deep_view()),
            Parsed::StartLineOnly(rl) => SpecParsed::StartLineOnly(rl@),
            Parsed::Unparseable => SpecParsed::Unparseable,
        }
    }
}

/// Copy of `input[i..j]`.
fn copy_range(input: &[u8], i: usize, j: usize) -> (r: Vec<u8>)
    requires
        i <= j <= input@.len(),
    ensures
        r@ == input@.subrange(i as int, j as int),
{
    let mut out: Vec<u8> = Vec::new();
    let mut k = i;
    while k < j
        invariant
            i <= k <= j <= input@.len(),
            out@ == input@.subrange(i as int, k as int),
        decreases j - k,
    {
        out.push(*slice_index_get(input, k));
        proof {
            assert(out@ =~= input@.subrange(i as int, k as int + 1));
        }
        k = k + 1;
    }
    out
}

fn line_end(input: &[u8], i: usize) -> (r: Option<usize>)
    requires
        i <= input@.len(),
    ensures
        r is Some <==> line_end_at(input@, i as int) is Some,
        r matches Some(j) ==> line_end_at(input@, i as int) == Some(j as int),
{
    let n = input.len();
    if i < n && *slice_index_get(input, i) == CR {
        if i + 1 < n && *slice_index_get(input, i + 1) == LF {
            Some(i + 2)
        } else {
            None
        }
    } else if i < n && *slice_index_get(input, i) == LF {
        Some(i + 1)
    } else {
        None
    }
}

fn start_line_at(input: &[u8]) -> (r: Option<(StartLine, usize)>)
    ensures
        ({
            match parse_start_line_spec(input@) {
                Some(p) => r matches Some(q) && q.0@ == p.0 && q.1 as int == p.1 && q.1
                    <= input@.len(),
                None => r is None,
            }
        }),
{
    let n = input.len();
    let m_end = scan(input, 0, ByteClass::Token);
    if m_end == 0 || m_end >= n || *slice_index_get(input, m_end) != SP {
        return None;
    }
    let u_start = m_end + 1;
    let u_end = scan(input, u_start, ByteClass::NotSpace);
    if u_end <= u_start || u_end >= n || *slice_index_get(input, u_end) != SP {
        return None;
    }
    let t_start = u_end + 1;
    if n - t_start < 5 {
        proof {
            assert(input@.len() < t_start as int + 5);
        }
        return None;
    }
    let v_start = t_start + 5;
    let tag_ok = *slice_index_get(input, t_start) == 72 && *slice_index_get(input, t_start + 1)
        == 84 && *slice_index_get(input, t_start + 2) == 84 && *slice_index_get(input, t_start + 3)
        == 80 && *slice_index_get(input, t_start + 4) == 47;
    proof {
        let sub = input@.subrange(t_start as int, v_start as int);
        assert(sub[0] == input@[t_start as int]);
        assert(sub[1] == input@[t_start as int + 1]);
        assert(sub[2] == input@[t_start as int + 2]);
        assert(sub[3] == input@[t_start as int + 3]);
        assert(sub[4] == input@[t_start as int + 4]);
        if tag_ok {
            assert(sub =~= http_slash());
        }
    }
    if !tag_ok {
        return None;
    }
    let v_end = scan(input, v_start, ByteClass::Version);
    if v_end <= v_start {
        return None;
    }
    match line_end(input, v_end) {
        Some(le) => Some(
            (
                StartLine {
                    method: copy_range(input, 0, m_end),
                    uri: copy_range(input, u_start, u_end),
                    version: copy_range(input, v_start, v_end),
                },
                le,
            ),
        ),
        None => None,
    }
}

fn value_at(input: &[u8], start: usize) -> (r: Option<(Vec<u8>, usize)>)
    requires
        start <= input@.len(),
    ensures
        ({
            match parse_value_spec(input@, start as int) {
                Some(p) => r matches Some(q) && q.0@ == p.0 && q.1 as int == p.1 && start < q.1
                    <= input@.len(),
                None => r is None,
            }
        }),
{
    let w_end = scan(input, start, ByteClass::HorizontalSpace);
    if w_end <= start {
        return None;
    }
    let v_end = scan(input, w_end, ByteClass::NotLineEnding);
    if v_end <= w_end {
        return None;
    }
    match line_end(input, v_end) {
        Some(le) => {
            proof {
                let p = parse_value_spec(input@, start as int)->Some_0;
                lemma_parse_value_some(input@, start as int, p.0, p.1);
            }
            Some((copy_range(input, w_end, v_end), le))
        },
        None => None,
    }
}

fn values_at(input: &[u8], start: usize) -> (r: (Vec<Vec<u8>>, usize))
    requires
        start <= input@.len(),
    ensures
        r.0.deep_view() == parse_values_spec(input@, start as int).0,
        r.1 as int == parse_values_spec(input@, start as int).1,
        start <= r.1 <= input@.len(),
{
    let mut acc: Vec<Vec<u8>> = Vec::new();
    let mut j = start;
    loop
        invariant
            start <= j <= input@.len(),
            parse_values_spec(input@, start as int).0 =~= acc.deep_view() + parse_values_spec(
                input@,
                j as int,
            ).0,
            parse_values_spec(input@, start as int).1 == parse_values_spec(input@, j as int).1,
        ensures
            start <= j <= input@.len(),
            parse_value_spec(input@, j as int) is None,
            acc.deep_view() =~= parse_values_spec(input@, start as int).0,
            j as int == parse_values_spec(input@, start as int).1,
        decreases input@.len() - j,
    {
        match value_at(input, j) {
            Some(vj) => {
                let (v, k) = vj;
                proof {
                    let p = parse_value_spec(input@, j as int);
                    lemma_parse_value_some(input@, j as int, p->Some_0.0, p->Some_0.1);
                    assert(parse_values_spec(input@, j as int).0 == seq![v@] + parse_values_spec(
                        input@,
                        k as int,
                    ).0);
                }
                let ghost prev = acc.deep_view();
                acc.push(v);
                proof {
                    assert(acc.deep_view() =~~= prev + seq![v@]);
                }
                j = k;
            },
            None => {
                proof {
                    assert(parse_values_spec(input@, j as int).0
                        =~= Seq::<Seq<u8>>::empty());
                }
                break;
            },
        }
    }
    (acc, j)
}

fn header_at(input: &[u8], start: usize) -> (r: Option<(Header, usize)>)
    requires
        start <= input@.len(),
    ensures
        ({
            match parse_header_spec(input@, start as int) {
                Some(p) => r matches Some(q) && q.0.deep_view() == p.0 && q.1 as int == p.1
                    && start < q.1 <= input@.len(),
                None => r is None,
            }
        }),
{
    let n = input.len();
    let n_end = scan(input, start, ByteClass::Token);
    if n_end <= start || n_end >= n || *slice_index_get(input, n_end) != COLON {
        return None;
    }
    match value_at(input, n_end + 1) {
        Some(vj) => {
            let (v, j) = vj;
            let (mut rest, end) = values_at(input, j);
            let name = copy_range(input, start, n_end);
            let mut values: Vec<Vec<u8>> = Vec::new();
            let ghost first = v@;
            values.push(v);
            proof {
                assert(values.deep_view() =~~= seq![first]);
            }
            let ghost before = values.deep_view();
            let ghost rest_view = rest.deep_view();
            values.append(&mut rest);
            proof {
                assert(values.deep_view() =~= before + rest_view);
                let p = parse_header_spec(input@, start as int)->Some_0;
                assert(values.deep_view() =~= p.0.values);
                assert(Header { name: name, values: values }.deep_view() =~= p.0);
            }
            proof {
                lemma_parse_header_some(
                    input@,
                    start as int,
                    parse_header_spec(input@, start as int)->Some_0.0,
                    parse_header_spec(input@, start as int)->Some_0.1,
                );
            }
            Some((Header { name, values }, end))
        },
        None => None,
    }
}

fn headers_at(input: &[u8], start: usize) -> (r: (Vec<Header>, usize))
    requires
        start <= input@.len(),
    ensures
        r.0.deep_view() == parse_headers_spec(input@, start as int).0,
        r.1 as int == parse_headers_spec(input@, start as int).1,
        start <= r.1 <= input@.len(),
{
    let mut acc: Vec<Header> = Vec::new();
    let mut j = start;
    loop
        invariant
            start <= j <= input@.len(),
            parse_headers_spec(input@, start as int).0 =~= acc.deep_view() + parse_headers_spec(
                input@,
                j as int,
            ).0,
            parse_headers_spec(input@, start as int).1 == parse_headers_spec(input@, j as int).1,
        ensures
            start <= j <= input@.len(),
            acc.deep_view() =~= parse_headers_spec(input@, start as int).0,
            j as int == parse_headers_spec(input@, start as int).1,
        decreases input@.len() - j,
    {
        match header_at(input, j) {
            Some(hj) => {
                let (h, k) = hj;
                proof {
                    let p = parse_header_spec(input@, j as int);
                    lemma_parse_header_some(input@, j as int, p->Some_0.0, p->Some_0.1);
                    assert(parse_headers_spec(input@, j as int).0 == seq![p->Some_0.0]
                        + parse_headers_spec(input@, k as int).0);
                }
                let ghost prev = acc.deep_view();
                let ghost hview = h.deep_view();
                acc.push(h);
                proof {
                    assert(acc.deep_view() =~= prev + seq![hview]);
                }
                j = k;
            },
            None => {
                proof {
                    assert(parse_headers_spec(input@, j as int).0
                        =~= Seq::<SpecHeader>::empty());
                }
                break;
            },
        }
    }
    (acc, j)
}

/// Parse only the start line from the front of `input`; usable standalone as
/// the fallback when the full parse fails.
pub fn parse_start_line(input: &[u8]) -> (r: Result<StartLine, ParseError>)
    ensures
        ({
            match parse_start_line_spec(input@) {
                Some(p) => r matches Ok(sl) && sl@ == p.0,
                None => r is Err,
            }
        }),
{
    match start_line_at(input) {
        Some(sl_end) => Ok(sl_end.0),
        None => Err(ParseError),
    }
}

/// Parse a full request: start line, headers, and the blank line that ends
/// the header section. Fails without partial structure when any step fails.
pub fn parse(input: &[u8]) -> (r: Result<(StartLine, Vec<Header>), ParseError>)
    ensures
        ({
            match parse_request_spec(input@) {
                Some(p) => r matches Ok(q) && q.0@ == p.0 && q.1.deep_view() == p.1,
                None => r is Err,
            }
        }),
{
    match start_line_at(input) {
        Some(sl_end) => {
            let (sl, i) = sl_end;
            let (hs, j) = headers_at(input, i);
            match line_end(input, j) {
                Some(_) => Ok((sl, hs)),
                None => Err(ParseError),
            }
        },
        None => Err(ParseError),
    }
}

/// The two-tier parse: the full request if the whole header section is
/// well-formed and terminated, else the start line alone if it parses,
/// else nothing.
pub fn parse_request(input: &[u8]) -> (r: Parsed)
    ensures
        r@ == parse_two_tier_spec(input@),
{
    let res = match start_line_at(input) {
        Some(sl_end) => {
            let (sl, i) = sl_end;
            let (hs, j) = headers_at(input, i);
            match line_end(input, j) {
                Some(_) => Parsed::Full(sl, hs),
                None => Parsed::StartLineOnly(sl),
            }
        },
        None => Parsed::Unparseable,
    };
    proof {
        assert(res@ =~= parse_two_tier_spec(input@));
    }
    res
}

// ---------------------------------------------------------------------------
// Laws of the parser.
// ---------------------------------------------------------------------------

/// The input contains a line terminator that directly follows another line's
/// `\n`: the blank line that ends a header section.
pub open spec fn has_blank_line(s: Seq<u8>) -> bool {
    exists|i: int| 1 <= i <= s.len() && s[i - 1] == LF && line_end_at(s, i) is Some
}

/// A full parse can succeed only on inputs that contain the blank-line
/// header terminator.
pub proof fn lemma_full_parse_needs_blank_line(s: Seq<u8>)
    requires
        parse_request_spec(s) is Some,
    ensures
        has_blank_line(s),
{
    match parse_start_line_spec(s) {
        Some(p) => {
            lemma_parse_start_line_some(s, p.0, p.1);
            lemma_parse_headers_props(s, p.1);
            let j = parse_headers_spec(s, p.1).1;
            assert(1 <= j <= s.len() && s[j - 1] == LF && line_end_at(s, j) is Some);
        },
        None => {
            assert(false);
        },
    }
}

/// On an input that lacks the blank-line header terminator, the full parse
/// fails, and the two-tier parse returns exactly the start line whenever the
/// start line itself is well-formed.
pub proof fn lemma_start_line_fallback(s: Seq<u8>)
    requires
        !has_blank_line(s),
    ensures
        parse_request_spec(s) is None,
        parse_start_line_spec(s) matches Some(p) ==> parse_two_tier_spec(s)
            == SpecParsed::StartLineOnly(p.0),
        parse_start_line_spec(s) is None ==> parse_two_tier_spec(s) == SpecParsed::Unparseable,
{
    if parse_request_spec(s) is Some {
        lemma_full_parse_needs_blank_line(s);
    }
}

/// Parsing is deterministic: any two results that meet the parser's contract
/// on the same input are identical, so parsing a buffer twice yields the
/// same structured output.
pub proof fn lemma_parse_deterministic(s: Seq<u8>, r1: SpecParsed, r2: SpecParsed)
    requires
        r1 == parse_two_tier_spec(s),
        r2 == parse_two_tier_spec(s),
    ensures
        r1 == r2,
{
}

} // verus!
