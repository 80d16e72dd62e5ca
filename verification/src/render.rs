//! The wire image of a well-formed request, and the round-trip laws: parsing
//! that image returns exactly the method, URI, and headers it was built from,
//! in order, and routing an echo request yields its body verbatim.

use vstd::prelude::*;

use crate::token::{
    ByteClass, run_end, lemma_run_end_is, in_class, is_token_spec, is_not_space_spec,
    is_version_spec, not_line_ending_spec, is_horizontal_space_spec, CR, LF, SP, COLON,
};
use crate::parse::{
    SpecHeader, SpecStartLine, SpecParsed, http_slash, line_end_at, parse_start_line_spec,
    parse_value_spec, parse_values_spec, parse_header_spec, parse_headers_spec,
    parse_request_spec, parse_two_tier_spec,
};
use crate::route::{
    SpecAction, route_spec, route_parsed_spec, get_method, echo_prefix, has_prefix,
};
use crate::response::text_response;

verus! {

pub open spec fn crlf() -> Seq<u8> {
    seq![13u8, 10u8]
}

/// One value line: one space, the value, `\r\n`.
pub open spec fn render_value_line(v: Seq<u8>) -> Seq<u8> {
    seq![32u8] + v + crlf()
}

pub open spec fn render_values(vs: Seq<Seq<u8>>) -> Seq<u8>
    decreases vs.len(),
{
    if vs.len() == 0 {
        Seq::<u8>::empty()
    } else {
        render_value_line(vs[0]) + render_values(vs.skip(1))
    }
}

/// One header block: the name, a colon, its value lines.
pub open spec fn render_header(h: SpecHeader) -> Seq<u8> {
    h.name + seq![COLON] + render_values(h.values)
}

pub open spec fn render_headers(hs: Seq<SpecHeader>) -> Seq<u8>
    decreases hs.len(),
{
    if hs.len() == 0 {
        Seq::<u8>::empty()
    } else {
        render_header(hs[0]) + render_headers(hs.skip(1))
    }
}

/// The whole request: `METHOD URI HTTP/VER\r\n`, the header blocks, and the
/// blank line that ends the header section.
pub open spec fn render_request(rl: SpecStartLine, hs: Seq<SpecHeader>) -> Seq<u8> {
    rl.method + seq![32u8] + rl.uri + seq![32u8] + http_slash() + rl.version + crlf()
        + render_headers(hs) + crlf()
}

/// A non-empty run of token bytes.
pub open spec fn token_text(s: Seq<u8>) -> bool {
    s.len() > 0 && forall|i: int| 0 <= i < s.len() ==> is_token_spec(#[trigger] s[i])
}

/// A non-empty run of non-space bytes.
pub open spec fn uri_text(s: Seq<u8>) -> bool {
    s.len() > 0 && forall|i: int| 0 <= i < s.len() ==> is_not_space_spec(#[trigger] s[i])
}

/// A non-empty run of version bytes (digits and dots).
pub open spec fn version_text(s: Seq<u8>) -> bool {
    s.len() > 0 && forall|i: int| 0 <= i < s.len() ==> is_version_spec(#[trigger] s[i])
}

/// A header value as one line can carry it: non-empty, no line endings, and
/// not beginning with the horizontal whitespace that separates it from the
/// name or marks a continuation.
pub open spec fn value_text(v: Seq<u8>) -> bool {
    &&& v.len() > 0
    &&& forall|i: int| 0 <= i < v.len() ==> not_line_ending_spec(#[trigger] v[i])
    &&& !is_horizontal_space_spec(v[0])
}

pub open spec fn header_wf(h: SpecHeader) -> bool {
    &&& token_text(h.name)
    &&& h.values.len() > 0
    &&& forall|i: int| 0 <= i < h.values.len() ==> value_text(#[trigger] h.values[i])
}

/// A request whose parts the grammar can carry: exactly the shape
/// `METHOD URI HTTP/VER\r\n(NAME: VALUE\r\n)*\r\n` is well-formed.
pub open spec fn request_wf(rl: SpecStartLine, hs: Seq<SpecHeader>) -> bool {
    &&& token_text(rl.method)
    &&& uri_text(rl.uri)
    &&& version_text(rl.version)
    &&& forall|i: int| 0 <= i < hs.len() ==> header_wf(#[trigger] hs[i])
}

/// Nothing at position `e` could begin another value line.
pub open spec fn blocks_value(s: Seq<u8>, e: int) -> bool {
    e == s.len() || !is_horizontal_space_spec(s[e])
}

/// Nothing at position `e` could begin another header or value line.
pub open spec fn blocks_header(s: Seq<u8>, e: int) -> bool {
    e == s.len() || (!is_token_spec(s[e]) && !is_horizontal_space_spec(s[e]))
}

proof fn lemma_parse_value_render(s: Seq<u8>, i: int, v: Seq<u8>)
    requires
        value_text(v),
        0 <= i,
        i + v.len() + 3 <= s.len(),
        s[i] == SP,
        forall|j: int| 0 <= j < v.len() ==> s[i + 1 + j] == #[trigger] v[j],
        s[i + 1 + v.len()] == CR,
        s[i + 2 + v.len()] == LF,
    ensures
        parse_value_spec(s, i) == Some((v, i + v.len() + 3)),
{
    assert(s[i + 1 + 0] == v[0]);
    lemma_run_end_is(s, i, ByteClass::HorizontalSpace, i + 1);
    assert forall|j: int| i + 1 <= j < i + 1 + v.len() implies in_class(
        ByteClass::NotLineEnding,
        s[j],
    ) by {
        assert(s[i + 1 + (j - i - 1)] == v[j - i - 1]);
    }
    lemma_run_end_is(s, i + 1, ByteClass::NotLineEnding, i + 1 + v.len());
    let v_end = i + 1 + v.len();
    assert(line_end_at(s, v_end) == Some(v_end + 2));
    assert(s.subrange(i + 1, v_end) =~= v);
}

proof fn lemma_parse_values_render(s: Seq<u8>, i: int, vs: Seq<Seq<u8>>)
    requires
        forall|k: int| 0 <= k < vs.len() ==> value_text(#[trigger] vs[k]),
        0 <= i,
        i + render_values(vs).len() <= s.len(),
        forall|j: int| 0 <= j < render_values(vs).len() ==> s[i + j] == #[trigger] render_values(
            vs,
        )[j],
        blocks_value(s, i + render_values(vs).len()),
    ensures
        parse_values_spec(s, i) == (vs, i + render_values(vs).len()),
    decreases vs.len(),
{
    let rv = render_values(vs);
    if vs.len() == 0 {
        assert(rv.len() == 0);
        assert(run_end(s, i, ByteClass::HorizontalSpace) == i);
        assert(parse_value_spec(s, i) is None);
        assert(parse_values_spec(s, i).0 =~= vs);
    } else {
        let v = vs[0];
        let line = render_value_line(v);
        let rest = render_values(vs.skip(1));
        assert(rv == line + rest);
        assert(line.len() == v.len() + 3);
        // the bytes of the first line
        assert(s[i + 0] == rv[0]);
        assert(rv[0] == SP);
        assert forall|j: int| 0 <= j < v.len() implies s[i + 1 + j] == v[j] by {
            assert(s[i + (1 + j)] == rv[1 + j]);
            assert(rv[1 + j] == line[1 + j]);
            assert(line[1 + j] == (seq![32u8] + v)[1 + j]);
        }
        assert(s[i + (1 + v.len())] == rv[1 + v.len() as int]);
        assert(rv[1 + v.len() as int] == line[1 + v.len() as int]);
        assert(line[1 + v.len() as int] == crlf()[0]);
        assert(s[i + (2 + v.len())] == rv[2 + v.len() as int]);
        assert(rv[2 + v.len() as int] == line[2 + v.len() as int]);
        assert(line[2 + v.len() as int] == crlf()[1]);
        lemma_parse_value_render(s, i, v);
        let j0 = i + v.len() + 3;
        // the bytes of the remaining lines
        assert forall|j: int| 0 <= j < rest.len() implies s[j0 + j] == rest[j] by {
            assert(s[i + (line.len() + j)] == rv[line.len() as int + j]);
            assert(rv[line.len() as int + j] == rest[j]);
        }
        lemma_parse_values_render(s, j0, vs.skip(1));
        assert(parse_values_spec(s, i).0 =~= vs);
        assert(parse_values_spec(s, i).1 == i + rv.len());
    }
}

proof fn lemma_parse_header_render(s: Seq<u8>, i: int, h: SpecHeader)
    requires
        header_wf(h),
        0 <= i,
        i + render_header(h).len() <= s.len(),
        forall|j: int| 0 <= j < render_header(h).len() ==> s[i + j] == #[trigger] render_header(
            h,
        )[j],
        blocks_value(s, i + render_header(h).len()),
    ensures
        parse_header_spec(s, i) == Some((h, i + render_header(h).len())),
{
    let rh = render_header(h);
    let n = h.name.len() as int;
    assert forall|j: int| i <= j < i + n implies in_class(ByteClass::Token, s[j]) by {
        assert(s[i + (j - i)] == rh[j - i]);
        assert(rh[j - i] == h.name[j - i]);
    }
    assert forall|j: int| 0 <= j < n implies s[i + j] == h.name[j] by {
        assert(s[i + j] == rh[j]);
        assert(rh[j] == h.name[j]);
    }
    assert(s[i + n] == rh[n]);
    assert(rh[n] == COLON);
    lemma_run_end_is(s, i, ByteClass::Token, i + n);
    let vs = h.values;
    let first = vs[0];
    let rvs = render_values(vs);
    assert(rh == h.name + seq![COLON] + rvs);
    assert forall|j: int| 0 <= j < rvs.len() implies s[i + n + 1 + j] == rvs[j] by {
        assert(s[i + (n + 1 + j)] == rh[n + 1 + j]);
        assert(rh[n + 1 + j] == rvs[j]);
    }
    lemma_parse_values_render(s, i + n + 1, vs);
    // the header parser takes the first value line itself, then the rest
    let line = render_value_line(first);
    let rest = render_values(vs.skip(1));
    assert(rvs == line + rest);
    assert(s[i + n + 1 + 0] == rvs[0]);
    assert(rvs[0] == SP);
    assert forall|j: int| 0 <= j < first.len() implies s[i + n + 2 + j] == first[j] by {
        assert(s[i + n + 1 + (1 + j)] == rvs[1 + j]);
        assert(rvs[1 + j] == line[1 + j]);
        assert(line[1 + j] == (seq![32u8] + first)[1 + j]);
    }
    assert(s[i + n + 2 + first.len()] == rvs[1 + first.len() as int]);
    assert(rvs[1 + first.len() as int] == line[1 + first.len() as int]);
    assert(line[1 + first.len() as int] == crlf()[0]);
    assert(s[i + n + 3 + first.len()] == rvs[2 + first.len() as int]);
    assert(rvs[2 + first.len() as int] == line[2 + first.len() as int]);
    assert(line[2 + first.len() as int] == crlf()[1]);
    lemma_parse_value_render(s, i + n + 1, first);
    let j0 = i + n + 1 + first.len() + 3;
    assert forall|j: int| 0 <= j < rest.len() implies s[j0 + j] == rest[j] by {
        assert(s[i + n + 1 + (line.len() + j)] == rvs[line.len() as int + j]);
        assert(rvs[line.len() as int + j] == rest[j]);
    }
    lemma_parse_values_render(s, j0, vs.skip(1));
    match parse_header_spec(s, i) {
        Some(p) => {
            assert(p.0.name =~= h.name);
            assert(p.0.values =~= h.values);
            assert(p.0 =~= h);
            assert(p.1 == i + rh.len());
        },
        None => {
            assert(false);
        },
    }
}

proof fn lemma_parse_headers_render(s: Seq<u8>, i: int, hs: Seq<SpecHeader>)
    requires
        forall|k: int| 0 <= k < hs.len() ==> header_wf(#[trigger] hs[k]),
        0 <= i,
        i + render_headers(hs).len() <= s.len(),
        forall|j: int| 0 <= j < render_headers(hs).len() ==> s[i + j] == #[trigger] render_headers(
            hs,
        )[j],
        blocks_header(s, i + render_headers(hs).len()),
    ensures
        parse_headers_spec(s, i) == (hs, i + render_headers(hs).len()),
    decreases hs.len(),
{
    let rh = render_headers(hs);
    if hs.len() == 0 {
        assert(run_end(s, i, ByteClass::Token) == i);
        assert(parse_header_spec(s, i) is None);
        assert(parse_headers_spec(s, i).0 =~= hs);
    } else {
        let h = hs[0];
        let head = render_header(h);
        let rest = render_headers(hs.skip(1));
        assert(rh == head + rest);
        assert forall|j: int| 0 <= j < head.len() implies s[i + j] == head[j] by {
            assert(s[i + j] == rh[j]);
            assert(rh[j] == head[j]);
        }
        // what follows this header blocks a further value line: either the
        // next header's name (a token byte) or the terminator position
        let e = i + head.len();
        if rest.len() > 0 {
            let h1 = hs.skip(1)[0];
            assert(rest[0] == render_header(h1)[0]);
            assert(render_header(h1)[0] == h1.name[0]);
            assert(header_wf(h1));
            assert(is_token_spec(h1.name[0]));
            assert(s[i + (head.len() + 0)] == rh[head.len() as int + 0]);
            assert(s[e] == rest[0]);
            assert(!is_horizontal_space_spec(s[e]));
        }
        lemma_parse_header_render(s, i, h);
        assert forall|j: int| 0 <= j < rest.len() implies s[e + j] == rest[j] by {
            assert(s[i + (head.len() + j)] == rh[head.len() as int + j]);
            assert(rh[head.len() as int + j] == rest[j]);
        }
        lemma_parse_headers_render(s, e, hs.skip(1));
        assert(parse_headers_spec(s, i).0 =~= hs);
        assert(parse_headers_spec(s, i).1 == i + rh.len());
    }
}

/// Parsing the wire image of any well-formed request returns exactly the
/// method, URI, version, and headers it was built from, in order, consuming
/// the whole image.
pub proof fn lemma_parse_render(rl: SpecStartLine, hs: Seq<SpecHeader>)
    requires
        request_wf(rl, hs),
    ensures
        parse_request_spec(render_request(rl, hs)) == Some(
            (rl, hs, render_request(rl, hs).len() as int),
        ),
{
    let s = render_request(rl, hs);
    let m = rl.method.len() as int;
    let u = rl.uri.len() as int;
    let v = rl.version.len() as int;
    let start = rl.method + seq![32u8] + rl.uri + seq![32u8] + http_slash() + rl.version + crlf();
    let rh = render_headers(hs);
    assert(s == start + rh + crlf());
    assert(start.len() == m + u + v + 9);

    // method run
    assert forall|j: int| 0 <= j < m implies in_class(ByteClass::Token, s[j]) by {
        assert(s[j] == rl.method[j]);
    }
    assert(s[m] == SP);
    lemma_run_end_is(s, 0, ByteClass::Token, m);
    // uri run
    assert forall|j: int| m + 1 <= j < m + 1 + u implies in_class(ByteClass::NotSpace, s[j]) by {
        assert(s[j] == rl.uri[j - m - 1]);
    }
    assert(s[m + 1 + u] == SP);
    lemma_run_end_is(s, m + 1, ByteClass::NotSpace, m + 1 + u);
    // the HTTP/ tag
    let t = m + u + 2;
    assert(s[t] == http_slash()[0]);
    assert(s[t + 1] == http_slash()[1]);
    assert(s[t + 2] == http_slash()[2]);
    assert(s[t + 3] == http_slash()[3]);
    assert(s[t + 4] == http_slash()[4]);
    assert(s.subrange(t, t + 5) =~= http_slash());
    // version run
    assert forall|j: int| t + 5 <= j < t + 5 + v implies in_class(ByteClass::Version, s[j]) by {
        assert(s[j] == rl.version[j - t - 5]);
    }
    assert(s[t + 5 + v] == CR);
    assert(s[t + 6 + v] == LF);
    lemma_run_end_is(s, t + 5, ByteClass::Version, t + 5 + v);
    assert(line_end_at(s, t + 5 + v) == Some(t + 7 + v));

    match parse_start_line_spec(s) {
        Some(p) => {
            assert(p.0.method =~= rl.method);
            assert(p.0.uri =~= rl.uri);
            assert(p.0.version =~= rl.version);
            assert(p.0 =~= rl);
            assert(p.1 == start.len());
        },
        None => {
            assert(false);
        },
    }

    // the header section
    let h0 = start.len() as int;
    assert forall|j: int| 0 <= j < rh.len() implies s[h0 + j] == rh[j] by {
        assert(s == (start + rh) + crlf());
        assert((start + rh)[h0 + j] == rh[j]);
        assert(s[h0 + j] == (start + rh)[h0 + j]);
    }
    let e = h0 + rh.len();
    assert(s[e] == crlf()[0]);
    assert(s[e + 1] == crlf()[1]);
    lemma_parse_headers_render(s, h0, hs);
    assert(line_end_at(s, e) == Some(e + 2));
    assert(e + 2 == s.len());
}

/// The echo request `GET /echo/<body> HTTP/1.1\r\n\r\n`.
pub open spec fn echo_request(body: Seq<u8>) -> Seq<u8> {
    render_request(
        SpecStartLine {
            method: get_method(),
            uri: echo_prefix() + body,
            version: seq![49u8, 46u8, 49u8],
        },
        Seq::<SpecHeader>::empty(),
    )
}

/// Round trip: for any body with no space, CR, or LF bytes, routing the echo
/// request for it answers with the `text/plain` response whose body is
/// exactly those bytes (and whose `Content-Length` is their count, by the
/// definition of `text_response`).
pub proof fn lemma_echo_round_trip(body: Seq<u8>, dir: Option<Seq<u8>>)
    requires
        forall|i: int| 0 <= i < body.len() ==> body[i] != SP && body[i] != CR && body[i] != LF,
    ensures
        route_spec(echo_request(body), dir) == SpecAction::Write(text_response(body)),
{
    let rl = SpecStartLine {
        method: get_method(),
        uri: echo_prefix() + body,
        version: seq![49u8, 46u8, 49u8],
    };
    let hs = Seq::<SpecHeader>::empty();
    assert(token_text(rl.method)) by {
        assert(is_token_spec(get_method()[0]));
        assert(is_token_spec(get_method()[1]));
        assert(is_token_spec(get_method()[2]));
    }
    assert(uri_text(rl.uri)) by {
        assert forall|i: int| 0 <= i < rl.uri.len() implies is_not_space_spec(rl.uri[i]) by {
            if i < 6 {
                assert(rl.uri[i] == echo_prefix()[i]);
            } else {
                assert(rl.uri[i] == body[i - 6]);
            }
        }
    }
    assert(version_text(rl.version)) by {
        assert(is_version_spec(rl.version[0]));
        assert(is_version_spec(rl.version[1]));
        assert(is_version_spec(rl.version[2]));
    }
    lemma_parse_render(rl, hs);
    let s = echo_request(body);
    assert(parse_two_tier_spec(s) == SpecParsed::Full(rl, hs));
    assert(has_prefix(rl.uri, echo_prefix())) by {
        assert(rl.uri.subrange(0, 6) =~= echo_prefix());
    }
    assert(rl.uri.skip(6) =~= body);
    assert(route_spec(s, dir) == route_parsed_spec(rl, hs, dir));
    assert(route_parsed_spec(rl, hs, dir) == SpecAction::Write(text_response(body)));
}

} // verus!

