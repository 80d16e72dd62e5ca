//! Response formatting: status lines, headers, and the exact byte image of
//! each response the dispatcher can send.

use vstd::prelude::*;

verus! {

/// The bytes of `HTTP/1.1 200 OK\r\n`.
pub open spec fn status_ok() -> Seq<u8> {
    seq![72u8, 84u8, 84u8, 80u8, 47u8, 49u8, 46u8, 49u8, 32u8, 50u8, 48u8, 48u8, 32u8, 79u8, 75u8, 13u8, 10u8]
}

/// The bytes of `HTTP/1.1 404 Not Found\r\n\r\n`.
pub open spec fn not_found_response() -> Seq<u8> {
    seq![72u8, 84u8, 84u8, 80u8, 47u8, 49u8, 46u8, 49u8, 32u8, 52u8, 48u8, 52u8, 32u8, 78u8, 111u8, 116u8, 32u8, 70u8, 111u8, 117u8, 110u8, 100u8, 13u8, 10u8, 13u8, 10u8]
}

/// The bytes of `HTTP/1.1 414 URI Too Long\r\n\r\n`.
pub open spec fn uri_too_long_response() -> Seq<u8> {
    seq![72u8, 84u8, 84u8, 80u8, 47u8, 49u8, 46u8, 49u8, 32u8, 52u8, 49u8, 52u8, 32u8, 85u8, 82u8, 73u8, 32u8, 84u8, 111u8, 111u8, 32u8, 76u8, 111u8, 110u8, 103u8, 13u8, 10u8, 13u8, 10u8]
}

/// The bytes of `HTTP/1.1 200 OK\r\n\r\n`: success with no body.
pub open spec fn ok_empty_response() -> Seq<u8> {
    status_ok() + seq![13u8, 10u8]
}

/// The bytes of `Content-Type: text/plain\r\n`.
pub open spec fn content_type_text() -> Seq<u8> {
    seq![67u8, 111u8, 110u8, 116u8, 101u8, 110u8, 116u8, 45u8, 84u8, 121u8, 112u8, 101u8, 58u8, 32u8, 116u8, 101u8, 120u8, 116u8, 47u8, 112u8, 108u8, 97u8, 105u8, 110u8, 13u8, 10u8]
}

/// The bytes of `Content-Type: application/octet-stream\r\n`.
pub open spec fn content_type_octet() -> Seq<u8> {
    seq![67u8, 111u8, 110u8, 116u8, 101u8, 110u8, 116u8, 45u8, 84u8, 121u8, 112u8, 101u8, 58u8, 32u8, 97u8, 112u8, 112u8, 108u8, 105u8, 99u8, 97u8, 116u8, 105u8, 111u8, 110u8, 47u8, 111u8, 99u8, 116u8, 101u8, 116u8, 45u8, 115u8, 116u8, 114u8, 101u8, 97u8, 109u8, 13u8, 10u8]
}

/// The bytes of `Content-Length: `.
pub open spec fn content_length_label() -> Seq<u8> {
    seq![67u8, 111u8, 110u8, 116u8, 101u8, 110u8, 116u8, 45u8, 76u8, 101u8, 110u8, 103u8, 116u8, 104u8, 58u8, 32u8]
}

/// The decimal digits of `n`, most significant first, no leading zeros
/// (a single `0` for zero).
pub open spec fn dec_digits(n: nat) -> Seq<u8>
    decreases n,
{
    if n < 10 {
        seq![(48 + n) as u8]
    } else {
        dec_digits(n / 10) + seq![(48 + n % 10) as u8]
    }
}

/// A `200 OK` response carrying `body` with the given `Content-Type` line and
/// an exact `Content-Length`.
pub open spec fn body_response(ctype: Seq<u8>, body: Seq<u8>) -> Seq<u8> {
    status_ok() + ctype + content_length_label() + dec_digits(body.len()) + seq![
        13u8,
        10u8,
        13u8,
        10u8,
    ] + body
}

/// The `text/plain` response carrying `body`.
pub open spec fn text_response(body: Seq<u8>) -> Seq<u8> {
    body_response(content_type_text(), body)
}

/// The `application/octet-stream` response carrying `body`.
pub open spec fn octet_response(body: Seq<u8>) -> Seq<u8> {
    body_response(content_type_octet(), body)
}

fn append_status_ok(out: &mut Vec<u8>)
    ensures
        final(out)@ == old(out)@ + status_ok(),
{
    out.push(72);
    out.push(84);
    out.push(84);
    out.push(80);
    out.push(47);
    out.push(49);
    out.push(46);
    out.push(49);
    out.push(32);
    out.push(50);
    out.push(48);
    out.push(48);
    out.push(32);
    out.push(79);
    out.push(75);
    out.push(13);
    out.push(10);
    proof {
        assert(out@ =~= old(out)@ + status_ok());
    }
}

fn append_content_type_text(out: &mut Vec<u8>)
    ensures
        final(out)@ == old(out)@ + content_type_text(),
{
    out.push(67);
    out.push(111);
    out.push(110);
    out.push(116);
    out.push(101);
    out.push(110);
    out.push(116);
    out.push(45);
    out.push(84);
    out.push(121);
    out.push(112);
    out.push(101);
    out.push(58);
    out.push(32);
    out.push(116);
    out.push(101);
    out.push(120);
    out.push(116);
    out.push(47);
    out.push(112);
    out.push(108);
    out.push(97);
    out.push(105);
    out.push(110);
    out.push(13);
    out.push(10);
    proof {
        assert(out@ =~= old(out)@ + content_type_text());
    }
}

fn append_content_type_octet(out: &mut Vec<u8>)
    ensures
        final(out)@ == old(out)@ + content_type_octet(),
{
    out.push(67);
    out.push(111);
    out.push(110);
    out.push(116);
    out.push(101);
    out.push(110);
    out.push(116);
    out.push(45);
    out.push(84);
    out.push(121);
    out.push(112);
    out.push(101);
    out.push(58);
    out.push(32);
    out.push(97);
    out.push(112);
    out.push(112);
    out.push(108);
    out.push(105);
    out.push(99);
    out.push(97);
    out.push(116);
    out.push(105);
    out.push(111);
    out.push(110);
    out.push(47);
    out.push(111);
    out.push(99);
    out.push(116);
    out.push(101);
    out.push(116);
    out.push(45);
    out.push(115);
    out.push(116);
    out.push(114);
    out.push(101);
    out.push(97);
    out.push(109);
    out.push(13);
    out.push(10);
    proof {
        assert(out@ =~= old(out)@ + content_type_octet());
    }
}

fn append_content_length_label(out: &mut Vec<u8>)
    ensures
        final(out)@ == old(out)@ + content_length_label(),
{
    out.push(67);
    out.push(111);
    out.push(110);
    out.push(116);
    out.push(101);
    out.push(110);
    out.push(116);
    out.push(45);
    out.push(76);
    out.push(101);
    out.push(110);
    out.push(103);
    out.push(116);
    out.push(104);
    out.push(58);
    out.push(32);
    proof {
        assert(out@ =~= old(out)@ + content_length_label());
    }
}

fn append_crlf(out: &mut Vec<u8>)
    ensures
        final(out)@ == old(out)@ + seq![13u8, 10u8],
{
    out.push(13);
    out.push(10);
    proof {
        assert(out@ =~= old(out)@ + seq![13u8, 10u8]);
    }
}

fn append_dec(out: &mut Vec<u8>, n: usize)
    ensures
        final(out)@ == old(out)@ + dec_digits(n as nat),
    decreases n,
{
    if n < 10 {
        out.push(48 + n as u8);
        proof {
            assert(out@ =~= old(out)@ + dec_digits(n as nat));
        }
    } else {
        append_dec(out, n / 10);
        out.push(48 + (n % 10) as u8);
        proof {
            assert(out@ =~= old(out)@ + dec_digits(n as nat));
        }
    }
}

/// Append `s[i..j]` to `out`.
pub(crate) fn append_range(out: &mut Vec<u8>, s: &[u8], i: usize, j: usize)
    requires
        i <= j <= s@.len(),
    ensures
        final(out)@ == old(out)@ + s@.subrange(i as int, j as int),
{
    let mut k: usize = i;
    while k < j
        invariant
            i <= k <= j <= s@.len(),
            out@ == old(out)@ + s@.subrange(i as int, k as int),
        decreases j - k,
    {
        out.push(*vstd::slice::slice_index_get(s, k));
        proof {
            assert(old(out)@ + s@.subrange(i as int, k as int + 1) =~= (old(out)@ + s@.subrange(
                i as int,
                k as int,
            )).push(s@[k as int]));
        }
        k = k + 1;
    }
}

fn append_slice(out: &mut Vec<u8>, s: &[u8])
    ensures
        final(out)@ == old(out)@ + s@,
{
    let mut k: usize = 0;
    while k < s.len()
        invariant
            k <= s@.len(),
            out@ == old(out)@ + s@.subrange(0, k as int),
        decreases s@.len() - k,
    {
        out.push(*vstd::slice::slice_index_get(s, k));
        proof {
            assert(old(out)@ + s@.subrange(0, k as int + 1) =~= (old(out)@ + s@.subrange(
                0,
                k as int,
            )).push(s@[k as int]));
        }
        k = k + 1;
    }
    proof {
        assert(s@.subrange(0, s@.len() as int) =~= s@);
    }
}

fn body_response_bytes(text: bool, body: &[u8]) -> (r: Vec<u8>)
    ensures
        text ==> r@ == text_response(body@),
        !text ==> r@ == octet_response(body@),
{
    let mut out: Vec<u8> = Vec::new();
    append_status_ok(&mut out);
    if text {
        append_content_type_text(&mut out);
    } else {
        append_content_type_octet(&mut out);
    }
    append_content_length_label(&mut out);
    append_dec(&mut out, body.len());
    append_crlf(&mut out);
    append_crlf(&mut out);
    append_slice(&mut out, body);
    proof {
        if text {
            assert(out@ =~= text_response(body@));
        } else {
            assert(out@ =~= octet_response(body@));
        }
    }
    out
}

/// The `text/plain` `200 OK` response carrying `body`, as sent on the wire.
pub fn text_response_bytes(body: &[u8]) -> (r: Vec<u8>)
    ensures
        r@ == text_response(body@),
{
    body_response_bytes(true, body)
}

/// The `application/octet-stream` `200 OK` response carrying `body` (the
/// contents of a served file), as sent on the wire.
pub fn octet_response_bytes(body: &[u8]) -> (r: Vec<u8>)
    ensures
        r@ == octet_response(body@),
{
    body_response_bytes(false, body)
}

/// The bare `200 OK` response with no body.
pub fn ok_empty_bytes() -> (r: Vec<u8>)
    ensures
        r@ == ok_empty_response(),
{
    let mut out: Vec<u8> = Vec::new();
    append_status_ok(&mut out);
    append_crlf(&mut out);
    proof {
        assert(out@ =~= ok_empty_response());
    }
    out
}

/// The `404 Not Found` response.
pub fn not_found_bytes() -> (r: Vec<u8>)
    ensures
        r@ == not_found_response(),
{
    let mut out: Vec<u8> = Vec::new();
    out.push(72);
    out.push(84);
    out.push(84);
    out.push(80);
    out.push(47);
    out.push(49);
    out.push(46);
    out.push(49);
    out.push(32);
    out.push(52);
    out.push(48);
    out.push(52);
    out.push(32);
    out.push(78);
    out.push(111);
    out.push(116);
    out.push(32);
    out.push(70);
    out.push(111);
    out.push(117);
    out.push(110);
    out.push(100);
    out.push(13);
    out.push(10);
    out.push(13);
    out.push(10);
    proof {
        assert(out@ =~= not_found_response());
    }
    out
}

/// The `414 URI Too Long` response, sent when a read fills the whole buffer.
pub fn uri_too_long_bytes() -> (r: Vec<u8>)
    ensures
        r@ == uri_too_long_response(),
{
    let mut out: Vec<u8> = Vec::new();
    out.push(72);
    out.push(84);
    out.push(84);
    out.push(80);
    out.push(47);
    out.push(49);
    out.push(46);
    out.push(49);
    out.push(32);
    out.push(52);
    out.push(49);
    out.push(52);
    out.push(32);
    out.push(85);
    out.push(82);
    out.push(73);
    out.push(32);
    out.push(84);
    out.push(111);
    out.push(111);
    out.push(32);
    out.push(76);
    out.push(111);
    out.push(110);
    out.push(103);
    out.push(13);
    out.push(10);
    out.push(13);
    out.push(10);
    proof {
        assert(out@ =~= uri_too_long_response());
    }
    out
}

} // verus!
