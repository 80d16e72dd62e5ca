//! Byte classes of the request grammar, and maximal runs of one class.

use vstd::prelude::*;
use vstd::slice::slice_index_get;

verus! {

/// Byte values the grammar refers to.
pub const SP: u8 = 32;
pub const HTAB: u8 = 9;
pub const CR: u8 = 13;
pub const LF: u8 = 10;
pub const COLON: u8 = 58;

/// An HTTP token byte: printable ASCII without the separator set and space.
pub open spec fn is_token_spec(c: u8) -> bool {
    &&& 32 < c < 127
    &&& c != 40 && c != 41 && c != 60 && c != 62 && c != 64
    &&& c != 44 && c != 59 && c != COLON && c != 92 && c != 34
    &&& c != 47 && c != 91 && c != 93 && c != 63 && c != 61
    &&& c != 123 && c != 125
}

pub open spec fn not_line_ending_spec(c: u8) -> bool {
    c != CR && c != LF
}

pub open spec fn is_space_spec(c: u8) -> bool {
    c == SP
}

pub open spec fn is_not_space_spec(c: u8) -> bool {
    c != SP
}

pub open spec fn is_horizontal_space_spec(c: u8) -> bool {
    c == SP || c == HTAB
}

pub open spec fn is_version_spec(c: u8) -> bool {
    (48 <= c <= 57) || c == 46
}

pub fn is_token(c: u8) -> (r: bool)
    ensures
        r == is_token_spec(c),
{
    32 < c && c < 127 && c != 40 && c != 41 && c != 60 && c != 62 && c != 64 && c != 44
        && c != 59 && c != COLON && c != 92 && c != 34 && c != 47 && c != 91 && c != 93
        && c != 63 && c != 61 && c != 123 && c != 125
}

pub fn not_line_ending(c: u8) -> (r: bool)
    ensures
        r == not_line_ending_spec(c),
{
    c != CR && c != LF
}

pub fn is_space(c: u8) -> (r: bool)
    ensures
        r == is_space_spec(c),
{
    c == SP
}

pub fn is_not_space(c: u8) -> (r: bool)
    ensures
        r == is_not_space_spec(c),
{
    c != SP
}

pub fn is_horizontal_space(c: u8) -> (r: bool)
    ensures
        r == is_horizontal_space_spec(c),
{
    c == SP || c == HTAB
}

pub fn is_version(c: u8) -> (r: bool)
    ensures
        r == is_version_spec(c),
{
    (48 <= c && c <= 57) || c == 46
}

/// The byte classes the grammar takes maximal runs of.
#[derive(Clone, Copy)]
pub enum ByteClass {
    Token,
    NotLineEnding,
    NotSpace,
    HorizontalSpace,
    Version,
}

pub open spec fn in_class(k: ByteClass, c: u8) -> bool {
    match k {
        ByteClass::Token => is_token_spec(c),
        ByteClass::NotLineEnding => not_line_ending_spec(c),
        ByteClass::NotSpace => is_not_space_spec(c),
        ByteClass::HorizontalSpace => is_horizontal_space_spec(c),
        ByteClass::Version => is_version_spec(c),
    }
}

pub fn in_class_exec(k: ByteClass, c: u8) -> (r: bool)
    ensures
        r == in_class(k, c),
{
    match k {
        ByteClass::Token => is_token(c),
        ByteClass::NotLineEnding => not_line_ending(c),
        ByteClass::NotSpace => is_not_space(c),
        ByteClass::HorizontalSpace => is_horizontal_space(c),
        ByteClass::Version => is_version(c),
    }
}

/// First position at or after `i` whose byte is not in class `k`
/// (or the end of `s`): the end of the maximal run starting at `i`.
pub open spec fn run_end(s: Seq<u8>, i: int, k: ByteClass) -> int
    decreases s.len() - i,
{
    if 0 <= i && i < s.len() && in_class(k, s[i]) {
        run_end(s, i + 1, k)
    } else {
        i
    }
}

pub proof fn lemma_run_end(s: Seq<u8>, i: int, k: ByteClass)
    requires
        0 <= i <= s.len(),
    ensures
        i <= run_end(s, i, k) <= s.len(),
        forall|j: int| i <= j < run_end(s, i, k) ==> in_class(k, s[j]),
        run_end(s, i, k) < s.len() ==> !in_class(k, s[run_end(s, i, k)]),
    decreases s.len() - i,
{
    if i < s.len() && in_class(k, s[i]) {
        lemma_run_end(s, i + 1, k);
    }
}

/// The run end is the unique position `e` with the run's bytes in the class
/// and the byte at `e`, if any, outside it.
pub proof fn lemma_run_end_is(s: Seq<u8>, i: int, k: ByteClass, e: int)
    requires
        0 <= i <= e <= s.len(),
        forall|j: int| i <= j < e ==> in_class(k, s[j]),
        e < s.len() ==> !in_class(k, s[e]),
    ensures
        run_end(s, i, k) == e,
    decreases e - i,
{
    if i < e {
        assert(in_class(k, s[i]));
        lemma_run_end_is(s, i + 1, k, e);
    }
}

/// End of the maximal run of class `k` starting at `start`.
pub fn scan(input: &[u8], start: usize, k: ByteClass) -> (r: usize)
    requires
        start <= input@.len(),
    ensures
        r as int == run_end(input@, start as int, k),
        start <= r <= input@.len(),
{
    let mut j = start;
    while j < input.len()
        invariant
            start <= j <= input@.len(),
            run_end(input@, start as int, k) == run_end(input@, j as int, k),
        ensures
            start <= j <= input@.len(),
            run_end(input@, start as int, k) == j,
        decreases input@.len() - j,
    {
        let c = *slice_index_get(input, j);
        if !in_class_exec(k, c) {
            break;
        }
        j = j + 1;
    }
    j
}

} // verus!
