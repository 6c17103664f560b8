//! Byte-level line model shared by both parsers.
//!
//! A line starts at a position `pos` and runs to the first newline byte at or
//! after `pos` (or to the end of the input when no newline follows).  The
//! spec functions here define that decomposition over `Seq<u8>`; the exec
//! functions compute it over `Vec<u8>` and are proved against the specs.

use vstd::prelude::*;

verus! {

/// Line terminator byte, `\n`.
pub const NL: u8 = 10;
/// Record-start marker byte, `@`.
pub const AT: u8 = 64;
/// Separator marker byte, `+`.
pub const PLUS: u8 = 43;
/// Space byte, the id/description separator of the strict header split.
pub const SPACE: u8 = 32;

/// ASCII whitespace, as the trimming and header-splitting rules use it.
pub open spec fn is_space(b: u8) -> bool {
    b == 32 || b == 9 || b == 10 || b == 11 || b == 12 || b == 13
}

/// Every byte is in the ASCII range.
pub open spec fn is_ascii_seq(s: Seq<u8>) -> bool {
    forall|i: int| 0 <= i < s.len() ==> s[i] < 128
}

/// Index of the first occurrence of `b` at or after `pos`, or `s.len()`.
pub open spec fn find_from(s: Seq<u8>, b: u8, pos: int) -> int
    decreases s.len() - pos,
{
    if pos < 0 || pos >= s.len() {
        s.len() as int
    } else if s[pos] == b {
        pos
    } else {
        find_from(s, b, pos + 1)
    }
}

/// Index of the newline that ends the line starting at `pos`, or `s.len()`.
pub open spec fn line_end(s: Seq<u8>, pos: int) -> int {
    find_from(s, NL, pos)
}

/// Position just past the line starting at `pos`: past its newline when the
/// line is terminated, the end of the input otherwise.
pub open spec fn line_stop(s: Seq<u8>, pos: int) -> int {
    if line_end(s, pos) < s.len() {
        line_end(s, pos) + 1
    } else {
        s.len() as int
    }
}

/// The raw line starting at `pos`, its terminator included when present.
pub open spec fn raw_line(s: Seq<u8>, pos: int) -> Seq<u8> {
    s.subrange(pos, line_stop(s, pos))
}

/// The line starting at `pos`, without its terminator.
pub open spec fn line_content(s: Seq<u8>, pos: int) -> Seq<u8> {
    s.subrange(pos, line_end(s, pos))
}

/// Input whose final line is newline-terminated (or which is empty).
pub open spec fn wf_input(s: Seq<u8>) -> bool {
    s.len() == 0 || s[s.len() - 1] == NL
}

/// `s` with its trailing ASCII whitespace removed.
pub open spec fn trim_end(s: Seq<u8>) -> Seq<u8>
    decreases s.len(),
{
    if s.len() > 0 && is_space(s.last()) {
        trim_end(s.drop_last())
    } else {
        s
    }
}

/// A hit at `k` with no hit before it pins `find_from` down.
pub proof fn lemma_find_from_at(s: Seq<u8>, b: u8, pos: int, k: int)
    requires
        0 <= pos <= k <= s.len(),
        k < s.len() ==> s[k] == b,
        forall|i: int| pos <= i < k ==> s[i] != b,
    ensures
        k < s.len() ==> find_from(s, b, pos) == k,
        k == s.len() ==> find_from(s, b, pos) == s.len(),
    decreases k - pos,
{
    if pos < k {
        lemma_find_from_at(s, b, pos + 1, k);
    }
}

/// Trimming removes exactly the trailing whitespace run: the result is the
/// prefix that ends at the last non-whitespace byte.
pub proof fn lemma_trim_end_prefix(s: Seq<u8>, k: int)
    requires
        0 <= k <= s.len(),
        k > 0 ==> !is_space(s[k - 1]),
        forall|i: int| k <= i < s.len() ==> is_space(s[i]),
    ensures
        trim_end(s) == s.subrange(0, k),
    decreases s.len(),
{
    if s.len() > 0 && is_space(s.last()) {
        assert(k < s.len());
        lemma_trim_end_prefix(s.drop_last(), k);
        assert(s.drop_last().subrange(0, k) =~= s.subrange(0, k));
    } else {
        assert(trim_end(s) =~= s.subrange(0, k));
    }
}

/// Whether `b` is ASCII whitespace.
pub fn is_space_byte(b: u8) -> (r: bool)
    ensures
        r == is_space(b),
{
    b == 32 || b == 9 || b == 10 || b == 11 || b == 12 || b == 13
}

/// Index of the first occurrence of `b` at or after `pos`, or the length.
pub fn find_byte_from(v: &Vec<u8>, b: u8, pos: usize) -> (r: usize)
    requires
        pos <= v.len(),
    ensures
        r == find_from(v@, b, pos as int),
        pos <= r <= v.len(),
        r < v.len() ==> v@[r as int] == b,
        forall|j: int| pos <= j < r ==> v@[j] != b,
{
    let mut i: usize = pos;
    while i < v.len()
        invariant
            pos <= i <= v.len(),
            forall|j: int| pos <= j < i ==> v@[j] != b,
        decreases v.len() - i,
    {
        if v[i] == b {
            proof {
                lemma_find_from_at(v@, b, pos as int, i as int);
            }
            return i;
        }
        i = i + 1;
    }
    proof {
        lemma_find_from_at(v@, b, pos as int, v@.len() as int);
    }
    i
}

/// A fresh copy of `v[from..to]`.
pub fn copy_range(v: &Vec<u8>, from: usize, to: usize) -> (r: Vec<u8>)
    requires
        from <= to <= v.len(),
    ensures
        r@ == v@.subrange(from as int, to as int),
{
    let mut out: Vec<u8> = Vec::new();
    let mut i: usize = from;
    while i < to
        invariant
            from <= i <= to <= v.len(),
            out@ == v@.subrange(from as int, i as int),
        decreases to - i,
    {
        out.push(v[i]);
        proof {
            assert(out@ =~= v@.subrange(from as int, i + 1 as int));
        }
        i = i + 1;
    }
    out
}

/// Appends a copy of `src` to `dst`.
pub fn append_bytes(dst: &mut Vec<u8>, src: &Vec<u8>)
    ensures
        final(dst)@ == old(dst)@ + src@,
{
    let mut i: usize = 0;
    while i < src.len()
        invariant
            i <= src.len(),
            dst@ == old(dst)@ + src@.subrange(0, i as int),
        decreases src.len() - i,
    {
        dst.push(src[i]);
        proof {
            assert(dst@ =~= old(dst)@ + src@.subrange(0, i + 1 as int));
        }
        i = i + 1;
    }
    proof {
        assert(dst@ =~= old(dst)@ + src@);
    }
}

/// A copy of `v` with its trailing ASCII whitespace removed.
pub fn trimmed_copy(v: &Vec<u8>) -> (r: Vec<u8>)
    ensures
        r@ == trim_end(v@),
{
    let mut k: usize = v.len();
    while k > 0 && is_space_byte(v[k - 1])
        invariant
            k <= v.len(),
            forall|i: int| k <= i < v.len() ==> is_space(v@[i]),
        decreases k,
    {
        k = k - 1;
    }
    proof {
        lemma_trim_end_prefix(v@, k as int);
    }
    copy_range(v, 0, k)
}

/// Whether every byte of `v` is in the ASCII range.
pub fn is_ascii_bytes(v: &Vec<u8>) -> (r: bool)
    ensures
        r == is_ascii_seq(v@),
{
    let mut i: usize = 0;
    while i < v.len()
        invariant
            i <= v.len(),
            forall|j: int| 0 <= j < i ==> v@[j] < 128,
        decreases v.len() - i,
    {
        if v[i] >= 128 {
            return false;
        }
        i = i + 1;
    }
    true
}

} // verus!
