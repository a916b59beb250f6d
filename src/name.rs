//! 8.3 names: how a name field is shown, matched and written.
use vstd::prelude::*;

use crate::text::{lowercase, lowercase_of, text_of, utf8_lossy};

verus! {

/// The padding byte of 8.3 names.
pub const SPACE: u8 = 0x20;

/// The byte between a name and its extension.
pub const DOT: u8 = 0x2E;

/// ASCII upper case to lower case; other bytes unchanged.
pub open spec fn lower_byte(b: u8) -> u8 {
    if 0x41 <= b <= 0x5A { (b + 0x20) as u8 } else { b }
}

/// ASCII lower case to upper case; other bytes unchanged.
pub open spec fn upper_byte(b: u8) -> u8 {
    if 0x61 <= b <= 0x7A { (b - 0x20) as u8 } else { b }
}

/// ASCII upper case to lower case on a character code; other codes unchanged.
pub open spec fn lower_code(c: u32) -> u32 {
    if 0x41 <= c <= 0x5A { (c + 0x20) as u32 } else { c }
}

pub open spec fn lower_bytes(s: Seq<u8>) -> Seq<u8> {
    s.map_values(|b: u8| lower_byte(b))
}

/// ASCII white space: tab, line feed, vertical tab, form feed, carriage
/// return and space.
pub open spec fn is_blank(b: u8) -> bool {
    b == SPACE || (0x09 <= b <= 0x0D)
}

/// The index of the first byte at or after `i` that is not white space.
pub open spec fn skip_blanks(s: Seq<u8>, i: int) -> int
    decreases s.len() - i,
{
    if 0 <= i < s.len() && is_blank(s[i]) { skip_blanks(s, i + 1) } else { i }
}

/// The end of `s[lo..j]` once trailing white space is dropped.
pub open spec fn drop_trailing_blanks(s: Seq<u8>, lo: int, j: int) -> int
    decreases j - lo,
{
    if lo < j && is_blank(s[j - 1]) { drop_trailing_blanks(s, lo, j - 1) } else { j }
}

/// `s` without its leading and trailing ASCII white space.
pub open spec fn trim(s: Seq<u8>) -> Seq<u8> {
    let a = skip_blanks(s, 0);
    s.subrange(a, drop_trailing_blanks(s, a, s.len() as int))
}

/// The bytes an 11-byte name field is shown as, before case folding: the
/// trimmed name, then a dot and the trimmed extension if that is not empty.
pub open spec fn shown_name(field: Seq<u8>) -> Seq<u8> {
    let name = trim(field.subrange(0, 8));
    let ext = trim(field.subrange(8, 11));
    if ext.len() == 0 { name } else { name + seq![DOT] + ext }
}

/// The shown name in ASCII lower case: what names are matched by.
pub open spec fn display_name(field: Seq<u8>) -> Seq<u8> {
    lower_bytes(shown_name(field))
}

/// Whether a name field answers to `query`, ignoring ASCII case.
pub open spec fn name_matches(field: Seq<u8>, query: Seq<char>) -> bool {
    let n = display_name(field);
    &&& n.len() == query.len()
    &&& forall|i: int| 0 <= i < n.len() ==> n[i] as u32 == lower_code(#[trigger] query[i] as u32)
}

/// A copy of `s[lo..hi]` without leading and trailing ASCII white space.
fn trimmed(s: &[u8], lo: usize, hi: usize) -> (r: Vec<u8>)
    requires
        lo <= hi <= s@.len(),
    ensures
        r@ == trim(s@.subrange(lo as int, hi as int)),
{
    let ghost t = s@.subrange(lo as int, hi as int);
    let mut a: usize = lo;
    while a < hi && (s[a] == SPACE || (0x09 <= s[a] && s[a] <= 0x0D))
        invariant
            lo <= a <= hi <= s@.len(),
            t == s@.subrange(lo as int, hi as int),
            skip_blanks(t, a - lo) == skip_blanks(t, 0),
        decreases hi - a,
    {
        a = a + 1;
    }
    let mut b: usize = hi;
    while b > a && (s[b - 1] == SPACE || (0x09 <= s[b - 1] && s[b - 1] <= 0x0D))
        invariant
            lo <= a <= b <= hi <= s@.len(),
            t == s@.subrange(lo as int, hi as int),
            skip_blanks(t, 0) == a - lo,
            drop_trailing_blanks(t, a - lo, b - lo) == drop_trailing_blanks(t, a - lo, hi - lo),
        decreases b - a,
    {
        b = b - 1;
    }
    let mut r: Vec<u8> = Vec::new();
    let mut i: usize = a;
    while i < b
        invariant
            a <= i <= b <= s@.len(),
            r@ == s@.subrange(a as int, i as int),
        decreases b - i,
    {
        r.push(s[i]);
        i = i + 1;
    }
    assert(r@ =~= trim(t));
    r
}

/// Appends `s` to `r` in lower case.
fn push_lower(r: &mut Vec<u8>, s: &Vec<u8>)
    ensures
        final(r)@ == old(r)@ + lower_bytes(s@),
{
    let mut i: usize = 0;
    while i < s.len()
        invariant
            i <= s@.len(),
            r@ == old(r)@ + lower_bytes(s@.subrange(0, i as int)),
        decreases s@.len() - i,
    {
        let b = s[i];
        let l: u8 = if 0x41 <= b && b <= 0x5A { b + 0x20 } else { b };
        r.push(l);
        i = i + 1;
        assert(lower_bytes(s@.subrange(0, i as int)) =~= lower_bytes(s@.subrange(0, i - 1)).push(l));
    }
    assert(s@.subrange(0, s@.len() as int) =~= s@);
}

/// The bytes that a name field is shown as, before case folding.
fn joined_name(field: &[u8; 11]) -> (r: Vec<u8>)
    ensures
        r@ == shown_name(field@),
{
    let s = field.as_slice();
    let name = trimmed(s, 0, 8);
    let ext = trimmed(s, 8, 11);
    if ext.len() == 0 {
        return name;
    }
    let mut joined = name;
    joined.push(DOT);
    let mut k: usize = 0;
    while k < ext.len()
        invariant
            k <= ext@.len(),
            joined@ == name@ + seq![DOT] + ext@.subrange(0, k as int),
        decreases ext@.len() - k,
    {
        joined.push(ext[k]);
        k = k + 1;
        assert(joined@ =~= name@ + seq![DOT] + ext@.subrange(0, k as int));
    }
    assert(ext@.subrange(0, ext@.len() as int) =~= ext@);
    joined
}

/// The bytes that a name field is shown as, in ASCII lower case.
pub fn formatted_name(field: &[u8; 11]) -> (r: Vec<u8>)
    ensures
        r@ == display_name(field@),
{
    let joined = joined_name(field);
    let mut r: Vec<u8> = Vec::new();
    push_lower(&mut r, &joined);
    assert(r@ =~= display_name(field@));
    r
}

/// The name a name field is shown as: its shown bytes decoded as UTF-8 and
/// put in lower case.  An ASCII name comes out as the characters whose
/// codes are its ASCII lower-case bytes.
pub fn format_name(bytes: &[u8; 11]) -> (r: String)
    ensures
        r@ == lowercase_of(utf8_lossy(shown_name(bytes@))),
        (forall|i: int|
            0 <= i < display_name(bytes@).len() ==> #[trigger] display_name(bytes@)[i] < 0x80)
            ==> r@.len() == display_name(bytes@).len() && forall|i: int|
            0 <= i < r@.len() ==> (#[trigger] r@[i]) as u32 == display_name(bytes@)[i] as u32,
{
    let joined = joined_name(bytes);
    let text = text_of(joined.as_slice());
    let r = lowercase(text.as_str());
    proof {
        let shown = shown_name(bytes@);
        let shown_lower = display_name(bytes@);
        if forall|i: int| 0 <= i < shown_lower.len() ==> #[trigger] shown_lower[i] < 0x80 {
            assert forall|i: int| 0 <= i < shown.len() implies #[trigger] shown[i] < 0x80 by {
                assert(shown_lower[i] == lower_byte(shown[i]));
            }
            assert forall|i: int| 0 <= i < text@.len() implies ((#[trigger] text@[i]) as u32) < 0x80 by {
                assert(text@[i] == shown[i] as char);
            }
            assert forall|i: int| 0 <= i < r@.len() implies (#[trigger] r@[i]) as u32
                == shown_lower[i] as u32 by {
                assert(text@[i] == shown[i] as char);
                assert((shown[i] as char) as u32 == shown[i] as u32);
                assert(shown_lower[i] == lower_byte(shown[i]));
            }
        }
    }
    r
}

/// Whether the name field answers to `query`, ignoring ASCII case.
pub fn matches_query(field: &[u8; 11], query: &str) -> (r: bool)
    ensures
        r == name_matches(field@, query@),
{
    let n = formatted_name(field);
    let len = query.unicode_len();
    if n.len() != len {
        return false;
    }
    let mut i: usize = 0;
    while i < len
        invariant
            i <= len,
            n@.len() == len,
            query@.len() == len,
            n@ == display_name(field@),
            forall|j: int| 0 <= j < i ==> n@[j] as u32 == lower_code(#[trigger] query@[j] as u32),
        decreases len - i,
    {
        let c = query.get_char(i) as u32;
        let l: u32 = if 0x41 <= c && c <= 0x5A { c + 0x20 } else { c };
        if n[i] as u32 != l {
            return false;
        }
        i = i + 1;
    }
    true
}

/// The index of the first `b` at or after `i`, or the length of `s`.
pub open spec fn first_index(s: Seq<u8>, b: u8, i: int) -> int
    decreases s.len() - i,
{
    if i < 0 || i >= s.len() {
        s.len() as int
    } else if s[i] == b {
        i
    } else {
        first_index(s, b, i + 1)
    }
}

/// The part of a file name before its first dot.
pub open spec fn base_part(s: Seq<u8>) -> Seq<u8> {
    s.subrange(0, first_index(s, DOT, 0))
}

/// The part of a file name between its first dot and the next one.
pub open spec fn extension_part(s: Seq<u8>) -> Seq<u8> {
    let d = first_index(s, DOT, 0);
    if d < s.len() { s.subrange(d + 1, first_index(s, DOT, d + 1)) } else { Seq::empty() }
}

/// The first `w` bytes of `s` in upper case, padded with spaces to `w` bytes.
pub open spec fn padded_upper(s: Seq<u8>, w: nat) -> Seq<u8> {
    Seq::new(w, |i: int| if i < s.len() { upper_byte(s[i]) } else { SPACE })
}

/// The 11-byte name field written for the file name `s`: eight bytes of
/// name and three of extension, upper case and space padded.
pub open spec fn short_name_field(s: Seq<u8>) -> Seq<u8> {
    padded_upper(base_part(s), 8) + padded_upper(extension_part(s), 3)
}

/// The index of the first `b` in `s` at or after `from`, or the length of `s`.
fn find_byte(s: &[u8], b: u8, from: usize) -> (r: usize)
    requires
        from <= s@.len(),
    ensures
        r as int == first_index(s@, b, from as int),
        from <= r <= s@.len(),
{
    let mut i: usize = from;
    while i < s.len() && s[i] != b
        invariant
            from <= i <= s@.len(),
            first_index(s@, b, i as int) == first_index(s@, b, from as int),
        decreases s@.len() - i,
    {
        i = i + 1;
    }
    i
}

/// Appends `s[lo..hi]` upper-cased and padded with spaces to `w` bytes.
fn push_padded_upper(r: &mut Vec<u8>, s: &[u8], lo: usize, hi: usize, w: usize)
    requires
        lo <= hi <= s@.len(),
    ensures
        final(r)@ == old(r)@ + padded_upper(s@.subrange(lo as int, hi as int), w as nat),
{
    let ghost part = s@.subrange(lo as int, hi as int);
    let mut k: usize = 0;
    while k < w
        invariant
            k <= w,
            lo <= hi <= s@.len(),
            part == s@.subrange(lo as int, hi as int),
            r@ == old(r)@ + padded_upper(part, w as nat).subrange(0, k as int),
        decreases w - k,
    {
        let c: u8 = if k < hi - lo {
            let b = s[lo + k];
            if 0x61 <= b && b <= 0x7A { b - 0x20 } else { b }
        } else {
            SPACE
        };
        r.push(c);
        k = k + 1;
        assert(r@ =~= old(r)@ + padded_upper(part, w as nat).subrange(0, k as int));
    }
    assert(padded_upper(part, w as nat).subrange(0, w as int) =~= padded_upper(part, w as nat));
}

/// The 11-byte name field for the file name `name`.
pub fn short_name(name: &[u8]) -> (r: Vec<u8>)
    ensures
        r@ == short_name_field(name@),
{
    let len = name.len();
    let d = find_byte(name, DOT, 0);
    let mut r: Vec<u8> = Vec::new();
    push_padded_upper(&mut r, name, 0, d, 8);
    if d < len {
        let e = find_byte(name, DOT, d + 1);
        push_padded_upper(&mut r, name, d + 1, e, 3);
    } else {
        push_padded_upper(&mut r, name, 0, 0, 3);
        assert(name@.subrange(0, 0) =~= Seq::<u8>::empty());
    }
    r
}

} // verus!
