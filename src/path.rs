//! Slash-separated paths.
use vstd::prelude::*;

verus! {

/// `p[start..end]` as a one-element sequence, or nothing when it is empty.
pub open spec fn piece(p: Seq<char>, start: int, end: int) -> Seq<Seq<char>> {
    if start < end { seq![p.subrange(start, end)] } else { Seq::empty() }
}

/// The non-empty pieces of `p[start..]` between slashes, where the piece
/// being read began at `start` and the next character to look at is `p[i]`.
pub open spec fn segments_from(p: Seq<char>, start: int, i: int) -> Seq<Seq<char>>
    decreases p.len() - i,
{
    if i >= p.len() {
        piece(p, start, p.len() as int)
    } else if p[i] == '/' {
        piece(p, start, i) + segments_from(p, i + 1, i + 1)
    } else {
        segments_from(p, start, i + 1)
    }
}

/// The segments of a path: its pieces between slashes, empty ones left out.
pub open spec fn segments(p: Seq<char>) -> Seq<Seq<char>> {
    segments_from(p, 0, 0)
}

/// Whether a path starts at the root directory.
pub open spec fn is_absolute(p: Seq<char>) -> bool {
    p.len() > 0 && p[0] == '/'
}

/// Splits `path` on slashes and leaves out the empty pieces.
pub fn split_path(path: &str) -> (r: Vec<&str>)
    ensures
        r@.len() == segments(path@).len(),
        forall|j: int| 0 <= j < r@.len() ==> (#[trigger] r@[j])@ == segments(path@)[j],
{
    let len = path.unicode_len();
    let mut r: Vec<&str> = Vec::new();
    let ghost mut done: Seq<Seq<char>> = Seq::empty();
    let mut start: usize = 0;
    let mut i: usize = 0;
    while i < len
        invariant
            start <= i <= len,
            len == path@.len(),
            segments(path@) == done + segments_from(path@, start as int, i as int),
            r@.len() == done.len(),
            forall|j: int| 0 <= j < r@.len() ==> (#[trigger] r@[j])@ == done[j],
        decreases len - i,
    {
        if path.get_char(i) == '/' {
            let ghost before = done;
            if start < i {
                let s = path.substring_char(start, i);
                r.push(s);
                proof {
                    done = done.push(path@.subrange(start as int, i as int));
                }
            }
            proof {
                let rest = segments_from(path@, i + 1, i + 1);
                assert(before + (piece(path@, start as int, i as int) + rest) =~= done + rest);
            }
            start = i + 1;
        }
        i = i + 1;
    }
    let ghost before = done;
    if start < len {
        let s = path.substring_char(start, len);
        r.push(s);
        proof {
            done = done.push(path@.subrange(start as int, len as int));
        }
    }
    assert(before + piece(path@, start as int, len as int) =~= done);
    r
}

} // verus!
