//! Extracting a file extension from a path given as a byte string.

use vstd::prelude::*;
use vstd::slice::slice_to_vec;

verus! {

/// The part of `s` after the last occurrence of `b`, or all of `s` when `b`
/// does not occur.
pub open spec fn suffix_after_last(s: Seq<u8>, b: u8) -> Seq<u8>
    decreases s.len(),
{
    if s.len() == 0 {
        s
    } else if s.last() == b {
        Seq::empty()
    } else {
        suffix_after_last(s.drop_last(), b).push(s.last())
    }
}

/// `suffix_after_last` is the tail that starts right after the last
/// occurrence of `b`; `i` is the index just after that occurrence (0 when
/// `b` does not occur at all).
pub proof fn lemma_suffix_after_last(s: Seq<u8>, b: u8, i: int)
    requires
        0 <= i <= s.len(),
        forall|k: int| i <= k < s.len() ==> s[k] != b,
        i > 0 ==> s[i - 1] == b,
    ensures
        suffix_after_last(s, b) == s.subrange(i, s.len() as int),
    decreases s.len(),
{
    if s.len() == 0 {
        assert(s.subrange(0, 0) =~= s);
    } else if i == s.len() {
        assert(s.last() == b);
        assert(s.subrange(i, s.len() as int) =~= Seq::<u8>::empty());
    } else {
        assert(s.last() != b);
        let t = s.drop_last();
        assert(forall|k: int| i <= k < t.len() ==> t[k] == s[k] && t[k] != b);
        lemma_suffix_after_last(t, b, i);
        assert(t.subrange(i, t.len() as int).push(s.last()) =~= s.subrange(i, s.len() as int));
    }
}

/// The final path component: what follows the last slash.
pub open spec fn spec_file_name(p: Seq<u8>) -> Seq<u8> {
    suffix_after_last(p, 0x2f)
}

/// The extension of a path: the part of its file name after the last dot,
/// provided some dot stands past the name's first byte. A name without a
/// dot, or with a dot only at its start (a hidden file), has no extension.
pub open spec fn spec_extension(p: Seq<u8>) -> Option<Seq<u8>> {
    let name = spec_file_name(p);
    if exists|k: int| 1 <= k < name.len() && name[k] == 0x2e {
        Some(suffix_after_last(name, 0x2e))
    } else {
        None
    }
}

/// Extracts the extension of `path`, as [`spec_extension`] states it.
pub fn extension_of(path: &Vec<u8>) -> (r: Option<Vec<u8>>)
    ensures
        match r {
            Some(e) => spec_extension(path@) == Some(e@),
            None => spec_extension(path@) is None,
        },
{
    let n = path.len();
    let mut s0: usize = n;
    while s0 > 0 && path[s0 - 1] != 0x2f
        invariant
            n == path@.len(),
            s0 <= n,
            forall|k: int| s0 <= k < n ==> path@[k] != 0x2f,
        decreases s0,
    {
        s0 -= 1;
    }
    proof {
        lemma_suffix_after_last(path@, 0x2f, s0 as int);
    }
    let ghost name = spec_file_name(path@);
    proof {
        assert(name =~= path@.subrange(s0 as int, n as int));
    }
    let mut d: usize = n;
    while d > s0 && path[d - 1] != 0x2e
        invariant
            n == path@.len(),
            s0 <= d <= n,
            forall|k: int| d <= k < n ==> path@[k] != 0x2e,
        decreases d,
    {
        d -= 1;
    }
    if d > s0 && d - 1 > s0 {
        proof {
            assert(path@[d - 1] == 0x2e);
            assert(name[(d - 1) - s0] == 0x2e);
            assert(1 <= (d - 1) - s0 < name.len());
            assert(forall|k: int|
                d - s0 <= k < name.len() ==> name[k] == path@[s0 + k] && name[k] != 0x2e);
            lemma_suffix_after_last(name, 0x2e, d - s0);
            assert(name.subrange(d - s0, name.len() as int) =~= path@.subrange(
                d as int,
                n as int,
            ));
        }
        let ext = slice_to_vec(&path.as_slice()[d..n]);
        Some(ext)
    } else {
        proof {
            assert(forall|k: int| 1 <= k < name.len() ==> name[k] == path@[s0 + k]);
            assert(forall|k: int| 1 <= k < name.len() ==> name[k] != 0x2e) by {
                assert(forall|k: int| d <= k < n ==> path@[k] != 0x2e);
            }
        }
        None
    }
}

} // verus!
