//! Path normalization.
//!
//! File access is the caller's business; what the library settles is how a
//! path collapses: `.` segments are dropped, `..` removes the segment before
//! it, repeated separators fold together, and a leading `/` is kept.

use vstd::prelude::*;
use crate::text::{push_char, spec_split_char, split_char, str_chars, str_eq};

verus! {

/// The segments that remain after resolving `.` and `..` pieces: a `.` or
/// empty piece changes nothing, `..` removes the last remaining segment, and
/// any other piece is kept.
pub open spec fn spec_norm_segs(pieces: Seq<Seq<char>>) -> Seq<Seq<char>>
    decreases pieces.len(),
{
    if pieces.len() == 0 {
        Seq::empty()
    } else {
        let prev = spec_norm_segs(pieces.drop_last());
        let p = pieces.last();
        if p.len() == 0 || p == seq!['.'] {
            prev
        } else if p == seq!['.', '.'] {
            if prev.len() > 0 {
                prev.drop_last()
            } else {
                prev
            }
        } else {
            prev.push(p)
        }
    }
}

/// The segments joined with single slashes between them.
pub open spec fn spec_join_slash(segs: Seq<Seq<char>>) -> Seq<char>
    decreases segs.len(),
{
    if segs.len() == 0 {
        Seq::empty()
    } else if segs.len() == 1 {
        segs[0]
    } else {
        spec_join_slash(segs.drop_last()) + seq!['/'] + segs.last()
    }
}

/// What `normalize_path` returns: the resolved segments joined back, behind
/// a leading slash where the input was absolute.
pub open spec fn spec_normalize_path(s: Seq<char>) -> Seq<char> {
    let segs = spec_norm_segs(spec_split_char(s, '/'));
    if s.len() > 0 && s[0] == '/' {
        seq!['/'] + spec_join_slash(segs)
    } else {
        spec_join_slash(segs)
    }
}

/// Normalizes a path: drops `.` segments and empty pieces, resolves `..`
/// against the segment before it, and keeps a leading slash.
pub fn normalize_path(path: &str) -> (r: String)
    ensures
        r@ == spec_normalize_path(path@),
{
    let pieces = split_char(path, '/');
    let ghost pv = pieces.deep_view();
    let n = pieces.len();
    let mut segs: Vec<String> = Vec::new();
    let mut i: usize = 0;
    proof {
        assert(pv.take(0) =~= Seq::<Seq<char>>::empty());
        assert(segs.deep_view() =~= Seq::<Seq<char>>::empty());
    }
    while i < n
        invariant
            i <= n,
            n == pieces@.len(),
            pv == pieces.deep_view(),
            pv == spec_split_char(path@, '/'),
            segs.deep_view() == spec_norm_segs(pv.take(i as int)),
        decreases n - i,
    {
        proof {
            reveal_strlit(".");
            reveal_strlit("..");
            assert("."@ =~= seq!['.']);
            assert(".."@ =~= seq!['.', '.']);
            assert(pv.take(i + 1).drop_last() =~= pv.take(i as int));
            assert(pv.take(i + 1).last() == pv[i as int]);
        }
        let ghost before = segs.deep_view();
        if pieces[i].as_str().is_empty() || str_eq(pieces[i].as_str(), ".") {
        } else if str_eq(pieces[i].as_str(), "..") {
            if segs.len() > 0 {
                segs.pop();
                proof {
                    assert(segs.deep_view() =~= before.drop_last());
                }
            }
        } else {
            segs.push(pieces[i].clone());
            proof {
                assert(segs.deep_view() =~= before.push(pv[i as int]));
            }
        }
        i = i + 1;
    }
    proof {
        assert(pv.take(n as int) =~= pv);
    }
    let ghost sv = segs.deep_view();
    let mut out = String::new();
    let chars = str_chars(path);
    if chars.len() > 0 && chars[0] == '/' {
        push_char(&mut out, '/');
    }
    let ghost head = out@;
    let m = segs.len();
    let mut j: usize = 0;
    while j < m
        invariant
            j <= m,
            m == segs@.len(),
            sv == segs.deep_view(),
            out@ == head + spec_join_slash(sv.take(j as int)),
        decreases m - j,
    {
        if j > 0 {
            push_char(&mut out, '/');
        }
        out.append(segs[j].as_str());
        proof {
            assert(sv.take(j + 1).drop_last() =~= sv.take(j as int));
            assert(sv.take(j + 1).last() == sv[j as int]);
            assert(out@ =~= head + spec_join_slash(sv.take(j + 1)));
        }
        j = j + 1;
    }
    proof {
        assert(sv.take(m as int) =~= sv);
        assert(out@ =~= spec_normalize_path(path@));
    }
    out
}

} // verus!
