//! Type-string utilities and the library's error types.
//!
//! A type string such as `std::vec::Vec<my::custom::Type>` is simplified by
//! dropping namespace qualifiers; generic parameter lists are handled by
//! splitting at top-level commas and stripping each piece.

pub mod better_hash_map;
pub mod error;

use vstd::prelude::*;
use crate::text::{push_char, spec_trim, str_chars, trim_str};
use crate::types::error::SysxError;

verus! {

/// Whether a `::` separator occurs in `s`.
pub open spec fn spec_has_sep(s: Seq<char>) -> bool
    decreases s.len(),
{
    if s.len() < 2 {
        false
    } else if s[0] == ':' && s[1] == ':' {
        true
    } else {
        spec_has_sep(s.skip(1))
    }
}

/// The last piece of `s` split on `::`, scanning left to right.
pub open spec fn spec_last_segment(s: Seq<char>) -> Seq<char>
    decreases s.len(),
{
    if !spec_has_sep(s) {
        s
    } else if s[0] == ':' && s[1] == ':' {
        spec_last_segment(s.skip(2))
    } else {
        spec_last_segment(s.skip(1))
    }
}

/// A separator occurs exactly when two adjacent colons occur somewhere.
proof fn lemma_has_sep_iff(s: Seq<char>)
    ensures
        spec_has_sep(s) <==> exists|k: int|
            0 <= k && k + 1 < s.len() && #[trigger] s[k] == ':' && s[k + 1] == ':',
    decreases s.len(),
{
    if s.len() < 2 {
    } else if s[0] == ':' && s[1] == ':' {
        assert(0 <= 0int && 0int + 1 < s.len() && s[0int] == ':' && s[0int + 1] == ':');
    } else {
        lemma_has_sep_iff(s.skip(1));
        if spec_has_sep(s) {
            let k = choose|k: int|
                0 <= k && k + 1 < s.skip(1).len() && #[trigger] s.skip(1)[k] == ':' && s.skip(1)[k
                    + 1] == ':';
            assert(0 <= k + 1 && k + 2 < s.len() && s[k + 1] == ':' && s[k + 2] == ':');
        }
        if exists|k: int| 0 <= k && k + 1 < s.len() && #[trigger] s[k] == ':' && s[k + 1] == ':' {
            let k = choose|k: int|
                0 <= k && k + 1 < s.len() && #[trigger] s[k] == ':' && s[k + 1] == ':';
            assert(k != 0);
            assert(s.skip(1)[k - 1] == ':' && s.skip(1)[k] == ':');
        }
    }
}

/// Up to the first separator, scanning does not change the last segment.
proof fn lemma_last_segment_skip(s: Seq<char>, p: int)
    requires
        0 <= p,
        p + 1 < s.len(),
        s[p] == ':' && s[p + 1] == ':',
        forall|k: int| 0 <= k < p ==> !(#[trigger] s[k] == ':' && s[k + 1] == ':'),
    ensures
        spec_last_segment(s) == spec_last_segment(s.skip(p + 2)),
    decreases p,
{
    lemma_has_sep_iff(s);
    if p == 0 {
    } else {
        assert(!(s[0] == ':' && s[1] == ':'));
        assert(forall|k: int|
            0 <= k < p - 1 ==> !(#[trigger] s.skip(1)[k] == ':' && s.skip(1)[k + 1] == ':'));
        lemma_last_segment_skip(s.skip(1), p - 1);
        assert(s.skip(1).skip(p + 1) =~= s.skip(p + 2));
    }
}

/// True when the type string looks generic or list-like: it holds an angle
/// bracket, or trims to something in square brackets.
pub open spec fn spec_is_list_like(s: Seq<char>) -> bool {
    ||| exists|i: int| 0 <= i < s.len() && (s[i] == '<' || s[i] == '>')
    ||| {
        let t = spec_trim(s);
        t.len() > 0 && t[0] == '[' && t.last() == ']'
    }
}

/// Checks whether a type string is generic or list-like.
pub fn is_list_like(type_str: &str) -> (r: bool)
    ensures
        r == spec_is_list_like(type_str@),
{
    let chars = str_chars(type_str);
    let n = chars.len();
    let mut i: usize = 0;
    while i < n
        invariant
            i <= n,
            n == type_str@.len(),
            chars@ == type_str@,
            forall|j: int| 0 <= j < i ==> !(type_str@[j] == '<' || type_str@[j] == '>'),
        decreases n - i,
    {
        let c = chars[i];
        if c == '<' || c == '>' {
            return true;
        }
        i = i + 1;
    }
    let t = trim_str(type_str);
    let tc = str_chars(t.as_str());
    if tc.len() == 0 {
        return false;
    }
    tc[0] == '[' && tc[tc.len() - 1] == ']'
}

/// Simplifies a type string that holds no generic parameters, keeping only
/// the part after the last `::` qualifier; a generic type is rejected.
pub fn simplify_nonlist_type(type_str: &str) -> (r: Result<String, SysxError>)
    ensures
        match r {
            Ok(t) => !spec_is_list_like(type_str@) && t@ == spec_last_segment(type_str@),
            Err(e) => spec_is_list_like(type_str@) && (e matches SysxError::ValidationError {
                expected,
                actual,
                ..
            } && expected@ == "non-generic type"@ && actual@ == type_str@),
        },
{
    if is_list_like(type_str) {
        return Err(
            SysxError::ValidationError {
                expected: "non-generic type",
                actual: type_str.to_owned(),
                context: Some("type simplification requires base type".to_owned()),
            },
        );
    }
    let chars = str_chars(type_str);
    let n = chars.len();
    let mut seg: usize = 0;
    let mut i: usize = 0;
    proof {
        assert(type_str@.skip(0) =~= type_str@);
    }
    while i < n
        invariant
            seg <= i <= n,
            n == type_str@.len(),
            chars@ == type_str@,
            spec_last_segment(type_str@) == spec_last_segment(type_str@.skip(seg as int)),
            forall|k: int|
                seg <= k < i ==> !(k + 1 < n && #[trigger] type_str@[k] == ':' && type_str@[k + 1]
                    == ':'),
        decreases n - i,
    {
        if i + 1 < n && chars[i] == ':' && chars[i + 1] == ':' {
            proof {
                let t = type_str@.skip(seg as int);
                assert(forall|k: int|
                    0 <= k < i - seg ==> !(#[trigger] t[k] == ':' && t[k + 1] == ':'));
                lemma_last_segment_skip(t, i - seg);
                assert(t.skip(i - seg + 2) =~= type_str@.skip(i + 2));
            }
            i = i + 2;
            seg = i;
        } else {
            i = i + 1;
        }
    }
    proof {
        let t = type_str@.skip(seg as int);
        lemma_has_sep_iff(t);
        assert(forall|k: int|
            0 <= k && k + 1 < t.len() ==> !(#[trigger] t[k] == ':' && t[k + 1] == ':')) by {
            assert(forall|k: int|
                seg <= k < n ==> !(k + 1 < n && #[trigger] type_str@[k] == ':' && type_str@[k + 1]
                    == ':'));
        }
        assert(!spec_has_sep(t));
    }
    let mut out = String::new();
    let mut j: usize = seg;
    while j < n
        invariant
            seg <= j <= n,
            n == type_str@.len(),
            chars@ == type_str@,
            out@ == type_str@.skip(seg as int).take(j - seg),
        decreases n - j,
    {
        push_char(&mut out, chars[j]);
        proof {
            assert(out@ =~= type_str@.skip(seg as int).take(j + 1 - seg));
        }
        j = j + 1;
    }
    proof {
        assert(type_str@.skip(seg as int).take(n - seg) =~= type_str@.skip(seg as int));
    }
    Ok(out)
}

/// What `strip_qualifiers` returns: the input with every qualifier prefix
/// removed by the pattern `([a-zA-Z_][a-zA-Z0-9_]*::)+`.
pub uninterp spec fn spec_stripped(s: Seq<char>) -> Seq<char>;

/// Relies on `regex::Regex::new` and `Regex::replace_all`: deletes every
/// match of the fixed qualifier pattern; the result depends on the input
/// characters alone.
#[verifier::external_body]
fn strip_qualifiers(s: &str) -> (r: String)
    ensures
        r@ == spec_stripped(s@),
{
    let re = regex::Regex::new(r"([a-zA-Z_][a-zA-Z0-9_]*::)+").unwrap();
    re.replace_all(s, "").into_owned()
}

/// `s` split at the commas that stand outside angle brackets, starting at
/// the given bracket depth; always at least one piece.
pub open spec fn spec_split_commas(s: Seq<char>, depth: int) -> Seq<Seq<char>>
    decreases s.len(),
{
    if s.len() == 0 {
        seq![Seq::<char>::empty()]
    } else if s[0] == ',' && depth == 0 {
        seq![Seq::<char>::empty()] + spec_split_commas(s.skip(1), 0)
    } else {
        let d2 = if s[0] == '<' {
            depth + 1
        } else if s[0] == '>' && depth > 0 {
            depth - 1
        } else {
            depth
        };
        let r = spec_split_commas(s.skip(1), d2);
        seq![seq![s[0]] + r[0]] + r.skip(1)
    }
}

/// A comma split always yields at least one piece.
proof fn lemma_split_commas_len(s: Seq<char>, depth: int)
    ensures
        spec_split_commas(s, depth).len() >= 1,
    decreases s.len(),
{
    if s.len() > 0 && !(s[0] == ',' && depth == 0) {
        let d2 = if s[0] == '<' {
            depth + 1
        } else if s[0] == '>' && depth > 0 {
            depth - 1
        } else {
            depth
        };
        lemma_split_commas_len(s.skip(1), d2);
    }
}

/// A simplified piece appended to the result built so far, with a comma
/// separator wherever the result is already non-empty.
pub open spec fn spec_append_piece(acc: Seq<char>, t: Seq<char>) -> Seq<char> {
    if acc.len() == 0 {
        acc + t
    } else {
        acc + seq![',', ' '] + t
    }
}

/// The result after the pieces before the final one, each stripped of
/// qualifiers and appended.
pub open spec fn spec_fold_pieces(pieces: Seq<Seq<char>>) -> Seq<char>
    decreases pieces.len(),
{
    if pieces.len() == 0 {
        Seq::empty()
    } else {
        spec_append_piece(spec_fold_pieces(pieces.drop_last()), spec_stripped(pieces.last()))
    }
}

/// What `simplify_type` returns for a list-like type string: the top-level
/// comma pieces stripped of qualifiers, joined back with `, `, and trimmed;
/// an empty final piece is left out.
pub open spec fn spec_simplify_list(s: Seq<char>) -> Seq<char> {
    let ts = spec_split_commas(s, 0);
    let acc = spec_fold_pieces(ts.take(ts.len() - 1));
    if ts.last().len() > 0 {
        spec_trim(spec_append_piece(acc, spec_stripped(ts.last())))
    } else {
        spec_trim(acc)
    }
}

/// Simplifies a type string by dropping namespace qualifiers; a type with
/// generic parameters is split at top-level commas and each piece stripped.
pub fn simplify_type(type_str: &str) -> (r: Result<String, SysxError>)
    ensures
        r matches Ok(t) && (if spec_is_list_like(type_str@) {
            t@ == spec_simplify_list(type_str@)
        } else {
            t@ == spec_last_segment(type_str@)
        }),
{
    if !is_list_like(type_str) {
        let r = simplify_nonlist_type(type_str);
        proof {
            assert(r matches Ok(t) && t@ == spec_last_segment(type_str@));
        }
        return r;
    }
    let chars = str_chars(type_str);
    let n = chars.len();
    let mut token = String::new();
    let mut result = String::new();
    let ghost mut done: Seq<Seq<char>> = Seq::empty();
    let mut depth: usize = 0;
    let mut i: usize = 0;
    proof {
        lemma_split_commas_len(type_str@, 0);
        assert(type_str@.skip(0) =~= type_str@);
        let r0 = spec_split_commas(type_str@, 0);
        assert(seq![Seq::<char>::empty() + r0[0]] + r0.skip(1) =~= r0);
    }
    while i < n
        invariant
            i <= n,
            n == type_str@.len(),
            chars@ == type_str@,
            depth <= i,
            result@ == spec_fold_pieces(done),
            spec_split_commas(type_str@, 0) == done + (seq![
                token@ + spec_split_commas(type_str@.skip(i as int), depth as int)[0],
            ] + spec_split_commas(type_str@.skip(i as int), depth as int).skip(1)),
        decreases n - i,
    {
        let c = chars[i];
        proof {
            assert(type_str@.skip(i as int)[0] == c);
            assert(type_str@.skip(i as int).skip(1) =~= type_str@.skip(i + 1));
        }
        if c == ',' && depth == 0 {
            let simplified = strip_qualifiers(token.as_str());
            if !result.as_str().is_empty() {
                result.append(", ");
            }
            result.append(simplified.as_str());
            let ghost prev = done;
            proof {
                done = done.push(token@);
                reveal_strlit(", ");
                assert(", "@ =~= seq![',', ' ']);
                assert(result@ == spec_append_piece(spec_fold_pieces(prev), spec_stripped(token@)));
                assert(done.drop_last() =~= prev);
                assert(result@ == spec_fold_pieces(done));
                let rem = spec_split_commas(type_str@.skip(i as int), 0);
                let rem2 = spec_split_commas(type_str@.skip(i + 1), 0);
                lemma_split_commas_len(type_str@.skip(i + 1), 0);
                assert(rem == seq![Seq::<char>::empty()] + rem2);
                assert(Seq::<char>::empty() + rem2[0] =~= rem2[0]);
                assert(token@ + rem[0] =~= token@);
                assert(prev + (seq![token@ + rem[0]] + rem.skip(1)) =~= done + (seq![
                    Seq::<char>::empty() + rem2[0],
                ] + rem2.skip(1)));
            }
            token = String::new();
        } else {
            proof {
                let rem = spec_split_commas(type_str@.skip(i as int), depth as int);
                let d2 = if c == '<' {
                    depth as int + 1
                } else if c == '>' && depth > 0 {
                    depth as int - 1
                } else {
                    depth as int
                };
                let rem2 = spec_split_commas(type_str@.skip(i + 1), d2);
                lemma_split_commas_len(type_str@.skip(i + 1), d2);
                assert(rem == seq![seq![c] + rem2[0]] + rem2.skip(1));
                assert(token@ + rem[0] =~= token@.push(c) + rem2[0]);
                assert(done + (seq![token@ + rem[0]] + rem.skip(1)) =~= done + (seq![
                    token@.push(c) + rem2[0],
                ] + rem2.skip(1)));
            }
            if c == '<' {
                depth = depth + 1;
            } else if c == '>' && depth > 0 {
                depth = depth - 1;
            }
            push_char(&mut token, c);
        }
        i = i + 1;
    }
    proof {
        let rem = spec_split_commas(type_str@.skip(n as int), depth as int);
        assert(type_str@.skip(n as int) =~= Seq::<char>::empty());
        assert(rem == seq![Seq::<char>::empty()]);
        let ts = spec_split_commas(type_str@, 0);
        assert(token@ + rem[0] =~= token@);
        assert(ts == done + seq![token@]);
        assert(ts.take(ts.len() - 1) =~= done);
        assert(ts.last() == token@);
    }
    if !token.as_str().is_empty() {
        let simplified = strip_qualifiers(token.as_str());
        if !result.as_str().is_empty() {
            result.append(", ");
        }
        result.append(simplified.as_str());
        proof {
            reveal_strlit(", ");
            assert(", "@ =~= seq![',', ' ']);
        }
    }
    Ok(trim_str(result.as_str()))
}

} // verus!
