//! Character and string helpers used across the library.

use vstd::prelude::*;
use vstd::string::StrSliceExecFns;
use vstd::utf8::{decode_utf8, valid_utf8};

verus! {

/// True when `c` carries the Unicode `White_Space` property, the predicate
/// behind `char::is_whitespace`.
pub open spec fn spec_is_space(c: char) -> bool {
    let u = c as u32;
    (0x9 <= u <= 0xd) || u == 0x20 || u == 0x85 || u == 0xa0 || u == 0x1680 || (0x2000 <= u
        <= 0x200a) || u == 0x2028 || u == 0x2029 || u == 0x202f || u == 0x205f || u == 0x3000
}

/// Checks whether a character is whitespace.
pub fn is_space(c: char) -> (r: bool)
    ensures
        r == spec_is_space(c),
{
    let u = c as u32;
    (0x9 <= u && u <= 0xd) || u == 0x20 || u == 0x85 || u == 0xa0 || u == 0x1680 || (0x2000 <= u
        && u <= 0x200a) || u == 0x2028 || u == 0x2029 || u == 0x202f || u == 0x205f || u == 0x3000
}

/// Collects the characters of a string slice into a vector.
pub fn str_chars(s: &str) -> (r: Vec<char>)
    ensures
        r@ == s@,
{
    let n = s.unicode_len();
    let mut r: Vec<char> = Vec::new();
    let mut i: usize = 0;
    while i < n
        invariant
            i <= n,
            n == s@.len(),
            r@ == s@.take(i as int),
        decreases n - i,
    {
        r.push(s.get_char(i));
        proof {
            assert(r@ =~= s@.take(i + 1));
        }
        i = i + 1;
    }
    proof {
        assert(s@.take(n as int) =~= s@);
    }
    r
}

/// `s` without its leading whitespace.
pub open spec fn spec_trim_start(s: Seq<char>) -> Seq<char>
    decreases s.len(),
{
    if s.len() > 0 && spec_is_space(s[0]) {
        spec_trim_start(s.skip(1))
    } else {
        s
    }
}

/// `s` without its trailing whitespace.
pub open spec fn spec_trim_end(s: Seq<char>) -> Seq<char>
    decreases s.len(),
{
    if s.len() > 0 && spec_is_space(s.last()) {
        spec_trim_end(s.drop_last())
    } else {
        s
    }
}

/// `s` without leading and trailing whitespace.
pub open spec fn spec_trim(s: Seq<char>) -> Seq<char> {
    spec_trim_end(spec_trim_start(s))
}

/// Dropping a whitespace prefix is what `spec_trim_start` does.
proof fn lemma_trim_start_skip(s: Seq<char>, lo: int)
    requires
        0 <= lo <= s.len(),
        forall|k: int| 0 <= k < lo ==> spec_is_space(s[k]),
        lo < s.len() ==> !spec_is_space(s[lo]),
    ensures
        spec_trim_start(s) == s.skip(lo),
    decreases lo,
{
    if lo == 0 {
        assert(s.skip(0) =~= s);
    } else {
        assert(spec_is_space(s[0]));
        lemma_trim_start_skip(s.skip(1), lo - 1);
        assert(s.skip(1).skip(lo - 1) =~= s.skip(lo));
    }
}

/// Dropping a whitespace suffix is what `spec_trim_end` does.
proof fn lemma_trim_end_take(s: Seq<char>, hi: int)
    requires
        0 <= hi <= s.len(),
        forall|k: int| hi <= k < s.len() ==> spec_is_space(s[k]),
        hi > 0 ==> !spec_is_space(s[hi - 1]),
    ensures
        spec_trim_end(s) == s.take(hi),
    decreases s.len(),
{
    if hi == s.len() {
        if s.len() > 0 {
            assert(s.take(hi) =~= s);
        } else {
            assert(s.take(0) =~= s);
        }
    } else {
        assert(spec_is_space(s.last()));
        lemma_trim_end_take(s.drop_last(), hi);
        assert(s.drop_last().take(hi) =~= s.take(hi));
    }
}

/// Returns `s` without leading and trailing whitespace.
pub fn trim_str(s: &str) -> (r: String)
    ensures
        r@ == spec_trim(s@),
{
    let chars = str_chars(s);
    let n = chars.len();
    let mut lo: usize = 0;
    while lo < n && is_space(chars[lo])
        invariant
            lo <= n,
            n == s@.len(),
            chars@ == s@,
            forall|k: int| 0 <= k < lo ==> spec_is_space(s@[k]),
        decreases n - lo,
    {
        lo = lo + 1;
    }
    proof {
        lemma_trim_start_skip(s@, lo as int);
    }
    let mut hi: usize = n;
    while hi > lo && is_space(chars[hi - 1])
        invariant
            lo <= hi <= n,
            n == s@.len(),
            chars@ == s@,
            forall|k: int| 0 <= k < lo ==> spec_is_space(s@[k]),
            lo < s@.len() ==> !spec_is_space(s@[lo as int]),
            forall|k: int| hi <= k < s@.len() ==> spec_is_space(s@[k]),
        decreases hi,
    {
        hi = hi - 1;
    }
    proof {
        let t = s@.skip(lo as int);
        assert(forall|k: int|
            hi - lo <= k < t.len() ==> spec_is_space(#[trigger] t[k]) && t[k] == s@[k + lo]);
        lemma_trim_end_take(t, hi - lo);
    }
    let mut out = String::new();
    let mut i: usize = lo;
    while i < hi
        invariant
            lo <= i <= hi <= n,
            n == s@.len(),
            chars@ == s@,
            out@ == s@.skip(lo as int).take(i - lo),
        decreases hi - i,
    {
        push_char(&mut out, chars[i]);
        proof {
            assert(out@ =~= s@.skip(lo as int).take(i + 1 - lo));
        }
        i = i + 1;
    }
    out
}

/// `s` split at every occurrence of `sep`; always at least one piece.
pub open spec fn spec_split_char(s: Seq<char>, sep: char) -> Seq<Seq<char>>
    decreases s.len(),
{
    if s.len() == 0 {
        seq![Seq::<char>::empty()]
    } else if s[0] == sep {
        seq![Seq::<char>::empty()] + spec_split_char(s.skip(1), sep)
    } else {
        let r = spec_split_char(s.skip(1), sep);
        seq![seq![s[0]] + r[0]] + r.skip(1)
    }
}

/// A split always yields at least one piece.
pub proof fn lemma_split_char_len(s: Seq<char>, sep: char)
    ensures
        spec_split_char(s, sep).len() >= 1,
    decreases s.len(),
{
    if s.len() > 0 && s[0] != sep {
        lemma_split_char_len(s.skip(1), sep);
    }
}

/// Splits `s` at every occurrence of `sep`.
pub fn split_char(s: &str, sep: char) -> (r: Vec<String>)
    ensures
        r.deep_view() == spec_split_char(s@, sep),
{
    let chars = str_chars(s);
    let n = chars.len();
    let mut pieces: Vec<String> = Vec::new();
    let mut token = String::new();
    let mut i: usize = 0;
    proof {
        lemma_split_char_len(s@, sep);
        assert(s@.skip(0) =~= s@);
        let r0 = spec_split_char(s@, sep);
        assert(pieces.deep_view() =~= Seq::<Seq<char>>::empty());
        assert(seq![Seq::<char>::empty() + r0[0]] + r0.skip(1) =~= r0);
    }
    while i < n
        invariant
            i <= n,
            n == s@.len(),
            chars@ == s@,
            spec_split_char(s@, sep) == pieces.deep_view() + (seq![
                token@ + spec_split_char(s@.skip(i as int), sep)[0],
            ] + spec_split_char(s@.skip(i as int), sep).skip(1)),
        decreases n - i,
    {
        let c = chars[i];
        proof {
            assert(s@.skip(i as int)[0] == c);
            assert(s@.skip(i as int).skip(1) =~= s@.skip(i + 1));
        }
        if c == sep {
            let ghost before = pieces.deep_view();
            let done = token;
            token = String::new();
            pieces.push(done);
            proof {
                assert(pieces.deep_view() =~= before.push(done@));
                let rem = spec_split_char(s@.skip(i as int), sep);
                let rem2 = spec_split_char(s@.skip(i + 1), sep);
                lemma_split_char_len(s@.skip(i + 1), sep);
                assert(rem == seq![Seq::<char>::empty()] + rem2);
                assert(token@ + rem2[0] =~= rem2[0]);
                assert(done@ + rem[0] =~= done@);
                assert(before + (seq![done@ + rem[0]] + rem.skip(1)) =~= pieces.deep_view() + (seq![
                    token@ + rem2[0],
                ] + rem2.skip(1)));
            }
        } else {
            proof {
                let rem = spec_split_char(s@.skip(i as int), sep);
                let rem2 = spec_split_char(s@.skip(i + 1), sep);
                lemma_split_char_len(s@.skip(i + 1), sep);
                assert(rem == seq![seq![c] + rem2[0]] + rem2.skip(1));
                assert(token@ + rem[0] =~= token@.push(c) + rem2[0]);
                assert(pieces.deep_view() + (seq![token@ + rem[0]] + rem.skip(1))
                    =~= pieces.deep_view() + (seq![token@.push(c) + rem2[0]] + rem2.skip(1)));
            }
            push_char(&mut token, c);
        }
        i = i + 1;
    }
    proof {
        let rem = spec_split_char(s@.skip(n as int), sep);
        assert(s@.skip(n as int) =~= Seq::<char>::empty());
        assert(rem == seq![Seq::<char>::empty()]);
        assert(token@ + rem[0] =~= token@);
    }
    let ghost before = pieces.deep_view();
    pieces.push(token);
    proof {
        assert(pieces.deep_view() =~= before.push(token@));
        assert(before.push(token@) =~= spec_split_char(s@, sep));
    }
    pieces
}

/// Position of the first occurrence of `c` in `s`, or the length where it
/// does not occur.
pub open spec fn spec_find_char(s: Seq<char>, c: char) -> int
    decreases s.len(),
{
    if s.len() == 0 {
        0
    } else if s[0] == c {
        0
    } else {
        1 + spec_find_char(s.skip(1), c)
    }
}

/// A scan that stops at the first occurrence finds `spec_find_char`.
pub proof fn lemma_find_char_at(s: Seq<char>, c: char, p: int)
    requires
        0 <= p <= s.len(),
        forall|k: int| 0 <= k < p ==> #[trigger] s[k] != c,
        p < s.len() ==> s[p] == c,
    ensures
        spec_find_char(s, c) == p,
    decreases s.len(),
{
    if s.len() > 0 && p > 0 {
        assert(forall|k: int| 0 <= k < p - 1 ==> #[trigger] s.skip(1)[k] != c);
        lemma_find_char_at(s.skip(1), c, p - 1);
    }
}

/// Builds a string from the characters `chars[lo..hi]`.
pub fn chars_to_string(chars: &Vec<char>, lo: usize, hi: usize) -> (r: String)
    requires
        lo <= hi <= chars@.len(),
    ensures
        r@ == chars@.subrange(lo as int, hi as int),
{
    let mut out = String::new();
    let mut i: usize = lo;
    while i < hi
        invariant
            lo <= i <= hi <= chars@.len(),
            out@ == chars@.subrange(lo as int, i as int),
        decreases hi - i,
    {
        push_char(&mut out, chars[i]);
        proof {
            assert(out@ =~= chars@.subrange(lo as int, i + 1));
        }
        i = i + 1;
    }
    out
}

/// Relies on `String::push`: appends one character at the end.
#[verifier::external_body]
pub(crate) fn push_char(s: &mut String, c: char)
    ensures
        final(s)@ == old(s)@.push(c),
{
    s.push(c);
}

/// Relies on `String::from_utf8`: succeeds exactly on valid UTF-8 input and
/// decodes it, as `vstd`'s UTF-8 model states.
#[verifier::external_body]
pub(crate) fn bytes_to_string(bytes: Vec<u8>) -> (r: Option<String>)
    ensures
        r is Some <==> valid_utf8(bytes@),
        r matches Some(s) ==> s@ == decode_utf8(bytes@),
{
    match String::from_utf8(bytes) {
        Ok(s) => Some(s),
        Err(_) => None,
    }
}

/// Relies on `str`'s `PartialEq`: equal exactly when the character sequences
/// are equal.
#[verifier::external_body]
pub(crate) fn str_eq(a: &str, b: &str) -> (r: bool)
    ensures
        r == (a@ == b@),
{
    a == b
}

} // verus!
