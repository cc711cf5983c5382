//! Parsing of `os-release` style key-value text.
//!
//! Reading the file is the caller's business; the parsing of its contents —
//! comments, blank lines, `KEY=value` pairs, quoted values — is settled
//! here.

use vstd::prelude::*;
use crate::text::{
    chars_to_string, lemma_find_char_at, spec_find_char, spec_split_char, spec_trim, split_char,
    str_chars, trim_str,
};

verus! {

/// Errors of reading and parsing system information.
#[derive(Debug)]
pub enum OsInfoError {
    /// The file could not be read.
    IoError(String),
    /// The contents do not parse.
    ParseError(String),
}

/// `s` without its leading double quotes.
pub open spec fn spec_strip_quotes_start(s: Seq<char>) -> Seq<char>
    decreases s.len(),
{
    if s.len() > 0 && s[0] == '"' {
        spec_strip_quotes_start(s.skip(1))
    } else {
        s
    }
}

/// `s` without its trailing double quotes.
pub open spec fn spec_strip_quotes_end(s: Seq<char>) -> Seq<char>
    decreases s.len(),
{
    if s.len() > 0 && s.last() == '"' {
        spec_strip_quotes_end(s.drop_last())
    } else {
        s
    }
}

/// `s` without leading and trailing double quotes.
pub open spec fn spec_trim_quotes(s: Seq<char>) -> Seq<char> {
    spec_strip_quotes_end(spec_strip_quotes_start(s))
}

/// Dropping a quote prefix is what `spec_strip_quotes_start` does.
proof fn lemma_strip_quotes_start(s: Seq<char>, lo: int)
    requires
        0 <= lo <= s.len(),
        forall|k: int| 0 <= k < lo ==> s[k] == '"',
        lo < s.len() ==> s[lo] != '"',
    ensures
        spec_strip_quotes_start(s) == s.skip(lo),
    decreases lo,
{
    if lo == 0 {
        assert(s.skip(0) =~= s);
    } else {
        lemma_strip_quotes_start(s.skip(1), lo - 1);
        assert(s.skip(1).skip(lo - 1) =~= s.skip(lo));
    }
}

/// Dropping a quote suffix is what `spec_strip_quotes_end` does.
proof fn lemma_strip_quotes_end(s: Seq<char>, hi: int)
    requires
        0 <= hi <= s.len(),
        forall|k: int| hi <= k < s.len() ==> s[k] == '"',
        hi > 0 ==> s[hi - 1] != '"',
    ensures
        spec_strip_quotes_end(s) == s.take(hi),
    decreases s.len(),
{
    if hi == s.len() {
        assert(s.take(hi) =~= s);
    } else {
        assert(s.last() == '"');
        lemma_strip_quotes_end(s.drop_last(), hi);
        assert(s.drop_last().take(hi) =~= s.take(hi));
    }
}

/// Returns `s` without leading and trailing double quotes.
fn trim_quotes(s: &str) -> (r: String)
    ensures
        r@ == spec_trim_quotes(s@),
{
    let chars = str_chars(s);
    let n = chars.len();
    let mut lo: usize = 0;
    while lo < n && chars[lo] == '"'
        invariant
            lo <= n,
            n == s@.len(),
            chars@ == s@,
            forall|k: int| 0 <= k < lo ==> s@[k] == '"',
        decreases n - lo,
    {
        lo = lo + 1;
    }
    proof {
        lemma_strip_quotes_start(s@, lo as int);
    }
    let mut hi: usize = n;
    while hi > lo && chars[hi - 1] == '"'
        invariant
            lo <= hi <= n,
            n == s@.len(),
            chars@ == s@,
            forall|k: int| 0 <= k < lo ==> s@[k] == '"',
            lo < s@.len() ==> s@[lo as int] != '"',
            forall|k: int| hi <= k < s@.len() ==> s@[k] == '"',
        decreases hi,
    {
        hi = hi - 1;
    }
    proof {
        let t = s@.skip(lo as int);
        assert(forall|k: int| hi - lo <= k < t.len() ==> #[trigger] t[k] == s@[k + lo]);
        lemma_strip_quotes_end(t, hi - lo);
        assert(t.take(hi - lo) =~= s@.subrange(lo as int, hi as int));
    }
    chars_to_string(&chars, lo, hi)
}

/// What one line contributes: `None` where the line is broken, `Some(None)`
/// where it is blank or a comment, else the key-value pair it carries.
pub open spec fn spec_parse_line(l: Seq<char>) -> Option<Option<(Seq<char>, Seq<char>)>> {
    let t = spec_trim(l);
    if t.len() == 0 || t[0] == '#' {
        Some(None)
    } else {
        let p = spec_find_char(t, '=');
        if p == t.len() {
            None
        } else {
            let key = spec_trim(t.take(p));
            let value = spec_trim_quotes(spec_trim(t.skip(p + 1)));
            if key.len() == 0 {
                None
            } else {
                Some(Some((key, value)))
            }
        }
    }
}

/// The pairs carried by the lines, in order, or nothing where a line is
/// broken.
pub open spec fn spec_parse_lines(lines: Seq<Seq<char>>) -> Option<Seq<(Seq<char>, Seq<char>)>>
    decreases lines.len(),
{
    if lines.len() == 0 {
        Some(Seq::empty())
    } else {
        match spec_parse_lines(lines.drop_last()) {
            None => None,
            Some(acc) => match spec_parse_line(lines.last()) {
                None => None,
                Some(None) => Some(acc),
                Some(Some(kv)) => Some(acc.push(kv)),
            },
        }
    }
}

/// What `parse_os_release` returns: the key-value pairs of the lines, in
/// order; nothing where a line is broken or no pair is left.
pub open spec fn spec_parse_os_release(s: Seq<char>) -> Option<Seq<(Seq<char>, Seq<char>)>> {
    match spec_parse_lines(spec_split_char(s, '\n')) {
        None => None,
        Some(ps) => if ps.len() == 0 {
            None
        } else {
            Some(ps)
        },
    }
}

/// A broken prefix breaks the whole.
proof fn lemma_parse_lines_prefix_none(lines: Seq<Seq<char>>, j: int)
    requires
        0 <= j <= lines.len(),
        spec_parse_lines(lines.take(j)) is None,
    ensures
        spec_parse_lines(lines) is None,
    decreases lines.len() - j,
{
    if j == lines.len() {
        assert(lines.take(j) =~= lines);
    } else {
        assert(lines.take(j + 1).drop_last() =~= lines.take(j));
        lemma_parse_lines_prefix_none(lines, j + 1);
    }
}

/// Parses `os-release` style contents into key-value pairs, in file order.
/// Blank lines and comments are skipped; a line without `=` or without a
/// key, and contents without any pair, are rejected.
pub fn parse_os_release(content: &str) -> (r: Result<Vec<(String, String)>, OsInfoError>)
    ensures
        match r {
            Ok(pairs) => spec_parse_os_release(content@) == Some(
                pairs@.map_values(|p: (String, String)| (p.0@, p.1@)),
            ),
            Err(e) => spec_parse_os_release(content@) is None && e matches OsInfoError::ParseError(
                _,
            ),
        },
{
    let lines = split_char(content, '\n');
    let ghost lv = lines.deep_view();
    let n = lines.len();
    let mut out: Vec<(String, String)> = Vec::new();
    let mut i: usize = 0;
    proof {
        assert(lv.take(0) =~= Seq::<Seq<char>>::empty());
        assert(out@.map_values(|p: (String, String)| (p.0@, p.1@)) =~= Seq::<(
            Seq<char>,
            Seq<char>,
        )>::empty());
    }
    while i < n
        invariant
            i <= n,
            n == lines@.len(),
            lv == lines.deep_view(),
            lv == spec_split_char(content@, '\n'),
            spec_parse_lines(lv.take(i as int)) == Some(
                out@.map_values(|p: (String, String)| (p.0@, p.1@)),
            ),
        decreases n - i,
    {
        let ghost line = lv[i as int];
        proof {
            assert(lv.take(i + 1).drop_last() =~= lv.take(i as int));
            assert(lv.take(i + 1).last() == line);
        }
        let t = trim_str(lines[i].as_str());
        let tc = str_chars(t.as_str());
        let m = tc.len();
        if m == 0 || tc[0] == '#' {
            i = i + 1;
            continue ;
        }
        let mut p: usize = 0;
        while p < m && tc[p] != '='
            invariant
                p <= m,
                m == t@.len(),
                tc@ == t@,
                forall|k: int| 0 <= k < p ==> #[trigger] t@[k] != '=',
            decreases m - p,
        {
            p = p + 1;
        }
        proof {
            lemma_find_char_at(t@, '=', p as int);
        }
        if p == m {
            proof {
                lemma_parse_lines_prefix_none(lv, i + 1);
            }
            return Err(OsInfoError::ParseError("line holds no assignment".to_owned()));
        }
        let key = trim_str(chars_to_string(&tc, 0, p).as_str());
        let raw_value = trim_str(chars_to_string(&tc, p + 1, m).as_str());
        let value = trim_quotes(raw_value.as_str());
        proof {
            assert(tc@.subrange(0, p as int) =~= t@.take(p as int));
            assert(tc@.subrange(p + 1, m as int) =~= t@.skip(p + 1));
        }
        if key.as_str().is_empty() {
            proof {
                assert(key@.len() == 0);
                lemma_parse_lines_prefix_none(lv, i + 1);
            }
            return Err(OsInfoError::ParseError("line holds no key".to_owned()));
        }
        let ghost before = out@.map_values(|p: (String, String)| (p.0@, p.1@));
        out.push((key, value));
        proof {
            assert(out@.map_values(|p: (String, String)| (p.0@, p.1@)) =~= before.push(
                (key@, value@),
            ));
        }
        i = i + 1;
    }
    proof {
        assert(lv.take(n as int) =~= lv);
    }
    if out.len() == 0 {
        proof {
            assert(out@.map_values(|p: (String, String)| (p.0@, p.1@)) =~= Seq::<(
                Seq<char>,
                Seq<char>,
            )>::empty());
        }
        return Err(OsInfoError::ParseError("no key-value pairs found".to_owned()));
    }
    Ok(out)
}

} // verus!
