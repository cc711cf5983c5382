//! Command-line splitting for process execution.
//!
//! Running a process is the caller's business; what the library settles is
//! how a command line is taken apart into a program and its arguments.

use vstd::prelude::*;
use crate::text::{is_space, spec_is_space, str_chars};
use crate::types::error::SysxError;

verus! {

/// True when every character of `s` is whitespace; holds of the empty
/// string.
pub open spec fn spec_all_space(s: Seq<char>) -> bool {
    forall|i: int| 0 <= i < s.len() ==> spec_is_space(#[trigger] s[i])
}

/// What `shell_words::split` returns: the POSIX-shell words of the line, or
/// nothing on an unmatched quote.
pub uninterp spec fn spec_shell_split(s: Seq<char>) -> Option<Seq<Seq<char>>>;

/// Relies on `shell_words::split`: splits a command line into words by the
/// POSIX shell rules, with quote removal only, and fails exactly on an
/// unmatched quote; the result depends on the input characters alone.
#[verifier::external_body]
fn shell_split(s: &str) -> (r: Option<Vec<String>>)
    ensures
        match r {
            Some(v) => spec_shell_split(s@) == Some(v.deep_view()),
            None => spec_shell_split(s@) is None,
        },
{
    match shell_words::split(s) {
        Ok(v) => Some(v),
        Err(_) => None,
    }
}

/// Splits a command line into the program and its arguments. A blank line,
/// an unmatched quote, and a line without words are rejected.
pub fn parse_command(line: &str) -> (r: Result<(String, Vec<String>), SysxError>)
    ensures
        match r {
            Ok(pa) => {
                &&& !spec_all_space(line@)
                &&& spec_shell_split(line@) matches Some(words) && words.len() >= 1 && pa.0@
                    == words[0] && pa.1.deep_view() == words.skip(1)
            },
            Err(e) => {
                &&& e matches SysxError::InvalidSyntax(_)
                &&& (spec_all_space(line@) || spec_shell_split(line@) is None || spec_shell_split(
                    line@,
                ) == Some(Seq::<Seq<char>>::empty()))
            },
        },
{
    let chars = str_chars(line);
    let n = chars.len();
    let mut i: usize = 0;
    let mut blank = true;
    while i < n
        invariant
            i <= n,
            n == line@.len(),
            chars@ == line@,
            blank == (forall|j: int| 0 <= j < i ==> spec_is_space(#[trigger] line@[j])),
        decreases n - i,
    {
        if !is_space(chars[i]) {
            blank = false;
        }
        proof {
            if !blank {
                assert(exists|j: int| 0 <= j < i + 1 && !spec_is_space(#[trigger] line@[j]));
            }
        }
        i = i + 1;
    }
    if blank {
        return Err(SysxError::InvalidSyntax("empty command line".to_owned()));
    }
    match shell_split(line) {
        None => Err(SysxError::InvalidSyntax("unmatched quote in command line".to_owned())),
        Some(mut words) => {
            if words.len() == 0 {
                proof {
                    assert(words.deep_view() =~= Seq::<Seq<char>>::empty());
                }
                return Err(SysxError::InvalidSyntax("command line holds no words".to_owned()));
            }
            let ghost all = words.deep_view();
            let program = words.remove(0);
            proof {
                assert(words.deep_view() =~= all.skip(1));
            }
            Ok((program, words))
        },
    }
}

} // verus!
