//! An explicit cache of environment variables, and command-line argument
//! helpers.
//!
//! The cache is an ordinary value handed around by its owner; reading and
//! writing the process environment is left to the caller, who fills the
//! cache from it and writes changes back as it sees fit.

use vstd::prelude::*;
use crate::text::{push_char, str_eq};

verus! {

/// One key-value binding as the specification sees it.
pub type SpecBinding = (Seq<char>, Seq<char>);

/// The value bound to `k` by the first matching entry, if any.
pub open spec fn spec_lookup(es: Seq<SpecBinding>, k: Seq<char>) -> Option<Seq<char>>
    decreases es.len(),
{
    if es.len() == 0 {
        None
    } else if es[0].0 == k {
        Some(es[0].1)
    } else {
        spec_lookup(es.skip(1), k)
    }
}

/// Where no entry matches, the lookup misses.
proof fn lemma_lookup_none(es: Seq<SpecBinding>, k: Seq<char>)
    requires
        forall|j: int| 0 <= j < es.len() ==> (#[trigger] es[j]).0 != k,
    ensures
        spec_lookup(es, k) is None,
    decreases es.len(),
{
    if es.len() > 0 {
        lemma_lookup_none(es.skip(1), k);
    }
}

/// The first matching entry decides the lookup.
proof fn lemma_lookup_at(es: Seq<SpecBinding>, k: Seq<char>, i: int)
    requires
        0 <= i < es.len(),
        es[i].0 == k,
        forall|j: int| 0 <= j < i ==> (#[trigger] es[j]).0 != k,
    ensures
        spec_lookup(es, k) == Some(es[i].1),
    decreases i,
{
    if i > 0 {
        lemma_lookup_at(es.skip(1), k, i - 1);
    }
}

/// Entries that agree on keys, and on values outside one key, look up the
/// same for every other key.
proof fn lemma_lookup_other(es1: Seq<SpecBinding>, es2: Seq<SpecBinding>, key0: Seq<char>, k: Seq<
    char,
>)
    requires
        es1.len() == es2.len(),
        forall|i: int| 0 <= i < es1.len() ==> (#[trigger] es1[i]).0 == es2[i].0,
        forall|i: int| 0 <= i < es1.len() ==> ((#[trigger] es1[i]).0 != key0 ==> es1[i] == es2[i]),
        k != key0,
    ensures
        spec_lookup(es1, k) == spec_lookup(es2, k),
    decreases es1.len(),
{
    if es1.len() > 0 {
        lemma_lookup_other(es1.skip(1), es2.skip(1), key0, k);
    }
}

/// A cache of environment variables: key-value pairs with unique keys.
pub struct EnvCache {
    entries: Vec<(String, String)>,
}

impl EnvCache {
    /// The entries as the specification sees them, in order.
    pub closed spec fn spec_entries(&self) -> Seq<SpecBinding> {
        self.entries@.map_values(|p: (String, String)| (p.0@, p.1@))
    }

    /// Well-formed: no key occurs twice.
    pub open spec fn wf(&self) -> bool {
        forall|i: int, j: int|
            0 <= i < j < self.spec_entries().len() ==> (#[trigger] self.spec_entries()[i]).0 != (
            #[trigger] self.spec_entries()[j]).0
    }

    /// The value bound to `k`, if any.
    pub open spec fn spec_get(&self, k: Seq<char>) -> Option<Seq<char>> {
        spec_lookup(self.spec_entries(), k)
    }

    /// An empty cache.
    pub fn new() -> (r: Self)
        ensures
            r.wf(),
            r.spec_entries() == Seq::<SpecBinding>::empty(),
    {
        let r = EnvCache { entries: Vec::new() };
        proof {
            assert(r.spec_entries() =~= Seq::<SpecBinding>::empty());
        }
        r
    }

    /// Binds `key` to `value`, replacing an existing binding of the same key.
    pub fn set_env(&mut self, key: &str, value: &str)
        requires
            old(self).wf(),
        ensures
            final(self).wf(),
            final(self).spec_get(key@) == Some(value@),
            forall|k: Seq<char>|
                k != key@ ==> final(self).spec_get(k) == #[trigger] old(self).spec_get(k),
    {
        let ghost original = self.spec_entries();
        let n = self.entries.len();
        let mut i: usize = 0;
        while i < n
            invariant
                i <= n,
                n == self.entries@.len(),
                self.spec_entries() == original,
                original == old(self).spec_entries(),
                old(self).wf(),
                forall|j: int| 0 <= j < i ==> (#[trigger] original[j]).0 != key@,
            decreases n - i,
        {
            if str_eq(self.entries[i].0.as_str(), key) {
                let ghost idx = i as int;
                self.entries.remove(i);
                self.entries.insert(i, (key.to_owned(), value.to_owned()));
                proof {
                    let now = self.spec_entries();
                    assert(original == old(self).spec_entries());
                    assert(now =~= original.update(idx, (key@, value@)));
                    assert(forall|j: int|
                        0 <= j < now.len() ==> (#[trigger] now[j]).0 == original[j].0);
                    assert forall|a: int, b: int| 0 <= a < b < now.len() implies (
                    #[trigger] now[a]).0 != (#[trigger] now[b]).0 by {
                        let oe = old(self).spec_entries();
                        assert(old(self).wf());
                        assert(0 <= a < b < oe.len());
                        assert((oe[a]).0 != (oe[b]).0);
                    }
                    lemma_lookup_at(now, key@, idx);
                    assert forall|k: Seq<char>| k != key@ implies self.spec_get(k) == #[trigger] old(
                        self,
                    ).spec_get(k) by {
                        assert(forall|j: int|
                            0 <= j < original.len() ==> ((#[trigger] original[j]).0 != key@
                                ==> original[j] == now[j]));
                        lemma_lookup_other(original, now, key@, k);
                    }
                }
                return ;
            }
            i = i + 1;
        }
        self.entries.push((key.to_owned(), value.to_owned()));
        proof {
            let now = self.spec_entries();
            assert(now =~= original.push((key@, value@)));
            assert(forall|j: int| 0 <= j < original.len() ==> #[trigger] now[j] == original[j]);
            assert(now[original.len() as int] == (key@, value@));
            lemma_lookup_at(now, key@, original.len() as int);
            assert(original == old(self).spec_entries());
            assert forall|k: Seq<char>| k != key@ implies self.spec_get(k) == #[trigger] old(
                self,
            ).spec_get(k) by {
                lemma_lookup_push_other(original, (key@, value@), k);
            }
        }
    }

    /// Returns the value bound to `key`, if any.
    pub fn get_env(&self, key: &str) -> (r: Option<String>)
        ensures
            match r {
                Some(v) => self.spec_get(key@) == Some(v@),
                None => self.spec_get(key@) is None,
            },
    {
        let n = self.entries.len();
        let mut i: usize = 0;
        while i < n
            invariant
                i <= n,
                n == self.entries@.len(),
                forall|j: int| 0 <= j < i ==> (#[trigger] self.spec_entries()[j]).0 != key@,
            decreases n - i,
        {
            if str_eq(self.entries[i].0.as_str(), key) {
                let v = self.entries[i].1.clone();
                proof {
                    lemma_lookup_at(self.spec_entries(), key@, i as int);
                }
                return Some(v);
            }
            i = i + 1;
        }
        proof {
            lemma_lookup_none(self.spec_entries(), key@);
        }
        None
    }

    /// Returns a copy of all bindings, in insertion order.
    pub fn get_envs(&self) -> (r: Vec<(String, String)>)
        ensures
            r@.map_values(|p: (String, String)| (p.0@, p.1@)) == self.spec_entries(),
    {
        let n = self.entries.len();
        let mut out: Vec<(String, String)> = Vec::new();
        let mut i: usize = 0;
        while i < n
            invariant
                i <= n,
                n == self.entries@.len(),
                out@.len() == i,
                forall|j: int|
                    0 <= j < i ==> ((#[trigger] out@[j]).0@ == self.spec_entries()[j].0
                        && (out@[j]).1@ == self.spec_entries()[j].1),
            decreases n - i,
        {
            let k = self.entries[i].0.clone();
            let v = self.entries[i].1.clone();
            out.push((k, v));
            i = i + 1;
        }
        proof {
            assert(out@.map_values(|p: (String, String)| (p.0@, p.1@)) =~= self.spec_entries());
        }
        out
    }
}

/// Appending an entry with a fresh key does not change other lookups.
proof fn lemma_lookup_push_other(es: Seq<SpecBinding>, e: SpecBinding, k: Seq<char>)
    requires
        k != e.0,
    ensures
        spec_lookup(es.push(e), k) == spec_lookup(es, k),
    decreases es.len(),
{
    let p = es.push(e);
    if es.len() == 0 {
        assert(p.len() == 1 && p[0] == e);
        assert(p.skip(1) =~= Seq::<SpecBinding>::empty());
        assert(spec_lookup(p.skip(1), k) is None);
        assert(spec_lookup(p, k) is None);
        assert(spec_lookup(es, k) is None);
    } else {
        assert(p[0] == es[0]);
        assert(p.skip(1) =~= es.skip(1).push(e));
        lemma_lookup_push_other(es.skip(1), e, k);
    }
}

/// The parts joined with single spaces between them.
pub open spec fn spec_join_space(parts: Seq<Seq<char>>) -> Seq<char>
    decreases parts.len(),
{
    if parts.len() == 0 {
        Seq::empty()
    } else if parts.len() == 1 {
        parts[0]
    } else {
        spec_join_space(parts.drop_last()) + seq![' '] + parts.last()
    }
}

/// The arguments without the leading program name.
pub fn get_args(full_args: &Vec<String>) -> (r: Vec<String>)
    requires
        full_args@.len() >= 1,
    ensures
        r.deep_view() == full_args.deep_view().skip(1),
{
    let n = full_args.len();
    let mut out: Vec<String> = Vec::new();
    let mut i: usize = 1;
    while i < n
        invariant
            1 <= i <= n,
            n == full_args@.len(),
            out@.len() == i - 1,
            forall|j: int| 0 <= j < i - 1 ==> (#[trigger] out@[j])@ == full_args@[j + 1]@,
        decreases n - i,
    {
        out.push(full_args[i].clone());
        i = i + 1;
    }
    proof {
        assert(out.deep_view() =~= full_args.deep_view().skip(1));
    }
    out
}

/// All arguments joined into one space-separated string.
pub fn get_full_str_args(full_args: &Vec<String>) -> (r: String)
    ensures
        r@ == spec_join_space(full_args.deep_view()),
{
    let n = full_args.len();
    let mut out = String::new();
    let mut i: usize = 0;
    while i < n
        invariant
            i <= n,
            n == full_args@.len(),
            out@ == spec_join_space(full_args.deep_view().take(i as int)),
        decreases n - i,
    {
        if i > 0 {
            push_char(&mut out, ' ');
        }
        out.append(full_args[i].as_str());
        proof {
            let dv = full_args.deep_view();
            assert(dv.take(i + 1).drop_last() =~= dv.take(i as int));
            assert(dv.take(i + 1).last() == dv[i as int]);
            assert(out@ =~= spec_join_space(dv.take(i + 1)));
        }
        i = i + 1;
    }
    proof {
        assert(full_args.deep_view().take(n as int) =~= full_args.deep_view());
    }
    out
}

/// The arguments after the program name, joined into one space-separated
/// string.
pub fn get_str_args(full_args: &Vec<String>) -> (r: String)
    requires
        full_args@.len() >= 1,
    ensures
        r@ == spec_join_space(full_args.deep_view().skip(1)),
{
    let rest = get_args(full_args);
    get_full_str_args(&rest)
}

} // verus!
