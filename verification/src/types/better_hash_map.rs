//! A thin wrapper around the standard hash map.

use vstd::prelude::*;
use std::collections::HashMap;

verus! {

/// A hash map wrapper that carries the inner map openly.
pub struct BHashMap<K, V> {
    /// The wrapped map.
    pub inner: HashMap<K, V>,
}

impl<K, V> BHashMap<K, V> {
    /// An empty map.
    pub fn new() -> (r: Self)
        ensures
            r.inner@.len() == 0,
    {
        BHashMap { inner: HashMap::new() }
    }

    /// A placeholder rendering; always empty.
    pub fn to_string(&self) -> (r: String)
        ensures
            r@ == Seq::<char>::empty(),
    {
        String::new()
    }
}

} // verus!
