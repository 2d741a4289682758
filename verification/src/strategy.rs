//! The keying strategy: how a window of tokens becomes the key under which
//! the index files it.

use crate::frontend::Token;
use std::collections::hash_map::DefaultHasher;
use std::hash::Hasher;
use vstd::prelude::*;
use vstd::std_specs::hash::DefaultHasherAdditionalSpecFns;

verus! {

/// A pure function from a window's width and its tokens, in window order, to
/// a key. The same window always gives the same key.
pub trait Strategy<T> {
    /// The key of `window`, which holds `n` tokens.
    spec fn key_of(&self, n: nat, window: Seq<T>) -> u64;

    /// Computes the key of `window`.
    fn key(&self, n: usize, window: &Vec<&T>) -> (k: u64)
        requires
            window@.len() == n,
        ensures
            k == self.key_of(n as nat, window@.map_values(|t: &T| *t)),
    ;
}

/// What a hasher is fed for a window: the bytes of each token, one write per
/// token, in window order.
pub open spec fn encodings<T: Token>(window: Seq<T>) -> Seq<Seq<u8>> {
    Seq::new(window.len(), |i: int| window[i].encoding())
}

/// The default strategy: the window's tokens are fed, first to last, to the
/// standard library's default hasher, and the key is its digest.
#[derive(Debug, Clone, Copy, Default)]
pub struct StructuralHash;

impl<T: Token> Strategy<T> for StructuralHash {
    open spec fn key_of(&self, n: nat, window: Seq<T>) -> u64 {
        DefaultHasher::spec_finish(encodings(window))
    }

    fn key(&self, n: usize, window: &Vec<&T>) -> (k: u64) {
        let ghost tokens = window@.map_values(|t: &T| *t);
        let mut state = DefaultHasher::new();
        let mut i: usize = 0;
        while i < window.len()
            invariant
                i <= window.len(),
                tokens == window@.map_values(|t: &T| *t),
                state@ == encodings(tokens).take(i as int),
            decreases window.len() - i,
        {
            window[i].feed(&mut state);
            assert(encodings(tokens).take(i as int).push(tokens[i as int].encoding())
                == encodings(tokens).take(i as int + 1));
            i += 1;
        }
        assert(encodings(tokens).take(i as int) == encodings(tokens));
        state.finish()
    }
}

} // verus!
