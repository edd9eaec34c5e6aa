//! Decoding from stored residuals.

use vstd::prelude::*;
use vstd::string::*;

use crate::compute::backend::{cpu_backend, BackendKind};
use crate::inference::residual_store::RsStore;
use crate::text::{append_size, decimal};

verus! {

/// An engine that keeps residuals and works keys and values out again.
pub struct MarkovResidualEngine {
    pub window_size: Option<usize>,
    pub store: Option<RsStore>,
    pub backend: BackendKind,
}

impl MarkovResidualEngine {
    /// An engine on the CPU; `None` for a window without limit.
    pub fn new(window_size: Option<usize>) -> (e: Self)
        ensures
            e.window_size == window_size,
            e.store is None,
            e.backend == BackendKind::Cpu,
    {
        MarkovResidualEngine::with_backend(window_size, cpu_backend())
    }

    /// An engine on the given backend.
    pub fn with_backend(window_size: Option<usize>, backend: BackendKind) -> (e: Self)
        ensures
            e.window_size == window_size,
            e.store is None,
            e.backend == backend,
    {
        MarkovResidualEngine { window_size, store: None, backend }
    }

    /// The engine's name.
    pub fn name(&self) -> (s: &'static str)
        ensures
            s@ == "markov-rs"@,
    {
        "markov-rs"
    }

    /// Bytes of everything that is kept.
    pub fn memory_bytes(&self) -> (n: usize)
        requires
            self.store matches Some(s) ==> s.size() <= usize::MAX,
        ensures
            n == (match self.store {
                Some(s) => s.size(),
                None => 0,
            }),
    {
        match &self.store {
            Some(s) => s.memory_bytes(),
            None => 0,
        }
    }

    /// Tokens in the hot window.
    pub fn window_tokens(&self) -> (n: usize)
        ensures
            n == (match self.store {
                Some(s) => if s.stored@.len() == 0 {
                    0
                } else {
                    s.hot(0).len()
                },
                None => 0,
            }),
    {
        match &self.store {
            Some(s) => s.window_tokens(),
            None => 0,
        }
    }

    /// Bytes of the cold tier.
    pub fn cold_bytes(&self) -> (n: usize)
        requires
            self.store matches Some(s) ==> s.cold_size() <= usize::MAX,
        ensures
            n == (match self.store {
                Some(s) => s.cold_size(),
                None => 0,
            }),
    {
        match &self.store {
            Some(s) => s.cold_bytes(),
            None => 0,
        }
    }

    /// Keeps the store of a prefill or of a decode step.
    pub fn put_store(&mut self, store: RsStore)
        ensures
            final(self).store == Some(store),
            final(self).window_size == old(self).window_size,
            final(self).backend == old(self).backend,
    {
        self.store = Some(store);
    }

    /// Hands the store to a decode step; without one there is none.
    pub fn take_store(&mut self) -> (r: Option<RsStore>)
        ensures
            r == old(self).store,
            final(self).store is None,
            final(self).window_size == old(self).window_size,
            final(self).backend == old(self).backend,
    {
        self.store.take()
    }

    /// The engine's configuration, for logs.
    pub fn config_string(&self) -> (s: String)
        ensures
            s@ == (match self.window_size {
                Some(w) => "window="@ + decimal(w as nat),
                None => "window=full"@,
            }),
    {
        match self.window_size {
            Some(w) => {
                let mut s: String = String::from_str("window=");
                append_size(&mut s, w);
                s
            },
            None => String::from_str("window=full"),
        }
    }
}

/// Bytes that keys and values in half precision would take for `seq_len`
/// tokens, over layers with these numbers of heads and head sizes.
pub open spec fn kv_memory(layers: Seq<(usize, usize)>, seq_len: usize) -> nat
    decreases layers.len(),
{
    if layers.len() == 0 {
        0
    } else {
        kv_memory(layers.drop_last(), seq_len) + seq_len as nat * (layers.last().0 as nat
            * layers.last().1 as nat) * 4
    }
}

/// Some layers take no more than all of them.
proof fn kv_memory_grows(layers: Seq<(usize, usize)>, seq_len: usize, n: int)
    requires
        0 <= n <= layers.len(),
    ensures
        kv_memory(layers.take(n), seq_len) <= kv_memory(layers, seq_len),
    decreases layers.len() - n,
{
    if n == layers.len() {
        assert(layers.take(n) =~= layers);
    } else {
        assert(layers.take(n + 1).drop_last() =~= layers.take(n));
        kv_memory_grows(layers, seq_len, n + 1);
    }
}

/// Bytes that keys and values in half precision would take for `seq_len`
/// tokens; `layers` holds heads and head size of each layer.
pub fn kv_memory_bytes_for_seq(layers: &Vec<(usize, usize)>, seq_len: usize) -> (n: usize)
    requires
        kv_memory(layers@, seq_len) <= usize::MAX,
        forall|i: int|
            0 <= i < layers@.len() ==> (#[trigger] layers@[i]).0 * layers@[i].1 <= usize::MAX,
    ensures
        n == kv_memory(layers@, seq_len),
{
    let mut n: usize = 0;
    let mut i: usize = 0;
    while i < layers.len()
        invariant
            i <= layers@.len(),
            kv_memory(layers@, seq_len) <= usize::MAX,
            forall|i: int|
                0 <= i < layers@.len() ==> (#[trigger] layers@[i]).0 * layers@[i].1 <= usize::MAX,
            n == kv_memory(layers@.take(i as int), seq_len),
        decreases layers@.len() - i,
    {
        proof {
            let t = layers@.take(i + 1);
            assert(t.drop_last() =~= layers@.take(i as int));
            assert(t.last() == layers@[i as int]);
            kv_memory_grows(layers@, seq_len, i + 1);
            assert(layers@[i as int].0 * layers@[i as int].1 <= usize::MAX);
        }
        let kv_dim: usize = layers[i].0 * layers[i].1;
        assert(seq_len * kv_dim <= seq_len * kv_dim * 4 && seq_len * kv_dim >= 0)
            by (nonlinear_arith)
            requires
                seq_len >= 0,
                kv_dim >= 0,
        ;
        n = n + seq_len * kv_dim * 4;
        i = i + 1;
    }
    assert(layers@.take(i as int) =~= layers@);
    n
}

/// Layers are counted one by one: those of two models together take what both
/// take.
pub proof fn kv_memory_of_both(a: Seq<(usize, usize)>, b: Seq<(usize, usize)>, seq_len: usize)
    ensures
        kv_memory(a + b, seq_len) == kv_memory(a, seq_len) + kv_memory(b, seq_len),
    decreases b.len(),
{
    if b.len() == 0 {
        assert(a + b =~= a);
    } else {
        kv_memory_of_both(a, b.drop_last(), seq_len);
        assert((a + b).drop_last() =~= a + b.drop_last());
        assert((a + b).last() == b.last());
    }
}

/// A layer takes, for each token and each of its heads, two vectors of the
/// head's size, two bytes a number.
pub proof fn kv_memory_of_one(heads: usize, head_dim: usize, seq_len: usize)
    ensures
        kv_memory(seq![(heads, head_dim)], seq_len) == 2 * (2 * (heads * head_dim)) * seq_len,
{
    let one = seq![(heads, head_dim)];
    assert(one.drop_last() =~= Seq::<(usize, usize)>::empty());
    assert(kv_memory(one.drop_last(), seq_len) == 0);
    assert(seq_len as nat * (heads as nat * head_dim as nat) * 4 == 2 * (2 * (heads * head_dim))
        * seq_len) by (nonlinear_arith);
}

} // verus!
