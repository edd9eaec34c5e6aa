//! Weights in either form.

use vstd::prelude::*;
use vstd::string::*;

use crate::models::gguf_quantized::{range_named, range_triples, QuantizedModelWeights};
use crate::text::same_text;

verus! {

/// A vector with its name, as binary32 patterns.
pub struct NamedVector {
    pub key: String,
    pub data: Vec<u32>,
}

/// What is read of weights in single precision.
pub struct DenseWeights {
    pub num_layers: usize,
    pub hidden_size: usize,
    pub vectors: Vec<NamedVector>,
}

/// Weights in single precision or in their quantized form.
pub enum ModelWeightsVariant {
    F32(DenseWeights),
    Quantized(QuantizedModelWeights),
}

/// Where a vector is found.
pub enum VectorSource<'a> {
    /// Its numbers.
    Numbers(&'a Vec<u32>),
    /// The bytes `offset..end` of the file.
    Bytes { offset: usize, end: usize },
}

/// The place of the last vector with this name, or -1.
pub open spec fn last_named(vectors: Seq<NamedVector>, key: Seq<char>) -> int
    decreases vectors.len(),
{
    if vectors.len() == 0 {
        -1
    } else if vectors.last().key@ == key {
        vectors.len() - 1
    } else {
        last_named(vectors.drop_last(), key)
    }
}

impl ModelWeightsVariant {
    /// Number of layers.
    pub fn num_layers(&self) -> (n: usize)
        ensures
            n == (match *self {
                ModelWeightsVariant::F32(w) => w.num_layers,
                ModelWeightsVariant::Quantized(w) => w.num_layers,
            }),
    {
        match self {
            ModelWeightsVariant::F32(w) => w.num_layers,
            ModelWeightsVariant::Quantized(w) => w.num_layers(),
        }
    }

    /// Hidden size.
    pub fn hidden_size(&self) -> (n: usize)
        ensures
            n == (match *self {
                ModelWeightsVariant::F32(w) => w.hidden_size,
                ModelWeightsVariant::Quantized(w) => w.hidden_size,
            }),
    {
        match self {
            ModelWeightsVariant::F32(w) => w.hidden_size,
            ModelWeightsVariant::Quantized(w) => w.hidden_size(),
        }
    }

    /// Finds a vector by its name.
    pub fn get_vector(&self, key: &str) -> (r: Option<VectorSource<'_>>)
        ensures
            match *self {
                ModelWeightsVariant::F32(w) => match r {
                    Some(VectorSource::Numbers(v)) => last_named(w.vectors@, key@) >= 0 && *v
                        == w.vectors@[last_named(w.vectors@, key@)].data,
                    Some(_) => false,
                    None => last_named(w.vectors@, key@) < 0,
                },
                ModelWeightsVariant::Quantized(w) => match r {
                    Some(VectorSource::Bytes { offset, end }) => range_named(
                        range_triples(w.vectors@),
                        key@,
                    ) == Some((offset, end)),
                    Some(_) => false,
                    None => range_named(range_triples(w.vectors@), key@) is None,
                },
            },
    {
        match self {
            ModelWeightsVariant::F32(w) => {
                let mut i: usize = w.vectors.len();
                assert(w.vectors@.take(i as int) =~= w.vectors@);
                while i > 0
                    invariant
                        i <= w.vectors@.len(),
                        last_named(w.vectors@, key@) == last_named(
                            w.vectors@.take(i as int),
                            key@,
                        ),
                        *self == ModelWeightsVariant::F32(*w),
                    decreases i,
                {
                    assert(w.vectors@.take(i as int).drop_last() =~= w.vectors@.take(i - 1));
                    assert(w.vectors@.take(i as int).last() == w.vectors@[i - 1]);
                    i = i - 1;
                    if same_text(w.vectors[i].key.as_str(), key) {
                        return Some(VectorSource::Numbers(&w.vectors[i].data));
                    }
                }
                None
            },
            ModelWeightsVariant::Quantized(w) => match w.get_vector(key) {
                Some((offset, end)) => Some(VectorSource::Bytes { offset, end }),
                None => None,
            },
        }
    }

    /// Whether the weights are quantized.
    pub fn is_quantized(&self) -> (r: bool)
        ensures
            r == (*self is Quantized),
    {
        match self {
            ModelWeightsVariant::F32(_) => false,
            ModelWeightsVariant::Quantized(_) => true,
        }
    }

    /// The weights in single precision, where they are.
    pub fn as_f32(&self) -> (r: Option<&DenseWeights>)
        ensures
            match *self {
                ModelWeightsVariant::F32(w) => r == Some(&w),
                ModelWeightsVariant::Quantized(_) => r is None,
            },
    {
        match self {
            ModelWeightsVariant::F32(w) => Some(w),
            ModelWeightsVariant::Quantized(_) => None,
        }
    }

    /// The quantized weights, where they are.
    pub fn as_quantized(&self) -> (r: Option<&QuantizedModelWeights>)
        ensures
            match *self {
                ModelWeightsVariant::F32(_) => r is None,
                ModelWeightsVariant::Quantized(w) => r == Some(&w),
            },
    {
        match self {
            ModelWeightsVariant::F32(_) => None,
            ModelWeightsVariant::Quantized(w) => Some(w),
        }
    }
}

/// The vector that is found is one of that name, and the last one; none is
/// found exactly where there is none.
pub proof fn last_named_is_last(vectors: Seq<NamedVector>, key: Seq<char>)
    ensures
        ({
            let p = last_named(vectors, key);
            &&& -1 <= p < vectors.len()
            &&& p >= 0 ==> vectors[p].key@ == key
            &&& forall|j: int| p < j < vectors.len() ==> (#[trigger] vectors[j]).key@ != key
        }),
    decreases vectors.len(),
{
    if vectors.len() > 0 {
        let init = vectors.drop_last();
        last_named_is_last(init, key);
        let p = last_named(vectors, key);
        assert(vectors[vectors.len() - 1] == vectors.last());
        assert forall|j: int| p < j < vectors.len() implies (#[trigger] vectors[j]).key@
            != key by {
            if j < init.len() {
                assert(init[j] == vectors[j]);
            }
        }
    }
}

} // verus!
