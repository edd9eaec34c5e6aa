//! Loading GGUF tensors without expanding them.
//!
//! Matrices stay where they are in the file, in their quantized form; vectors
//! are small and are to be expanded. This module decides, tensor by tensor,
//! which bytes of the file are meant and what is to become of them.

use vstd::prelude::*;
use vstd::slice::slice_subrange;
use vstd::string::*;

use crate::models::error::{ModelError, ModelFault};
use crate::text::{append_decimal, append_size, decimal, same_text};

verus! {

/// GGML type numbers.
pub const TYPE_F32: u32 = 0;

pub const TYPE_F16: u32 = 1;

pub const TYPE_Q4_0: u32 = 2;

pub const TYPE_Q4_1: u32 = 3;

pub const TYPE_Q5_0: u32 = 6;

pub const TYPE_Q5_1: u32 = 7;

pub const TYPE_Q8_0: u32 = 8;

pub const TYPE_Q2_K: u32 = 10;

pub const TYPE_Q3_K: u32 = 11;

pub const TYPE_Q4_K: u32 = 12;

pub const TYPE_Q5_K: u32 = 13;

pub const TYPE_Q6_K: u32 = 14;

pub const TYPE_BF16: u32 = 30;

/// Quantization format of a tensor.
#[allow(non_camel_case_types)]
#[derive(Clone, Copy, Debug, PartialEq, Eq, Structural)]
pub enum GgufQuantFormat {
    F32,
    F16,
    BF16,
    Q4_0,
    Q4_1,
    Q5_0,
    Q5_1,
    Q8_0,
    Q2_K,
    Q3_K,
    Q4_K,
    Q5_K,
    Q6_K,
}

impl GgufQuantFormat {
    /// The type number of a format.
    pub open spec fn type_number(self) -> u32 {
        match self {
            GgufQuantFormat::F32 => TYPE_F32,
            GgufQuantFormat::F16 => TYPE_F16,
            GgufQuantFormat::BF16 => TYPE_BF16,
            GgufQuantFormat::Q4_0 => TYPE_Q4_0,
            GgufQuantFormat::Q4_1 => TYPE_Q4_1,
            GgufQuantFormat::Q5_0 => TYPE_Q5_0,
            GgufQuantFormat::Q5_1 => TYPE_Q5_1,
            GgufQuantFormat::Q8_0 => TYPE_Q8_0,
            GgufQuantFormat::Q2_K => TYPE_Q2_K,
            GgufQuantFormat::Q3_K => TYPE_Q3_K,
            GgufQuantFormat::Q4_K => TYPE_Q4_K,
            GgufQuantFormat::Q5_K => TYPE_Q5_K,
            GgufQuantFormat::Q6_K => TYPE_Q6_K,
        }
    }

    /// The format with that type number.
    pub open spec fn of_type(ty: u32) -> Option<Self> {
        if ty == TYPE_F32 {
            Some(GgufQuantFormat::F32)
        } else if ty == TYPE_F16 {
            Some(GgufQuantFormat::F16)
        } else if ty == TYPE_BF16 {
            Some(GgufQuantFormat::BF16)
        } else if ty == TYPE_Q4_0 {
            Some(GgufQuantFormat::Q4_0)
        } else if ty == TYPE_Q4_1 {
            Some(GgufQuantFormat::Q4_1)
        } else if ty == TYPE_Q5_0 {
            Some(GgufQuantFormat::Q5_0)
        } else if ty == TYPE_Q5_1 {
            Some(GgufQuantFormat::Q5_1)
        } else if ty == TYPE_Q8_0 {
            Some(GgufQuantFormat::Q8_0)
        } else if ty == TYPE_Q2_K {
            Some(GgufQuantFormat::Q2_K)
        } else if ty == TYPE_Q3_K {
            Some(GgufQuantFormat::Q3_K)
        } else if ty == TYPE_Q4_K {
            Some(GgufQuantFormat::Q4_K)
        } else if ty == TYPE_Q5_K {
            Some(GgufQuantFormat::Q5_K)
        } else if ty == TYPE_Q6_K {
            Some(GgufQuantFormat::Q6_K)
        } else {
            None
        }
    }

    /// The format with that type number.
    pub fn from_ggml_type(ty: u32) -> (r: Option<Self>)
        ensures
            r == GgufQuantFormat::of_type(ty),
    {
        if ty == TYPE_F32 {
            Some(GgufQuantFormat::F32)
        } else if ty == TYPE_F16 {
            Some(GgufQuantFormat::F16)
        } else if ty == TYPE_BF16 {
            Some(GgufQuantFormat::BF16)
        } else if ty == TYPE_Q4_0 {
            Some(GgufQuantFormat::Q4_0)
        } else if ty == TYPE_Q4_1 {
            Some(GgufQuantFormat::Q4_1)
        } else if ty == TYPE_Q5_0 {
            Some(GgufQuantFormat::Q5_0)
        } else if ty == TYPE_Q5_1 {
            Some(GgufQuantFormat::Q5_1)
        } else if ty == TYPE_Q8_0 {
            Some(GgufQuantFormat::Q8_0)
        } else if ty == TYPE_Q2_K {
            Some(GgufQuantFormat::Q2_K)
        } else if ty == TYPE_Q3_K {
            Some(GgufQuantFormat::Q3_K)
        } else if ty == TYPE_Q4_K {
            Some(GgufQuantFormat::Q4_K)
        } else if ty == TYPE_Q5_K {
            Some(GgufQuantFormat::Q5_K)
        } else if ty == TYPE_Q6_K {
            Some(GgufQuantFormat::Q6_K)
        } else {
            None
        }
    }

    /// Whether a matrix of this format can be multiplied as it is.
    pub open spec fn multiplied_as_is(self) -> bool {
        match self {
            GgufQuantFormat::Q4_0
            | GgufQuantFormat::Q4_K
            | GgufQuantFormat::Q6_K
            | GgufQuantFormat::Q8_0 => true,
            _ => false,
        }
    }

    /// Whether a matrix of this format can be multiplied as it is.
    pub fn has_compute_kernel(self) -> (r: bool)
        ensures
            r == (self == GgufQuantFormat::Q4_0 || self == GgufQuantFormat::Q4_K || self
                == GgufQuantFormat::Q6_K || self == GgufQuantFormat::Q8_0),
            r == self.multiplied_as_is(),
    {
        matches!(
            self,
            GgufQuantFormat::Q4_0 | GgufQuantFormat::Q4_K | GgufQuantFormat::Q6_K
                | GgufQuantFormat::Q8_0
        )
    }

    /// The type number of the format.
    pub fn as_ggml_type(self) -> (ty: u32)
        ensures
            ty == self.type_number(),
    {
        match self {
            GgufQuantFormat::F32 => TYPE_F32,
            GgufQuantFormat::F16 => TYPE_F16,
            GgufQuantFormat::BF16 => TYPE_BF16,
            GgufQuantFormat::Q4_0 => TYPE_Q4_0,
            GgufQuantFormat::Q4_1 => TYPE_Q4_1,
            GgufQuantFormat::Q5_0 => TYPE_Q5_0,
            GgufQuantFormat::Q5_1 => TYPE_Q5_1,
            GgufQuantFormat::Q8_0 => TYPE_Q8_0,
            GgufQuantFormat::Q2_K => TYPE_Q2_K,
            GgufQuantFormat::Q3_K => TYPE_Q3_K,
            GgufQuantFormat::Q4_K => TYPE_Q4_K,
            GgufQuantFormat::Q5_K => TYPE_Q5_K,
            GgufQuantFormat::Q6_K => TYPE_Q6_K,
        }
    }
}

/// A format is the one with its type number, and only that one is.
pub proof fn type_number_round_trip(f: GgufQuantFormat, ty: u32)
    ensures
        GgufQuantFormat::of_type(f.type_number()) == Some(f),
        GgufQuantFormat::of_type(ty) == Some(f) ==> ty == f.type_number(),
{
}

/// A matrix in the file: which bytes, and how they are to be read.
#[derive(Debug, Clone, Copy)]
pub struct QuantizedTensor {
    pub offset: usize,
    pub length: usize,
    pub format: GgufQuantFormat,
    pub rows: usize,
    pub cols: usize,
}

impl QuantizedTensor {
    /// The bytes of the matrix lie within a file of `file_len` bytes.
    pub open spec fn inside(self, file_len: nat) -> bool {
        self.offset + self.length <= file_len
    }

    /// The bytes of the matrix.
    pub fn data<'a>(&self, file: &'a [u8]) -> (bytes: &'a [u8])
        requires
            self.inside(file@.len()),
        ensures
            bytes@ == file@.subrange(self.offset as int, self.offset + self.length),
    {
        assert(file.len() <= usize::MAX);
        slice_subrange(file, self.offset, self.offset + self.length)
    }

    /// Number of elements.
    pub fn n_elements(&self) -> (n: usize)
        requires
            self.rows * self.cols <= usize::MAX,
        ensures
            n == self.rows * self.cols,
    {
        self.rows * self.cols
    }

    /// Where the bytes of a row begin and end in the file.
    pub open spec fn row_range(self, row: int, row_bytes: Option<usize>) -> Option<(int, int)> {
        match row_bytes {
            Some(n) => if row < self.rows && (row + 1) * n <= self.length {
                Some((self.offset + row * n, self.offset + (row + 1) * n))
            } else {
                None
            },
            None => None,
        }
    }

    /// The bytes of one row, `row_bytes` bytes each where the format has a
    /// size for that many columns. `None` for a row that is not there.
    pub fn row_data<'a>(&self, file: &'a [u8], row: usize, row_bytes: Option<usize>) -> (r: Option<
        &'a [u8],
    >)
        requires
            self.inside(file@.len()),
        ensures
            match r {
                Some(bytes) => row < self.rows && row_bytes is Some && (row + 1)
                    * row_bytes.unwrap() <= self.length && bytes@ == file@.subrange(
                    self.offset + row * row_bytes.unwrap(),
                    self.offset + (row + 1) * row_bytes.unwrap(),
                ),
                None => row >= self.rows || row_bytes is None || (row + 1) * row_bytes.unwrap()
                    > self.length,
            },
            match r {
                Some(bytes) => self.row_range(row as int, row_bytes) matches Some(range) && bytes@
                    == file@.subrange(range.0, range.1),
                None => self.row_range(row as int, row_bytes) is None,
            },
    {
        if row >= self.rows {
            return None;
        }
        let n: usize = match row_bytes {
            Some(n) => n,
            None => {
                return None;
            },
        };
        assert(file.len() <= usize::MAX);
        assert(0 <= row * n <= 0xFFFF_FFFF_FFFF_FFFF * 0xFFFF_FFFF_FFFF_FFFF) by (nonlinear_arith)
            requires
                0 <= row <= 0xFFFF_FFFF_FFFF_FFFF,
                0 <= n <= 0xFFFF_FFFF_FFFF_FFFF,
        ;
        assert((row + 1) * n == row * n + n) by (nonlinear_arith);
        let start: u128 = (row as u128) * (n as u128);
        if start > self.length as u128 || n > self.length - start as usize {
            return None;
        }
        let from: usize = self.offset + start as usize;
        Some(slice_subrange(file, from, from + n))
    }
}

/// What the header of a file says of one tensor.
pub struct TensorInfo {
    pub name: String,
    pub n_dims: u32,
    pub dims: Vec<u64>,
    pub tensor_type: u32,
    pub offset: u64,
}

/// The product of dimensions.
pub open spec fn product(dims: Seq<u64>) -> nat
    decreases dims.len(),
{
    if dims.len() == 0 {
        1
    } else {
        product(dims.drop_last()) * (dims.last() as nat)
    }
}

/// What becomes of a tensor.
#[derive(Debug, Clone, Copy)]
pub enum Placement {
    /// It stays in the file as a matrix.
    Matrix(QuantizedTensor),
    /// The bytes `offset..end` are to be expanded.
    Vector { offset: usize, end: usize },
    /// It is left out.
    Skipped,
}

/// What becomes of a tensor whose data, `size` bytes, lies in a file of
/// `file_len` bytes.
pub open spec fn placed(
    info: TensorInfo,
    data_offset: u64,
    size: Result<usize, ModelFault>,
    file_len: nat,
) -> Result<Placement, ModelFault> {
    let at = data_offset + info.offset;
    if at > u64::MAX {
        Err(
            ModelFault::Parse(
                "tensor "@ + info.name@ + ": data_offset "@ + decimal(data_offset as nat)
                    + " + tensor offset "@ + decimal(info.offset as nat) + " overflows u64"@,
            ),
        )
    } else {
        match size {
            Err(fault) => Err(fault),
            Ok(n) => if at > usize::MAX {
                Err(
                    ModelFault::Parse(
                        "tensor "@ + info.name@ + ": absolute offset "@ + decimal(at as nat)
                            + " exceeds usize on this platform"@,
                    ),
                )
            } else if at + n > usize::MAX {
                Err(
                    ModelFault::Parse(
                        "tensor "@ + info.name@ + ": offset "@ + decimal(at as nat) + " + size "@
                            + decimal(n as nat) + " overflows usize"@,
                    ),
                )
            } else if at + n > file_len {
                Err(
                    ModelFault::Parse(
                        "tensor "@ + info.name@ + " data out of bounds (offset "@ + decimal(
                            at as nat,
                        ) + " + size "@ + decimal(n as nat) + " > file "@ + decimal(file_len)
                            + ")"@,
                    ),
                )
            } else if GgufQuantFormat::of_type(info.tensor_type) is None {
                Err(
                    ModelFault::UnsupportedDtype(
                        "GGML type "@ + decimal(info.tensor_type as nat) + " for tensor "@
                            + info.name@,
                    ),
                )
            } else if info.n_dims == 2 {
                Ok(
                    Placement::Matrix(
                        QuantizedTensor {
                            offset: at as usize,
                            length: n,
                            format: GgufQuantFormat::of_type(info.tensor_type)->0,
                            rows: info.dims@[1] as usize,
                            cols: info.dims@[0] as usize,
                        },
                    ),
                )
            } else if info.n_dims == 1 {
                Ok(Placement::Vector { offset: at as usize, end: (at + n) as usize })
            } else {
                Ok(Placement::Skipped)
            },
        }
    }
}

/// Number of elements of a tensor.
pub fn element_count(dims: &Vec<u64>) -> (n: u64)
    requires
        forall|k: int| 0 <= k <= dims@.len() ==> product(#[trigger] dims@.take(k)) <= u64::MAX,
    ensures
        n == product(dims@),
{
    let mut n: u64 = 1;
    let mut i: usize = 0;
    while i < dims.len()
        invariant
            i <= dims@.len(),
            forall|k: int| 0 <= k <= dims@.len() ==> product(#[trigger] dims@.take(k)) <= u64::MAX,
            n == product(dims@.take(i as int)),
        decreases dims@.len() - i,
    {
        proof {
            let t = dims@.take(i + 1);
            assert(t.drop_last() =~= dims@.take(i as int));
            assert(t.last() == dims@[i as int]);
            assert(product(dims@.take(i + 1)) <= u64::MAX);
        }
        n = n * dims[i];
        i = i + 1;
    }
    assert(dims@.take(i as int) =~= dims@);
    n
}

/// The size of a tensor's data, in terms of contents.
pub open spec fn size_view(size: Result<usize, ModelError>) -> Result<usize, ModelFault> {
    match size {
        Ok(n) => Ok(n),
        Err(e) => Err(e@),
    }
}

/// Decides what becomes of one tensor. `data_size` is the number of bytes
/// that the tensor's type asks for, or why it asks for none.
pub fn place_tensor(
    info: &TensorInfo,
    data_offset: u64,
    data_size: Result<usize, ModelError>,
    file_len: usize,
) -> (r: Result<Placement, ModelError>)
    requires
        info.n_dims == 2 ==> info.dims@.len() >= 2,
    ensures
        match r {
            Ok(p) => placed(*info, data_offset, size_view(data_size), file_len as nat) == Ok::<
                Placement,
                ModelFault,
            >(p),
            Err(e) => placed(*info, data_offset, size_view(data_size), file_len as nat) == Err::<
                Placement,
                ModelFault,
            >(e@),
        },
{
    let at: u64 = match data_offset.checked_add(info.offset) {
        Some(at) => at,
        None => {
            let mut m: String = String::from_str("tensor ");
            m.append(info.name.as_str());
            m.append(": data_offset ");
            append_decimal(&mut m, data_offset as u128);
            m.append(" + tensor offset ");
            append_decimal(&mut m, info.offset as u128);
            m.append(" overflows u64");
            return Err(ModelError::Parse(m));
        },
    };
    let n: usize = match data_size {
        Ok(n) => n,
        Err(e) => {
            return Err(e);
        },
    };
    if at > usize::MAX as u64 {
        let mut m: String = String::from_str("tensor ");
        m.append(info.name.as_str());
        m.append(": absolute offset ");
        append_decimal(&mut m, at as u128);
        m.append(" exceeds usize on this platform");
        return Err(ModelError::Parse(m));
    }
    let offset: usize = at as usize;
    let end: usize = match offset.checked_add(n) {
        Some(end) => end,
        None => {
            let mut m: String = String::from_str("tensor ");
            m.append(info.name.as_str());
            m.append(": offset ");
            append_size(&mut m, offset);
            m.append(" + size ");
            append_size(&mut m, n);
            m.append(" overflows usize");
            return Err(ModelError::Parse(m));
        },
    };
    if end > file_len {
        let mut m: String = String::from_str("tensor ");
        m.append(info.name.as_str());
        m.append(" data out of bounds (offset ");
        append_decimal(&mut m, at as u128);
        m.append(" + size ");
        append_size(&mut m, n);
        m.append(" > file ");
        append_size(&mut m, file_len);
        m.append(")");
        return Err(ModelError::Parse(m));
    }
    let format: GgufQuantFormat = match GgufQuantFormat::from_ggml_type(info.tensor_type) {
        Some(f) => f,
        None => {
            let mut m: String = String::from_str("GGML type ");
            append_decimal(&mut m, info.tensor_type as u128);
            m.append(" for tensor ");
            m.append(info.name.as_str());
            return Err(ModelError::UnsupportedDtype(m));
        },
    };
    if info.n_dims == 2 {
        Ok(
            Placement::Matrix(
                QuantizedTensor {
                    offset,
                    length: n,
                    format,
                    rows: info.dims[1] as usize,
                    cols: info.dims[0] as usize,
                },
            ),
        )
    } else if info.n_dims == 1 {
        Ok(Placement::Vector { offset, end })
    } else {
        Ok(Placement::Skipped)
    }
}

/// Whatever is kept of a tensor lies within the file.
pub proof fn placed_inside_file(
    info: TensorInfo,
    data_offset: u64,
    size: Result<usize, ModelFault>,
    file_len: nat,
)
    ensures
        match placed(info, data_offset, size, file_len) {
            Ok(Placement::Matrix(t)) => t.inside(file_len) && t.format.type_number()
                == info.tensor_type,
            Ok(Placement::Vector { offset, end }) => offset <= end <= file_len,
            _ => true,
        },
{
}

/// A tensor with the name it gets and the size of its data.
pub struct TensorRequest {
    pub info: TensorInfo,
    pub key: String,
    pub data_size: Result<usize, ModelError>,
}

/// A matrix with its name.
pub struct NamedTensor {
    pub key: String,
    pub tensor: QuantizedTensor,
}

/// The bytes of a vector, with its name.
pub struct NamedRange {
    pub key: String,
    pub offset: usize,
    pub end: usize,
}

/// The matrices that stay in the file, and the vectors to be expanded.
pub struct QuantizedModelWeights {
    pub tensors: Vec<NamedTensor>,
    pub vectors: Vec<NamedRange>,
    pub num_layers: usize,
    pub hidden_size: usize,
}

/// What becomes of one request.
pub open spec fn placed_request(q: TensorRequest, data_offset: u64, file_len: nat) -> Result<
    Placement,
    ModelFault,
> {
    placed(q.info, data_offset, size_view(q.data_size), file_len)
}

/// The first thing that is wrong with requests.
pub open spec fn first_refusal(
    requests: Seq<TensorRequest>,
    data_offset: u64,
    file_len: nat,
) -> Option<ModelFault>
    decreases requests.len(),
{
    if requests.len() == 0 {
        None
    } else {
        match first_refusal(requests.drop_last(), data_offset, file_len) {
            Some(f) => Some(f),
            None => match placed_request(requests.last(), data_offset, file_len) {
                Err(f) => Some(f),
                Ok(_) => None,
            },
        }
    }
}

/// A name and a matrix.
pub open spec fn matrices(requests: Seq<TensorRequest>, data_offset: u64, file_len: nat) -> Seq<
    (Seq<char>, QuantizedTensor),
>
    decreases requests.len(),
{
    if requests.len() == 0 {
        seq![]
    } else {
        let init = matrices(requests.drop_last(), data_offset, file_len);
        match placed_request(requests.last(), data_offset, file_len) {
            Ok(Placement::Matrix(t)) => init.push((requests.last().key@, t)),
            _ => init,
        }
    }
}

/// A name and the bytes of a vector.
pub open spec fn ranges(requests: Seq<TensorRequest>, data_offset: u64, file_len: nat) -> Seq<
    (Seq<char>, usize, usize),
>
    decreases requests.len(),
{
    if requests.len() == 0 {
        seq![]
    } else {
        let init = ranges(requests.drop_last(), data_offset, file_len);
        match placed_request(requests.last(), data_offset, file_len) {
            Ok(Placement::Vector { offset, end }) => init.push(
                (requests.last().key@, offset, end),
            ),
            _ => init,
        }
    }
}

/// The contents of a list of named matrices.
pub open spec fn tensor_pairs(v: Seq<NamedTensor>) -> Seq<(Seq<char>, QuantizedTensor)> {
    Seq::new(v.len(), |i: int| (v[i].key@, v[i].tensor))
}

/// The contents of a list of named ranges.
pub open spec fn range_triples(v: Seq<NamedRange>) -> Seq<(Seq<char>, usize, usize)> {
    Seq::new(v.len(), |i: int| (v[i].key@, v[i].offset, v[i].end))
}

/// A refusal stays the first one when more requests follow.
proof fn first_refusal_stays(
    requests: Seq<TensorRequest>,
    data_offset: u64,
    file_len: nat,
    k: int,
)
    requires
        0 <= k <= requests.len(),
        first_refusal(requests.take(k), data_offset, file_len) is Some,
    ensures
        first_refusal(requests, data_offset, file_len) == first_refusal(
            requests.take(k),
            data_offset,
            file_len,
        ),
    decreases requests.len() - k,
{
    if k == requests.len() {
        assert(requests.take(k) =~= requests);
    } else {
        assert(requests.take(k + 1).drop_last() =~= requests.take(k));
        first_refusal_stays(requests, data_offset, file_len, k + 1);
    }
}

/// Goes through the tensors of a file and decides what becomes of each. The
/// first one that cannot be placed is reported.
pub fn load_gguf_quantized(
    requests: &Vec<TensorRequest>,
    data_offset: u64,
    file_len: usize,
    num_layers: usize,
    hidden_size: usize,
) -> (r: Result<QuantizedModelWeights, ModelError>)
    requires
        forall|i: int|
            0 <= i < requests@.len() ==> ((#[trigger] requests@[i]).info.n_dims == 2
                ==> requests@[i].info.dims@.len() >= 2),
    ensures
        match r {
            Ok(w) => first_refusal(requests@, data_offset, file_len as nat) is None
                && tensor_pairs(w.tensors@) == matrices(requests@, data_offset, file_len as nat)
                && range_triples(w.vectors@) == ranges(requests@, data_offset, file_len as nat)
                && w.num_layers == num_layers && w.hidden_size == hidden_size,
            Err(e) => first_refusal(requests@, data_offset, file_len as nat) == Some(e@),
        },
{
    let ghost n = file_len as nat;
    let mut tensors: Vec<NamedTensor> = Vec::new();
    let mut vectors: Vec<NamedRange> = Vec::new();
    let mut i: usize = 0;
    assert(tensor_pairs(tensors@) =~= matrices(requests@.take(0), data_offset, n));
    assert(range_triples(vectors@) =~= ranges(requests@.take(0), data_offset, n));
    while i < requests.len()
        invariant
            i <= requests@.len(),
            n == file_len,
            forall|i: int|
                0 <= i < requests@.len() ==> ((#[trigger] requests@[i]).info.n_dims == 2
                    ==> requests@[i].info.dims@.len() >= 2),
            first_refusal(requests@.take(i as int), data_offset, n) is None,
            tensor_pairs(tensors@) == matrices(requests@.take(i as int), data_offset, n),
            range_triples(vectors@) == ranges(requests@.take(i as int), data_offset, n),
        decreases requests@.len() - i,
    {
        let q: &TensorRequest = &requests[i];
        proof {
            assert(requests@.take(i + 1).drop_last() =~= requests@.take(i as int));
            assert(requests@.take(i + 1).last() == *q);
        }
        let size: Result<usize, ModelError> = match &q.data_size {
            Ok(s) => Ok(*s),
            Err(e) => Err(e.clone()),
        };
        match place_tensor(&q.info, data_offset, size, file_len) {
            Ok(Placement::Matrix(tensor)) => {
                let ghost old_tensors = tensors@;
                tensors.push(NamedTensor { key: q.key.clone(), tensor });
                assert(tensor_pairs(tensors@) =~= tensor_pairs(old_tensors).push(
                    (q.key@, tensor),
                ));
            },
            Ok(Placement::Vector { offset, end }) => {
                let ghost old_vectors = vectors@;
                vectors.push(NamedRange { key: q.key.clone(), offset, end });
                assert(range_triples(vectors@) =~= range_triples(old_vectors).push(
                    (q.key@, offset, end),
                ));
            },
            Ok(Placement::Skipped) => {},
            Err(e) => {
                proof {
                    first_refusal_stays(requests@, data_offset, n, i + 1);
                }
                return Err(e);
            },
        }
        i = i + 1;
    }
    assert(requests@.take(i as int) =~= requests@);
    Ok(QuantizedModelWeights { tensors, vectors, num_layers, hidden_size })
}

/// Every matrix that is kept lies within the file.
pub proof fn matrices_inside_file(
    requests: Seq<TensorRequest>,
    data_offset: u64,
    file_len: nat,
)
    ensures
        forall|i: int|
            0 <= i < matrices(requests, data_offset, file_len).len() ==> (#[trigger] matrices(
                requests,
                data_offset,
                file_len,
            )[i]).1.inside(file_len),
    decreases requests.len(),
{
    if requests.len() > 0 {
        matrices_inside_file(requests.drop_last(), data_offset, file_len);
        let q = requests.last();
        placed_inside_file(q.info, data_offset, size_view(q.data_size), file_len);
        let init = matrices(requests.drop_last(), data_offset, file_len);
        let all = matrices(requests, data_offset, file_len);
        assert forall|i: int| 0 <= i < all.len() implies (#[trigger] all[i]).1.inside(file_len) by {
            if i < init.len() {
                assert(all[i] == init[i]);
            }
        }
    }
}

/// The last matrix of that name.
pub open spec fn tensor_named(
    pairs: Seq<(Seq<char>, QuantizedTensor)>,
    key: Seq<char>,
) -> Option<QuantizedTensor>
    decreases pairs.len(),
{
    if pairs.len() == 0 {
        None
    } else if pairs.last().0 == key {
        Some(pairs.last().1)
    } else {
        tensor_named(pairs.drop_last(), key)
    }
}

/// The bytes of the last vector of that name.
pub open spec fn range_named(
    triples: Seq<(Seq<char>, usize, usize)>,
    key: Seq<char>,
) -> Option<(usize, usize)>
    decreases triples.len(),
{
    if triples.len() == 0 {
        None
    } else if triples.last().0 == key {
        Some((triples.last().1, triples.last().2))
    } else {
        range_named(triples.drop_last(), key)
    }
}

impl QuantizedModelWeights {
    /// Number of layers of the model.
    pub fn num_layers(&self) -> (n: usize)
        ensures
            n == self.num_layers,
    {
        self.num_layers
    }

    /// Hidden size of the model.
    pub fn hidden_size(&self) -> (n: usize)
        ensures
            n == self.hidden_size,
    {
        self.hidden_size
    }

    /// The matrix of that name; of two, the one that came last.
    pub fn get_tensor(&self, key: &str) -> (r: Option<QuantizedTensor>)
        ensures
            r == tensor_named(tensor_pairs(self.tensors@), key@),
    {
        let ghost all = tensor_pairs(self.tensors@);
        let mut i: usize = self.tensors.len();
        assert(all.take(i as int) =~= all);
        while i > 0
            invariant
                i <= self.tensors@.len(),
                all == tensor_pairs(self.tensors@),
                tensor_named(all, key@) == tensor_named(all.take(i as int), key@),
            decreases i,
        {
            assert(all.take(i as int).drop_last() =~= all.take(i - 1));
            assert(all.take(i as int).last() == all[i - 1]);
            if same_text(self.tensors[i - 1].key.as_str(), key) {
                return Some(self.tensors[i - 1].tensor);
            }
            i = i - 1;
        }
        None
    }

    /// The bytes of the vector of that name; of two, the one that came last.
    pub fn get_vector(&self, key: &str) -> (r: Option<(usize, usize)>)
        ensures
            r == range_named(range_triples(self.vectors@), key@),
    {
        let ghost all = range_triples(self.vectors@);
        let mut i: usize = self.vectors.len();
        assert(all.take(i as int) =~= all);
        while i > 0
            invariant
                i <= self.vectors@.len(),
                all == range_triples(self.vectors@),
                range_named(all, key@) == range_named(all.take(i as int), key@),
            decreases i,
        {
            assert(all.take(i as int).drop_last() =~= all.take(i - 1));
            assert(all.take(i as int).last() == all[i - 1]);
            if same_text(self.vectors[i - 1].key.as_str(), key) {
                return Some((self.vectors[i - 1].offset, self.vectors[i - 1].end));
            }
            i = i - 1;
        }
        None
    }
}

/// A tensor that is placed lies where the header says: its bytes begin
/// `info.offset` behind the beginning of the data and are as many as its type
/// asks for. A matrix has its columns in the first dimension and its rows in
/// the second, and keeps its type.
pub proof fn placed_where_the_header_says(
    info: TensorInfo,
    data_offset: u64,
    size: Result<usize, ModelFault>,
    file_len: nat,
)
    ensures
        match placed(info, data_offset, size, file_len) {
            Ok(Placement::Matrix(t)) => {
                &&& info.n_dims == 2
                &&& t.offset == data_offset + info.offset
                &&& size == Ok::<usize, ModelFault>(t.length)
                &&& t.offset + t.length <= file_len
                &&& info.dims@[0] <= usize::MAX ==> t.cols == info.dims@[0]
                &&& info.dims@[1] <= usize::MAX ==> t.rows == info.dims@[1]
                &&& t.format.type_number() == info.tensor_type
            },
            Ok(Placement::Vector { offset, end }) => {
                &&& info.n_dims == 1
                &&& offset == data_offset + info.offset
                &&& offset <= end <= file_len
                &&& size == Ok::<usize, ModelFault>((end - offset) as usize)
            },
            Ok(Placement::Skipped) => info.n_dims != 1 && info.n_dims != 2,
            Err(_) => {
                ||| data_offset + info.offset > u64::MAX
                ||| size is Err
                ||| data_offset + info.offset + size->Ok_0 > usize::MAX
                ||| data_offset + info.offset + size->Ok_0 > file_len
                ||| forall|f: GgufQuantFormat| #[trigger] f.type_number() != info.tensor_type
            },
        },
{
    type_number_round_trip(GgufQuantFormat::of_type(info.tensor_type)->0, info.tensor_type);
    assert forall|f: GgufQuantFormat| GgufQuantFormat::of_type(info.tensor_type) is None implies (
    #[trigger] f.type_number()) != info.tensor_type by {
        type_number_round_trip(f, info.tensor_type);
    }
}

/// Every tensor of a file is looked at by itself: what is found in two parts
/// of a file's tensors, one after the other, is what is found in both.
pub proof fn tensors_are_placed_one_by_one(
    a: Seq<TensorRequest>,
    b: Seq<TensorRequest>,
    data_offset: u64,
    file_len: nat,
)
    ensures
        matrices(a + b, data_offset, file_len) == matrices(a, data_offset, file_len) + matrices(
            b,
            data_offset,
            file_len,
        ),
        ranges(a + b, data_offset, file_len) == ranges(a, data_offset, file_len) + ranges(
            b,
            data_offset,
            file_len,
        ),
        first_refusal(a + b, data_offset, file_len) == (if first_refusal(a, data_offset, file_len) is Some {
            first_refusal(a, data_offset, file_len)
        } else {
            first_refusal(b, data_offset, file_len)
        }),
    decreases b.len(),
{
    if b.len() == 0 {
        assert(a + b =~= a);
        assert(matrices(a, data_offset, file_len) + matrices(b, data_offset, file_len) =~= matrices(
            a,
            data_offset,
            file_len,
        ));
        assert(ranges(a, data_offset, file_len) + ranges(b, data_offset, file_len) =~= ranges(
            a,
            data_offset,
            file_len,
        ));
    } else {
        let init = b.drop_last();
        tensors_are_placed_one_by_one(a, init, data_offset, file_len);
        assert((a + b).drop_last() =~= a + init);
        assert((a + b).last() == b.last());
        assert(matrices(a + b, data_offset, file_len) =~= matrices(a, data_offset, file_len)
            + matrices(b, data_offset, file_len));
        assert(ranges(a + b, data_offset, file_len) =~= ranges(a, data_offset, file_len) + ranges(
            b,
            data_offset,
            file_len,
        ));
    }
}

/// A file with one tensor: a matrix is kept under its key, the bytes of a
/// vector likewise, anything else is left out, and a refusal is reported.
pub proof fn one_tensor_is_placed(q: TensorRequest, data_offset: u64, file_len: nat)
    ensures
        ({
            let one = seq![q];
            let p = placed(q.info, data_offset, size_view(q.data_size), file_len);
            &&& matrices(one, data_offset, file_len).len() <= 1
            &&& matrices(one, data_offset, file_len).len() == 1 <==> (p matches Ok(Placement::Matrix(
                t,
            )) && matrices(one, data_offset, file_len)[0] == (q.key@, t))
            &&& ranges(one, data_offset, file_len).len() <= 1
            &&& ranges(one, data_offset, file_len).len() == 1 <==> (p matches Ok(
                Placement::Vector { offset, end },
            ) && ranges(one, data_offset, file_len)[0] == (q.key@, offset, end))
            &&& first_refusal(one, data_offset, file_len) is Some <==> p is Err
            &&& p is Err ==> first_refusal(one, data_offset, file_len) == Some(p->Err_0)
        }),
{
    let one = seq![q];
    let none = Seq::<TensorRequest>::empty();
    assert(one.drop_last() =~= none);
    assert(one.last() == q);
    assert(matrices(none, data_offset, file_len).len() == 0);
    assert(ranges(none, data_offset, file_len).len() == 0);
    assert(first_refusal(none, data_offset, file_len) is None);
}

/// A matrix that is found by its name is the last of that name, and one is
/// found wherever there is one.
pub proof fn named_tensor_is_the_last(pairs: Seq<(Seq<char>, QuantizedTensor)>, key: Seq<char>)
    ensures
        match tensor_named(pairs, key) {
            Some(t) => exists|i: int|
                0 <= i < pairs.len() && #[trigger] pairs[i] == (key, t) && forall|j: int|
                    i < j < pairs.len() ==> (#[trigger] pairs[j]).0 != key,
            None => forall|j: int| 0 <= j < pairs.len() ==> (#[trigger] pairs[j]).0 != key,
        },
    decreases pairs.len(),
{
    if pairs.len() > 0 {
        let init = pairs.drop_last();
        assert(pairs[pairs.len() - 1] == pairs.last());
        if pairs.last().0 != key {
            named_tensor_is_the_last(init, key);
            if let Some(t) = tensor_named(init, key) {
                let i = choose|i: int|
                    0 <= i < init.len() && #[trigger] init[i] == (key, t) && forall|j: int|
                        i < j < init.len() ==> (#[trigger] init[j]).0 != key;
                assert(pairs[i] == (key, t));
                assert forall|j: int| i < j < pairs.len() implies (#[trigger] pairs[j]).0 != key by {
                    if j < init.len() {
                        assert(pairs[j] == init[j]);
                    }
                }
            } else {
                assert forall|j: int| 0 <= j < pairs.len() implies (#[trigger] pairs[j]).0 != key by {
                    if j < init.len() {
                        assert(pairs[j] == init[j]);
                    }
                }
            }
        }
    }
}

/// The bytes of a vector that are found by its name are those of the last of
/// that name, and some are found wherever there is one.
pub proof fn named_range_is_the_last(triples: Seq<(Seq<char>, usize, usize)>, key: Seq<char>)
    ensures
        match range_named(triples, key) {
            Some((a, b)) => exists|i: int|
                0 <= i < triples.len() && #[trigger] triples[i] == (key, a, b) && forall|j: int|
                    i < j < triples.len() ==> (#[trigger] triples[j]).0 != key,
            None => forall|j: int| 0 <= j < triples.len() ==> (#[trigger] triples[j]).0 != key,
        },
    decreases triples.len(),
{
    if triples.len() > 0 {
        let init = triples.drop_last();
        assert(triples[triples.len() - 1] == triples.last());
        if triples.last().0 != key {
            named_range_is_the_last(init, key);
            if let Some((a, b)) = range_named(init, key) {
                let i = choose|i: int|
                    0 <= i < init.len() && #[trigger] init[i] == (key, a, b) && forall|j: int|
                        i < j < init.len() ==> (#[trigger] init[j]).0 != key;
                assert(triples[i] == (key, a, b));
                assert forall|j: int| i < j < triples.len() implies (#[trigger] triples[j]).0
                    != key by {
                    if j < init.len() {
                        assert(triples[j] == init[j]);
                    }
                }
            } else {
                assert forall|j: int| 0 <= j < triples.len() implies (#[trigger] triples[j]).0
                    != key by {
                    if j < init.len() {
                        assert(triples[j] == init[j]);
                    }
                }
            }
        }
    }
}

/// The elements of a tensor are counted dimension by dimension, whatever the
/// order of the dimensions.
pub proof fn elements_multiply(a: Seq<u64>, b: Seq<u64>)
    ensures
        product(a + b) == product(a) * product(b),
        product(a + b) == product(b + a),
{
    product_of_both(a, b);
    product_of_both(b, a);
    assert(product(a) * product(b) == product(b) * product(a)) by (nonlinear_arith);
}

/// The product of two lists of dimensions.
proof fn product_of_both(a: Seq<u64>, b: Seq<u64>)
    ensures
        product(a + b) == product(a) * product(b),
    decreases b.len(),
{
    if b.len() == 0 {
        assert(a + b =~= a);
        assert(product(a) * 1 == product(a)) by (nonlinear_arith);
    } else {
        let init = b.drop_last();
        product_of_both(a, init);
        assert((a + b).drop_last() =~= a + init);
        let x = product(a) as int;
        let y = product(init) as int;
        let z = b.last() as int;
        assert((x * y) * z == x * (y * z)) by (nonlinear_arith);
    }
}

/// The numbers of the formats on file.
pub proof fn type_numbers_on_file()
    ensures
        GgufQuantFormat::F32.type_number() == 0,
        GgufQuantFormat::F16.type_number() == 1,
        GgufQuantFormat::Q4_0.type_number() == 2,
        GgufQuantFormat::Q4_1.type_number() == 3,
        GgufQuantFormat::Q5_0.type_number() == 6,
        GgufQuantFormat::Q5_1.type_number() == 7,
        GgufQuantFormat::Q8_0.type_number() == 8,
        GgufQuantFormat::Q2_K.type_number() == 10,
        GgufQuantFormat::Q3_K.type_number() == 11,
        GgufQuantFormat::Q4_K.type_number() == 12,
        GgufQuantFormat::Q5_K.type_number() == 13,
        GgufQuantFormat::Q6_K.type_number() == 14,
        GgufQuantFormat::BF16.type_number() == 30,
{
}

/// Why a tensor is refused: a type without a size for the reason that its size
/// has, a place that cannot be or does not lie in the file as a fault of the
/// file, and a type that is not known, even of a tensor that would be skipped,
/// as such.
pub proof fn refusals_tell_the_reason(
    info: TensorInfo,
    data_offset: u64,
    size: Result<usize, ModelFault>,
    file_len: nat,
)
    ensures
        ({
            let at = data_offset + info.offset;
            let r = placed(info, data_offset, size, file_len);
            &&& at > u64::MAX ==> r is Err && r->Err_0 is Parse
            &&& at <= u64::MAX && size is Err ==> r is Err && r->Err_0 == size->Err_0
            &&& at <= u64::MAX && size is Ok && (at + size->Ok_0 > file_len || at + size->Ok_0
                > usize::MAX) ==> r is Err && r->Err_0 is Parse
            &&& at <= u64::MAX && size is Ok && at + size->Ok_0 <= file_len && at + size->Ok_0
                <= usize::MAX && r is Err ==> r->Err_0 is UnsupportedDtype
        }),
{
}

/// What is said of the contents of lists, requests and sizes is what these
/// hold.
pub proof fn contents_are_told(
    tensors: Seq<NamedTensor>,
    ranges: Seq<NamedRange>,
    q: TensorRequest,
    size: Result<usize, ModelError>,
    data_offset: u64,
    file_len: nat,
    i: int,
)
    ensures
        tensor_pairs(tensors).len() == tensors.len(),
        0 <= i < tensors.len() ==> tensor_pairs(tensors)[i].0 == tensors[i].key@ && tensor_pairs(
            tensors,
        )[i].1 == tensors[i].tensor,
        range_triples(ranges).len() == ranges.len(),
        0 <= i < ranges.len() ==> range_triples(ranges)[i] == (
            ranges[i].key@,
            ranges[i].offset,
            ranges[i].end,
        ),
        size matches Ok(n) ==> size_view(size) == Ok::<usize, ModelFault>(n),
        size matches Err(e) ==> size_view(size) == Err::<usize, ModelFault>(e@),
        q.data_size matches Ok(n) ==> placed_request(q, data_offset, file_len) == placed(
            q.info,
            data_offset,
            Ok(n),
            file_len,
        ),
        q.data_size matches Err(e) ==> placed_request(q, data_offset, file_len) == placed(
            q.info,
            data_offset,
            Err(e@),
            file_len,
        ),
{
}

/// The rows of a matrix follow one another from its first byte on, each as long
/// as a row is, and lie within it; a row that the matrix has not, or that its
/// bytes do not reach, is not given.
pub proof fn rows_follow_one_another(t: QuantizedTensor, row: int, n: usize)
    requires
        0 <= row,
    ensures
        t.row_range(row, None) is None,
        row >= t.rows ==> t.row_range(row, Some(n)) is None,
        t.row_range(row, Some(n)) matches Some(r) ==> {
            &&& row == 0 ==> r.0 == t.offset
            &&& r.1 - r.0 == n
            &&& t.offset <= r.0 && r.1 <= t.offset + t.length
            &&& row > 0 ==> t.row_range(row - 1, Some(n)) == Some((r.0 - n, r.0))
        },
        row < t.rows && row * n + n <= t.length ==> t.row_range(row, Some(n)) is Some,
{
    assert((row + 1) * n == row * n + n) by (nonlinear_arith);
    assert(row * n >= 0) by (nonlinear_arith)
        requires
            row >= 0,
            n >= 0,
    ;
    assert(0 * n == 0);
    if row > 0 {
        assert((row - 1 + 1) * n == row * n);
        assert((row - 1) * n == row * n - n) by (nonlinear_arith);
    }
}

/// The formats that are multiplied as they are, by their numbers on file.
pub proof fn formats_with_kernels(f: GgufQuantFormat)
    ensures
        f.multiplied_as_is() <==> f.type_number() == 2 || f.type_number() == 8 || f.type_number()
            == 12 || f.type_number() == 14,
{
}

} // verus!
