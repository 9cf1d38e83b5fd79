//! Tensors: an element-type tag, a shape, and a flat element buffer whose
//! length always equals the product of the shape.
//!
//! The runtime works over an integer element domain: every element value fits
//! in `i32`. Tensors are bounded to rank at most 4 and to dimensions of at
//! most 0xFFFF each, so every index computation fits in `u64`.

use vstd::prelude::*;
use crate::error::OnnxError;

verus! {

/// Wire-level element types the codec supports.
#[derive(Clone, Copy, Debug, PartialEq, Eq, Structural)]
pub enum Dtype {
    I8,
    I32,
}

/// An in-memory tensor: element type, shape, flat row-major element buffer.
#[derive(Debug)]
pub struct Tensor {
    pub dtype: Dtype,
    pub shape: Vec<usize>,
    pub data: Vec<i32>,
}

/// The mathematical model of a tensor.
#[verifier::ext_equal]
pub struct TensorV {
    pub dtype: Dtype,
    pub shape: Seq<usize>,
    pub data: Seq<i32>,
}

impl View for Tensor {
    type V = TensorV;

    open spec fn view(&self) -> TensorV {
        TensorV { dtype: self.dtype, shape: self.shape@, data: self.data@ }
    }
}

/// Largest dimension size a tensor may have along any one axis.
pub const MAX_DIM: usize = 0xFFFF;

/// Largest rank a tensor may have.
pub const MAX_RANK: usize = 4;

/// The number of elements a shape describes.
pub open spec fn shape_product(s: Seq<usize>) -> nat
    decreases s.len(),
{
    if s.len() == 0 {
        1
    } else {
        (s[0] as nat) * shape_product(s.skip(1))
    }
}

/// A shape the runtime accepts: rank at most 4, each dimension at most 0xFFFF.
pub open spec fn dims_ok(s: Seq<usize>) -> bool {
    s.len() <= MAX_RANK && forall|i: int| 0 <= i < s.len() ==> s[i] <= MAX_DIM
}

/// A value in the `I8` element range.
pub open spec fn fits_i8(v: i32) -> bool {
    -128 <= v <= 127
}

/// Well-formedness: a bounded shape, a buffer whose length equals the shape's
/// product, and elements in range for the element type.
pub open spec fn tensor_wf(t: TensorV) -> bool {
    &&& dims_ok(t.shape)
    &&& t.data.len() == shape_product(t.shape)
    &&& (t.dtype == Dtype::I8 ==> forall|i: int| 0 <= i < t.data.len() ==> fits_i8(t.data[i]))
}

/// Per-level cap on the product of a bounded shape's dimensions.
pub open spec fn product_cap(n: int) -> nat {
    if n <= 0 {
        1
    } else if n == 1 {
        0xFFFF
    } else if n == 2 {
        0xFFFF * 0xFFFF
    } else if n == 3 {
        0xFFFF * 0xFFFF * 0xFFFF
    } else {
        0xFFFF * 0xFFFF * 0xFFFF * 0xFFFF
    }
}

pub proof fn lemma_product_bound(s: Seq<usize>)
    requires
        dims_ok(s),
    ensures
        shape_product(s) <= product_cap(s.len() as int),
        shape_product(s) < 0xFFFF_FFFF_FFFF_FFFF,
    decreases s.len(),
{
    if s.len() == 0 {
    } else {
        assert(dims_ok(s.skip(1)));
        lemma_product_bound(s.skip(1));
        let rest = shape_product(s.skip(1));
        assert((s[0] as nat) * rest <= 0xFFFF * product_cap(s.len() - 1)) by (nonlinear_arith)
            requires
                s[0] <= 0xFFFF,
                rest <= product_cap(s.len() - 1),
        ;
        assert(0xFFFF * product_cap(s.len() - 1) <= product_cap(s.len() as int)) by {
            assert(s.len() - 1 <= 3);
        }
    }
}

/// The product of a rank-4 shape, written out.
pub proof fn lemma_product4(s: Seq<usize>)
    requires
        s.len() == 4,
    ensures
        shape_product(s) == (s[0] as nat) * ((s[1] as nat) * ((s[2] as nat) * (s[3] as nat))),
{
    let s1 = s.skip(1);
    let s2 = s1.skip(1);
    let s3 = s2.skip(1);
    let s4 = s3.skip(1);
    assert(s4.len() == 0);
    assert(s1[0] == s[1] && s2[0] == s[2] && s3[0] == s[3]);
    assert(shape_product(s4) == 1);
    assert(shape_product(s3) == (s[3] as nat) * 1);
    assert(shape_product(s2) == (s[2] as nat) * shape_product(s3));
    assert(shape_product(s1) == (s[1] as nat) * shape_product(s2));
}

/// Splitting a product at one axis: everything before, the axis itself,
/// everything after.
pub proof fn lemma_product_split(s: Seq<usize>, a: int)
    requires
        0 <= a < s.len(),
    ensures
        shape_product(s) == shape_product(s.take(a)) * (s[a] as nat) * shape_product(s.skip(a + 1)),
    decreases a,
{
    if a == 0 {
        assert(s.take(0).len() == 0);
        assert(shape_product(s.take(0)) == 1);
        assert(s.skip(1) =~= s.skip(a + 1));
        assert(shape_product(s) == (s[0] as nat) * shape_product(s.skip(1)));
    } else {
        let t = s.skip(1);
        assert(t.take(a - 1) =~= s.take(a).skip(1));
        assert(t.skip(a) =~= s.skip(a + 1));
        lemma_product_split(t, a - 1);
        assert(t[a - 1] == s[a]);
        let s0 = s[0] as nat;
        let pre = shape_product(s.take(a).skip(1));
        let d = s[a] as nat;
        let post = shape_product(s.skip(a + 1));
        assert(shape_product(t) == pre * d * post);
        assert(shape_product(s) == s0 * shape_product(t));
        assert(s.take(a)[0] == s[0]);
        assert(s.take(a).len() > 0);
        assert(shape_product(s.take(a)) == (s.take(a)[0] as nat) * pre);
        assert(s0 * (pre * d * post) == (s0 * pre) * d * post) by (nonlinear_arith);
        assert(shape_product(s) == shape_product(s.take(a)) * d * post);
    }
}

/// Computes the number of elements a bounded shape describes.
pub fn product_of(shape: &Vec<usize>) -> (r: u64)
    requires
        dims_ok(shape@),
    ensures
        r as nat == shape_product(shape@),
{
    proof {
        lemma_product_bound(shape@);
    }
    let mut acc: u64 = 1;
    let mut i: usize = shape.len();
    while i > 0
        invariant
            i <= shape.len(),
            dims_ok(shape@),
            acc as nat == shape_product(shape@.skip(i as int)),
        decreases i,
    {
        i = i - 1;
        proof {
            assert(shape@.skip(i as int).len() == shape@.len() - i);
            assert(shape@.skip(i as int)[0] == shape@[i as int]);
            assert(shape@.skip(i as int).skip(1) =~= shape@.skip(i as int + 1));
            assert(dims_ok(shape@.skip(i as int)));
            lemma_product_bound(shape@.skip(i as int));
        }
        let d = shape[i];
        assert((d as nat) * (acc as nat) == shape_product(shape@.skip(i as int)));
        acc = (d as u64) * acc;
    }
    assert(shape@.skip(0) =~= shape@);
    acc
}

/// Clamp an unbounded integer into the `i32` range. Kernel results saturate
/// rather than wrap.
pub open spec fn clamp(v: int) -> i32 {
    if v > i32::MAX {
        i32::MAX
    } else if v < i32::MIN {
        i32::MIN
    } else {
        v as i32
    }
}

/// Truncating division (rounding toward zero), the semantics of the average
/// and normalization kernels. Defined for positive divisors.
pub open spec fn div_trunc(a: int, b: int) -> int {
    if a >= 0 {
        a / b
    } else {
        -((-a) / b)
    }
}

/// Equality of two byte strings (used for tensor names).
pub fn bytes_eq(a: &Vec<u8>, b: &Vec<u8>) -> (r: bool)
    ensures
        r == (a@ == b@),
{
    if a.len() != b.len() {
        return false;
    }
    let mut i: usize = 0;
    while i < a.len()
        invariant
            i <= a.len(),
            a.len() == b.len(),
            forall|j: int| 0 <= j < i ==> a@[j] == b@[j],
        decreases a.len() - i,
    {
        if a[i] != b[i] {
            assert(a@[i as int] != b@[i as int]);
            return false;
        }
        i += 1;
    }
    assert(a@ =~= b@);
    true
}

impl Tensor {
    /// Builds a tensor after validating the well-formedness invariant:
    /// bounded shape, buffer length equal to the shape's product, elements in
    /// range for the element type. Rejects anything else with `ShapeMismatch`.
    pub fn new(dtype: Dtype, shape: Vec<usize>, data: Vec<i32>) -> (r: Result<Tensor, OnnxError>)
        ensures
            r is Ok <==> tensor_wf(TensorV { dtype, shape: shape@, data: data@ }),
            r matches Ok(t) ==> t@ == (TensorV { dtype, shape: shape@, data: data@ }),
            r is Err ==> r == Err::<Tensor, OnnxError>(OnnxError::ShapeMismatch),
    {
        if shape.len() > MAX_RANK {
            return Err(OnnxError::ShapeMismatch);
        }
        let mut i: usize = 0;
        while i < shape.len()
            invariant
                i <= shape.len(),
                forall|j: int| 0 <= j < i ==> shape@[j] <= MAX_DIM,
            decreases shape.len() - i,
        {
            if shape[i] > MAX_DIM {
                return Err(OnnxError::ShapeMismatch);
            }
            i += 1;
        }
        let n = product_of(&shape);
        if data.len() as u64 != n {
            return Err(OnnxError::ShapeMismatch);
        }
        if let Dtype::I8 = dtype {
            let mut k: usize = 0;
            while k < data.len()
                invariant
                    k <= data.len(),
                    dtype == Dtype::I8,
                    forall|j: int| 0 <= j < k ==> fits_i8(data@[j]),
                decreases data.len() - k,
            {
                if data[k] < -128 || data[k] > 127 {
                    assert(dtype == Dtype::I8);
                    assert(!(forall|j: int| 0 <= j < data@.len() ==> fits_i8(data@[j]))) by {
                        assert(0 <= k < data@.len() && !fits_i8(data@[k as int]));
                    }
                    assert(!tensor_wf(TensorV { dtype, shape: shape@, data: data@ }));
                    return Err(OnnxError::ShapeMismatch);
                }
                k += 1;
            }
        }
        Ok(Tensor { dtype, shape, data })
    }
}

} // verus!
