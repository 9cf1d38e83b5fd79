//! The operator kernels: pure functions from input tensors and attributes to
//! an output tensor, or `ShapeMismatch`. Every kernel's executable body is
//! proved equal to a spec-level definition of the operator, and every kernel
//! validates ranks, dimensions and attribute kinds before computing.
//!
//! Arithmetic is performed over the `i32` element domain with 128-bit
//! accumulators; results saturate into the `i32` range (`clamp`). Division
//! (average pooling, normalization) truncates toward zero (`div_trunc`).

use vstd::prelude::*;
use crate::error::OnnxError;
use crate::tensor::{Dtype, Tensor, TensorV, dims_ok, shape_product, tensor_wf, clamp, div_trunc,
    product_of, lemma_product_bound, lemma_product4, MAX_DIM};
use crate::model::{AttrV, AttrValueV, Attr, AttrValue, find_attr, attr_int_or, attr_ints_or,
    get_int_or, get_ints_or, ATTR_STRIDES, ATTR_PADS, ATTR_DILATIONS, ATTR_GROUP, ATTR_AXIS,
    ATTR_ALPHA, ATTR_BETA, ATTR_TRANS_A, ATTR_TRANS_B, ATTR_EPSILON, ATTR_SHAPE, ATTR_KERNEL_SHAPE};

verus! {

/// Dimension `a` of a shape virtually left-padded with ones to rank 4.
pub open spec fn dim4(s: Seq<usize>, a: int) -> int {
    if a < 4 - s.len() {
        1
    } else {
        s[a - (4 - s.len())] as int
    }
}

/// Padding to rank 4 with ones keeps the element count.
pub proof fn lemma_dim4_product(s: Seq<usize>)
    requires
        s.len() <= 4,
    ensures
        shape_product(s) == dim4(s, 0) * dim4(s, 1) * dim4(s, 2) * dim4(s, 3),
{
    let l = s.len() as int;
    let p = shape_product(s);
    if l == 0 {
        assert(p == 1);
        assert(dim4(s, 0) == 1 && dim4(s, 1) == 1 && dim4(s, 2) == 1 && dim4(s, 3) == 1);
    } else if l == 1 {
        assert(s.skip(1).len() == 0);
        assert(shape_product(s.skip(1)) == 1);
        assert(p == (s[0] as nat) * 1);
        assert(p == dim4(s, 0) * dim4(s, 1) * dim4(s, 2) * dim4(s, 3)) by (nonlinear_arith)
            requires
                p == (s[0] as nat) * 1,
                dim4(s, 0) == 1 && dim4(s, 1) == 1 && dim4(s, 2) == 1,
                dim4(s, 3) == s[0] as int,
        ;
    } else if l == 2 {
        assert(s.skip(1).skip(1).len() == 0);
        assert(shape_product(s.skip(1).skip(1)) == 1);
        assert(shape_product(s.skip(1)) == (s.skip(1)[0] as nat) * shape_product(s.skip(1).skip(1)));
        assert(s.skip(1)[0] == s[1]);
        assert(p == dim4(s, 0) * dim4(s, 1) * dim4(s, 2) * dim4(s, 3)) by (nonlinear_arith)
            requires
                p == (s[0] as nat) * ((s[1] as nat) * 1),
                dim4(s, 0) == 1 && dim4(s, 1) == 1,
                dim4(s, 2) == s[0] as int && dim4(s, 3) == s[1] as int,
        ;
    } else if l == 3 {
        let s1 = s.skip(1);
        let s2 = s1.skip(1);
        assert(s1[0] == s[1] && s2[0] == s[2]);
        assert(s2.skip(1).len() == 0);
        assert(shape_product(s2.skip(1)) == 1);
        assert(shape_product(s2) == (s[2] as nat) * 1);
        assert(shape_product(s1) == (s[1] as nat) * shape_product(s2));
        assert(p == dim4(s, 0) * dim4(s, 1) * dim4(s, 2) * dim4(s, 3)) by (nonlinear_arith)
            requires
                p == (s[0] as nat) * ((s[1] as nat) * ((s[2] as nat) * 1)),
                dim4(s, 0) == 1,
                dim4(s, 1) == s[0] as int && dim4(s, 2) == s[1] as int && dim4(s, 3) == s[2] as int,
        ;
    } else {
        lemma_product4(s);
        assert(p == dim4(s, 0) * dim4(s, 1) * dim4(s, 2) * dim4(s, 3)) by (nonlinear_arith)
            requires
                p == (s[0] as nat) * ((s[1] as nat) * ((s[2] as nat) * (s[3] as nat))),
                dim4(s, 0) == s[0] as int && dim4(s, 1) == s[1] as int,
                dim4(s, 2) == s[2] as int && dim4(s, 3) == s[3] as int,
        ;
    }
}

/// A positive element count means every dimension is positive.
pub proof fn lemma_product_pos(s: Seq<usize>)
    requires
        shape_product(s) > 0,
    ensures
        forall|i: int| 0 <= i < s.len() ==> s[i] > 0,
    decreases s.len(),
{
    if s.len() == 0 {
    } else {
        assert((s[0] as nat) * shape_product(s.skip(1)) > 0);
        assert(s[0] > 0 && shape_product(s.skip(1)) > 0) by (nonlinear_arith)
            requires
                (s[0] as nat) * shape_product(s.skip(1)) > 0,
        ;
        lemma_product_pos(s.skip(1));
        assert forall|i: int| 0 <= i < s.len() implies s[i] > 0 by {
            if i > 0 {
                assert(s.skip(1)[i - 1] == s[i]);
            }
        }
    }
}

/// Row-major flat index of rank-4 coordinates in dimensions `d0 .. d3`.
pub open spec fn lin4d(d1: int, d2: int, d3: int, b: int, c: int, h: int, w: int) -> int {
    ((b * d1 + c) * d2 + h) * d3 + w
}

pub proof fn lemma_lin4_bound(d0: int, d1: int, d2: int, d3: int, b: int, c: int, h: int, w: int)
    requires
        0 <= b < d0,
        0 <= c < d1,
        0 <= h < d2,
        0 <= w < d3,
    ensures
        0 <= lin4d(d1, d2, d3, b, c, h, w) < d0 * d1 * d2 * d3,
{
    assert(0 <= ((b * d1 + c) * d2 + h) * d3 + w < d0 * d1 * d2 * d3) by (nonlinear_arith)
        requires
            0 <= b < d0 && 0 <= c < d1 && 0 <= h < d2 && 0 <= w < d3,
    ;
}

/// The rank-4 padded dimensions of a bounded shape, as executable values.
fn pad_dim(s: &Vec<usize>, a: usize) -> (r: usize)
    requires
        s@.len() <= 4,
        a < 4,
        dims_ok(s@),
    ensures
        r as int == dim4(s@, a as int),
        r <= MAX_DIM,
{
    if a < 4 - s.len() {
        1
    } else {
        s[a - (4 - s.len())]
    }
}

/// The element count of a contiguous run of dimensions.
pub fn product_range(s: &Vec<usize>, lo: usize, hi: usize) -> (r: u64)
    requires
        lo <= hi <= s@.len(),
        dims_ok(s@),
    ensures
        r as nat == shape_product(s@.subrange(lo as int, hi as int)),
{
    proof {
        assert(dims_ok(s@.subrange(lo as int, hi as int)));
        lemma_product_bound(s@.subrange(lo as int, hi as int));
    }
    let mut acc: u64 = 1;
    let mut i: usize = hi;
    while i > lo
        invariant
            lo <= i <= hi <= s@.len(),
            dims_ok(s@),
            acc as nat == shape_product(s@.subrange(i as int, hi as int)),
        decreases i,
    {
        i = i - 1;
        proof {
            let sub = s@.subrange(i as int, hi as int);
            assert(sub[0] == s@[i as int]);
            assert(sub.skip(1) =~= s@.subrange(i as int + 1, hi as int));
            assert(dims_ok(sub));
            lemma_product_bound(sub);
        }
        let d = s[i];
        assert((d as nat) * (acc as nat) == shape_product(s@.subrange(i as int, hi as int)));
        acc = (d as u64) * acc;
    }
    acc
}

/// Copies a vector of plain values.
fn copy_vec<T: Copy>(v: &Vec<T>) -> (r: Vec<T>)
    ensures
        r@ == v@,
{
    let mut out: Vec<T> = Vec::new();
    let mut i: usize = 0;
    while i < v.len()
        invariant
            i <= v.len(),
            out@ == v@.take(i as int),
        decreases v.len() - i,
    {
        out.push(v[i]);
        proof {
            assert(out@ =~= v@.take(i + 1));
        }
        i += 1;
    }
    proof {
        assert(v@.take(v@.len() as int) =~= v@);
    }
    out
}

/// Copies a byte-string name.
pub fn copy_bytes(v: &Vec<u8>) -> (r: Vec<u8>)
    ensures
        r@ == v@,
{
    copy_vec(v)
}

/// Copies a tensor.
pub fn copy_tensor(t: &Tensor) -> (r: Tensor)
    ensures
        r@ == t@,
{
    let r = Tensor { dtype: t.dtype, shape: copy_vec(&t.shape), data: copy_vec(&t.data) };
    assert(r@ =~= t@);
    r
}

/// Saturates a 128-bit value into the element range.
fn clamp_i128(v: i128) -> (r: i32)
    ensures
        r == clamp(v as int),
{
    if v > i32::MAX as i128 {
        i32::MAX
    } else if v < i32::MIN as i128 {
        i32::MIN
    } else {
        v as i32
    }
}

/// Truncating division of a 128-bit value by a positive divisor.
fn div_trunc_i128(a: i128, b: i128) -> (r: i128)
    requires
        0 < b,
        -0x4000_0000_0000_0000_0000_0000_0000_0000i128 <= a,
    ensures
        r as int == div_trunc(a as int, b as int),
        a >= 0 ==> 0 <= r <= a,
        a < 0 ==> a <= r <= 0,
{
    if a >= 0 {
        proof {
            assert(0 <= (a as int) / (b as int) <= a as int) by (nonlinear_arith)
                requires
                    a >= 0 && b >= 1,
            ;
        }
        a / b
    } else {
        proof {
            assert(0 <= (-(a as int)) / (b as int) <= -(a as int)) by (nonlinear_arith)
                requires
                    a < 0 && b >= 1,
            ;
        }
        -((-a) / b)
    }
}

/// The rectifier: elementwise threshold at zero, shape preserving.
pub open spec fn spec_relu(ins: Seq<TensorV>) -> Result<TensorV, OnnxError> {
    if ins.len() != 1 {
        Err(OnnxError::ShapeMismatch)
    } else {
        let x = ins[0];
        Ok(
            TensorV {
                dtype: Dtype::I32,
                shape: x.shape,
                data: Seq::new(x.data.len(), |i: int| if x.data[i] < 0 { 0i32 } else { x.data[i] }),
            },
        )
    }
}

pub fn relu(x: &Tensor) -> (r: Tensor)
    requires
        tensor_wf(x@),
    ensures
        spec_relu(seq![x@]) == Ok::<TensorV, OnnxError>(r@),
        tensor_wf(r@),
{
    let ghost goal = spec_relu(seq![x@]).unwrap();
    let mut data: Vec<i32> = Vec::new();
    let mut i: usize = 0;
    while i < x.data.len()
        invariant
            i <= x.data.len(),
            goal == spec_relu(seq![x@]).unwrap(),
            goal.data.len() == x@.data.len(),
            data@ == goal.data.take(i as int),
        decreases x.data.len() - i,
    {
        let v = x.data[i];
        data.push(if v < 0 { 0 } else { v });
        proof {
            assert(data@ =~= goal.data.take(i + 1));
        }
        i += 1;
    }
    let r = Tensor { dtype: Dtype::I32, shape: copy_vec(&x.shape), data };
    proof {
        assert(goal.data.take(goal.data.len() as int) =~= goal.data);
        assert(r@ =~= goal);
    }
    r
}

/// Identity (also inference-time dropout): the input, unchanged.
pub open spec fn spec_identity(ins: Seq<TensorV>) -> Result<TensorV, OnnxError> {
    if ins.len() != 1 {
        Err(OnnxError::ShapeMismatch)
    } else {
        Ok(ins[0])
    }
}

/// Reshape: a new bounded shape with the same element count and the same
/// elements in the same order.
pub open spec fn spec_reshape(ins: Seq<TensorV>, attrs: Seq<AttrV>) -> Result<TensorV, OnnxError> {
    if ins.len() != 1 {
        Err(OnnxError::ShapeMismatch)
    } else {
        let x = ins[0];
        match find_attr(attrs, ATTR_SHAPE) {
            Some(AttrValueV::Ints(vs)) => {
                let shape = Seq::new(vs.len(), |i: int| vs[i] as usize);
                if vs.len() > 4 || (exists|i: int| 0 <= i < vs.len() && !(0 <= #[trigger] vs[i] <= MAX_DIM))
                    || shape_product(shape) != x.data.len() {
                    Err(OnnxError::ShapeMismatch)
                } else {
                    Ok(TensorV { dtype: x.dtype, shape, data: x.data })
                }
            },
            _ => Err(OnnxError::ShapeMismatch),
        }
    }
}

pub fn reshape(x: &Tensor, attrs: &Vec<Attr>) -> (r: Result<Tensor, OnnxError>)
    requires
        tensor_wf(x@),
    ensures
        r matches Ok(t) ==> spec_reshape(seq![x@], attrs@.map_values(|a: Attr| a@)) == Ok::<
            TensorV,
            OnnxError,
        >(t@) && tensor_wf(t@),
        r matches Err(e) ==> spec_reshape(seq![x@], attrs@.map_values(|a: Attr| a@)) == Err::<
            TensorV,
            OnnxError,
        >(e),
{
    let ghost av = attrs@.map_values(|a: Attr| a@);
    let vs = match get_ints_or(attrs, ATTR_SHAPE, Vec::new()) {
        None => {
            assert(find_attr(av, ATTR_SHAPE) matches Some(AttrValueV::Int(_)));
            return Err(OnnxError::ShapeMismatch);
        },
        Some(v) => v,
    };
    if find_none(attrs, ATTR_SHAPE) {
        return Err(OnnxError::ShapeMismatch);
    }
    assert(find_attr(av, ATTR_SHAPE) == Some(AttrValueV::Ints(vs@)));
    let ghost sshape = Seq::new(vs@.len(), |i: int| vs@[i] as usize);
    if vs.len() > 4 {
        return Err(OnnxError::ShapeMismatch);
    }
    let mut shape: Vec<usize> = Vec::new();
    let mut i: usize = 0;
    while i < vs.len()
        invariant
            i <= vs@.len(),
            vs@.len() <= 4,
            tensor_wf(x@),
            av == attrs@.map_values(|a: Attr| a@),
            find_attr(av, ATTR_SHAPE) == Some(AttrValueV::Ints(vs@)),
            sshape == Seq::new(vs@.len(), |q: int| vs@[q] as usize),
            shape@ == sshape.take(i as int),
            forall|q: int| 0 <= q < i ==> 0 <= #[trigger] vs@[q] <= MAX_DIM,
        decreases vs.len() - i,
    {
        let v = vs[i];
        if v < 0 || v > MAX_DIM as i64 {
            assert(!(0 <= vs@[i as int] <= MAX_DIM));
            return Err(OnnxError::ShapeMismatch);
        }
        shape.push(v as usize);
        proof {
            assert(shape@ =~= sshape.take(i + 1));
        }
        i += 1;
    }
    proof {
        assert(shape@ =~= sshape);
        assert(forall|q: int| 0 <= q < vs@.len() ==> 0 <= #[trigger] vs@[q] <= MAX_DIM);
        assert(dims_ok(sshape));
    }
    let n = product_range(&shape, 0, shape.len());
    proof {
        assert(shape@.subrange(0, shape@.len() as int) =~= shape@);
    }
    if n != x.data.len() as u64 {
        return Err(OnnxError::ShapeMismatch);
    }
    let r = Tensor { dtype: x.dtype, shape, data: copy_vec(&x.data) };
    proof {
        assert(r@ =~= spec_reshape(seq![x@], av).unwrap());
    }
    Ok(r)
}

/// Reads one element of a rank-4 tensor by its coordinates.
fn at4(t: &Tensor, i0: usize, i1: usize, i2: usize, i3: usize) -> (r: i32)
    requires
        tensor_wf(t@),
        t@.shape.len() == 4,
        i0 < t@.shape[0],
        i1 < t@.shape[1],
        i2 < t@.shape[2],
        i3 < t@.shape[3],
    ensures
        r == t@.data[lin4d(
            t@.shape[1] as int,
            t@.shape[2] as int,
            t@.shape[3] as int,
            i0 as int,
            i1 as int,
            i2 as int,
            i3 as int,
        )],
{
    let d1 = t.shape[1];
    let d2 = t.shape[2];
    let d3 = t.shape[3];
    proof {
        assert(dims_ok(t@.shape));
        assert((i0 as int) * (d1 as int) + (i1 as int) < 0x1_0000_0000) by (nonlinear_arith)
            requires
                i0 <= 0xFFFF && d1 <= 0xFFFF && i1 <= 0xFFFF,
        ;
    }
    let a1 = (i0 as u64) * (d1 as u64) + (i1 as u64);
    proof {
        assert((a1 as int) * (d2 as int) + (i2 as int) < 0x1_0000_0000_0000) by (nonlinear_arith)
            requires
                a1 < 0x1_0000_0000 && d2 <= 0xFFFF && i2 <= 0xFFFF,
        ;
    }
    let a2 = a1 * (d2 as u64) + (i2 as u64);
    proof {
        assert((a2 as int) * (d3 as int) + (i3 as int) < 0x1_0000_0000_0000_0000) by (nonlinear_arith)
            requires
                a2 < 0x1_0000_0000_0000 && d3 <= 0xFFFF && i3 <= 0xFFFF,
        ;
    }
    let a3 = a2 * (d3 as u64) + (i3 as u64);
    proof {
        let s = t@.shape;
        lemma_lin4_bound(
            s[0] as int,
            s[1] as int,
            s[2] as int,
            s[3] as int,
            i0 as int,
            i1 as int,
            i2 as int,
            i3 as int,
        );
        lemma_product4(s);
        assert((s[0] as int) * (s[1] as int) * (s[2] as int) * (s[3] as int) == (s[0] as nat) * ((
        s[1] as nat) * ((s[2] as nat) * (s[3] as nat)))) by (nonlinear_arith);
        assert(a3 as int == lin4d(
            s[1] as int,
            s[2] as int,
            s[3] as int,
            i0 as int,
            i1 as int,
            i2 as int,
            i3 as int,
        ));
        assert((a3 as int) < t@.data.len());
    }
    let dlen = t.data.len();
    assert(a3 < dlen as u64);
    t.data[a3 as usize]
}

/// One product of the convolution window sum: input element (zero where the
/// padded position falls outside the input) times the matching weight.
pub open spec fn conv_term(
    x: TensorV,
    w: TensorV,
    n: int,
    base: int,
    m: int,
    oh: int,
    ow: int,
    sh: int,
    sw: int,
    pt: int,
    pl: int,
    dh: int,
    dw: int,
    t: int,
) -> int {
    let khd = w.shape[2] as int;
    let kwd = w.shape[3] as int;
    let c = t / (khd * kwd);
    let rr = t % (khd * kwd);
    let kh = rr / kwd;
    let kw = rr % kwd;
    let ih = oh * sh + kh * dh - pt;
    let iw = ow * sw + kw * dw - pl;
    let hd = x.shape[2] as int;
    let wd = x.shape[3] as int;
    let xv: int = if 0 <= ih < hd && 0 <= iw < wd {
        x.data[lin4d(x.shape[1] as int, hd, wd, n, base + c, ih, iw)] as int
    } else {
        0
    };
    let wv: int = w.data[lin4d(w.shape[1] as int, khd, kwd, m, c, kh, kw)] as int;
    xv * wv
}

/// The convolution window sum over the first `t` window positions.
pub open spec fn conv_sum(
    x: TensorV,
    w: TensorV,
    n: int,
    base: int,
    m: int,
    oh: int,
    ow: int,
    sh: int,
    sw: int,
    pt: int,
    pl: int,
    dh: int,
    dw: int,
    t: int,
) -> int
    decreases t,
{
    if t <= 0 {
        0
    } else {
        conv_sum(x, w, n, base, m, oh, ow, sh, sw, pt, pl, dh, dw, t - 1) + conv_term(
            x,
            w,
            n,
            base,
            m,
            oh,
            ow,
            sh,
            sw,
            pt,
            pl,
            dh,
            dw,
            t - 1,
        )
    }
}

/// One output element of the convolution, by its flat index.
pub open spec fn conv_elem(
    x: TensorV,
    w: TensorV,
    bias: Option<TensorV>,
    sh: int,
    sw: int,
    pt: int,
    pl: int,
    dh: int,
    dw: int,
    md: int,
    ohd: int,
    owd: int,
    mg: int,
    o: int,
) -> i32 {
    let cg = w.shape[1] as int;
    let khd = w.shape[2] as int;
    let kwd = w.shape[3] as int;
    let n = o / (md * ohd * owd);
    let m = (o / (ohd * owd)) % md;
    let oh = (o / owd) % ohd;
    let ow = o % owd;
    let base = (m / mg) * cg;
    let s = conv_sum(x, w, n, base, m, oh, ow, sh, sw, pt, pl, dh, dw, cg * khd * kwd);
    let bv: int = match bias {
        Some(b) => b.data[m] as int,
        None => 0,
    };
    clamp(s + bv)
}

/// Cross-correlation with stride, padding, dilation and channel groups.
/// Output spatial size obeys
/// `floor((in + pad_begin + pad_end - dilation*(kernel-1) - 1) / stride) + 1`.
pub open spec fn spec_conv(ins: Seq<TensorV>, attrs: Seq<AttrV>) -> Result<TensorV, OnnxError> {
    if ins.len() != 2 && ins.len() != 3 {
        Err(OnnxError::ShapeMismatch)
    } else {
        let x = ins[0];
        let w = ins[1];
        match (attr_ints_or(attrs, ATTR_STRIDES, seq![1i64, 1i64]), attr_ints_or(
            attrs,
            ATTR_PADS,
            seq![0i64, 0i64, 0i64, 0i64],
        ), attr_ints_or(attrs, ATTR_DILATIONS, seq![1i64, 1i64]), attr_int_or(
            attrs,
            ATTR_GROUP,
            1,
        )) {
            (Some(st), Some(pd), Some(dl), Some(g)) => {
                if x.shape.len() != 4 || w.shape.len() != 4 || st.len() != 2 || pd.len() != 4
                    || dl.len() != 2 || !(forall|i: int|
                    0 <= i < 2 ==> 1 <= #[trigger] st[i] <= 255) || !(forall|i: int|
                    0 <= i < 4 ==> 0 <= #[trigger] pd[i] <= 255) || !(forall|i: int|
                    0 <= i < 2 ==> 1 <= #[trigger] dl[i] <= 255) || !(1 <= g <= x.shape[1]) {
                    Err(OnnxError::ShapeMismatch)
                } else {
                    let nd = x.shape[0] as int;
                    let cd = x.shape[1] as int;
                    let hd = x.shape[2] as int;
                    let wd = x.shape[3] as int;
                    let md = w.shape[0] as int;
                    let cg = w.shape[1] as int;
                    let khd = w.shape[2] as int;
                    let kwd = w.shape[3] as int;
                    let sh = st[0] as int;
                    let sw = st[1] as int;
                    let pt = pd[0] as int;
                    let pl = pd[1] as int;
                    let pb = pd[2] as int;
                    let pr = pd[3] as int;
                    let dh = dl[0] as int;
                    let dw = dl[1] as int;
                    let numh = hd + pt + pb - dh * (khd - 1) - 1;
                    let numw = wd + pl + pr - dw * (kwd - 1) - 1;
                    let gg = g as int;
                    if cd % gg != 0 || md % gg != 0 || cg != cd / gg || khd < 1 || kwd < 1 || md < 1
                        || (ins.len() == 3 && !(ins[2].shape.len() == 1 && ins[2].shape[0] as int
                        == md)) || numh < 0 || numw < 0 {
                        Err(OnnxError::ShapeMismatch)
                    } else {
                        let ohd = numh / sh + 1;
                        let owd = numw / sw + 1;
                        let mg = md / gg;
                        if ohd > MAX_DIM || owd > MAX_DIM {
                            Err(OnnxError::ShapeMismatch)
                        } else {
                            Ok(
                                TensorV {
                                    dtype: Dtype::I32,
                                    shape: seq![
                                        nd as usize,
                                        md as usize,
                                        ohd as usize,
                                        owd as usize,
                                    ],
                                    data: Seq::new(
                                        (nd * md * ohd * owd) as nat,
                                        |o: int| conv_elem(
                                            x,
                                            w,
                                            if ins.len() == 3 {
                                                Some(ins[2])
                                            } else {
                                                None
                                            },
                                            sh,
                                            sw,
                                            pt,
                                            pl,
                                            dh,
                                            dw,
                                            md,
                                            ohd,
                                            owd,
                                            mg,
                                            o,
                                        ),
                                    ),
                                },
                            )
                        }
                    }
                }
            },
            _ => Err(OnnxError::ShapeMismatch),
        }
    }
}

fn conv_value(
    x: &Tensor,
    w: &Tensor,
    n: usize,
    base: usize,
    m: usize,
    oh: usize,
    ow: usize,
    sh: usize,
    sw: usize,
    pt: usize,
    pl: usize,
    dh: usize,
    dw: usize,
) -> (r: i128)
    requires
        tensor_wf(x@),
        tensor_wf(w@),
        x@.shape.len() == 4,
        w@.shape.len() == 4,
        n < x@.shape[0],
        m < w@.shape[0],
        base + w@.shape[1] <= x@.shape[1],
        1 <= sh <= 255,
        1 <= sw <= 255,
        pt <= 255,
        pl <= 255,
        1 <= dh <= 255,
        1 <= dw <= 255,
        oh <= MAX_DIM,
        ow <= MAX_DIM,
    ensures
        r as int == conv_sum(
            x@,
            w@,
            n as int,
            base as int,
            m as int,
            oh as int,
            ow as int,
            sh as int,
            sw as int,
            pt as int,
            pl as int,
            dh as int,
            dw as int,
            (w@.shape[1] as int) * ((w@.shape[2] as int) * (w@.shape[3] as int)),
        ),
        -((w@.shape[1] as int) * ((w@.shape[2] as int) * (w@.shape[3] as int))
            * 0x4000_0000_0000_0000) <= r as int <= (w@.shape[1] as int) * ((w@.shape[2] as int) * (
        w@.shape[3] as int)) * 0x4000_0000_0000_0000,
{
    let cg = w.shape[1];
    let khd = w.shape[2];
    let kwd = w.shape[3];
    proof {
        assert(dims_ok(w@.shape) && dims_ok(x@.shape));
        assert((khd as int) * (kwd as int) <= 0x1_0000_0000) by (nonlinear_arith)
            requires
                khd <= 0xFFFF && kwd <= 0xFFFF,
        ;
    }
    let kk: u64 = (khd as u64) * (kwd as u64);
    proof {
        assert((cg as int) * (kk as int) <= 0x1_0000_0000_0000) by (nonlinear_arith)
            requires
                cg <= 0xFFFF && kk <= 0x1_0000_0000,
        ;
    }
    let total: u64 = (cg as u64) * kk;
    let mut acc: i128 = 0;
    let mut t: u64 = 0;
    while t < total
        invariant
            t <= total,
            total <= 0x1_0000_0000_0000,
            kk as int == (khd as int) * (kwd as int),
            total as int == (cg as int) * (kk as int),
            cg == w@.shape[1] && khd == w@.shape[2] && kwd == w@.shape[3],
            tensor_wf(x@),
            tensor_wf(w@),
            x@.shape.len() == 4,
            w@.shape.len() == 4,
            n < x@.shape[0],
            m < w@.shape[0],
            base + w@.shape[1] <= x@.shape[1],
            1 <= sh <= 255 && 1 <= sw <= 255 && pt <= 255 && pl <= 255,
            1 <= dh <= 255 && 1 <= dw <= 255,
            oh <= MAX_DIM && ow <= MAX_DIM,
            acc as int == conv_sum(
                x@,
                w@,
                n as int,
                base as int,
                m as int,
                oh as int,
                ow as int,
                sh as int,
                sw as int,
                pt as int,
                pl as int,
                dh as int,
                dw as int,
                t as int,
            ),
            -((t as int) * 0x4000_0000_0000_0000) <= acc as int <= (t as int)
                * 0x4000_0000_0000_0000,
        decreases total - t,
    {
        proof {
            assert(cg > 0 && kk > 0) by (nonlinear_arith)
                requires
                    (t as int) < (cg as int) * (kk as int) && t >= 0,
            ;
            assert(khd > 0 && kwd > 0) by (nonlinear_arith)
                requires
                    0 < (khd as int) * (kwd as int),
            ;
        }
        let c = t / kk;
        let rr = t % kk;
        let kh = rr / (kwd as u64);
        let kw = rr % (kwd as u64);
        proof {
            assert((t as int) / (kk as int) < cg as int) by (nonlinear_arith)
                requires
                    (t as int) < (cg as int) * (kk as int) && kk > 0 && t >= 0,
            ;
            assert((rr as int) / (kwd as int) < khd as int) by (nonlinear_arith)
                requires
                    (rr as int) < (khd as int) * (kwd as int) && kwd > 0 && rr >= 0,
            ;
        }
        proof {
            assert((oh as int) * (sh as int) <= 0xFFFF * 255 && (ow as int) * (sw as int) <= 0xFFFF
                * 255) by (nonlinear_arith)
                requires
                    oh <= 0xFFFF && 1 <= sh <= 255 && ow <= 0xFFFF && 1 <= sw <= 255,
            ;
            assert((kh as int) * (dh as int) <= 0xFFFF * 255 && (kw as int) * (dw as int) <= 0xFFFF
                * 255) by (nonlinear_arith)
                requires
                    (kh as int) < 0x1_0000 && 1 <= dh <= 255 && (kw as int) < 0x1_0000 && 1 <= dw
                        <= 255,
            ;
        }
        let ihp = oh * sh + (kh as usize) * dh;
        let iwp = ow * sw + (kw as usize) * dw;
        let xv: i32 = if ihp >= pt && ihp - pt < x.shape[2] && iwp >= pl && iwp - pl < x.shape[3] {
            at4(x, n, base + (c as usize), ihp - pt, iwp - pl)
        } else {
            0
        };
        let wv: i32 = at4(w, m, c as usize, kh as usize, kw as usize);
        proof {
            assert(-0x4000_0000_0000_0000 <= (xv as int) * (wv as int)
                <= 0x4000_0000_0000_0000) by (nonlinear_arith)
                requires
                    -0x8000_0000 <= xv as int <= 0x7FFF_FFFF && -0x8000_0000 <= wv as int
                        <= 0x7FFF_FFFF,
            ;
        }
        let term: i128 = (xv as i128) * (wv as i128);
        proof {
            assert(conv_term(
                x@,
                w@,
                n as int,
                base as int,
                m as int,
                oh as int,
                ow as int,
                sh as int,
                sw as int,
                pt as int,
                pl as int,
                dh as int,
                dw as int,
                t as int,
            ) == (xv as int) * (wv as int));
        }
        acc = acc + term;
        t = t + 1;
    }
    proof {
        assert((cg as int) * (kk as int) == (cg as int) * ((khd as int) * (kwd as int))
            * 1) by (nonlinear_arith)
            requires
                kk as int == (khd as int) * (kwd as int),
        ;
    }
    acc
}

/// Convolution with stride, explicit padding, dilation and channel groups.
pub fn conv(x: &Tensor, w: &Tensor, bias: Option<&Tensor>, attrs: &Vec<Attr>) -> (r: Result<
    Tensor,
    OnnxError,
>)
    requires
        tensor_wf(x@),
        tensor_wf(w@),
        bias matches Some(b) ==> tensor_wf(b@),
    ensures
        ({
            let ins = match bias {
                Some(b) => seq![x@, w@, b@],
                None => seq![x@, w@],
            };
            &&& (r matches Ok(t) ==> spec_conv(ins, attrs@.map_values(|a: Attr| a@)) == Ok::<
                TensorV,
                OnnxError,
            >(t@) && tensor_wf(t@))
            &&& (r matches Err(e) ==> spec_conv(ins, attrs@.map_values(|a: Attr| a@)) == Err::<
                TensorV,
                OnnxError,
            >(e))
        }),
{
    let ghost ins = match bias {
        Some(b) => seq![x@, w@, b@],
        None => seq![x@, w@],
    };
    let ghost av = attrs@.map_values(|a: Attr| a@);
    let one_one: Vec<i64> = vec![1i64, 1i64];
    let zeros: Vec<i64> = vec![0i64, 0i64, 0i64, 0i64];
    let one_one2: Vec<i64> = vec![1i64, 1i64];
    proof {
        assert(one_one@ =~= seq![1i64, 1i64]);
        assert(zeros@ =~= seq![0i64, 0i64, 0i64, 0i64]);
        assert(one_one2@ =~= seq![1i64, 1i64]);
    }
    let st = match get_ints_or(attrs, ATTR_STRIDES, one_one) {
        None => {
            return Err(OnnxError::ShapeMismatch);
        },
        Some(v) => v,
    };
    let pd = match get_ints_or(attrs, ATTR_PADS, zeros) {
        None => {
            return Err(OnnxError::ShapeMismatch);
        },
        Some(v) => v,
    };
    let dl = match get_ints_or(attrs, ATTR_DILATIONS, one_one2) {
        None => {
            return Err(OnnxError::ShapeMismatch);
        },
        Some(v) => v,
    };
    let g64 = match get_int_or(attrs, ATTR_GROUP, 1) {
        None => {
            return Err(OnnxError::ShapeMismatch);
        },
        Some(v) => v,
    };
    if x.shape.len() != 4 || w.shape.len() != 4 || st.len() != 2 || pd.len() != 4 || dl.len() != 2 {
        return Err(OnnxError::ShapeMismatch);
    }
    if st[0] < 1 || st[0] > 255 || st[1] < 1 || st[1] > 255 {
        assert(!(forall|i: int| 0 <= i < 2 ==> 1 <= #[trigger] st@[i] <= 255));
        return Err(OnnxError::ShapeMismatch);
    }
    if pd[0] < 0 || pd[0] > 255 || pd[1] < 0 || pd[1] > 255 || pd[2] < 0 || pd[2] > 255 || pd[3]
        < 0 || pd[3] > 255 {
        assert(!(forall|i: int| 0 <= i < 4 ==> 0 <= #[trigger] pd@[i] <= 255));
        return Err(OnnxError::ShapeMismatch);
    }
    if dl[0] < 1 || dl[0] > 255 || dl[1] < 1 || dl[1] > 255 {
        assert(!(forall|i: int| 0 <= i < 2 ==> 1 <= #[trigger] dl@[i] <= 255));
        return Err(OnnxError::ShapeMismatch);
    }
    if g64 < 1 || g64 > x.shape[1] as i64 {
        return Err(OnnxError::ShapeMismatch);
    }
    assert(forall|i: int| 0 <= i < 2 ==> 1 <= #[trigger] st@[i] <= 255) by {
        assert(st@[0] == st@[0] && st@[1] == st@[1]);
    }
    assert(forall|i: int| 0 <= i < 4 ==> 0 <= #[trigger] pd@[i] <= 255) by {
        assert(pd@[0] == pd@[0] && pd@[1] == pd@[1] && pd@[2] == pd@[2] && pd@[3] == pd@[3]);
    }
    assert(forall|i: int| 0 <= i < 2 ==> 1 <= #[trigger] dl@[i] <= 255) by {
        assert(dl@[0] == dl@[0] && dl@[1] == dl@[1]);
    }
    let nd = x.shape[0];
    let cd = x.shape[1];
    let hd = x.shape[2];
    let wd = x.shape[3];
    let md = w.shape[0];
    let cg = w.shape[1];
    let khd = w.shape[2];
    let kwd = w.shape[3];
    let g = g64 as usize;
    let sh = st[0] as usize;
    let sw = st[1] as usize;
    let pt = pd[0] as usize;
    let pl = pd[1] as usize;
    let pb = pd[2] as usize;
    let pr = pd[3] as usize;
    let dh = dl[0] as usize;
    let dw = dl[1] as usize;
    proof {
        assert(dims_ok(x@.shape) && dims_ok(w@.shape));
    }
    proof {
        assert(hd <= 0xFFFF && wd <= 0xFFFF && khd <= 0xFFFF && kwd <= 0xFFFF);
        assert((dh as int) * ((khd as int) - 1) <= 255 * 0xFFFF && (dh as int) * ((khd as int) - 1)
            >= -255) by (nonlinear_arith)
            requires
                1 <= dh <= 255 && 0 <= khd <= 0xFFFF,
        ;
        assert((dw as int) * ((kwd as int) - 1) <= 255 * 0xFFFF && (dw as int) * ((kwd as int) - 1)
            >= -255) by (nonlinear_arith)
            requires
                1 <= dw <= 255 && 0 <= kwd <= 0xFFFF,
        ;
    }
    let numh: i64 = hd as i64 + pt as i64 + pb as i64 - dh as i64 * (khd as i64 - 1) - 1;
    let numw: i64 = wd as i64 + pl as i64 + pr as i64 - dw as i64 * (kwd as i64 - 1) - 1;
    if cd % g != 0 || md % g != 0 || cg != cd / g || khd < 1 || kwd < 1 || md < 1 {
        return Err(OnnxError::ShapeMismatch);
    }
    match bias {
        Some(b) => {
            if !(b.shape.len() == 1 && b.shape[0] == md) {
                return Err(OnnxError::ShapeMismatch);
            }
        },
        None => {},
    }
    if numh < 0 || numw < 0 {
        return Err(OnnxError::ShapeMismatch);
    }
    let ohd = (numh / sh as i64 + 1) as usize;
    let owd = (numw / sw as i64 + 1) as usize;
    let mg = md / g;
    if ohd > MAX_DIM || owd > MAX_DIM {
        return Err(OnnxError::ShapeMismatch);
    }
    let ghost goal = spec_conv(ins, av).unwrap();
    proof {
        assert(spec_conv(ins, av) is Ok);
        assert(goal.shape =~= seq![nd, md, ohd, owd]);
    }
    proof {
        assert((ohd as int) * (owd as int) <= 0x1_0000_0000) by (nonlinear_arith)
            requires
                ohd <= 0xFFFF && owd <= 0xFFFF,
        ;
    }
    let hw: u64 = (ohd as u64) * (owd as u64);
    proof {
        assert((md as int) * (hw as int) <= 0x1_0000_0000_0000) by (nonlinear_arith)
            requires
                md <= 0xFFFF && hw <= 0x1_0000_0000,
        ;
    }
    let mhw: u64 = (md as u64) * hw;
    proof {
        assert((nd as int) * (mhw as int) <= 0xFFFF * 0x1_0000_0000_0000) by (nonlinear_arith)
            requires
                nd <= 0xFFFF && mhw <= 0x1_0000_0000_0000,
        ;
    }
    let total: u64 = (nd as u64) * mhw;
    proof {
        assert(mhw as int == (md as int) * ((ohd as int) * (owd as int)));
        assert(total as int == (nd as int) * (md as int) * (ohd as int) * (owd as int))
            by (nonlinear_arith)
            requires
                total as int == (nd as int) * ((md as int) * ((ohd as int) * (owd as int))),
        ;
        assert(goal.data.len() == total as int);
    }
    let ghost bopt = match bias {
        Some(b) => Some(b@),
        None => None::<TensorV>,
    };
    proof {
        assert forall|j: int| 0 <= j < total as int implies #[trigger] goal.data[j] == conv_elem(
            x@,
            w@,
            bopt,
            sh as int,
            sw as int,
            pt as int,
            pl as int,
            dh as int,
            dw as int,
            md as int,
            ohd as int,
            owd as int,
            mg as int,
            j,
        ) by {
            assert(goal.data[j] == conv_elem(
                x@,
                w@,
                if ins.len() == 3 {
                    Some(ins[2])
                } else {
                    None
                },
                sh as int,
                sw as int,
                pt as int,
                pl as int,
                dh as int,
                dw as int,
                md as int,
                ohd as int,
                owd as int,
                mg as int,
                j,
            ));
        }
    }
    let mut data: Vec<i32> = Vec::new();
    let mut o: u64 = 0;
    while o < total
        invariant
            o <= total,
            forall|j: int| 0 <= j < total as int ==> #[trigger] goal.data[j] == conv_elem(
                x@,
                w@,
                bopt,
                sh as int,
                sw as int,
                pt as int,
                pl as int,
                dh as int,
                dw as int,
                md as int,
                ohd as int,
                owd as int,
                mg as int,
                j,
            ),
            bopt == (match bias {
                Some(b) => Some(b@),
                None => None::<TensorV>,
            }),
            goal.data.len() == total as int,
            hw as int == (ohd as int) * (owd as int),
            mhw as int == (md as int) * (hw as int),
            total as int == (nd as int) * (mhw as int),
            tensor_wf(x@),
            tensor_wf(w@),
            (bias matches Some(b) ==> tensor_wf(b@)),
            ins == (match bias {
                Some(b) => seq![x@, w@, b@],
                None => seq![x@, w@],
            }),
            x@.shape.len() == 4 && w@.shape.len() == 4,
            nd == x@.shape[0] && cd == x@.shape[1] && hd == x@.shape[2] && wd == x@.shape[3],
            md == w@.shape[0] && cg == w@.shape[1] && khd == w@.shape[2] && kwd == w@.shape[3],
            1 <= sh <= 255 && 1 <= sw <= 255 && pt <= 255 && pl <= 255 && 1 <= dh <= 255 && 1 <= dw
                <= 255,
            ohd <= MAX_DIM && owd <= MAX_DIM,
            1 <= g && cd as int % (g as int) == 0 && md as int % (g as int) == 0,
            cg as int == cd as int / (g as int),
            mg == md / g,
            md >= 1,
            (bias matches Some(b) ==> b@.shape.len() == 1 && b@.shape[0] == md),
            goal == spec_conv(ins, av).unwrap(),
            data@ == goal.data.take(o as int),
        decreases total - o,
    {
        proof {
            assert(mhw > 0 && hw > 0 && nd > 0 && md > 0 && ohd > 0 && owd > 0) by (nonlinear_arith)
                requires
                    (o as int) < (nd as int) * ((md as int) * ((ohd as int) * (owd as int))),
                    o >= 0,
                    total as int == (nd as int) * (mhw as int),
                    mhw as int == (md as int) * (hw as int),
                    hw as int == (ohd as int) * (owd as int),
                    (o as int) < total as int,
            ;
        }
        let n = (o / mhw) as usize;
        let m = ((o / hw) % (md as u64)) as usize;
        let oh = ((o / (owd as u64)) % (ohd as u64)) as usize;
        let ow = (o % (owd as u64)) as usize;
        proof {
            assert((o as int) / (mhw as int) < nd as int) by (nonlinear_arith)
                requires
                    (o as int) < (nd as int) * (mhw as int) && mhw > 0 && o >= 0,
            ;
            assert(m < md && oh < ohd && ow < owd);
        }
        proof {
            assert(md as int == (mg as int) * (g as int)) by (nonlinear_arith)
                requires
                    md as int % (g as int) == 0,
                    mg as int == md as int / (g as int),
                    g > 0,
            ;
            assert(cd as int == (cg as int) * (g as int)) by (nonlinear_arith)
                requires
                    cd as int % (g as int) == 0,
                    cg as int == cd as int / (g as int),
                    g > 0,
            ;
            assert(mg > 0) by (nonlinear_arith)
                requires
                    md as int == (mg as int) * (g as int),
                    md > 0,
                    g > 0,
            ;
        }
        let gi = m / mg;
        proof {
            assert((m as int) / (mg as int) < g as int) by (nonlinear_arith)
                requires
                    (m as int) < md as int,
                    md as int == (mg as int) * (g as int),
                    mg > 0,
            ;
            assert((gi as int) * (cg as int) + cg as int <= cd as int) by (nonlinear_arith)
                requires
                    (gi as int) < (g as int),
                    cd as int == (cg as int) * (g as int),
                    cg >= 0,
            ;
        }
        let base = gi * cg;
        let s = conv_value(x, w, n, base, m, oh, ow, sh, sw, pt, pl, dh, dw);
        proof {
            let tt = (cg as int) * ((khd as int) * (kwd as int));
            assert(0 <= tt <= 0x1_0000_0000_0000 && tt * 0x4000_0000_0000_0000
                <= 0x1_0000_0000_0000 * 0x4000_0000_0000_0000) by (nonlinear_arith)
                requires
                    tt == (cg as int) * ((khd as int) * (kwd as int)),
                    0 <= cg <= 0xFFFF && 0 <= khd <= 0xFFFF && 0 <= kwd <= 0xFFFF,
            ;
            if bias is Some {
                let b = bias.unwrap();
                assert(b@.shape.skip(1).len() == 0);
                assert(shape_product(b@.shape.skip(1)) == 1);
                assert(shape_product(b@.shape) == (b@.shape[0] as nat) * 1);
                assert(b@.data.len() == md);
            }
        }
        let bv: i128 = match bias {
            Some(b) => b.data[m] as i128,
            None => 0,
        };
        let v = clamp_i128(s + bv);
        proof {
            assert((w@.shape[1] as int) * ((w@.shape[2] as int) * (w@.shape[3] as int)) == (
            cg as int) * ((khd as int) * (kwd as int)));
            assert(goal.data[o as int] == conv_elem(
                x@,
                w@,
                bopt,
                sh as int,
                sw as int,
                pt as int,
                pl as int,
                dh as int,
                dw as int,
                md as int,
                ohd as int,
                owd as int,
                mg as int,
                o as int,
            ));
            assert((cg as int) * ((khd as int) * (kwd as int)) == (cg as int) * (khd as int) * (
            kwd as int)) by (nonlinear_arith);
            assert(mhw as int == (md as int) * (ohd as int) * (owd as int)) by (nonlinear_arith)
                requires
                    mhw as int == (md as int) * ((ohd as int) * (owd as int)),
            ;
            assert(goal.data[o as int] == v);
        }
        data.push(v);
        proof {
            assert(data@ =~= goal.data.take(o as int + 1));
        }
        o = o + 1;
    }
    let mut shape: Vec<usize> = Vec::new();
    shape.push(nd);
    shape.push(md);
    shape.push(ohd);
    shape.push(owd);
    let t = Tensor { dtype: Dtype::I32, shape, data };
    proof {
        assert(goal.data.take(total as int) =~= goal.data);
        assert(t@ =~= goal);
        lemma_product4(t@.shape);
        assert(tensor_wf(t@)) by {
            assert(t@.data.len() == (nd as nat) * ((md as nat) * ((ohd as nat) * (owd as nat))))
                by (nonlinear_arith)
                requires
                    t@.data.len() == (nd as int) * ((md as int) * ((ohd as int) * (owd as int))),
            ;
        }
    }
    Ok(t)
}

/// True when the attribute is absent (used to separate "absent" from a
/// present list attribute that an accessor defaulted).
fn find_none(attrs: &Vec<Attr>, key: u8) -> (r: bool)
    ensures
        r == (find_attr(attrs@.map_values(|a: Attr| a@), key) is None),
{
    let ghost av = attrs@.map_values(|a: Attr| a@);
    proof {
        assert(av.skip(0) =~= av);
    }
    let mut i: usize = 0;
    while i < attrs.len()
        invariant
            i <= attrs.len(),
            av == attrs@.map_values(|a: Attr| a@),
            find_attr(av, key) == find_attr(av.skip(i as int), key),
        decreases attrs.len() - i,
    {
        proof {
            assert(av.skip(i as int)[0] == av[i as int]);
            assert(av.skip(i as int).skip(1) =~= av.skip(i as int + 1));
        }
        if attrs[i].key == key {
            return false;
        }
        i += 1;
    }
    proof {
        assert(av.skip(attrs@.len() as int).len() == 0);
    }
    true
}

/// One window position of a pooling kernel: the input element, or the
/// padding identity (zero for average, the smallest value for max) where the
/// position falls outside the input.
pub open spec fn pool_term(
    x: TensorV,
    n: int,
    c: int,
    oh: int,
    ow: int,
    sh: int,
    sw: int,
    pt: int,
    pl: int,
    dh: int,
    dw: int,
    kwd: int,
    avg: bool,
    t: int,
) -> int {
    let kh = t / kwd;
    let kw = t % kwd;
    let ih = oh * sh + kh * dh - pt;
    let iw = ow * sw + kw * dw - pl;
    let hd = x.shape[2] as int;
    let wd = x.shape[3] as int;
    if 0 <= ih < hd && 0 <= iw < wd {
        x.data[lin4d(x.shape[1] as int, hd, wd, n, c, ih, iw)] as int
    } else if avg {
        0
    } else {
        i32::MIN as int
    }
}

/// Maximum over the first `t` window positions.
pub open spec fn pool_max(
    x: TensorV,
    n: int,
    c: int,
    oh: int,
    ow: int,
    sh: int,
    sw: int,
    pt: int,
    pl: int,
    dh: int,
    dw: int,
    kwd: int,
    t: int,
) -> int
    decreases t,
{
    if t <= 0 {
        i32::MIN as int
    } else {
        let m = pool_max(x, n, c, oh, ow, sh, sw, pt, pl, dh, dw, kwd, t - 1);
        let v = pool_term(x, n, c, oh, ow, sh, sw, pt, pl, dh, dw, kwd, false, t - 1);
        if v > m {
            v
        } else {
            m
        }
    }
}

/// Sum over the first `t` window positions, zero where padded.
pub open spec fn pool_sum(
    x: TensorV,
    n: int,
    c: int,
    oh: int,
    ow: int,
    sh: int,
    sw: int,
    pt: int,
    pl: int,
    dh: int,
    dw: int,
    kwd: int,
    t: int,
) -> int
    decreases t,
{
    if t <= 0 {
        0
    } else {
        pool_sum(x, n, c, oh, ow, sh, sw, pt, pl, dh, dw, kwd, t - 1) + pool_term(
            x,
            n,
            c,
            oh,
            ow,
            sh,
            sw,
            pt,
            pl,
            dh,
            dw,
            kwd,
            true,
            t - 1,
        )
    }
}

/// One output element of a pooling kernel, by its flat index: the window
/// maximum, or the window sum divided (truncating) by the window size.
pub open spec fn pool_elem(
    x: TensorV,
    avg: bool,
    sh: int,
    sw: int,
    pt: int,
    pl: int,
    dh: int,
    dw: int,
    khd: int,
    kwd: int,
    cd: int,
    ohd: int,
    owd: int,
    o: int,
) -> i32 {
    let n = o / (cd * ohd * owd);
    let c = (o / (ohd * owd)) % cd;
    let oh = (o / owd) % ohd;
    let ow = o % owd;
    if avg {
        clamp(div_trunc(pool_sum(x, n, c, oh, ow, sh, sw, pt, pl, dh, dw, kwd, khd * kwd), khd * kwd))
    } else {
        clamp(pool_max(x, n, c, oh, ow, sh, sw, pt, pl, dh, dw, kwd, khd * kwd))
    }
}

/// Max or average pooling: the same windowing parameters as convolution,
/// with an explicit kernel size. Average pooling counts padded positions as
/// zeros and truncates the division toward zero.
pub open spec fn spec_pool(ins: Seq<TensorV>, attrs: Seq<AttrV>, avg: bool) -> Result<
    TensorV,
    OnnxError,
> {
    if ins.len() != 1 {
        Err(OnnxError::ShapeMismatch)
    } else {
        let x = ins[0];
        match (attr_ints_or(attrs, ATTR_STRIDES, seq![1i64, 1i64]), attr_ints_or(
            attrs,
            ATTR_PADS,
            seq![0i64, 0i64, 0i64, 0i64],
        ), attr_ints_or(attrs, ATTR_DILATIONS, seq![1i64, 1i64]), find_attr(
            attrs,
            ATTR_KERNEL_SHAPE,
        )) {
            (Some(st), Some(pd), Some(dl), Some(AttrValueV::Ints(ks))) => {
                if x.shape.len() != 4 || st.len() != 2 || pd.len() != 4 || dl.len() != 2
                    || ks.len() != 2 || !(forall|i: int|
                    0 <= i < 2 ==> 1 <= #[trigger] st[i] <= 255) || !(forall|i: int|
                    0 <= i < 4 ==> 0 <= #[trigger] pd[i] <= 255) || !(forall|i: int|
                    0 <= i < 2 ==> 1 <= #[trigger] dl[i] <= 255) || !(forall|i: int|
                    0 <= i < 2 ==> 1 <= #[trigger] ks[i] <= 0xFFFF) {
                    Err(OnnxError::ShapeMismatch)
                } else {
                    let nd = x.shape[0] as int;
                    let cd = x.shape[1] as int;
                    let hd = x.shape[2] as int;
                    let wd = x.shape[3] as int;
                    let khd = ks[0] as int;
                    let kwd = ks[1] as int;
                    let sh = st[0] as int;
                    let sw = st[1] as int;
                    let pt = pd[0] as int;
                    let pl = pd[1] as int;
                    let pb = pd[2] as int;
                    let pr = pd[3] as int;
                    let dh = dl[0] as int;
                    let dw = dl[1] as int;
                    let numh = hd + pt + pb - dh * (khd - 1) - 1;
                    let numw = wd + pl + pr - dw * (kwd - 1) - 1;
                    if numh < 0 || numw < 0 {
                        Err(OnnxError::ShapeMismatch)
                    } else {
                        let ohd = numh / sh + 1;
                        let owd = numw / sw + 1;
                        if ohd > MAX_DIM || owd > MAX_DIM {
                            Err(OnnxError::ShapeMismatch)
                        } else {
                            Ok(
                                TensorV {
                                    dtype: Dtype::I32,
                                    shape: seq![
                                        nd as usize,
                                        cd as usize,
                                        ohd as usize,
                                        owd as usize,
                                    ],
                                    data: Seq::new(
                                        (nd * cd * ohd * owd) as nat,
                                        |o: int| pool_elem(
                                            x,
                                            avg,
                                            sh,
                                            sw,
                                            pt,
                                            pl,
                                            dh,
                                            dw,
                                            khd,
                                            kwd,
                                            cd,
                                            ohd,
                                            owd,
                                            o,
                                        ),
                                    ),
                                },
                            )
                        }
                    }
                }
            },
            _ => Err(OnnxError::ShapeMismatch),
        }
    }
}

fn pool_value(
    x: &Tensor,
    avg: bool,
    n: usize,
    c: usize,
    oh: usize,
    ow: usize,
    sh: usize,
    sw: usize,
    pt: usize,
    pl: usize,
    dh: usize,
    dw: usize,
    khd: usize,
    kwd: usize,
) -> (r: i128)
    requires
        tensor_wf(x@),
        x@.shape.len() == 4,
        n < x@.shape[0],
        c < x@.shape[1],
        1 <= sh <= 255,
        1 <= sw <= 255,
        pt <= 255,
        pl <= 255,
        1 <= dh <= 255,
        1 <= dw <= 255,
        1 <= khd <= 0xFFFF,
        1 <= kwd <= 0xFFFF,
        oh <= MAX_DIM,
        ow <= MAX_DIM,
    ensures
        avg ==> r as int == pool_sum(
            x@,
            n as int,
            c as int,
            oh as int,
            ow as int,
            sh as int,
            sw as int,
            pt as int,
            pl as int,
            dh as int,
            dw as int,
            kwd as int,
            (khd as int) * (kwd as int),
        ),
        !avg ==> r as int == pool_max(
            x@,
            n as int,
            c as int,
            oh as int,
            ow as int,
            sh as int,
            sw as int,
            pt as int,
            pl as int,
            dh as int,
            dw as int,
            kwd as int,
            (khd as int) * (kwd as int),
        ),
        -0x8000_0000_0000_0000 <= r as int <= 0x8000_0000_0000_0000,
{
    proof {
        assert((khd as int) * (kwd as int) <= 0x1_0000_0000) by (nonlinear_arith)
            requires
                khd <= 0xFFFF && kwd <= 0xFFFF,
        ;
    }
    let total: u64 = (khd as u64) * (kwd as u64);
    let mut acc: i128 = if avg {
        0
    } else {
        i32::MIN as i128
    };
    let mut t: u64 = 0;
    while t < total
        invariant
            t <= total,
            total <= 0x1_0000_0000,
            total as int == (khd as int) * (kwd as int),
            tensor_wf(x@),
            x@.shape.len() == 4,
            n < x@.shape[0],
            c < x@.shape[1],
            1 <= sh <= 255 && 1 <= sw <= 255 && pt <= 255 && pl <= 255,
            1 <= dh <= 255 && 1 <= dw <= 255,
            1 <= khd <= 0xFFFF && 1 <= kwd <= 0xFFFF,
            oh <= MAX_DIM && ow <= MAX_DIM,
            avg ==> acc as int == pool_sum(
                x@,
                n as int,
                c as int,
                oh as int,
                ow as int,
                sh as int,
                sw as int,
                pt as int,
                pl as int,
                dh as int,
                dw as int,
                kwd as int,
                t as int,
            ),
            !avg ==> acc as int == pool_max(
                x@,
                n as int,
                c as int,
                oh as int,
                ow as int,
                sh as int,
                sw as int,
                pt as int,
                pl as int,
                dh as int,
                dw as int,
                kwd as int,
                t as int,
            ),
            avg ==> -((t as int) * 0x8000_0000) <= acc as int <= (t as int) * 0x8000_0000,
            !avg ==> -0x8000_0000 <= acc as int <= 0x7FFF_FFFF,
        decreases total - t,
    {
        let kh = (t / (kwd as u64)) as usize;
        let kw = (t % (kwd as u64)) as usize;
        proof {
            assert((t as int) / (kwd as int) < khd as int) by (nonlinear_arith)
                requires
                    (t as int) < (khd as int) * (kwd as int) && kwd > 0 && t >= 0,
            ;
            assert((oh as int) * (sh as int) <= 0xFFFF * 255 && (ow as int) * (sw as int) <= 0xFFFF
                * 255) by (nonlinear_arith)
                requires
                    oh <= 0xFFFF && 1 <= sh <= 255 && ow <= 0xFFFF && 1 <= sw <= 255,
            ;
            assert((kh as int) * (dh as int) <= 0xFFFF * 255 && (kw as int) * (dw as int) <= 0xFFFF
                * 255) by (nonlinear_arith)
                requires
                    kh < 0x1_0000 && 1 <= dh <= 255 && kw < 0x1_0000 && 1 <= dw <= 255,
            ;
        }
        let ihp = oh * sh + kh * dh;
        let iwp = ow * sw + kw * dw;
        let inside = ihp >= pt && ihp - pt < x.shape[2] && iwp >= pl && iwp - pl < x.shape[3];
        let term: i128 = if inside {
            at4(x, n, c, ihp - pt, iwp - pl) as i128
        } else if avg {
            0
        } else {
            i32::MIN as i128
        };
        proof {
            assert(pool_term(
                x@,
                n as int,
                c as int,
                oh as int,
                ow as int,
                sh as int,
                sw as int,
                pt as int,
                pl as int,
                dh as int,
                dw as int,
                kwd as int,
                avg,
                t as int,
            ) == term as int);
        }
        if avg {
            acc = acc + term;
        } else {
            if term > acc {
                acc = term;
            }
        }
        t = t + 1;
    }
    proof {
        if avg {
            assert((total as int) * 0x8000_0000 <= 0x1_0000_0000 * 0x8000_0000) by (nonlinear_arith)
                requires
                    total as int <= 0x1_0000_0000,
            ;
        }
    }
    acc
}

/// Max or average pooling over a rank-4 tensor.
pub fn pool(x: &Tensor, attrs: &Vec<Attr>, avg: bool) -> (r: Result<Tensor, OnnxError>)
    requires
        tensor_wf(x@),
    ensures
        r matches Ok(t) ==> spec_pool(seq![x@], attrs@.map_values(|a: Attr| a@), avg) == Ok::<
            TensorV,
            OnnxError,
        >(t@) && tensor_wf(t@),
        r matches Err(e) ==> spec_pool(seq![x@], attrs@.map_values(|a: Attr| a@), avg) == Err::<
            TensorV,
            OnnxError,
        >(e),
{
    let ghost av = attrs@.map_values(|a: Attr| a@);
    let one_one: Vec<i64> = vec![1i64, 1i64];
    let zeros: Vec<i64> = vec![0i64, 0i64, 0i64, 0i64];
    let one_one2: Vec<i64> = vec![1i64, 1i64];
    proof {
        assert(one_one@ =~= seq![1i64, 1i64]);
        assert(zeros@ =~= seq![0i64, 0i64, 0i64, 0i64]);
        assert(one_one2@ =~= seq![1i64, 1i64]);
    }
    let st = match get_ints_or(attrs, ATTR_STRIDES, one_one) {
        None => {
            return Err(OnnxError::ShapeMismatch);
        },
        Some(v) => v,
    };
    let pd = match get_ints_or(attrs, ATTR_PADS, zeros) {
        None => {
            return Err(OnnxError::ShapeMismatch);
        },
        Some(v) => v,
    };
    let dl = match get_ints_or(attrs, ATTR_DILATIONS, one_one2) {
        None => {
            return Err(OnnxError::ShapeMismatch);
        },
        Some(v) => v,
    };
    let ks = match get_ints_or(attrs, ATTR_KERNEL_SHAPE, Vec::new()) {
        None => {
            return Err(OnnxError::ShapeMismatch);
        },
        Some(v) => v,
    };
    if find_none(attrs, ATTR_KERNEL_SHAPE) {
        return Err(OnnxError::ShapeMismatch);
    }
    assert(find_attr(av, ATTR_KERNEL_SHAPE) == Some(AttrValueV::Ints(ks@)));
    if x.shape.len() != 4 || st.len() != 2 || pd.len() != 4 || dl.len() != 2 || ks.len() != 2 {
        return Err(OnnxError::ShapeMismatch);
    }
    if st[0] < 1 || st[0] > 255 || st[1] < 1 || st[1] > 255 {
        assert(!(forall|i: int| 0 <= i < 2 ==> 1 <= #[trigger] st@[i] <= 255));
        return Err(OnnxError::ShapeMismatch);
    }
    if pd[0] < 0 || pd[0] > 255 || pd[1] < 0 || pd[1] > 255 || pd[2] < 0 || pd[2] > 255 || pd[3]
        < 0 || pd[3] > 255 {
        assert(!(forall|i: int| 0 <= i < 4 ==> 0 <= #[trigger] pd@[i] <= 255));
        return Err(OnnxError::ShapeMismatch);
    }
    if dl[0] < 1 || dl[0] > 255 || dl[1] < 1 || dl[1] > 255 {
        assert(!(forall|i: int| 0 <= i < 2 ==> 1 <= #[trigger] dl@[i] <= 255));
        return Err(OnnxError::ShapeMismatch);
    }
    if ks[0] < 1 || ks[0] > 0xFFFF || ks[1] < 1 || ks[1] > 0xFFFF {
        assert(!(forall|i: int| 0 <= i < 2 ==> 1 <= #[trigger] ks@[i] <= 0xFFFF));
        return Err(OnnxError::ShapeMismatch);
    }
    assert(forall|i: int| 0 <= i < 2 ==> 1 <= #[trigger] st@[i] <= 255) by {
        assert(st@[0] == st@[0] && st@[1] == st@[1]);
    }
    assert(forall|i: int| 0 <= i < 4 ==> 0 <= #[trigger] pd@[i] <= 255) by {
        assert(pd@[0] == pd@[0] && pd@[1] == pd@[1] && pd@[2] == pd@[2] && pd@[3] == pd@[3]);
    }
    assert(forall|i: int| 0 <= i < 2 ==> 1 <= #[trigger] dl@[i] <= 255) by {
        assert(dl@[0] == dl@[0] && dl@[1] == dl@[1]);
    }
    assert(forall|i: int| 0 <= i < 2 ==> 1 <= #[trigger] ks@[i] <= 0xFFFF) by {
        assert(ks@[0] == ks@[0] && ks@[1] == ks@[1]);
    }
    let nd = x.shape[0];
    let cd = x.shape[1];
    let hd = x.shape[2];
    let wd = x.shape[3];
    let khd = ks[0] as usize;
    let kwd = ks[1] as usize;
    let sh = st[0] as usize;
    let sw = st[1] as usize;
    let pt = pd[0] as usize;
    let pl = pd[1] as usize;
    let pb = pd[2] as usize;
    let pr = pd[3] as usize;
    let dh = dl[0] as usize;
    let dw = dl[1] as usize;
    proof {
        assert(dims_ok(x@.shape));
        assert((dh as int) * ((khd as int) - 1) <= 255 * 0xFFFF && (dh as int) * ((khd as int) - 1)
            >= -255) by (nonlinear_arith)
            requires
                1 <= dh <= 255 && 0 <= khd <= 0xFFFF,
        ;
        assert((dw as int) * ((kwd as int) - 1) <= 255 * 0xFFFF && (dw as int) * ((kwd as int) - 1)
            >= -255) by (nonlinear_arith)
            requires
                1 <= dw <= 255 && 0 <= kwd <= 0xFFFF,
        ;
    }
    let numh: i64 = hd as i64 + pt as i64 + pb as i64 - dh as i64 * (khd as i64 - 1) - 1;
    let numw: i64 = wd as i64 + pl as i64 + pr as i64 - dw as i64 * (kwd as i64 - 1) - 1;
    if numh < 0 || numw < 0 {
        return Err(OnnxError::ShapeMismatch);
    }
    let ohd = (numh / sh as i64 + 1) as usize;
    let owd = (numw / sw as i64 + 1) as usize;
    if ohd > MAX_DIM || owd > MAX_DIM {
        return Err(OnnxError::ShapeMismatch);
    }
    let ghost ins = seq![x@];
    let ghost goal = spec_pool(ins, av, avg).unwrap();
    proof {
        assert(spec_pool(ins, av, avg) is Ok);
        assert(goal.shape =~= seq![nd, cd, ohd, owd]);
    }
    proof {
        assert((ohd as int) * (owd as int) <= 0x1_0000_0000) by (nonlinear_arith)
            requires
                ohd <= 0xFFFF && owd <= 0xFFFF,
        ;
    }
    let hw: u64 = (ohd as u64) * (owd as u64);
    proof {
        assert((cd as int) * (hw as int) <= 0x1_0000_0000_0000) by (nonlinear_arith)
            requires
                cd <= 0xFFFF && hw <= 0x1_0000_0000,
        ;
    }
    let chw: u64 = (cd as u64) * hw;
    proof {
        assert((nd as int) * (chw as int) <= 0xFFFF * 0x1_0000_0000_0000) by (nonlinear_arith)
            requires
                nd <= 0xFFFF && chw <= 0x1_0000_0000_0000,
        ;
    }
    let total: u64 = (nd as u64) * chw;
    proof {
        assert(chw as int == (cd as int) * ((ohd as int) * (owd as int)));
        assert(total as int == (nd as int) * (cd as int) * (ohd as int) * (owd as int))
            by (nonlinear_arith)
            requires
                total as int == (nd as int) * ((cd as int) * ((ohd as int) * (owd as int))),
        ;
        assert(goal.data.len() == total as int);
        assert forall|j: int| 0 <= j < total as int implies #[trigger] goal.data[j] == pool_elem(
            x@,
            avg,
            sh as int,
            sw as int,
            pt as int,
            pl as int,
            dh as int,
            dw as int,
            khd as int,
            kwd as int,
            cd as int,
            ohd as int,
            owd as int,
            j,
        ) by {
        }
    }
    let mut data: Vec<i32> = Vec::new();
    let mut o: u64 = 0;
    while o < total
        invariant
            o <= total,
            tensor_wf(x@),
            x@.shape.len() == 4,
            nd == x@.shape[0] && cd == x@.shape[1],
            1 <= sh <= 255 && 1 <= sw <= 255 && pt <= 255 && pl <= 255 && 1 <= dh <= 255 && 1 <= dw
                <= 255,
            1 <= khd <= 0xFFFF && 1 <= kwd <= 0xFFFF,
            ohd <= MAX_DIM && owd <= MAX_DIM,
            hw as int == (ohd as int) * (owd as int),
            chw as int == (cd as int) * (hw as int),
            total as int == (nd as int) * (chw as int),
            goal.data.len() == total as int,
            forall|j: int| 0 <= j < total as int ==> #[trigger] goal.data[j] == pool_elem(
                x@,
                avg,
                sh as int,
                sw as int,
                pt as int,
                pl as int,
                dh as int,
                dw as int,
                khd as int,
                kwd as int,
                cd as int,
                ohd as int,
                owd as int,
                j,
            ),
            data@ == goal.data.take(o as int),
        decreases total - o,
    {
        proof {
            assert(chw > 0 && hw > 0 && nd > 0 && cd > 0 && ohd > 0 && owd > 0) by (nonlinear_arith)
                requires
                    (o as int) < (nd as int) * ((cd as int) * ((ohd as int) * (owd as int))),
                    o >= 0,
                    total as int == (nd as int) * (chw as int),
                    chw as int == (cd as int) * (hw as int),
                    hw as int == (ohd as int) * (owd as int),
                    (o as int) < total as int,
            ;
            assert((o as int) / (chw as int) < nd as int) by (nonlinear_arith)
                requires
                    (o as int) < (nd as int) * (chw as int) && chw > 0 && o >= 0,
            ;
        }
        let n = (o / chw) as usize;
        let c = ((o / hw) % (cd as u64)) as usize;
        let oh = ((o / (owd as u64)) % (ohd as u64)) as usize;
        let ow = (o % (owd as u64)) as usize;
        let s = pool_value(x, avg, n, c, oh, ow, sh, sw, pt, pl, dh, dw, khd, kwd);
        let v = if avg {
            proof {
                assert(1 <= (khd as int) * (kwd as int) <= 0x1_0000_0000) by (nonlinear_arith)
                    requires
                        1 <= khd <= 0xFFFF && 1 <= kwd <= 0xFFFF,
                ;
            }
            let kk: i128 = (khd as i128) * (kwd as i128);
            let q = div_trunc_i128(s, kk);
            clamp_i128(q)
        } else {
            clamp_i128(s)
        };
        proof {
            assert(chw as int == (cd as int) * (ohd as int) * (owd as int)) by (nonlinear_arith)
                requires
                    chw as int == (cd as int) * ((ohd as int) * (owd as int)),
            ;
            assert(goal.data[o as int] == v);
        }
        data.push(v);
        proof {
            assert(data@ =~= goal.data.take(o as int + 1));
        }
        o = o + 1;
    }
    let mut shape: Vec<usize> = Vec::new();
    shape.push(nd);
    shape.push(cd);
    shape.push(ohd);
    shape.push(owd);
    let t = Tensor { dtype: Dtype::I32, shape, data };
    proof {
        assert(goal.data.take(total as int) =~= goal.data);
        assert(t@ =~= goal);
        lemma_product4(t@.shape);
        assert(tensor_wf(t@)) by {
            assert(t@.data.len() == (nd as nat) * ((cd as nat) * ((ohd as nat) * (owd as nat))))
                by (nonlinear_arith)
                requires
                    t@.data.len() == (nd as int) * ((cd as int) * ((ohd as int) * (owd as int))),
            ;
        }
    }
    Ok(t)
}

/// Global average pooling: the average over all spatial positions of each
/// channel, truncating toward zero; the spatial dimensions collapse to 1.
pub open spec fn spec_globalavg(ins: Seq<TensorV>) -> Result<TensorV, OnnxError> {
    if ins.len() != 1 {
        Err(OnnxError::ShapeMismatch)
    } else {
        let x = ins[0];
        let nd = x.shape[0] as int;
        let cd = x.shape[1] as int;
        let hd = x.shape[2] as int;
        let wd = x.shape[3] as int;
        if x.shape.len() != 4 || hd * wd < 1 {
            Err(OnnxError::ShapeMismatch)
        } else {
            Ok(
                TensorV {
                    dtype: Dtype::I32,
                    shape: seq![nd as usize, cd as usize, 1usize, 1usize],
                    data: Seq::new(
                        (nd * cd) as nat,
                        |o: int| clamp(
                            div_trunc(
                                pool_sum(x, o / cd, o % cd, 0, 0, 1, 1, 0, 0, 1, 1, wd, hd * wd),
                                hd * wd,
                            ),
                        ),
                    ),
                },
            )
        }
    }
}

/// Global average pooling over a rank-4 tensor.
pub fn globalavg(x: &Tensor) -> (r: Result<Tensor, OnnxError>)
    requires
        tensor_wf(x@),
    ensures
        r matches Ok(t) ==> spec_globalavg(seq![x@]) == Ok::<TensorV, OnnxError>(t@)
            && tensor_wf(t@),
        r matches Err(e) ==> spec_globalavg(seq![x@]) == Err::<TensorV, OnnxError>(e),
{
    if x.shape.len() != 4 {
        return Err(OnnxError::ShapeMismatch);
    }
    let nd = x.shape[0];
    let cd = x.shape[1];
    let hd = x.shape[2];
    let wd = x.shape[3];
    proof {
        assert(dims_ok(x@.shape));
        assert((hd as int) * (wd as int) <= 0x1_0000_0000) by (nonlinear_arith)
            requires
                hd <= 0xFFFF && wd <= 0xFFFF,
        ;
    }
    let hw: u64 = (hd as u64) * (wd as u64);
    if hw < 1 {
        return Err(OnnxError::ShapeMismatch);
    }
    proof {
        assert((nd as int) * (cd as int) <= 0x1_0000_0000) by (nonlinear_arith)
            requires
                nd <= 0xFFFF && cd <= 0xFFFF,
        ;
    }
    let total: u64 = (nd as u64) * (cd as u64);
    let ghost goal = spec_globalavg(seq![x@]).unwrap();
    proof {
        assert(spec_globalavg(seq![x@]) is Ok);
        assert(goal.data.len() == total as int);
        assert(goal.shape =~= seq![nd, cd, 1usize, 1usize]);
    }
    let mut data: Vec<i32> = Vec::new();
    let mut o: u64 = 0;
    while o < total
        invariant
            o <= total,
            tensor_wf(x@),
            x@.shape.len() == 4,
            nd == x@.shape[0] && cd == x@.shape[1] && hd == x@.shape[2] && wd == x@.shape[3],
            1 <= hd <= 0xFFFF || hd == 0,
            hw as int == (hd as int) * (wd as int),
            hw >= 1,
            total as int == (nd as int) * (cd as int),
            spec_globalavg(seq![x@]) == Ok::<TensorV, OnnxError>(goal),
            goal == spec_globalavg(seq![x@]).unwrap(),
            goal.data.len() == total as int,
            data@ == goal.data.take(o as int),
        decreases total - o,
    {
        proof {
            assert(cd > 0) by (nonlinear_arith)
                requires
                    (o as int) < (nd as int) * (cd as int) && o >= 0,
            ;
            assert((o as int) / (cd as int) < nd as int) by (nonlinear_arith)
                requires
                    (o as int) < (nd as int) * (cd as int) && cd > 0 && o >= 0,
            ;
            assert(hd >= 1 && wd >= 1) by (nonlinear_arith)
                requires
                    (hd as int) * (wd as int) >= 1,
            ;
        }
        let n = (o / (cd as u64)) as usize;
        let c = (o % (cd as u64)) as usize;
        let s = pool_value(x, true, n, c, 0, 0, 1, 1, 0, 0, 1, 1, hd, wd);
        let q = div_trunc_i128(s, hw as i128);
        let v = clamp_i128(q);
        proof {
            assert(goal.data[o as int] == v);
        }
        data.push(v);
        proof {
            assert(data@ =~= goal.data.take(o as int + 1));
        }
        o = o + 1;
    }
    let mut shape: Vec<usize> = Vec::new();
    shape.push(nd);
    shape.push(cd);
    shape.push(1);
    shape.push(1);
    let t = Tensor { dtype: Dtype::I32, shape, data };
    proof {
        assert(goal.data.take(total as int) =~= goal.data);
        assert(t@ =~= goal);
        lemma_product4(t@.shape);
        assert(tensor_wf(t@)) by {
            assert(t@.data.len() == (nd as nat) * ((cd as nat) * ((1 as nat) * (1 as nat))))
                by (nonlinear_arith)
                requires
                    t@.data.len() == (nd as int) * (cd as int),
            ;
        }
    }
    Ok(t)
}

/// A broadcast coordinate: a size-1 axis always reads its only entry.
pub open spec fn bcoord(c: int, d: int) -> int {
    if d == 1 {
        0
    } else {
        c
    }
}

/// One element of the broadcast sum, by its flat index over the output
/// shape.
pub open spec fn add_elem(a: TensorV, b: TensorV, os: Seq<usize>, o: int) -> i32 {
    let od1 = dim4(os, 1);
    let od2 = dim4(os, 2);
    let od3 = dim4(os, 3);
    let i0 = o / (od1 * od2 * od3);
    let i1 = (o / (od2 * od3)) % od1;
    let i2 = (o / od3) % od2;
    let i3 = o % od3;
    let ia = lin4d(
        dim4(a.shape, 1),
        dim4(a.shape, 2),
        dim4(a.shape, 3),
        bcoord(i0, dim4(a.shape, 0)),
        bcoord(i1, dim4(a.shape, 1)),
        bcoord(i2, dim4(a.shape, 2)),
        bcoord(i3, dim4(a.shape, 3)),
    );
    let ib = lin4d(
        dim4(b.shape, 1),
        dim4(b.shape, 2),
        dim4(b.shape, 3),
        bcoord(i0, dim4(b.shape, 0)),
        bcoord(i1, dim4(b.shape, 1)),
        bcoord(i2, dim4(b.shape, 2)),
        bcoord(i3, dim4(b.shape, 3)),
    );
    clamp(a.data[ia] + b.data[ib])
}

/// Elementwise addition with broadcasting by trailing-dimension alignment:
/// aligned axes must agree or be 1, and every dimension must be positive.
pub open spec fn spec_add(ins: Seq<TensorV>) -> Result<TensorV, OnnxError> {
    if ins.len() != 2 {
        Err(OnnxError::ShapeMismatch)
    } else {
        let a = ins[0];
        let b = ins[1];
        if !(forall|k: int|
            0 <= k < 4 ==> (dim4(a.shape, k) == dim4(b.shape, k) || dim4(a.shape, k) == 1 || dim4(
                b.shape,
                k,
            ) == 1) && dim4(a.shape, k) >= 1 && dim4(b.shape, k) >= 1) {
            Err(OnnxError::ShapeMismatch)
        } else {
            let rank = if a.shape.len() >= b.shape.len() {
                a.shape.len() as int
            } else {
                b.shape.len() as int
            };
            let os = Seq::new(
                rank as nat,
                |i: int| (if dim4(a.shape, 4 - rank + i) >= dim4(b.shape, 4 - rank + i) {
                    dim4(a.shape, 4 - rank + i)
                } else {
                    dim4(b.shape, 4 - rank + i)
                }) as usize,
            );
            Ok(
                TensorV {
                    dtype: Dtype::I32,
                    shape: os,
                    data: Seq::new(shape_product(os), |o: int| add_elem(a, b, os, o)),
                },
            )
        }
    }
}

/// Elementwise addition with trailing broadcasting.
pub fn add_t(a: &Tensor, b: &Tensor) -> (r: Result<Tensor, OnnxError>)
    requires
        tensor_wf(a@),
        tensor_wf(b@),
    ensures
        r matches Ok(t) ==> spec_add(seq![a@, b@]) == Ok::<TensorV, OnnxError>(t@)
            && tensor_wf(t@),
        r matches Err(e) ==> spec_add(seq![a@, b@]) == Err::<TensorV, OnnxError>(e),
{
    let mut k: usize = 0;
    while k < 4
        invariant
            k <= 4,
            tensor_wf(a@),
            tensor_wf(b@),
            forall|q: int| 0 <= q < k ==> (dim4(a@.shape, q) == dim4(b@.shape, q) || dim4(
                a@.shape,
                q,
            ) == 1 || dim4(b@.shape, q) == 1) && #[trigger] dim4(a@.shape, q) >= 1 && dim4(
                b@.shape,
                q,
            ) >= 1,
        decreases 4 - k,
    {
        let da = pad_dim(&a.shape, k);
        let db = pad_dim(&b.shape, k);
        if !((da == db || da == 1 || db == 1) && da >= 1 && db >= 1) {
            assert(!((dim4(a@.shape, k as int) == dim4(b@.shape, k as int) || dim4(
                a@.shape,
                k as int,
            ) == 1 || dim4(b@.shape, k as int) == 1) && dim4(a@.shape, k as int) >= 1 && dim4(
                b@.shape,
                k as int,
            ) >= 1));
            return Err(OnnxError::ShapeMismatch);
        }
        k += 1;
    }
    let rank = if a.shape.len() >= b.shape.len() {
        a.shape.len()
    } else {
        b.shape.len()
    };
    let mut os: Vec<usize> = Vec::new();
    let mut i: usize = 0;
    while i < rank
        invariant
            i <= rank,
            rank <= 4,
            tensor_wf(a@),
            tensor_wf(b@),
            rank == if a@.shape.len() >= b@.shape.len() {
                a@.shape.len() as int
            } else {
                b@.shape.len() as int
            },
            os@.len() == i,
            forall|q: int| 0 <= q < i ==> #[trigger] os@[q] as int == (if dim4(
                a@.shape,
                4 - rank + q,
            ) >= dim4(b@.shape, 4 - rank + q) {
                dim4(a@.shape, 4 - rank + q)
            } else {
                dim4(b@.shape, 4 - rank + q)
            }),
        decreases rank - i,
    {
        let da = pad_dim(&a.shape, 4 - rank + i);
        let db = pad_dim(&b.shape, 4 - rank + i);
        os.push(if da >= db {
            da
        } else {
            db
        });
        i += 1;
    }
    let ghost ins = seq![a@, b@];
    let ghost goal = spec_add(ins).unwrap();
    proof {
        assert(spec_add(ins) is Ok);
        assert(goal.shape =~= os@);
        assert(dims_ok(os@));
    }
    let total = product_of(&os);
    let od1 = pad_dim(&os, 1);
    let od2 = pad_dim(&os, 2);
    let od3 = pad_dim(&os, 3);
    let od0 = pad_dim(&os, 0);
    proof {
        lemma_dim4_product(os@);
        assert(goal.data.len() == total as int);
        assert forall|j: int| 0 <= j < total as int implies #[trigger] goal.data[j] == add_elem(
            a@,
            b@,
            os@,
            j,
        ) by {
            assert(goal.data[j] == add_elem(ins[0], ins[1], goal.shape, j));
        }
        // each operand's padded axis is its only entry or the full output axis
        assert forall|q: int| 0 <= q < 4 implies (dim4(a@.shape, q) == 1 || dim4(a@.shape, q)
            == #[trigger] dim4(os@, q)) && (dim4(b@.shape, q) == 1 || dim4(b@.shape, q) == dim4(
            os@,
            q,
        )) && dim4(os@, q) >= 1 by {
            if q >= 4 - rank as int {
                assert(os@[q - (4 - rank as int)] as int == (if dim4(a@.shape, q) >= dim4(
                    b@.shape,
                    q,
                ) {
                    dim4(a@.shape, q)
                } else {
                    dim4(b@.shape, q)
                }));
            } else {
                assert(dim4(a@.shape, q) == 1 && dim4(b@.shape, q) == 1);
            }
        }
    }
    let ghost hw23: int = (od2 as int) * (od3 as int);
    proof {
        assert((od2 as int) * (od3 as int) <= 0x1_0000_0000) by (nonlinear_arith)
            requires
                od2 <= 0xFFFF && od3 <= 0xFFFF,
        ;
    }
    let d23: u64 = (od2 as u64) * (od3 as u64);
    proof {
        assert((od1 as int) * (d23 as int) <= 0x1_0000_0000_0000) by (nonlinear_arith)
            requires
                od1 <= 0xFFFF && d23 <= 0x1_0000_0000,
        ;
    }
    let d123: u64 = (od1 as u64) * d23;
    let mut data: Vec<i32> = Vec::new();
    let mut o: u64 = 0;
    while o < total
        invariant
            o <= total,
            tensor_wf(a@),
            tensor_wf(b@),
            od0 as int == dim4(os@, 0) && od1 as int == dim4(os@, 1) && od2 as int == dim4(os@, 2)
                && od3 as int == dim4(os@, 3),
            d23 as int == (od2 as int) * (od3 as int),
            d123 as int == (od1 as int) * (d23 as int),
            total as nat == shape_product(os@),
            shape_product(os@) == dim4(os@, 0) * dim4(os@, 1) * dim4(os@, 2) * dim4(os@, 3),
            forall|q: int| 0 <= q < 4 ==> (dim4(a@.shape, q) == 1 || dim4(a@.shape, q)
                == #[trigger] dim4(os@, q)) && (dim4(b@.shape, q) == 1 || dim4(b@.shape, q)
                == dim4(os@, q)) && dim4(os@, q) >= 1,
            goal.data.len() == total as int,
            forall|j: int| 0 <= j < total as int ==> #[trigger] goal.data[j] == add_elem(
                a@,
                b@,
                os@,
                j,
            ),
            data@ == goal.data.take(o as int),
        decreases total - o,
    {
        proof {
            assert(d123 > 0 && d23 > 0 && od3 > 0) by (nonlinear_arith)
                requires
                    d123 as int == (od1 as int) * ((od2 as int) * (od3 as int)),
                    dim4(os@, 1) >= 1 && dim4(os@, 2) >= 1 && dim4(os@, 3) >= 1,
                    od1 as int == dim4(os@, 1) && od2 as int == dim4(os@, 2) && od3 as int == dim4(
                        os@,
                        3,
                    ),
                    d23 as int == (od2 as int) * (od3 as int),
            ;
            assert(total as int == (od0 as int) * (d123 as int)) by (nonlinear_arith)
                requires
                    total as int == (od0 as int) * (od1 as int) * (od2 as int) * (od3 as int),
                    d123 as int == (od1 as int) * ((od2 as int) * (od3 as int)),
            ;
            assert((o as int) / (d123 as int) < od0 as int) by (nonlinear_arith)
                requires
                    d123 > 0,
                    o >= 0,
                    total as int == (od0 as int) * (d123 as int),
                    (o as int) < total as int,
            ;
        }
        let i0 = (o / d123) as usize;
        let i1 = ((o / d23) % (od1 as u64)) as usize;
        let i2 = ((o / (od3 as u64)) % (od2 as u64)) as usize;
        let i3 = (o % (od3 as u64)) as usize;
        let a0 = pad_dim(&a.shape, 0);
        let a1 = pad_dim(&a.shape, 1);
        let a2 = pad_dim(&a.shape, 2);
        let a3 = pad_dim(&a.shape, 3);
        let b0 = pad_dim(&b.shape, 0);
        let b1 = pad_dim(&b.shape, 1);
        let b2 = pad_dim(&b.shape, 2);
        let b3 = pad_dim(&b.shape, 3);
        let av = at4p(
            a,
            if a0 == 1 {
                0
            } else {
                i0
            },
            if a1 == 1 {
                0
            } else {
                i1
            },
            if a2 == 1 {
                0
            } else {
                i2
            },
            if a3 == 1 {
                0
            } else {
                i3
            },
        );
        let bv = at4p(
            b,
            if b0 == 1 {
                0
            } else {
                i0
            },
            if b1 == 1 {
                0
            } else {
                i1
            },
            if b2 == 1 {
                0
            } else {
                i2
            },
            if b3 == 1 {
                0
            } else {
                i3
            },
        );
        let v = clamp_i128((av as i128) + (bv as i128));
        proof {
            assert(d123 as int == dim4(os@, 1) * dim4(os@, 2) * dim4(os@, 3)) by (nonlinear_arith)
                requires
                    d123 as int == (od1 as int) * ((od2 as int) * (od3 as int)),
                    od1 as int == dim4(os@, 1) && od2 as int == dim4(os@, 2) && od3 as int == dim4(
                        os@,
                        3,
                    ),
            ;
            assert(goal.data[o as int] == v);
        }
        data.push(v);
        proof {
            assert(data@ =~= goal.data.take(o as int + 1));
        }
        o = o + 1;
    }
    let t = Tensor { dtype: Dtype::I32, shape: os, data };
    proof {
        assert(goal.data.take(total as int) =~= goal.data);
        assert(t@ =~= goal);
    }
    Ok(t)
}

/// How many entries the inputs from index `k` on contribute along the
/// (rank-4 padded) concatenation axis.
pub open spec fn concat_dsum(ins: Seq<TensorV>, a4: int, k: int) -> int
    decreases ins.len() - k,
{
    if k < 0 || k >= ins.len() {
        0
    } else {
        dim4(ins[k].shape, a4) + concat_dsum(ins, a4, k + 1)
    }
}

/// The input holding axis position `v`, counting from input `k`, and the
/// position inside it.
pub open spec fn concat_pick(ins: Seq<TensorV>, a4: int, v: int, k: int) -> (int, int)
    decreases ins.len() - k,
{
    if k >= ins.len() {
        (k, v)
    } else {
        let d = dim4(ins[k].shape, a4);
        if v < d {
            (k, v)
        } else {
            concat_pick(ins, a4, v - d, k + 1)
        }
    }
}

/// One element of the concatenation, by its flat index over the output
/// shape.
pub open spec fn concat_elem(ins: Seq<TensorV>, os: Seq<usize>, a4: int, o: int) -> i32 {
    let od1 = dim4(os, 1);
    let od2 = dim4(os, 2);
    let od3 = dim4(os, 3);
    let i0 = o / (od1 * od2 * od3);
    let i1 = (o / (od2 * od3)) % od1;
    let i2 = (o / od3) % od2;
    let i3 = o % od3;
    let vax = if a4 == 0 {
        i0
    } else if a4 == 1 {
        i1
    } else if a4 == 2 {
        i2
    } else {
        i3
    };
    let pick = concat_pick(ins, a4, vax, 0);
    let t = ins[pick.0];
    let j0 = if a4 == 0 {
        pick.1
    } else {
        i0
    };
    let j1 = if a4 == 1 {
        pick.1
    } else {
        i1
    };
    let j2 = if a4 == 2 {
        pick.1
    } else {
        i2
    };
    let j3 = if a4 == 3 {
        pick.1
    } else {
        i3
    };
    t.data[lin4d(dim4(t.shape, 1), dim4(t.shape, 2), dim4(t.shape, 3), j0, j1, j2, j3)]
}

/// Concatenation along one axis: every input has the same rank and the same
/// size along every other axis; the axis sizes add up.
pub open spec fn spec_concat(ins: Seq<TensorV>, attrs: Seq<AttrV>) -> Result<TensorV, OnnxError> {
    match find_attr(attrs, ATTR_AXIS) {
        Some(AttrValueV::Int(ax)) => {
            if ins.len() < 1 {
                Err(OnnxError::ShapeMismatch)
            } else {
                let rank = ins[0].shape.len() as int;
                let a4 = ax + 4 - rank;
                let dsum = concat_dsum(ins, a4, 0);
                if !(0 <= ax < rank) || !(forall|i: int|
                    0 <= i < ins.len() ==> (#[trigger] ins[i]).shape.len() as int == rank)
                    || !(forall|i: int, q: int|
                    0 <= i < ins.len() && 0 <= q < 4 && q != a4 ==> #[trigger] dim4(
                        ins[i].shape,
                        q,
                    ) == dim4(ins[0].shape, q)) || dsum > 0xFFFF {
                    Err(OnnxError::ShapeMismatch)
                } else {
                    let os = Seq::new(
                        rank as nat,
                        |i: int| if i == ax {
                            dsum as usize
                        } else {
                            ins[0].shape[i]
                        },
                    );
                    Ok(
                        TensorV {
                            dtype: Dtype::I32,
                            shape: os,
                            data: Seq::new(shape_product(os), |o: int| concat_elem(ins, os, a4, o)),
                        },
                    )
                }
            }
        },
        _ => Err(OnnxError::ShapeMismatch),
    }
}

/// Concatenation along one axis.
pub fn concat_axis(ins: &Vec<Tensor>, attrs: &Vec<Attr>) -> (r: Result<Tensor, OnnxError>)
    requires
        forall|i: int| 0 <= i < ins@.len() ==> tensor_wf(#[trigger] ins@[i]@),
    ensures
        r matches Ok(t) ==> spec_concat(
            ins@.map_values(|t: Tensor| t@),
            attrs@.map_values(|a: Attr| a@),
        ) == Ok::<TensorV, OnnxError>(t@) && tensor_wf(t@),
        r matches Err(e) ==> spec_concat(
            ins@.map_values(|t: Tensor| t@),
            attrs@.map_values(|a: Attr| a@),
        ) == Err::<TensorV, OnnxError>(e),
{
    let ghost iv = ins@.map_values(|t: Tensor| t@);
    let ghost av = attrs@.map_values(|a: Attr| a@);
    let ax64 = match get_int_or(attrs, ATTR_AXIS, 0) {
        None => {
            return Err(OnnxError::ShapeMismatch);
        },
        Some(v) => v,
    };
    if find_none(attrs, ATTR_AXIS) {
        return Err(OnnxError::ShapeMismatch);
    }
    assert(find_attr(av, ATTR_AXIS) == Some(AttrValueV::Int(ax64)));
    if ins.len() < 1 {
        return Err(OnnxError::ShapeMismatch);
    }
    let rank = ins[0].shape.len();
    if ax64 < 0 || ax64 >= rank as i64 {
        return Err(OnnxError::ShapeMismatch);
    }
    let ax = ax64 as usize;
    let a4 = ax + 4 - rank;
    let mut i: usize = 0;
    while i < ins.len()
        invariant
            i <= ins@.len(),
            ins@.len() >= 1,
            iv == ins@.map_values(|t: Tensor| t@),
            av == attrs@.map_values(|a: Attr| a@),
            find_attr(av, ATTR_AXIS) == Some(AttrValueV::Int(ax64)),
            rank == iv[0].shape.len(),
            0 <= ax64 < rank as i64,
            ax == ax64 as usize,
            a4 == ax + 4 - rank,
            rank <= 4,
            forall|q: int| 0 <= q < ins@.len() ==> tensor_wf(#[trigger] ins@[q]@),
            forall|q: int| 0 <= q < i ==> (#[trigger] iv[q]).shape.len() == rank,
            forall|q: int, p: int| 0 <= q < i && 0 <= p < 4 && p != a4 as int ==> #[trigger] dim4(
                iv[q].shape,
                p,
            ) == dim4(iv[0].shape, p),
        decreases ins.len() - i,
    {
        if ins[i].shape.len() != rank {
            assert((iv[i as int]).shape.len() as int != iv[0].shape.len() as int);
            assert(!(forall|q: int|
                0 <= q < iv.len() ==> (#[trigger] iv[q]).shape.len() as int
                    == iv[0].shape.len() as int));
            return Err(OnnxError::ShapeMismatch);
        }
        let mut p: usize = 0;
        while p < 4
            invariant
                p <= 4,
                i < ins@.len(),
                iv == ins@.map_values(|t: Tensor| t@),
                av == attrs@.map_values(|a: Attr| a@),
                find_attr(av, ATTR_AXIS) == Some(AttrValueV::Int(ax64)),
                rank == iv[0].shape.len(),
                0 <= ax64 < rank as i64,
                ax == ax64 as usize,
                a4 == ax + 4 - rank,
                rank <= 4,
                iv[i as int].shape.len() == rank,
                ins@.len() >= 1,
                forall|q: int| 0 <= q < ins@.len() ==> tensor_wf(#[trigger] ins@[q]@),
                forall|q: int| 0 <= q < p && q != a4 as int ==> #[trigger] dim4(
                    iv[i as int].shape,
                    q,
                ) == dim4(iv[0].shape, q),
            decreases 4 - p,
        {
            if p != a4 {
                let da = pad_dim(&ins[i].shape, p);
                let d0 = pad_dim(&ins[0].shape, p);
                if da != d0 {
                    assert(dim4(iv[i as int].shape, p as int) != dim4(iv[0].shape, p as int));
                    return Err(OnnxError::ShapeMismatch);
                }
            }
            p += 1;
        }
        i += 1;
    }
    // the total size along the axis
    let ilen = ins.len();
    let mut dsum: u128 = 0;
    let mut k: usize = ins.len();
    while k > 0
        invariant
            k <= ins@.len(),
            ins@.len() == ilen,
            iv == ins@.map_values(|t: Tensor| t@),
            forall|q: int| 0 <= q < ins@.len() ==> tensor_wf(#[trigger] ins@[q]@),
            a4 < 4,
            dsum as int == concat_dsum(iv, a4 as int, k as int),
            dsum as int <= (ins@.len() - k) * 0x1_0000,
        decreases k,
    {
        k = k - 1;
        proof {
            assert(dims_ok(iv[k as int].shape));
            assert((ins@.len() - k - 1) * 0x1_0000 + 0x1_0000 == (ins@.len() - k)
                * 0x1_0000) by (nonlinear_arith);
            assert((ins@.len() - k) * 0x1_0000 <= (ilen as int) * 0x1_0000) by (nonlinear_arith)
                requires
                    0 <= k && ins@.len() == ilen,
            ;
            assert((ilen as int) * 0x1_0000 < 0x1_0000_0000_0000_0000_0000) by (nonlinear_arith)
                requires
                    ilen <= 0xFFFF_FFFF_FFFF_FFFF,
            ;
        }
        let d = pad_dim(&ins[k].shape, a4);
        dsum = dsum + (d as u128);
    }
    if dsum > 0xFFFF {
        return Err(OnnxError::ShapeMismatch);
    }
    let mut os: Vec<usize> = Vec::new();
    let mut q: usize = 0;
    while q < rank
        invariant
            q <= rank,
            rank == iv[0].shape.len(),
            iv == ins@.map_values(|t: Tensor| t@),
            ins@.len() >= 1,
            forall|j: int| 0 <= j < ins@.len() ==> tensor_wf(#[trigger] ins@[j]@),
            ax < rank,
            dsum <= 0xFFFF,
            os@.len() == q,
            forall|j: int| 0 <= j < q ==> #[trigger] os@[j] == (if j == ax as int {
                dsum as usize
            } else {
                iv[0].shape[j]
            }),
        decreases rank - q,
    {
        if q == ax {
            os.push(dsum as usize);
        } else {
            os.push(ins[0].shape[q]);
        }
        q += 1;
    }
    let ghost goal = spec_concat(iv, av).unwrap();
    proof {
        assert(spec_concat(iv, av) is Ok);
        assert(goal.shape =~= os@);
        assert(dims_ok(os@));
    }
    let total = product_of(&os);
    let od0 = pad_dim(&os, 0);
    let od1 = pad_dim(&os, 1);
    let od2 = pad_dim(&os, 2);
    let od3 = pad_dim(&os, 3);
    proof {
        lemma_dim4_product(os@);
        assert(goal.data.len() == total as int);
        assert forall|j: int| 0 <= j < total as int implies #[trigger] goal.data[j] == concat_elem(
            iv,
            os@,
            a4 as int,
            j,
        ) by {
        }
        // away from the axis, every input and the output share each size
        assert forall|j: int, p: int|
            0 <= j < iv.len() && 0 <= p < 4 && p != a4 as int implies #[trigger] dim4(
            iv[j].shape,
            p,
        ) == dim4(os@, p) by {
            if p >= 4 - rank as int {
                assert(os@[p - (4 - rank as int)] == iv[0].shape[p - (4 - rank as int)]);
            }
        }
        assert(dim4(os@, a4 as int) == dsum as int) by {
            assert(os@[ax as int] == dsum as usize);
        }
    }
    proof {
        assert((od2 as int) * (od3 as int) <= 0x1_0000_0000) by (nonlinear_arith)
            requires
                od2 <= 0xFFFF && od3 <= 0xFFFF,
        ;
    }
    let d23: u64 = (od2 as u64) * (od3 as u64);
    proof {
        assert((od1 as int) * (d23 as int) <= 0x1_0000_0000_0000) by (nonlinear_arith)
            requires
                od1 <= 0xFFFF && d23 <= 0x1_0000_0000,
        ;
    }
    let d123: u64 = (od1 as u64) * d23;
    let mut data: Vec<i32> = Vec::new();
    let mut o: u64 = 0;
    while o < total
        invariant
            o <= total,
            iv == ins@.map_values(|t: Tensor| t@),
            ins@.len() >= 1,
            forall|j: int| 0 <= j < ins@.len() ==> tensor_wf(#[trigger] ins@[j]@),
            rank == iv[0].shape.len() && rank <= 4,
            ax < rank,
            a4 == ax + 4 - rank,
            od0 as int == dim4(os@, 0) && od1 as int == dim4(os@, 1) && od2 as int == dim4(os@, 2)
                && od3 as int == dim4(os@, 3),
            d23 as int == (od2 as int) * (od3 as int),
            d123 as int == (od1 as int) * (d23 as int),
            total as nat == shape_product(os@),
            shape_product(os@) == dim4(os@, 0) * dim4(os@, 1) * dim4(os@, 2) * dim4(os@, 3),
            dim4(os@, a4 as int) == dsum as int,
            dsum as int == concat_dsum(iv, a4 as int, 0),
            iv.len() <= usize::MAX,
            forall|j: int, p: int| 0 <= j < iv.len() && 0 <= p < 4 && p != a4 as int
                ==> #[trigger] dim4(iv[j].shape, p) == dim4(os@, p),
            goal.data.len() == total as int,
            forall|j: int| 0 <= j < total as int ==> #[trigger] goal.data[j] == concat_elem(
                iv,
                os@,
                a4 as int,
                j,
            ),
            data@ == goal.data.take(o as int),
        decreases total - o,
    {
        proof {
            assert(d123 > 0 && d23 > 0 && od3 > 0 && od0 > 0 && od1 > 0 && od2 > 0)
                by (nonlinear_arith)
                requires
                    (o as int) < (od0 as int) * (od1 as int) * (od2 as int) * (od3 as int),
                    o >= 0,
                    d123 as int == (od1 as int) * ((od2 as int) * (od3 as int)),
                    d23 as int == (od2 as int) * (od3 as int),
                    total as int == (od0 as int) * (od1 as int) * (od2 as int) * (od3 as int),
                    (o as int) < total as int,
            ;
            assert(total as int == (od0 as int) * (d123 as int)) by (nonlinear_arith)
                requires
                    total as int == (od0 as int) * (od1 as int) * (od2 as int) * (od3 as int),
                    d123 as int == (od1 as int) * ((od2 as int) * (od3 as int)),
            ;
            assert((o as int) / (d123 as int) < od0 as int) by (nonlinear_arith)
                requires
                    d123 > 0,
                    o >= 0,
                    total as int == (od0 as int) * (d123 as int),
                    (o as int) < total as int,
            ;
        }
        let i0 = (o / d123) as usize;
        let i1 = ((o / d23) % (od1 as u64)) as usize;
        let i2 = ((o / (od3 as u64)) % (od2 as u64)) as usize;
        let i3 = (o % (od3 as u64)) as usize;
        let vax0 = if a4 == 0 {
            i0
        } else if a4 == 1 {
            i1
        } else if a4 == 2 {
            i2
        } else {
            i3
        };
        proof {
            assert(vax0 < dsum as usize);
        }
        // find the input holding this axis position
        let mut kk: usize = 0;
        let mut v: usize = vax0;
        let mut dk = pad_dim(&ins[0].shape, a4);
        while v >= dk
            invariant
                kk < iv.len(),
                iv.len() <= usize::MAX,
                iv == ins@.map_values(|t: Tensor| t@),
                forall|j: int| 0 <= j < ins@.len() ==> tensor_wf(#[trigger] ins@[j]@),
                a4 < 4,
                dk as int == dim4(iv[kk as int].shape, a4 as int),
                (v as int) < concat_dsum(iv, a4 as int, kk as int),
                concat_pick(iv, a4 as int, vax0 as int, 0) == concat_pick(
                    iv,
                    a4 as int,
                    v as int,
                    kk as int,
                ),
            decreases iv.len() - kk,
        {
            v = v - dk;
            kk = kk + 1;
            proof {
                assert((v as int) < concat_dsum(iv, a4 as int, kk as int));
                assert(concat_dsum(iv, a4 as int, kk as int) > 0);
                assert(kk < iv.len()) by {
                    if kk >= iv.len() {
                        assert(concat_dsum(iv, a4 as int, kk as int) == 0);
                    }
                }
            }
            dk = pad_dim(&ins[kk].shape, a4);
        }
        proof {
            assert(concat_pick(iv, a4 as int, vax0 as int, 0) == (kk as int, v as int));
        }
        let j0 = if a4 == 0 {
            v
        } else {
            i0
        };
        let j1 = if a4 == 1 {
            v
        } else {
            i1
        };
        let j2 = if a4 == 2 {
            v
        } else {
            i2
        };
        let j3 = if a4 == 3 {
            v
        } else {
            i3
        };
        let e = at4p(&ins[kk], j0, j1, j2, j3);
        proof {
            assert(d123 as int == dim4(os@, 1) * dim4(os@, 2) * dim4(os@, 3)) by (nonlinear_arith)
                requires
                    d123 as int == (od1 as int) * ((od2 as int) * (od3 as int)),
                    od1 as int == dim4(os@, 1) && od2 as int == dim4(os@, 2) && od3 as int == dim4(
                        os@,
                        3,
                    ),
            ;
            assert(goal.data[o as int] == e);
        }
        data.push(e);
        proof {
            assert(data@ =~= goal.data.take(o as int + 1));
        }
        o = o + 1;
    }
    let t = Tensor { dtype: Dtype::I32, shape: os, data };
    proof {
        assert(goal.data.take(total as int) =~= goal.data);
        assert(t@ =~= goal);
    }
    Ok(t)
}

/// Floor of the square root of a non-negative integer.
pub open spec fn isqrt(v: int) -> int
    decreases v,
{
    if v <= 0 {
        0
    } else {
        let r = isqrt(v - 1);
        if (r + 1) * (r + 1) <= v {
            r + 1
        } else {
            r
        }
    }
}

pub proof fn lemma_isqrt(v: int)
    requires
        v >= 0,
    ensures
        isqrt(v) >= 0,
        isqrt(v) * isqrt(v) <= v,
        v < (isqrt(v) + 1) * (isqrt(v) + 1),
        v >= 1 ==> isqrt(v) >= 1,
    decreases v,
{
    if v == 0 {
        assert(isqrt(0) == 0);
        assert(0 < (0 + 1) * (0 + 1));
    } else if v > 0 {
        lemma_isqrt(v - 1);
        let r = isqrt(v - 1);
        if (r + 1) * (r + 1) <= v {
            assert(isqrt(v) == r + 1);
            assert(v < (r + 2) * (r + 2)) by (nonlinear_arith)
                requires
                    v - 1 < (r + 1) * (r + 1) && r >= 0,
            ;
            assert(v < (isqrt(v) + 1) * (isqrt(v) + 1));
        } else {
            assert(isqrt(v) == r);
            assert(v < (r + 1) * (r + 1));
            assert(r >= 1 || v < 1) by (nonlinear_arith)
                requires
                    (r + 1) * (r + 1) > v && r >= 0 && v >= 1,
            ;
        }
    }
}

fn isqrt_u64(v: u64) -> (r: u64)
    requires
        v <= 0xFFFF_FFFF,
    ensures
        r as int == isqrt(v as int),
{
    proof {
        lemma_isqrt(v as int);
    }
    let mut r: u64 = 0;
    let mut sq: u64 = 0;
    while sq + 2 * r + 1 <= v
        invariant
            v <= 0xFFFF_FFFF,
            r <= 0x1_0000,
            sq <= v,
            sq as int == (r as int) * (r as int),
        decreases v - sq,
    {
        sq = sq + 2 * r + 1;
        r = r + 1;
        proof {
            assert(sq as int == (r as int) * (r as int)) by (nonlinear_arith)
                requires
                    sq as int == ((r as int) - 1) * ((r as int) - 1) + 2 * ((r as int) - 1) + 1,
            ;
            assert(r <= 0x1_0000) by (nonlinear_arith)
                requires
                    (r as int) * (r as int) <= v as int && v <= 0xFFFF_FFFF && r >= 0,
            ;
        }
    }
    proof {
        let a = r as int;
        let b = isqrt(v as int);
        assert((a + 1) * (a + 1) == a * a + 2 * a + 1) by (nonlinear_arith);
        assert((v as int) < (a + 1) * (a + 1));
        assert(a == b) by (nonlinear_arith)
            requires
                a >= 0 && b >= 0 && a * a <= v as int && (v as int) < (a + 1) * (a + 1) && b * b
                    <= v as int && (v as int) < (b + 1) * (b + 1),
        ;
    }
    r
}

/// Reads one element of a tensor of rank at most 4 by its rank-4 padded
/// coordinates.
fn at4p(t: &Tensor, i0: usize, i1: usize, i2: usize, i3: usize) -> (r: i32)
    requires
        tensor_wf(t@),
        t@.shape.len() <= 4,
        (i0 as int) < dim4(t@.shape, 0),
        (i1 as int) < dim4(t@.shape, 1),
        (i2 as int) < dim4(t@.shape, 2),
        (i3 as int) < dim4(t@.shape, 3),
    ensures
        r == t@.data[lin4d(
            dim4(t@.shape, 1),
            dim4(t@.shape, 2),
            dim4(t@.shape, 3),
            i0 as int,
            i1 as int,
            i2 as int,
            i3 as int,
        )],
{
    let d1 = pad_dim(&t.shape, 1);
    let d2 = pad_dim(&t.shape, 2);
    let d3 = pad_dim(&t.shape, 3);
    proof {
        assert((i0 as int) * (d1 as int) + (i1 as int) < 0x1_0000_0000) by (nonlinear_arith)
            requires
                i0 <= 0xFFFF && d1 <= 0xFFFF && i1 <= 0xFFFF,
        ;
    }
    let a1 = (i0 as u64) * (d1 as u64) + (i1 as u64);
    proof {
        assert((a1 as int) * (d2 as int) + (i2 as int) < 0x1_0000_0000_0000) by (nonlinear_arith)
            requires
                a1 < 0x1_0000_0000 && d2 <= 0xFFFF && i2 <= 0xFFFF,
        ;
    }
    let a2 = a1 * (d2 as u64) + (i2 as u64);
    proof {
        assert((a2 as int) * (d3 as int) + (i3 as int) < 0x1_0000_0000_0000_0000) by (nonlinear_arith)
            requires
                a2 < 0x1_0000_0000_0000 && d3 <= 0xFFFF && i3 <= 0xFFFF,
        ;
    }
    let a3 = a2 * (d3 as u64) + (i3 as u64);
    proof {
        let s = t@.shape;
        lemma_lin4_bound(
            dim4(s, 0),
            dim4(s, 1),
            dim4(s, 2),
            dim4(s, 3),
            i0 as int,
            i1 as int,
            i2 as int,
            i3 as int,
        );
        lemma_dim4_product(s);
        assert((a3 as int) < t@.data.len());
    }
    let dlen = t.data.len();
    assert(a3 < dlen as u64);
    t.data[a3 as usize]
}

/// Reads one element of a rank-2 tensor by its coordinates.
fn at2(t: &Tensor, i: usize, j: usize) -> (r: i32)
    requires
        tensor_wf(t@),
        t@.shape.len() == 2,
        i < t@.shape[0],
        j < t@.shape[1],
    ensures
        r == t@.data[(i as int) * (t@.shape[1] as int) + j],
{
    let d1 = t.shape[1];
    proof {
        assert(dims_ok(t@.shape));
        assert((i as int) * (d1 as int) + (j as int) < 0x1_0000_0000) by (nonlinear_arith)
            requires
                i <= 0xFFFF && d1 <= 0xFFFF && j <= 0xFFFF,
        ;
        assert(t@.shape.skip(1).skip(1).len() == 0);
        assert(shape_product(t@.shape.skip(1).skip(1)) == 1);
        assert(shape_product(t@.shape.skip(1)) == (d1 as nat) * 1);
        assert(t@.data.len() == (t@.shape[0] as nat) * ((d1 as nat) * 1));
        assert((i as int) * (d1 as int) + (j as int) < t@.data.len()) by (nonlinear_arith)
            requires
                (i as int) < t@.shape[0] as int,
                (j as int) < d1 as int,
                t@.data.len() == (t@.shape[0] as nat) * ((d1 as nat) * 1),
        ;
    }
    let idx = (i as u64) * (d1 as u64) + (j as u64);
    let dlen = t.data.len();
    assert(idx < dlen as u64);
    t.data[idx as usize]
}

/// Inner product of row `m` of the (possibly transposed) left operand and
/// column `n` of the (possibly transposed) right operand, over the first `t`
/// terms.
pub open spec fn gemm_sum(a: TensorV, b: TensorV, ta: bool, tb: bool, m: int, n: int, t: int) -> int
    decreases t,
{
    if t <= 0 {
        0
    } else {
        let k = t - 1;
        let av = if ta {
            a.data[k * (a.shape[1] as int) + m]
        } else {
            a.data[m * (a.shape[1] as int) + k]
        };
        let bv = if tb {
            b.data[n * (b.shape[1] as int) + k]
        } else {
            b.data[k * (b.shape[1] as int) + n]
        };
        gemm_sum(a, b, ta, tb, m, n, k) + (av as int) * (bv as int)
    }
}

/// One output element of the matrix kernel, by its flat index.
pub open spec fn gemm_elem(
    a: TensorV,
    b: TensorV,
    bias: Option<TensorV>,
    ta: bool,
    tb: bool,
    alpha: int,
    beta: int,
    kd: int,
    nd: int,
    o: int,
) -> i32 {
    let m = o / nd;
    let n = o % nd;
    let s = gemm_sum(a, b, ta, tb, m, n, kd);
    let bv: int = match bias {
        None => 0,
        Some(c) => if c.shape.len() == 1 {
            c.data[n] as int
        } else {
            c.data[m * (c.shape[1] as int) + n] as int
        },
    };
    clamp(alpha * s + beta * bv)
}

/// Matrix multiply with optional operand transposes, scalar scale factors
/// and an optional bias (a row of length N, or a full M-by-N matrix).
pub open spec fn spec_gemm(ins: Seq<TensorV>, attrs: Seq<AttrV>) -> Result<TensorV, OnnxError> {
    if ins.len() != 2 && ins.len() != 3 {
        Err(OnnxError::ShapeMismatch)
    } else {
        let a = ins[0];
        let b = ins[1];
        match (attr_int_or(attrs, ATTR_TRANS_A, 0), attr_int_or(attrs, ATTR_TRANS_B, 0),
        attr_int_or(attrs, ATTR_ALPHA, 1), attr_int_or(attrs, ATTR_BETA, 1)) {
            (Some(ta64), Some(tb64), Some(alpha), Some(beta)) => {
                let ta = ta64 != 0;
                let tb = tb64 != 0;
                if a.shape.len() != 2 || b.shape.len() != 2 || !(-0xFFFF <= alpha <= 0xFFFF)
                    || !(-0xFFFF <= beta <= 0xFFFF) {
                    Err(OnnxError::ShapeMismatch)
                } else {
                    let md = if ta {
                        a.shape[1] as int
                    } else {
                        a.shape[0] as int
                    };
                    let kd = if ta {
                        a.shape[0] as int
                    } else {
                        a.shape[1] as int
                    };
                    let kb = if tb {
                        b.shape[1] as int
                    } else {
                        b.shape[0] as int
                    };
                    let nd = if tb {
                        b.shape[0] as int
                    } else {
                        b.shape[1] as int
                    };
                    if kb != kd || (ins.len() == 3 && !{
                        let c = ins[2];
                        (c.shape.len() == 1 && c.shape[0] as int == nd) || (c.shape.len() == 2
                            && c.shape[0] as int == md && c.shape[1] as int == nd)
                    }) {
                        Err(OnnxError::ShapeMismatch)
                    } else {
                        Ok(
                            TensorV {
                                dtype: Dtype::I32,
                                shape: seq![md as usize, nd as usize],
                                data: Seq::new(
                                    (md * nd) as nat,
                                    |o: int| gemm_elem(
                                        a,
                                        b,
                                        if ins.len() == 3 {
                                            Some(ins[2])
                                        } else {
                                            None
                                        },
                                        ta,
                                        tb,
                                        alpha as int,
                                        beta as int,
                                        kd,
                                        nd,
                                        o,
                                    ),
                                ),
                            },
                        )
                    }
                }
            },
            _ => Err(OnnxError::ShapeMismatch),
        }
    }
}

fn gemm_value(a: &Tensor, b: &Tensor, ta: bool, tb: bool, m: usize, n: usize, kd: usize) -> (r:
    i128)
    requires
        tensor_wf(a@),
        tensor_wf(b@),
        a@.shape.len() == 2,
        b@.shape.len() == 2,
        kd <= 0xFFFF,
        ta ==> kd == a@.shape[0] && m < a@.shape[1],
        !ta ==> kd == a@.shape[1] && m < a@.shape[0],
        tb ==> kd == b@.shape[1] && n < b@.shape[0],
        !tb ==> kd == b@.shape[0] && n < b@.shape[1],
    ensures
        r as int == gemm_sum(a@, b@, ta, tb, m as int, n as int, kd as int),
        -((kd as int) * 0x4000_0000_0000_0000) <= r as int <= (kd as int) * 0x4000_0000_0000_0000,
{
    let mut acc: i128 = 0;
    let mut k: usize = 0;
    while k < kd
        invariant
            k <= kd,
            kd <= 0xFFFF,
            tensor_wf(a@),
            tensor_wf(b@),
            a@.shape.len() == 2,
            b@.shape.len() == 2,
            ta ==> kd == a@.shape[0] && m < a@.shape[1],
            !ta ==> kd == a@.shape[1] && m < a@.shape[0],
            tb ==> kd == b@.shape[1] && n < b@.shape[0],
            !tb ==> kd == b@.shape[0] && n < b@.shape[1],
            acc as int == gemm_sum(a@, b@, ta, tb, m as int, n as int, k as int),
            -((k as int) * 0x4000_0000_0000_0000) <= acc as int <= (k as int)
                * 0x4000_0000_0000_0000,
        decreases kd - k,
    {
        let av = if ta {
            at2(a, k, m)
        } else {
            at2(a, m, k)
        };
        let bv = if tb {
            at2(b, n, k)
        } else {
            at2(b, k, n)
        };
        proof {
            assert(-0x4000_0000_0000_0000 <= (av as int) * (bv as int)
                <= 0x4000_0000_0000_0000) by (nonlinear_arith)
                requires
                    -0x8000_0000 <= av as int <= 0x7FFF_FFFF && -0x8000_0000 <= bv as int
                        <= 0x7FFF_FFFF,
            ;
        }
        let term: i128 = (av as i128) * (bv as i128);
        acc = acc + term;
        k += 1;
    }
    acc
}

/// Matrix multiply / fully connected layer.
pub fn gemm(a: &Tensor, b: &Tensor, bias: Option<&Tensor>, attrs: &Vec<Attr>) -> (r: Result<
    Tensor,
    OnnxError,
>)
    requires
        tensor_wf(a@),
        tensor_wf(b@),
        bias matches Some(c) ==> tensor_wf(c@),
    ensures
        ({
            let ins = match bias {
                Some(c) => seq![a@, b@, c@],
                None => seq![a@, b@],
            };
            &&& (r matches Ok(t) ==> spec_gemm(ins, attrs@.map_values(|at: Attr| at@)) == Ok::<
                TensorV,
                OnnxError,
            >(t@) && tensor_wf(t@))
            &&& (r matches Err(e) ==> spec_gemm(ins, attrs@.map_values(|at: Attr| at@)) == Err::<
                TensorV,
                OnnxError,
            >(e))
        }),
{
    let ghost ins = match bias {
        Some(c) => seq![a@, b@, c@],
        None => seq![a@, b@],
    };
    let ghost av = attrs@.map_values(|at: Attr| at@);
    let ta64 = match get_int_or(attrs, ATTR_TRANS_A, 0) {
        None => {
            return Err(OnnxError::ShapeMismatch);
        },
        Some(v) => v,
    };
    let tb64 = match get_int_or(attrs, ATTR_TRANS_B, 0) {
        None => {
            return Err(OnnxError::ShapeMismatch);
        },
        Some(v) => v,
    };
    let alpha = match get_int_or(attrs, ATTR_ALPHA, 1) {
        None => {
            return Err(OnnxError::ShapeMismatch);
        },
        Some(v) => v,
    };
    let beta = match get_int_or(attrs, ATTR_BETA, 1) {
        None => {
            return Err(OnnxError::ShapeMismatch);
        },
        Some(v) => v,
    };
    let ta = ta64 != 0;
    let tb = tb64 != 0;
    if a.shape.len() != 2 || b.shape.len() != 2 || alpha < -0xFFFF || alpha > 0xFFFF || beta
        < -0xFFFF || beta > 0xFFFF {
        return Err(OnnxError::ShapeMismatch);
    }
    let md = if ta {
        a.shape[1]
    } else {
        a.shape[0]
    };
    let kd = if ta {
        a.shape[0]
    } else {
        a.shape[1]
    };
    let kb = if tb {
        b.shape[1]
    } else {
        b.shape[0]
    };
    let nd = if tb {
        b.shape[0]
    } else {
        b.shape[1]
    };
    if kb != kd {
        return Err(OnnxError::ShapeMismatch);
    }
    match bias {
        Some(c) => {
            let ok1 = c.shape.len() == 1 && c.shape[0] == nd;
            let ok2 = c.shape.len() == 2 && c.shape[0] == md && c.shape[1] == nd;
            if !ok1 && !ok2 {
                return Err(OnnxError::ShapeMismatch);
            }
        },
        None => {},
    }
    proof {
        assert(dims_ok(a@.shape) && dims_ok(b@.shape));
        assert((md as int) * (nd as int) <= 0x1_0000_0000) by (nonlinear_arith)
            requires
                md <= 0xFFFF && nd <= 0xFFFF,
        ;
        if bias is Some {
            let c = bias.unwrap();
            if c@.shape.len() == 1 {
                assert(c@.shape.skip(1).len() == 0);
                assert(shape_product(c@.shape.skip(1)) == 1);
                assert(c@.data.len() == (nd as nat) * 1);
            } else {
                assert(c@.shape.skip(1).skip(1).len() == 0);
                assert(shape_product(c@.shape.skip(1).skip(1)) == 1);
                assert(shape_product(c@.shape.skip(1)) == (nd as nat) * 1);
                assert(c@.data.len() == (md as nat) * ((nd as nat) * 1));
            }
        }
    }
    let total: u64 = (md as u64) * (nd as u64);
    let ghost goal = spec_gemm(ins, av).unwrap();
    let ghost bopt = match bias {
        Some(c) => Some(c@),
        None => None::<TensorV>,
    };
    proof {
        assert(spec_gemm(ins, av) is Ok);
        assert(goal.data.len() == total as int);
        assert(goal.shape =~= seq![md, nd]);
        assert forall|j: int| 0 <= j < total as int implies #[trigger] goal.data[j] == gemm_elem(
            a@,
            b@,
            bopt,
            ta,
            tb,
            alpha as int,
            beta as int,
            kd as int,
            nd as int,
            j,
        ) by {
            assert(goal.data[j] == gemm_elem(
                a@,
                b@,
                if ins.len() == 3 {
                    Some(ins[2])
                } else {
                    None
                },
                ta,
                tb,
                alpha as int,
                beta as int,
                kd as int,
                nd as int,
                j,
            ));
        }
    }
    let mut data: Vec<i32> = Vec::new();
    let mut o: u64 = 0;
    while o < total
        invariant
            o <= total,
            tensor_wf(a@),
            tensor_wf(b@),
            (bias matches Some(c) ==> tensor_wf(c@)),
            a@.shape.len() == 2 && b@.shape.len() == 2,
            kd <= 0xFFFF && md <= 0xFFFF && nd <= 0xFFFF,
            ta ==> kd == a@.shape[0] && md == a@.shape[1],
            !ta ==> kd == a@.shape[1] && md == a@.shape[0],
            tb ==> kd == b@.shape[1] && nd == b@.shape[0],
            !tb ==> kd == b@.shape[0] && nd == b@.shape[1],
            -0xFFFF <= alpha <= 0xFFFF && -0xFFFF <= beta <= 0xFFFF,
            bopt == (match bias {
                Some(c) => Some(c@),
                None => None::<TensorV>,
            }),
            (bias matches Some(c) ==> (c@.shape.len() == 1 && c@.shape[0] == nd
                && c@.data.len() == nd) || (c@.shape.len() == 2 && c@.shape[0] == md && c@.shape[1]
                == nd && c@.data.len() == (md as int) * (nd as int))),
            total as int == (md as int) * (nd as int),
            goal.data.len() == total as int,
            forall|j: int| 0 <= j < total as int ==> #[trigger] goal.data[j] == gemm_elem(
                a@,
                b@,
                bopt,
                ta,
                tb,
                alpha as int,
                beta as int,
                kd as int,
                nd as int,
                j,
            ),
            data@ == goal.data.take(o as int),
        decreases total - o,
    {
        proof {
            assert(nd > 0) by (nonlinear_arith)
                requires
                    (o as int) < (md as int) * (nd as int) && o >= 0,
            ;
            assert((o as int) / (nd as int) < md as int) by (nonlinear_arith)
                requires
                    (o as int) < (md as int) * (nd as int) && nd > 0 && o >= 0,
            ;
        }
        let m = (o / (nd as u64)) as usize;
        let n = (o % (nd as u64)) as usize;
        let s = gemm_value(a, b, ta, tb, m, n, kd);
        let bv: i128 = match bias {
            Some(c) => {
                if c.shape.len() == 1 {
                    c.data[n] as i128
                } else {
                    proof {
                        assert((m as int) * (nd as int) + (n as int) < (md as int) * (
                        nd as int)) by (nonlinear_arith)
                            requires
                                (m as int) < md as int && (n as int) < nd as int && nd >= 0,
                        ;
                    }
                    at2(c, m, n) as i128
                }
            },
            None => 0,
        };
        proof {
            assert(-(0xFFFF * (0xFFFF * 0x4000_0000_0000_0000)) <= (alpha as int) * (s as int)
                <= 0xFFFF * (0xFFFF * 0x4000_0000_0000_0000) && -(0xFFFF * 0x1_0000_0000)
                <= (beta as int) * (bv as int) <= 0xFFFF * 0x1_0000_0000) by (nonlinear_arith)
                requires
                    -0xFFFF <= alpha <= 0xFFFF,
                    -0xFFFF <= beta <= 0xFFFF,
                    -((kd as int) * 0x4000_0000_0000_0000) <= s as int <= (kd as int)
                        * 0x4000_0000_0000_0000,
                    kd <= 0xFFFF,
                    -0x8000_0000 <= bv as int <= 0x7FFF_FFFF,
            ;
        }
        let v = clamp_i128((alpha as i128) * s + (beta as i128) * bv);
        proof {
            assert(goal.data[o as int] == v);
        }
        data.push(v);
        proof {
            assert(data@ =~= goal.data.take(o as int + 1));
        }
        o = o + 1;
    }
    let mut shape: Vec<usize> = Vec::new();
    shape.push(md);
    shape.push(nd);
    let t = Tensor { dtype: Dtype::I32, shape, data };
    proof {
        assert(goal.data.take(total as int) =~= goal.data);
        assert(t@ =~= goal);
        assert(t@.shape.skip(1).skip(1).len() == 0);
        assert(shape_product(t@.shape.skip(1).skip(1)) == 1);
        assert(shape_product(t@.shape.skip(1)) == (nd as nat) * 1);
        assert(tensor_wf(t@)) by {
            assert(t@.data.len() == (md as nat) * ((nd as nat) * 1)) by (nonlinear_arith)
                requires
                    t@.data.len() == (md as int) * (nd as int),
            ;
        }
    }
    Ok(t)
}

/// One element of the normalization output, by its flat index: the
/// per-channel affine transform with the stability term inside the square
/// root.
pub open spec fn bn_elem(
    x: TensorV,
    scale: TensorV,
    shift: TensorV,
    mean: TensorV,
    varis: TensorV,
    eps: int,
    o: int,
) -> i32 {
    let cd = x.shape[1] as int;
    let sp = shape_product(x.shape.skip(2)) as int;
    let c = (o / sp) % cd;
    let denom = isqrt(varis.data[c] + eps);
    clamp(
        div_trunc((x.data[o] - mean.data[c]) * (scale.data[c] as int), denom) + shift.data[c],
    )
}

/// Batch normalization: inputs are the data tensor, the per-channel scale,
/// shift, running mean and running variance. Every channel must have
/// `variance + epsilon` positive.
pub open spec fn spec_batchnorm(ins: Seq<TensorV>, attrs: Seq<AttrV>) -> Result<TensorV, OnnxError> {
    if ins.len() != 5 {
        Err(OnnxError::ShapeMismatch)
    } else {
        let x = ins[0];
        let cd = x.shape[1] as int;
        match attr_int_or(attrs, ATTR_EPSILON, 0) {
            None => Err(OnnxError::ShapeMismatch),
            Some(eps) => {
                if !(2 <= x.shape.len() <= 4) || !(0 <= eps <= 0x7FFF_FFFF) || !(forall|i: int|
                    1 <= i < 5 ==> (#[trigger] ins[i]).shape.len() == 1 && ins[i].shape[0] as int
                        == cd) {
                    Err(OnnxError::ShapeMismatch)
                } else if exists|c: int|
                    0 <= c < cd && (#[trigger] ins[4].data[c]) + eps <= 0 {
                    Err(OnnxError::ShapeMismatch)
                } else {
                    Ok(
                        TensorV {
                            dtype: Dtype::I32,
                            shape: x.shape,
                            data: Seq::new(
                                x.data.len(),
                                |o: int| bn_elem(x, ins[1], ins[2], ins[3], ins[4], eps as int, o),
                            ),
                        },
                    )
                }
            },
        }
    }
}

pub fn batchnorm(ins: &Vec<Tensor>, attrs: &Vec<Attr>) -> (r: Result<Tensor, OnnxError>)
    requires
        forall|i: int| 0 <= i < ins@.len() ==> tensor_wf(#[trigger] ins@[i]@),
    ensures
        r matches Ok(t) ==> spec_batchnorm(
            ins@.map_values(|t: Tensor| t@),
            attrs@.map_values(|a: Attr| a@),
        ) == Ok::<TensorV, OnnxError>(t@) && tensor_wf(t@),
        r matches Err(e) ==> spec_batchnorm(
            ins@.map_values(|t: Tensor| t@),
            attrs@.map_values(|a: Attr| a@),
        ) == Err::<TensorV, OnnxError>(e),
{
    let ghost iv = ins@.map_values(|t: Tensor| t@);
    let ghost av = attrs@.map_values(|a: Attr| a@);
    if ins.len() != 5 {
        return Err(OnnxError::ShapeMismatch);
    }
    let eps64 = match get_int_or(attrs, ATTR_EPSILON, 0) {
        None => {
            return Err(OnnxError::ShapeMismatch);
        },
        Some(v) => v,
    };
    let x = &ins[0];
    proof {
        assert(iv[0] == x@ && iv[1] == ins@[1]@ && iv[2] == ins@[2]@ && iv[3] == ins@[3]@ && iv[4]
            == ins@[4]@);
    }
    if x.shape.len() < 2 || x.shape.len() > 4 || eps64 < 0 || eps64 > 0x7FFF_FFFF {
        return Err(OnnxError::ShapeMismatch);
    }
    let cd = x.shape[1];
    let mut i: usize = 1;
    while i < 5
        invariant
            1 <= i <= 5,
            ins@.len() == 5,
            iv == ins@.map_values(|t: Tensor| t@),
            av == attrs@.map_values(|a: Attr| a@),
            attr_int_or(av, ATTR_EPSILON, 0) == Some(eps64),
            2 <= iv[0].shape.len() <= 4,
            0 <= eps64 <= 0x7FFF_FFFF,
            iv[0].shape.len() >= 2,
            cd == iv[0].shape[1],
            forall|j: int| 1 <= j < i ==> (#[trigger] iv[j]).shape.len() == 1 && iv[j].shape[0]
                == cd,
        decreases 5 - i,
    {
        if ins[i].shape.len() != 1 || ins[i].shape[0] != cd {
            assert(!((#[trigger] iv[i as int]).shape.len() == 1 && iv[i as int].shape[0] as int
                == cd as int));
            return Err(OnnxError::ShapeMismatch);
        }
        i += 1;
    }
    let varis = &ins[4];
    proof {
        assert(varis@.shape.skip(1).len() == 0);
        assert(shape_product(varis@.shape.skip(1)) == 1);
        assert(varis@.data.len() == (cd as nat) * 1);
        assert(ins@[1]@.data.len() == (cd as nat) * 1) by {
            assert(ins@[1]@.shape.skip(1).len() == 0);
            assert(shape_product(ins@[1]@.shape.skip(1)) == 1);
        }
        assert(ins@[2]@.data.len() == (cd as nat) * 1) by {
            assert(ins@[2]@.shape.skip(1).len() == 0);
            assert(shape_product(ins@[2]@.shape.skip(1)) == 1);
        }
        assert(ins@[3]@.data.len() == (cd as nat) * 1) by {
            assert(ins@[3]@.shape.skip(1).len() == 0);
            assert(shape_product(ins@[3]@.shape.skip(1)) == 1);
        }
    }
    let eps = eps64;
    let mut c: usize = 0;
    while c < cd
        invariant
            c <= cd,
            ins@.len() == 5,
            iv == ins@.map_values(|t: Tensor| t@),
            av == attrs@.map_values(|a: Attr| a@),
            attr_int_or(av, ATTR_EPSILON, 0) == Some(eps64),
            2 <= iv[0].shape.len() <= 4,
            0 <= eps64 <= 0x7FFF_FFFF,
            eps == eps64,
            cd == iv[0].shape[1],
            forall|j: int| 1 <= j < 5 ==> (#[trigger] iv[j]).shape.len() == 1 && iv[j].shape[0]
                == cd,
            varis@ == iv[4],
            varis@.data.len() == cd,
            forall|q: int| 0 <= q < c ==> (#[trigger] iv[4].data[q]) + eps > 0,
        decreases cd - c,
    {
        if (varis.data[c] as i64) + eps <= 0 {
            assert((iv[4].data[c as int]) + eps <= 0);
            return Err(OnnxError::ShapeMismatch);
        }
        c += 1;
    }
    let ghost goal = spec_batchnorm(iv, av).unwrap();
    proof {
        assert(spec_batchnorm(iv, av) is Ok);
        assert(goal.data.len() == x@.data.len());
        assert forall|j: int| 0 <= j < goal.data.len() implies #[trigger] goal.data[j] == bn_elem(
            iv[0],
            iv[1],
            iv[2],
            iv[3],
            iv[4],
            eps64 as int,
            j,
        ) by {
        }
    }
    let sp = product_range(&x.shape, 2, x.shape.len());
    proof {
        assert(x@.shape.subrange(2, x@.shape.len() as int) =~= x@.shape.skip(2));
        lemma_product_prefix(x@.shape, 2);
        assert(x@.shape.take(2)[1] == x@.shape[1]);
        assert(x@.shape.take(2).skip(1)[0] == x@.shape[1]);
        assert(x@.shape.take(2).skip(1).skip(1).len() == 0);
        assert(shape_product(x@.shape.take(2).skip(1).skip(1)) == 1);
        assert(shape_product(x@.shape.take(2).skip(1)) == (x@.shape[1] as nat) * 1);
        assert(shape_product(x@.shape.take(2)) == (x@.shape[0] as nat) * ((x@.shape[1] as nat)
            * 1));
    }
    let total = x.data.len();
    let mut data: Vec<i32> = Vec::new();
    let mut o: usize = 0;
    while o < total
        invariant
            o <= total,
            ins@.len() == 5,
            iv == ins@.map_values(|t: Tensor| t@),
            x@ == iv[0],
            varis@ == iv[4],
            tensor_wf(x@),
            tensor_wf(ins@[1]@),
            tensor_wf(ins@[2]@),
            tensor_wf(ins@[3]@),
            tensor_wf(ins@[4]@),
            2 <= x@.shape.len() <= 4,
            cd == x@.shape[1],
            ins@[1]@.data.len() == cd && ins@[2]@.data.len() == cd && ins@[3]@.data.len() == cd
                && varis@.data.len() == cd,
            0 <= eps <= 0x7FFF_FFFF,
            forall|q: int| 0 <= q < cd ==> (#[trigger] iv[4].data[q]) + eps > 0,
            sp as nat == shape_product(x@.shape.skip(2)),
            total == x@.data.len(),
            x@.data.len() == shape_product(x@.shape),
            shape_product(x@.shape) == shape_product(x@.shape.take(2)) * shape_product(
                x@.shape.skip(2),
            ),
            shape_product(x@.shape.take(2)) == (x@.shape[0] as nat) * ((x@.shape[1] as nat) * 1),
            spec_batchnorm(iv, av) == Ok::<TensorV, OnnxError>(goal),
            goal == spec_batchnorm(iv, av).unwrap(),
            goal.data.len() == total,
            eps == eps64,
            forall|j: int| 0 <= j < goal.data.len() ==> #[trigger] goal.data[j] == bn_elem(
                iv[0],
                iv[1],
                iv[2],
                iv[3],
                iv[4],
                eps64 as int,
                j,
            ),
            data@ == goal.data.take(o as int),
        decreases total - o,
    {
        proof {
            assert(sp > 0 && cd > 0) by (nonlinear_arith)
                requires
                    (o as int) < total as int,
                    total as int == ((x@.shape[0] as int) * ((x@.shape[1] as int) * 1)) * (
                    sp as int),
                    cd as int == x@.shape[1] as int,
                    sp >= 0,
            ;
        }
        let c = ((o as u64) / sp) % (cd as u64);
        let cu = c as usize;
        let ve = (varis.data[cu] as i64) + eps;
        proof {
            assert(iv[4].data[cu as int] + eps > 0);
        }
        let denom = isqrt_u64(ve as u64);
        proof {
            lemma_isqrt(ve as int);
            assert(denom >= 1);
        }
        let xm = (x.data[o] as i128) - (ins[3].data[cu] as i128);
        proof {
            assert(-0x1_0000_0000_0000_0000i128 <= (xm as int) * (ins@[1]@.data[cu as int] as int)
                <= 0x1_0000_0000_0000_0000i128) by (nonlinear_arith)
                requires
                    -0x1_0000_0000 <= xm as int <= 0x1_0000_0000,
                    -0x8000_0000 <= ins@[1]@.data[cu as int] as int <= 0x7FFF_FFFF,
            ;
        }
        let num = xm * (ins[1].data[cu] as i128);
        let q = div_trunc_i128(num, denom as i128);
        let v = clamp_i128(q + (ins[2].data[cu] as i128));
        proof {
            assert(goal.data[o as int] == bn_elem(
                iv[0],
                iv[1],
                iv[2],
                iv[3],
                iv[4],
                eps as int,
                o as int,
            ));
            assert(goal.data[o as int] == v);
        }
        data.push(v);
        proof {
            assert(data@ =~= goal.data.take(o as int + 1));
        }
        o += 1;
    }
    let t = Tensor { dtype: Dtype::I32, shape: copy_vec(&x.shape), data };
    proof {
        assert(goal.data.take(total as int) =~= goal.data);
        assert(t@ =~= goal);
    }
    Ok(t)
}

/// Law: batch normalization with zero mean, unit variance, unit scale, zero
/// shift and zero epsilon returns the input data unchanged, for every input
/// tensor.
pub proof fn lemma_batchnorm_identity(
    x: TensorV,
    ones: TensorV,
    zeros: TensorV,
    attrs: Seq<AttrV>,
)
    requires
        tensor_wf(x),
        tensor_wf(ones),
        tensor_wf(zeros),
        2 <= x.shape.len() <= 4,
        ones.shape.len() == 1 && ones.shape[0] == x.shape[1],
        zeros.shape.len() == 1 && zeros.shape[0] == x.shape[1],
        forall|i: int| 0 <= i < ones.data.len() ==> #[trigger] ones.data[i] == 1,
        forall|i: int| 0 <= i < zeros.data.len() ==> #[trigger] zeros.data[i] == 0,
        attr_int_or(attrs, ATTR_EPSILON, 0) == Some(0i64),
    ensures
        spec_batchnorm(seq![x, ones, zeros, zeros, ones], attrs) == Ok::<TensorV, OnnxError>(
            TensorV { dtype: Dtype::I32, shape: x.shape, data: x.data },
        ),
{
    let ins = seq![x, ones, zeros, zeros, ones];
    let cd = x.shape[1] as int;
    assert(ins[0] == x && ins[1] == ones && ins[2] == zeros && ins[3] == zeros && ins[4] == ones);
    assert(ones.shape.skip(1).len() == 0);
    assert(shape_product(ones.shape.skip(1)) == 1);
    assert(ones.data.len() == (ones.shape[0] as nat) * 1);
    assert(zeros.shape.skip(1).len() == 0);
    assert(shape_product(zeros.shape.skip(1)) == 1);
    assert(zeros.data.len() == (zeros.shape[0] as nat) * 1);
    assert(forall|i: int| 1 <= i < 5 ==> (#[trigger] ins[i]).shape.len() == 1 && ins[i].shape[0] as int
        == cd) by {
        assert(ins[1].shape[0] == ones.shape[0] && ins[2].shape[0] == zeros.shape[0] && ins[3]
            .shape[0] == zeros.shape[0] && ins[4].shape[0] == ones.shape[0]);
    }
    assert(!(exists|c: int| 0 <= c < cd && (#[trigger] ins[4].data[c]) + 0 <= 0)) by {
        assert forall|c: int| 0 <= c < cd implies (#[trigger] ins[4].data[c]) + 0 > 0 by {
            assert(ones.data[c] == 1);
        }
    }
    assert(spec_batchnorm(ins, attrs) is Ok);
    let y = spec_batchnorm(ins, attrs).unwrap();
    assert(y.dtype == Dtype::I32 && y.shape == x.shape);
    lemma_isqrt(1);
    assert(isqrt(1) == 1) by (nonlinear_arith)
        requires
            isqrt(1) >= 1 && isqrt(1) * isqrt(1) <= 1,
    ;
    assert forall|o: int| 0 <= o < y.data.len() implies #[trigger] y.data[o] == x.data[o] by {
        assert(y.data[o] == bn_elem(x, ones, zeros, zeros, ones, 0, o));
        let sp = shape_product(x.shape.skip(2)) as int;
        lemma_product_prefix(x.shape, 2);
        assert(x.data.len() == shape_product(x.shape.take(2)) * shape_product(x.shape.skip(2)));
        assert(sp > 0 && shape_product(x.shape.take(2)) > 0) by (nonlinear_arith)
            requires
                x.data.len() > 0,
                x.data.len() == shape_product(x.shape.take(2)) * shape_product(x.shape.skip(2)),
                sp == shape_product(x.shape.skip(2)),
        ;
        assert(x.shape.take(2)[1] == x.shape[1]);
        assert(x.shape.take(2).skip(1)[0] == x.shape[1]);
        assert(x.shape.take(2).skip(1).skip(1).len() == 0);
        assert(shape_product(x.shape.take(2).skip(1).skip(1)) == 1);
        assert(shape_product(x.shape.take(2).skip(1)) == (x.shape[1] as nat) * 1);
        assert(shape_product(x.shape.take(2)) == (x.shape[0] as nat) * ((x.shape[1] as nat) * 1));
        assert(cd > 0) by (nonlinear_arith)
            requires
                shape_product(x.shape.take(2)) > 0,
                shape_product(x.shape.take(2)) == (x.shape[0] as nat) * ((x.shape[1] as nat) * 1),
                cd == x.shape[1] as int,
        ;
        let c = (o / sp) % cd;
        assert(0 <= c < cd);
        assert(ones.data[c] == 1 && zeros.data[c] == 0);
        assert(bn_elem(x, ones, zeros, zeros, ones, 0, o) == clamp(
            div_trunc((x.data[o] - 0) * 1, isqrt(1)),
        ));
        let v = x.data[o] as int;
        assert((v - 0) * 1 == v) by (nonlinear_arith);
        assert(div_trunc(v, 1) == v) by {
            if v >= 0 {
                assert(v / 1 == v);
            } else {
                assert((-v) / 1 == -v);
            }
        }
        assert(clamp(v) == x.data[o]);
    }
    assert(y =~= (TensorV { dtype: Dtype::I32, shape: x.shape, data: x.data }));
}

/// Flatten: collapse everything before `axis` into one dimension and
/// everything from `axis` on into another.
pub open spec fn spec_flatten(ins: Seq<TensorV>, attrs: Seq<AttrV>) -> Result<TensorV, OnnxError> {
    if ins.len() != 1 {
        Err(OnnxError::ShapeMismatch)
    } else {
        let x = ins[0];
        match attr_int_or(attrs, ATTR_AXIS, 1) {
            None => Err(OnnxError::ShapeMismatch),
            Some(axis) => if !(0 <= axis <= x.shape.len()) {
                Err(OnnxError::ShapeMismatch)
            } else {
                let p1 = shape_product(x.shape.take(axis as int));
                let p2 = shape_product(x.shape.skip(axis as int));
                if p1 > MAX_DIM || p2 > MAX_DIM {
                    Err(OnnxError::ShapeMismatch)
                } else {
                    Ok(
                        TensorV {
                            dtype: x.dtype,
                            shape: seq![p1 as usize, p2 as usize],
                            data: x.data,
                        },
                    )
                }
            },
        }
    }
}

/// Splitting the element count at an axis boundary.
proof fn lemma_product_prefix(s: Seq<usize>, a: int)
    requires
        0 <= a <= s.len(),
    ensures
        shape_product(s) == shape_product(s.take(a)) * shape_product(s.skip(a)),
    decreases a,
{
    if a == 0 {
        assert(s.take(0).len() == 0);
        assert(shape_product(s.take(0)) == 1);
        assert(s.skip(0) =~= s);
    } else {
        let t = s.skip(1);
        assert(t.take(a - 1) =~= s.take(a).skip(1));
        assert(t.skip(a - 1) =~= s.skip(a));
        lemma_product_prefix(t, a - 1);
        let s0 = s[0] as nat;
        let pre = shape_product(s.take(a).skip(1));
        let post = shape_product(s.skip(a));
        assert(shape_product(t) == pre * post);
        assert(shape_product(s) == s0 * shape_product(t));
        assert(s.take(a).len() > 0);
        assert(s.take(a)[0] == s[0]);
        assert(shape_product(s.take(a)) == s0 * pre);
        assert(s0 * (pre * post) == (s0 * pre) * post) by (nonlinear_arith);
    }
}

pub fn flatten(x: &Tensor, attrs: &Vec<Attr>) -> (r: Result<Tensor, OnnxError>)
    requires
        tensor_wf(x@),
    ensures
        r matches Ok(t) ==> spec_flatten(seq![x@], attrs@.map_values(|a: Attr| a@)) == Ok::<
            TensorV,
            OnnxError,
        >(t@) && tensor_wf(t@),
        r matches Err(e) ==> spec_flatten(seq![x@], attrs@.map_values(|a: Attr| a@)) == Err::<
            TensorV,
            OnnxError,
        >(e),
{
    let ghost av = attrs@.map_values(|a: Attr| a@);
    let axis = match get_int_or(attrs, ATTR_AXIS, 1) {
        None => {
            return Err(OnnxError::ShapeMismatch);
        },
        Some(v) => v,
    };
    if axis < 0 || axis > x.shape.len() as i64 {
        return Err(OnnxError::ShapeMismatch);
    }
    let a = axis as usize;
    let p1 = product_range(&x.shape, 0, a);
    let p2 = product_range(&x.shape, a, x.shape.len());
    proof {
        assert(x@.shape.subrange(0, a as int) =~= x@.shape.take(a as int));
        assert(x@.shape.subrange(a as int, x@.shape.len() as int) =~= x@.shape.skip(a as int));
    }
    if p1 > MAX_DIM as u64 || p2 > MAX_DIM as u64 {
        return Err(OnnxError::ShapeMismatch);
    }
    let mut shape: Vec<usize> = Vec::new();
    shape.push(p1 as usize);
    shape.push(p2 as usize);
    let r = Tensor { dtype: x.dtype, shape, data: copy_vec(&x.data) };
    proof {
        lemma_product_prefix(x@.shape, a as int);
        assert(r@.shape =~= seq![p1 as usize, p2 as usize]);
        assert(r@.shape.skip(1)[0] == p2 as usize);
        assert(r@.shape.skip(1).skip(1).len() == 0);
        assert(shape_product(r@.shape.skip(1).skip(1)) == 1);
        assert(shape_product(r@.shape.skip(1)) == (p2 as nat) * 1);
        assert(shape_product(r@.shape) == (p1 as nat) * ((p2 as nat) * 1));
        assert(r@ =~= spec_flatten(seq![x@], av).unwrap());
    }
    Ok(r)
}

} // verus!
