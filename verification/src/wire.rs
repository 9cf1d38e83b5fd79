//! The tensor wire codec: a little-endian, self-delimiting binary layout.
//!
//! A tensor message is: one element-type tag byte, one rank byte, the
//! dimensions as 32-bit little-endian words, then the elements (`I8`: one
//! byte each, biased by 128; `I32`: a 32-bit little-endian word each, biased
//! by 2^31). Decoding is the exact inverse of encoding; both directions of
//! the round trip are proved below.

use vstd::prelude::*;
use crate::error::OnnxError;
use crate::tensor::{Dtype, Tensor, TensorV, dims_ok, shape_product, tensor_wf, fits_i8,
    lemma_product_bound, product_of};

verus! {

/// Byte `k` (0-based, little-endian) of a 32-bit word.
pub open spec fn le_byte(v: u32, k: int) -> u8 {
    if k == 0 {
        (v % 256) as u8
    } else if k == 1 {
        ((v / 256) % 256) as u8
    } else if k == 2 {
        ((v / 65536) % 256) as u8
    } else {
        ((v / 16777216) % 256) as u8
    }
}

/// The 32-bit word with the given little-endian bytes.
pub open spec fn le_word(b0: u8, b1: u8, b2: u8, b3: u8) -> u32 {
    (b0 + 256 * (b1 as int) + 65536 * (b2 as int) + 16777216 * (b3 as int)) as u32
}

pub proof fn lemma_le_split(v: u32)
    ensures
        le_word(le_byte(v, 0), le_byte(v, 1), le_byte(v, 2), le_byte(v, 3)) == v,
{
    assert((v % 256) + 256 * ((v / 256) % 256) + 65536 * ((v / 65536) % 256) + 16777216 * ((v
        / 16777216) % 256) == v) by (bit_vector);
}

pub proof fn lemma_le_join(b0: u8, b1: u8, b2: u8, b3: u8)
    ensures
        le_byte(le_word(b0, b1, b2, b3), 0) == b0,
        le_byte(le_word(b0, b1, b2, b3), 1) == b1,
        le_byte(le_word(b0, b1, b2, b3), 2) == b2,
        le_byte(le_word(b0, b1, b2, b3), 3) == b3,
{
    let v = le_word(b0, b1, b2, b3);
    assert(v == b0 + 256 * (b1 as int) + 65536 * (b2 as int) + 16777216 * (b3 as int));
    assert(v % 256 == b0 && (v / 256) % 256 == b1 && (v / 65536) % 256 == b2 && (v / 16777216)
        % 256 == b3) by (bit_vector)
        requires
            v == b0 + 256 * (b1 as u32) + 65536 * (b2 as u32) + 16777216 * (b3 as u32),
    ;
}

/// Quotient and remainder of `4 * i + k` by 4.
pub proof fn lemma_div4(i: int, k: int)
    requires
        i >= 0,
        0 <= k < 4,
    ensures
        (4 * i + k) / 4 == i,
        (4 * i + k) % 4 == k,
{
    assert((4 * i + k) / 4 == i && (4 * i + k) % 4 == k) by (nonlinear_arith)
        requires
            i >= 0 && 0 <= k < 4,
    ;
}

/// The wire tag of an element type.
pub open spec fn dtype_tag(d: Dtype) -> u8 {
    match d {
        Dtype::I8 => 1,
        Dtype::I32 => 2,
    }
}

/// The element type of a wire tag, if the tag is known.
pub open spec fn tag_dtype(b: u8) -> Option<Dtype> {
    if b == 1 {
        Some(Dtype::I8)
    } else if b == 2 {
        Some(Dtype::I32)
    } else {
        None
    }
}

/// Bytes one element occupies on the wire.
pub open spec fn elem_size(d: Dtype) -> int {
    match d {
        Dtype::I8 => 1,
        Dtype::I32 => 4,
    }
}

/// An `I32` element, biased into an unsigned word.
pub open spec fn bias32(v: i32) -> u32 {
    (v + 0x8000_0000) as u32
}

/// The inverse of `bias32`.
pub open spec fn unbias32(w: u32) -> i32 {
    (w - 0x8000_0000) as i32
}

/// The dimension block of the encoding.
pub open spec fn enc_dims(shape: Seq<usize>) -> Seq<u8> {
    Seq::new((4 * shape.len()) as nat, |j: int| le_byte(shape[j / 4] as u32, j % 4))
}

/// The element block of the encoding.
pub open spec fn enc_elems(d: Dtype, data: Seq<i32>) -> Seq<u8> {
    match d {
        Dtype::I8 => Seq::new(data.len(), |i: int| (data[i] + 128) as u8),
        Dtype::I32 => Seq::new((4 * data.len()) as nat, |j: int| le_byte(bias32(data[j / 4]), j % 4)),
    }
}

/// The full wire encoding of a tensor.
pub open spec fn spec_encode_tensor(t: TensorV) -> Seq<u8> {
    seq![dtype_tag(t.dtype), t.shape.len() as u8] + enc_dims(t.shape) + enc_elems(t.dtype, t.data)
}

/// The element block read back from the wire.
pub open spec fn dec_elems(d: Dtype, b: Seq<u8>, start: int, n: int) -> Seq<i32> {
    match d {
        Dtype::I8 => Seq::new(n as nat, |i: int| (b[start + i] - 128) as i32),
        Dtype::I32 => Seq::new(
            n as nat,
            |i: int| unbias32(
                le_word(b[start + 4 * i], b[start + 4 * i + 1], b[start + 4 * i + 2], b[start + 4 * i + 3]),
            ),
        ),
    }
}

/// Positional decoding of one tensor message starting at `pos`: the decoded
/// tensor and the position just past it, or `None` on malformed bytes.
pub open spec fn sdec_tensor(b: Seq<u8>, pos: int) -> Option<(TensorV, int)> {
    if pos + 2 > b.len() {
        None
    } else {
        match tag_dtype(b[pos]) {
            None => None,
            Some(d) => {
                let r = b[pos + 1] as int;
                if r > 4 || pos + 2 + 4 * r > b.len() {
                    None
                } else {
                    let shape = Seq::new(
                        r as nat,
                        |i: int| le_word(
                            b[pos + 2 + 4 * i],
                            b[pos + 2 + 4 * i + 1],
                            b[pos + 2 + 4 * i + 2],
                            b[pos + 2 + 4 * i + 3],
                        ) as usize,
                    );
                    if !dims_ok(shape) {
                        None
                    } else {
                        let n = shape_product(shape) as int;
                        let dstart = pos + 2 + 4 * r;
                        if dstart + n * elem_size(d) > b.len() {
                            None
                        } else {
                            Some(
                                (
                                    TensorV { dtype: d, shape, data: dec_elems(d, b, dstart, n) },
                                    dstart + n * elem_size(d),
                                ),
                            )
                        }
                    }
                }
            },
        }
    }
}

/// Whole-buffer decoding: the message must span the buffer exactly.
pub open spec fn spec_decode_tensor(b: Seq<u8>) -> Option<TensorV> {
    match sdec_tensor(b, 0) {
        None => None,
        Some((t, end)) => if end == b.len() {
            Some(t)
        } else {
            None
        },
    }
}

/// A decoded tensor is well formed.
pub proof fn lemma_sdec_wf(b: Seq<u8>, pos: int)
    requires
        sdec_tensor(b, pos) is Some,
    ensures
        tensor_wf(sdec_tensor(b, pos).unwrap().0),
        pos <= sdec_tensor(b, pos).unwrap().1 <= b.len(),
{
    let (t, end) = sdec_tensor(b, pos).unwrap();
    let n = shape_product(t.shape) as int;
    assert(t.data.len() == n);
    if t.dtype == Dtype::I8 {
        assert forall|i: int| 0 <= i < t.data.len() implies fits_i8(t.data[i]) by {
            let dstart = pos + 2 + 4 * (b[pos + 1] as int);
            assert(t.data[i] == (b[dstart + i] - 128) as i32);
        }
    }
    assert(n * elem_size(t.dtype) >= 0) by (nonlinear_arith)
        requires
            n >= 0,
            elem_size(t.dtype) >= 1,
    ;
}

/// Round trip, first direction: decoding an encoded tensor yields the tensor
/// back, bit for bit.
pub proof fn lemma_decode_encode(t: TensorV)
    requires
        tensor_wf(t),
    ensures
        spec_decode_tensor(spec_encode_tensor(t)) == Some(t),
{
    let b = spec_encode_tensor(t);
    let r = t.shape.len() as int;
    let n = t.data.len() as int;
    let es = elem_size(t.dtype);
    assert(enc_elems(t.dtype, t.data).len() == n * es);
    assert(b.len() == 2 + 4 * r + n * es);
    assert(b[0] == dtype_tag(t.dtype));
    assert(b[1] == r as u8);
    assert(tag_dtype(b[0]) == Some(t.dtype));
    assert(b[1] as int == r);
    // every byte of the dimension block reads back
    assert forall|j: int| 0 <= j < 4 * r implies #[trigger] b[2 + j] == le_byte(t.shape[j / 4] as u32, j % 4) by {
        assert(b[2 + j] == enc_dims(t.shape)[j]);
    }
    let shape = Seq::new(
        r as nat,
        |i: int| le_word(b[2 + 4 * i], b[2 + 4 * i + 1], b[2 + 4 * i + 2], b[2 + 4 * i + 3]) as usize,
    );
    assert forall|i: int| 0 <= i < r implies shape[i] == t.shape[i] by {
        lemma_div4(i, 0);
        lemma_div4(i, 1);
        lemma_div4(i, 2);
        lemma_div4(i, 3);
        assert(b[2 + 4 * i] == le_byte(t.shape[i] as u32, 0));
        assert(b[2 + (4 * i + 1)] == le_byte(t.shape[i] as u32, 1));
        assert(b[2 + (4 * i + 2)] == le_byte(t.shape[i] as u32, 2));
        assert(b[2 + (4 * i + 3)] == le_byte(t.shape[i] as u32, 3));
        lemma_le_split(t.shape[i] as u32);
    }
    assert(shape =~= t.shape);
    let dstart = 2 + 4 * r;
    assert(shape_product(shape) as int == n);
    assert(dstart + n * es == b.len());
    let data = dec_elems(t.dtype, b, dstart, n);
    assert forall|i: int| 0 <= i < n implies data[i] == t.data[i] by {
        match t.dtype {
            Dtype::I8 => {
                assert(b[dstart + i] == enc_elems(t.dtype, t.data)[i]);
                assert(b[dstart + i] == (t.data[i] + 128) as u8);
                assert(fits_i8(t.data[i]));
            },
            Dtype::I32 => {
                lemma_div4(i, 0);
                lemma_div4(i, 1);
                lemma_div4(i, 2);
                lemma_div4(i, 3);
                assert(b[dstart + 4 * i] == enc_elems(t.dtype, t.data)[4 * i]);
                assert(b[dstart + 4 * i + 1] == enc_elems(t.dtype, t.data)[4 * i + 1]);
                assert(b[dstart + 4 * i + 2] == enc_elems(t.dtype, t.data)[4 * i + 2]);
                assert(b[dstart + 4 * i + 3] == enc_elems(t.dtype, t.data)[4 * i + 3]);
                assert(b[dstart + 4 * i] == le_byte(bias32(t.data[i]), 0));
                assert(b[dstart + 4 * i + 1] == le_byte(bias32(t.data[i]), 1));
                assert(b[dstart + 4 * i + 2] == le_byte(bias32(t.data[i]), 2));
                assert(b[dstart + 4 * i + 3] == le_byte(bias32(t.data[i]), 3));
                lemma_le_split(bias32(t.data[i]));
                assert(unbias32(bias32(t.data[i])) == t.data[i]);
            },
        }
    }
    assert(data =~= t.data);
    let decoded = sdec_tensor(b, 0).unwrap().0;
    assert(decoded =~= t);
}

/// Round trip, second direction: re-encoding a decoded buffer yields the
/// buffer back, bit for bit.
pub proof fn lemma_encode_decode(b: Seq<u8>)
    requires
        spec_decode_tensor(b) is Some,
    ensures
        tensor_wf(spec_decode_tensor(b).unwrap()),
        spec_encode_tensor(spec_decode_tensor(b).unwrap()) == b,
{
    lemma_sdec_wf(b, 0);
    let t = spec_decode_tensor(b).unwrap();
    let r = t.shape.len() as int;
    let n = t.data.len() as int;
    let es = elem_size(t.dtype);
    let e = spec_encode_tensor(t);
    assert(n == shape_product(t.shape) as int);
    assert(b.len() == 2 + 4 * r + n * es);
    assert(e.len() == 2 + 4 * r + n * es);
    assert forall|j: int| 0 <= j < e.len() implies e[j] == b[j] by {
        if j == 0 {
            assert(tag_dtype(b[0]) == Some(t.dtype));
            assert(e[0] == dtype_tag(t.dtype));
        } else if j == 1 {
            assert(t.shape.len() == b[1] as int);
            assert(e[1] == t.shape.len() as u8);
        } else if j < 2 + 4 * r {
            let jj = j - 2;
            let i = jj / 4;
            let k = jj % 4;
            assert(0 <= k < 4 && jj == 4 * i + k) by (nonlinear_arith)
                requires
                    jj >= 0 && i == jj / 4 && k == jj % 4,
            ;
            assert(0 <= i < r) by (nonlinear_arith)
                requires
                    0 <= jj < 4 * r && i == jj / 4,
            ;
            assert(e[j] == enc_dims(t.shape)[jj]);
            lemma_div4(i, k);
            assert(enc_dims(t.shape)[jj] == le_byte(t.shape[i] as u32, k));
            let w = le_word(b[2 + 4 * i], b[2 + 4 * i + 1], b[2 + 4 * i + 2], b[2 + 4 * i + 3]);
            assert(t.shape[i] == w as usize);
            assert(t.shape[i] as u32 == w);
            lemma_le_join(b[2 + 4 * i], b[2 + 4 * i + 1], b[2 + 4 * i + 2], b[2 + 4 * i + 3]);
            assert(le_byte(w, k) == b[2 + 4 * i + k]);
        } else {
            let dstart = 2 + 4 * r;
            let jj = j - dstart;
            match t.dtype {
                Dtype::I8 => {
                    assert(e[j] == enc_elems(t.dtype, t.data)[jj]);
                    assert(t.data[jj] == (b[dstart + jj] - 128) as i32);
                    assert(e[j] == (t.data[jj] + 128) as u8);
                },
                Dtype::I32 => {
                    let i = jj / 4;
                    let k = jj % 4;
                    assert(0 <= k < 4 && jj == 4 * i + k) by (nonlinear_arith)
                        requires
                            jj >= 0 && i == jj / 4 && k == jj % 4,
                    ;
                    assert(0 <= i < n) by (nonlinear_arith)
                        requires
                            0 <= jj < 4 * n && i == jj / 4,
                    ;
                    assert(e[j] == enc_elems(t.dtype, t.data)[jj]);
                    lemma_div4(i, k);
                    assert(enc_elems(t.dtype, t.data)[jj] == le_byte(bias32(t.data[i]), k));
                    let w = le_word(
                        b[dstart + 4 * i],
                        b[dstart + 4 * i + 1],
                        b[dstart + 4 * i + 2],
                        b[dstart + 4 * i + 3],
                    );
                    assert(t.data[i] == unbias32(w));
                    assert(bias32(t.data[i]) == w);
                    lemma_le_join(
                        b[dstart + 4 * i],
                        b[dstart + 4 * i + 1],
                        b[dstart + 4 * i + 2],
                        b[dstart + 4 * i + 3],
                    );
                    assert(le_byte(w, k) == b[dstart + 4 * i + k]);
                },
            }
        }
    }
    assert(e =~= b);
}

fn push_le4(out: &mut Vec<u8>, v: u32)
    ensures
        final(out)@ == old(out)@ + seq![le_byte(v, 0), le_byte(v, 1), le_byte(v, 2), le_byte(v, 3)],
{
    out.push((v % 256) as u8);
    out.push(((v / 256) % 256) as u8);
    out.push(((v / 65536) % 256) as u8);
    out.push(((v / 16777216) % 256) as u8);
    assert(out@ =~= old(out)@ + seq![le_byte(v, 0), le_byte(v, 1), le_byte(v, 2), le_byte(v, 3)]);
}

fn read_le4(b: &Vec<u8>, pos: usize) -> (r: u32)
    requires
        pos + 4 <= b@.len(),
    ensures
        r == le_word(b@[pos as int], b@[pos as int + 1], b@[pos as int + 2], b@[pos as int + 3]),
{
    let blen = b.len();
    assert(pos + 4 <= blen);
    let b0 = b[pos] as u32;
    let b1 = b[pos + 1] as u32;
    let b2 = b[pos + 2] as u32;
    let b3 = b[pos + 3] as u32;
    b0 + 256 * b1 + 65536 * b2 + 16777216 * b3
}

/// Encodes a tensor to its wire bytes. The exact bytes are given by
/// `spec_encode_tensor`, so `lemma_decode_encode` applies to the result.
pub fn encode_tensor(t: &Tensor) -> (r: Vec<u8>)
    requires
        tensor_wf(t@),
    ensures
        r@ == spec_encode_tensor(t@),
{
    let ghost header: Seq<u8> = seq![dtype_tag(t@.dtype), t@.shape.len() as u8];
    let mut out: Vec<u8> = Vec::new();
    let tag: u8 = match t.dtype {
        Dtype::I8 => 1,
        Dtype::I32 => 2,
    };
    out.push(tag);
    out.push(t.shape.len() as u8);
    assert(out@ =~= header);
    let mut i: usize = 0;
    while i < t.shape.len()
        invariant
            i <= t.shape.len(),
            tensor_wf(t@),
            out@ == header + enc_dims(t@.shape).take(4 * i as int),
        decreases t.shape.len() - i,
    {
        push_le4(&mut out, t.shape[i] as u32);
        proof {
            let s = enc_dims(t@.shape);
            assert forall|k: int| 0 <= k < 4 implies #[trigger] s[4 * i + k] == le_byte(
                t@.shape[i as int] as u32,
                k,
            ) by {
                lemma_div4(i as int, k);
            }
            assert(s.take(4 * (i + 1) as int) =~= s.take(4 * i as int) + seq![
                le_byte(t@.shape[i as int] as u32, 0),
                le_byte(t@.shape[i as int] as u32, 1),
                le_byte(t@.shape[i as int] as u32, 2),
                le_byte(t@.shape[i as int] as u32, 3),
            ]);
        }
        i += 1;
    }
    assert(enc_dims(t@.shape).take(4 * t.shape@.len() as int) =~= enc_dims(t@.shape));
    let ghost mid: Seq<u8> = header + enc_dims(t@.shape);
    let ghost elems: Seq<u8> = enc_elems(t@.dtype, t@.data);
    let mut k: usize = 0;
    match t.dtype {
        Dtype::I8 => {
            while k < t.data.len()
                invariant
                    k <= t.data.len(),
                    tensor_wf(t@),
                    t@.dtype == Dtype::I8,
                    elems == enc_elems(t@.dtype, t@.data),
                    mid == header + enc_dims(t@.shape),
                    out@ == mid + elems.take(k as int),
                decreases t.data.len() - k,
            {
                assert(fits_i8(t@.data[k as int]));
                out.push((t.data[k] + 128) as u8);
                proof {
                    assert(elems.take(k + 1) =~= elems.take(k as int) + seq![
                        (t@.data[k as int] + 128) as u8,
                    ]);
                }
                k += 1;
            }
        },
        Dtype::I32 => {
            while k < t.data.len()
                invariant
                    k <= t.data.len(),
                    tensor_wf(t@),
                    t@.dtype == Dtype::I32,
                    elems == enc_elems(t@.dtype, t@.data),
                    mid == header + enc_dims(t@.shape),
                    out@ == mid + elems.take(4 * k as int),
                decreases t.data.len() - k,
            {
                let w = ((t.data[k] as i64) + 0x8000_0000i64) as u32;
                assert(w == bias32(t@.data[k as int]));
                push_le4(&mut out, w);
                proof {
                    assert forall|q: int| 0 <= q < 4 implies #[trigger] elems[4 * k + q] == le_byte(w, q) by {
                        lemma_div4(k as int, q);
                    }
                    assert(elems.take(4 * (k + 1) as int) =~= elems.take(4 * k as int) + seq![
                        le_byte(w, 0),
                        le_byte(w, 1),
                        le_byte(w, 2),
                        le_byte(w, 3),
                    ]);
                }
                k += 1;
            }
        },
    }
    proof {
        match t@.dtype {
            Dtype::I8 => {
                assert(elems.take(t@.data.len() as int) =~= elems);
            },
            Dtype::I32 => {
                assert(elems.take(4 * t@.data.len() as int) =~= elems);
            },
        }
        assert(out@ =~= spec_encode_tensor(t@));
    }
    out
}

/// Decodes one tensor message starting at `pos`; on success returns the
/// tensor and the position just past the message. The accepted bytes and the
/// result are exactly those of `sdec_tensor`; anything else is `Decode`.
pub fn decode_tensor_at(b: &Vec<u8>, pos: usize) -> (r: Result<(Tensor, usize), OnnxError>)
    requires
        pos <= b@.len(),
    ensures
        r matches Ok(p) ==> sdec_tensor(b@, pos as int) == Some((p.0@, p.1 as int))
            && tensor_wf(p.0@) && pos <= p.1 <= b@.len(),
        r is Err ==> sdec_tensor(b@, pos as int) is None
            && r == Err::<(Tensor, usize), OnnxError>(OnnxError::Decode),
{
    if b.len() - pos < 2 {
        return Err(OnnxError::Decode);
    }
    let d: Dtype = match b[pos] {
        1u8 => Dtype::I8,
        2u8 => Dtype::I32,
        _ => {
            return Err(OnnxError::Decode);
        },
    };
    assert(tag_dtype(b@[pos as int]) == Some(d));
    let rank = b[pos + 1] as usize;
    if rank > 4 {
        return Err(OnnxError::Decode);
    }
    if b.len() - (pos + 2) < 4 * rank {
        return Err(OnnxError::Decode);
    }
    let ghost sshape: Seq<usize> = Seq::new(
        rank as nat,
        |i: int| le_word(
            b@[pos + 2 + 4 * i],
            b@[pos + 2 + 4 * i + 1],
            b@[pos + 2 + 4 * i + 2],
            b@[pos + 2 + 4 * i + 3],
        ) as usize,
    );
    let mut shape: Vec<usize> = Vec::new();
    let mut i: usize = 0;
    while i < rank
        invariant
            i <= rank,
            pos + 2 + 4 * rank <= b@.len(),
            b@.len() <= usize::MAX,
            rank <= 4,
            tag_dtype(b@[pos as int]) == Some(d),
            rank == b@[pos as int + 1] as usize,
            sshape.len() == rank,
            sshape == Seq::new(
                rank as nat,
                |q: int| le_word(
                    b@[pos + 2 + 4 * q],
                    b@[pos + 2 + 4 * q + 1],
                    b@[pos + 2 + 4 * q + 2],
                    b@[pos + 2 + 4 * q + 3],
                ) as usize,
            ),
            shape@ == sshape.take(i as int),
            forall|q: int| 0 <= q < i ==> sshape[q] <= 0xFFFF,
        decreases rank - i,
    {
        let w = read_le4(b, pos + 2 + 4 * i);
        if w > 0xFFFF {
            proof {
                assert(sshape[i as int] == w as usize);
                assert(!dims_ok(sshape));
            }
            return Err(OnnxError::Decode);
        }
        shape.push(w as usize);
        proof {
            assert(shape@ =~= sshape.take(i + 1));
        }
        i += 1;
    }
    proof {
        assert(shape@ =~= sshape);
        assert(dims_ok(sshape));
    }
    let n = product_of(&shape);
    let dstart = pos + 2 + 4 * rank;
    let avail = b.len() - dstart;
    let es: u64 = match d {
        Dtype::I8 => 1,
        Dtype::I32 => 4,
    };
    assert(es as int == elem_size(d));
    if n > (avail as u64) / es {
        proof {
            assert((n as int) * (es as int) > avail as int) by (nonlinear_arith)
                requires
                    es == 1 || es == 4,
                    n as int > (avail as u64 / es) as int,
                    avail as u64 / es == ((avail as u64) as int / (es as int)) as u64,
                    avail as int >= 0,
                    (avail as u64) as int == avail as int,
            ;
        }
        return Err(OnnxError::Decode);
    }
    proof {
        assert((n as int) * (es as int) <= avail as int) by (nonlinear_arith)
            requires
                es == 1 || es == 4,
                n as int <= (avail as u64 / es) as int,
                avail as u64 / es == ((avail as u64) as int / (es as int)) as u64,
                avail as int >= 0,
                (avail as u64) as int == avail as int,
        ;
    }
    let count = n as usize;
    let ghost sdata: Seq<i32> = dec_elems(d, b@, dstart as int, n as int);
    let mut data: Vec<i32> = Vec::new();
    let mut k: usize = 0;
    match d {
        Dtype::I8 => {
            while k < count
                invariant
                    k <= count,
                    d == Dtype::I8,
                    count * 1 <= avail,
                    dstart + avail == b@.len(),
                    b@.len() <= usize::MAX,
                    sdata == dec_elems(d, b@, dstart as int, count as int),
                    sdata.len() == count,
                    data@ == sdata.take(k as int),
                decreases count - k,
            {
                let v = (b[dstart + k] as i32) - 128;
                data.push(v);
                proof {
                    assert(sdata[k as int] == v);
                    assert(data@ =~= sdata.take(k + 1));
                }
                k += 1;
            }
        },
        Dtype::I32 => {
            while k < count
                invariant
                    k <= count,
                    d == Dtype::I32,
                    count * 4 <= avail,
                    dstart + avail == b@.len(),
                    b@.len() <= usize::MAX,
                    sdata == dec_elems(d, b@, dstart as int, count as int),
                    sdata.len() == count,
                    data@ == sdata.take(k as int),
                decreases count - k,
            {
                proof {
                    assert(4 * (k as int) + 4 <= count * 4) by (nonlinear_arith)
                        requires
                            (k as int) < count as int,
                    ;
                }
                let w = read_le4(b, dstart + 4 * k);
                let v = ((w as i64) - 0x8000_0000i64) as i32;
                data.push(v);
                proof {
                    assert(sdata[k as int] == unbias32(
                        le_word(
                            b@[dstart + 4 * k as int],
                            b@[dstart + 4 * k as int + 1],
                            b@[dstart + 4 * k as int + 2],
                            b@[dstart + 4 * k as int + 3],
                        ),
                    ));
                    assert(sdata[k as int] == v);
                    assert(data@ =~= sdata.take(k + 1));
                }
                k += 1;
            }
        },
    }
    proof {
        assert(data@ =~= sdata);
    }
    let end = dstart + count * (es as usize);
    let t = Tensor { dtype: d, shape, data };
    proof {
        assert(sdec_tensor(b@, pos as int) == Some((t@, end as int)));
        lemma_sdec_wf(b@, pos as int);
    }
    Ok((t, end))
}

/// Decodes a standalone tensor message; the message must span the buffer
/// exactly. Succeeds on precisely the buffers `spec_decode_tensor` accepts
/// and returns exactly the tensor it gives; anything else is `Decode`.
pub fn decode_tensor(b: &Vec<u8>) -> (r: Result<Tensor, OnnxError>)
    ensures
        r matches Ok(t) ==> spec_decode_tensor(b@) == Some(t@) && tensor_wf(t@),
        r is Err ==> spec_decode_tensor(b@) is None
            && r == Err::<Tensor, OnnxError>(OnnxError::Decode),
{
    match decode_tensor_at(b, 0) {
        Err(e) => Err(e),
        Ok((t, end)) => {
            if end == b.len() {
                Ok(t)
            } else {
                Err(OnnxError::Decode)
            }
        },
    }
}

} // verus!
