//! The graph definition: nodes with a closed operator tag, named inputs and
//! outputs, typed attributes, initializer tensors, and the declared graph
//! input and output names — plus the versioned binary model format.
//!
//! A model message is: one version byte (1), a 16-bit initializer count and
//! that many (name, tensor message) pairs, a 16-bit node count and that many
//! nodes, then the graph input name and the graph output name. A node is its
//! operator tag byte, its input names, output names and attributes, each list
//! preceded by an 8-bit count. A name is an 8-bit length plus bytes. An
//! attribute value is either one integer or a counted list of integers; the
//! integers travel as 64-bit little-endian words biased by 2^63.

use vstd::prelude::*;
use crate::error::OnnxError;
use crate::tensor::{Tensor, TensorV, tensor_wf};
use crate::wire::{sdec_tensor, decode_tensor_at};

verus! {

/// The closed set of operator tags. A tag byte the runtime does not know
/// decodes to `Other` and fails at execution time with `UnknownOp`.
#[derive(Clone, Copy, Debug, PartialEq, Eq, Structural)]
pub enum OpKind {
    Relu,
    Conv,
    MaxPool,
    AveragePool,
    GlobalAveragePool,
    Gemm,
    BatchNormalization,
    Concat,
    Reshape,
    Flatten,
    Dropout,
    Identity,
    Add,
    Other(u8),
}

/// A typed attribute value: one integer or a list of integers. There is no
/// implicit coercion between the two kinds.
#[derive(Debug)]
pub enum AttrValue {
    Int(i64),
    Ints(Vec<i64>),
}

/// A keyed attribute of a node. Attributes are identified by one-byte keys,
/// in the manner of wire-format field numbers; the `ATTR_` constants below
/// name the keys the kernels read.
#[derive(Debug)]
pub struct Attr {
    pub key: u8,
    pub value: AttrValue,
}

pub const ATTR_STRIDES: u8 = 1;

pub const ATTR_PADS: u8 = 2;

pub const ATTR_DILATIONS: u8 = 3;

pub const ATTR_GROUP: u8 = 4;

pub const ATTR_KERNEL_SHAPE: u8 = 5;

pub const ATTR_AXIS: u8 = 6;

pub const ATTR_ALPHA: u8 = 7;

pub const ATTR_BETA: u8 = 8;

pub const ATTR_TRANS_A: u8 = 9;

pub const ATTR_TRANS_B: u8 = 10;

pub const ATTR_EPSILON: u8 = 11;

pub const ATTR_SHAPE: u8 = 12;

/// One operation of the graph.
#[derive(Debug)]
pub struct Node {
    pub op: OpKind,
    pub inputs: Vec<Vec<u8>>,
    pub outputs: Vec<Vec<u8>>,
    pub attrs: Vec<Attr>,
}

/// A parsed model. Immutable once parsed.
#[derive(Debug)]
pub struct Model {
    pub initializers: Vec<(Vec<u8>, Tensor)>,
    pub nodes: Vec<Node>,
    pub input_name: Vec<u8>,
    pub output_name: Vec<u8>,
}

#[verifier::ext_equal]
pub enum AttrValueV {
    Int(i64),
    Ints(Seq<i64>),
}

#[verifier::ext_equal]
pub struct AttrV {
    pub key: u8,
    pub value: AttrValueV,
}

#[verifier::ext_equal]
pub struct NodeV {
    pub op: OpKind,
    pub inputs: Seq<Seq<u8>>,
    pub outputs: Seq<Seq<u8>>,
    pub attrs: Seq<AttrV>,
}

#[verifier::ext_equal]
pub struct ModelV {
    pub initializers: Seq<(Seq<u8>, TensorV)>,
    pub nodes: Seq<NodeV>,
    pub input_name: Seq<u8>,
    pub output_name: Seq<u8>,
}

impl View for AttrValue {
    type V = AttrValueV;

    open spec fn view(&self) -> AttrValueV {
        match self {
            AttrValue::Int(v) => AttrValueV::Int(*v),
            AttrValue::Ints(vs) => AttrValueV::Ints(vs@),
        }
    }
}

impl View for Attr {
    type V = AttrV;

    open spec fn view(&self) -> AttrV {
        AttrV { key: self.key, value: self.value@ }
    }
}

impl View for Node {
    type V = NodeV;

    open spec fn view(&self) -> NodeV {
        NodeV {
            op: self.op,
            inputs: self.inputs@.map_values(|v: Vec<u8>| v@),
            outputs: self.outputs@.map_values(|v: Vec<u8>| v@),
            attrs: self.attrs@.map_values(|a: Attr| a@),
        }
    }
}

impl View for Model {
    type V = ModelV;

    open spec fn view(&self) -> ModelV {
        ModelV {
            initializers: self.initializers@.map_values(|p: (Vec<u8>, Tensor)| (p.0@, p.1@)),
            nodes: self.nodes@.map_values(|n: Node| n@),
            input_name: self.input_name@,
            output_name: self.output_name@,
        }
    }
}

/// Every initializer tensor of a well-formed model is itself well formed.
pub open spec fn model_wf(m: ModelV) -> bool {
    forall|i: int| 0 <= i < m.initializers.len() ==> tensor_wf(#[trigger] m.initializers[i].1)
}

/// The first attribute with the given key, if any.
pub open spec fn find_attr(attrs: Seq<AttrV>, key: u8) -> Option<AttrValueV>
    decreases attrs.len(),
{
    if attrs.len() == 0 {
        None
    } else if attrs[0].key == key {
        Some(attrs[0].value)
    } else {
        find_attr(attrs.skip(1), key)
    }
}

/// An integer attribute, a default when absent, a failure on a kind mismatch.
pub open spec fn attr_int_or(attrs: Seq<AttrV>, key: u8, dflt: i64) -> Option<i64> {
    match find_attr(attrs, key) {
        None => Some(dflt),
        Some(AttrValueV::Int(v)) => Some(v),
        Some(AttrValueV::Ints(_)) => None,
    }
}

/// An integer-list attribute, a default when absent, a failure on a kind
/// mismatch.
pub open spec fn attr_ints_or(attrs: Seq<AttrV>, key: u8, dflt: Seq<i64>) -> Option<Seq<i64>> {
    match find_attr(attrs, key) {
        None => Some(dflt),
        Some(AttrValueV::Ints(vs)) => Some(vs),
        Some(AttrValueV::Int(_)) => None,
    }
}

/// The operator of a tag byte.
pub open spec fn tag_op(t: u8) -> OpKind {
    if t == 1 {
        OpKind::Relu
    } else if t == 2 {
        OpKind::Conv
    } else if t == 3 {
        OpKind::MaxPool
    } else if t == 4 {
        OpKind::AveragePool
    } else if t == 5 {
        OpKind::GlobalAveragePool
    } else if t == 6 {
        OpKind::Gemm
    } else if t == 7 {
        OpKind::BatchNormalization
    } else if t == 8 {
        OpKind::Concat
    } else if t == 9 {
        OpKind::Reshape
    } else if t == 10 {
        OpKind::Flatten
    } else if t == 11 {
        OpKind::Dropout
    } else if t == 12 {
        OpKind::Identity
    } else if t == 13 {
        OpKind::Add
    } else {
        OpKind::Other(t)
    }
}

/// A 64-bit little-endian word, as an unbounded integer.
pub open spec fn le_qword(b: Seq<u8>, pos: int) -> int {
    b[pos] + 0x100 * (b[pos + 1] as int) + 0x10000 * (b[pos + 2] as int) + 0x1000000 * (b[pos + 3] as int)
        + 0x100000000 * (b[pos + 4] as int) + 0x10000000000 * (b[pos + 5] as int)
        + 0x1000000000000 * (b[pos + 6] as int) + 0x100000000000000 * (b[pos + 7] as int)
}

pub open spec fn sdec_i64(b: Seq<u8>, pos: int) -> Option<(i64, int)> {
    if pos + 8 > b.len() {
        None
    } else {
        Some(((le_qword(b, pos) - 0x8000_0000_0000_0000) as i64, pos + 8))
    }
}

pub open spec fn sdec_name(b: Seq<u8>, pos: int) -> Option<(Seq<u8>, int)> {
    if pos + 1 > b.len() {
        None
    } else {
        let l = b[pos] as int;
        if pos + 1 + l > b.len() {
            None
        } else {
            Some((b.subrange(pos + 1, pos + 1 + l), pos + 1 + l))
        }
    }
}

pub open spec fn sdec_names(b: Seq<u8>, pos: int, k: int) -> Option<(Seq<Seq<u8>>, int)>
    decreases k,
{
    if k <= 0 {
        Some((Seq::empty(), pos))
    } else {
        match sdec_name(b, pos) {
            None => None,
            Some((n, p1)) => match sdec_names(b, p1, k - 1) {
                None => None,
                Some((rest, p2)) => Some((seq![n] + rest, p2)),
            },
        }
    }
}

pub open spec fn sdec_i64s(b: Seq<u8>, pos: int, k: int) -> Option<(Seq<i64>, int)>
    decreases k,
{
    if k <= 0 {
        Some((Seq::empty(), pos))
    } else {
        match sdec_i64(b, pos) {
            None => None,
            Some((v, p1)) => match sdec_i64s(b, p1, k - 1) {
                None => None,
                Some((rest, p2)) => Some((seq![v] + rest, p2)),
            },
        }
    }
}

pub open spec fn sdec_attr(b: Seq<u8>, pos: int) -> Option<(AttrV, int)> {
    if pos + 2 > b.len() {
        None
    } else {
        let key = b[pos];
        let kind = b[pos + 1];
        if kind == 1 {
            match sdec_i64(b, pos + 2) {
                None => None,
                Some((v, p2)) => Some((AttrV { key, value: AttrValueV::Int(v) }, p2)),
            }
        } else if kind == 2 {
            if pos + 3 > b.len() {
                None
            } else {
                let cnt = b[pos + 2] as int;
                match sdec_i64s(b, pos + 3, cnt) {
                    None => None,
                    Some((vs, p2)) => Some((AttrV { key, value: AttrValueV::Ints(vs) }, p2)),
                }
            }
        } else {
            None
        }
    }
}

pub open spec fn sdec_attrs(b: Seq<u8>, pos: int, k: int) -> Option<(Seq<AttrV>, int)>
    decreases k,
{
    if k <= 0 {
        Some((Seq::empty(), pos))
    } else {
        match sdec_attr(b, pos) {
            None => None,
            Some((a, p1)) => match sdec_attrs(b, p1, k - 1) {
                None => None,
                Some((rest, p2)) => Some((seq![a] + rest, p2)),
            },
        }
    }
}

pub open spec fn sdec_node(b: Seq<u8>, pos: int) -> Option<(NodeV, int)> {
    if pos + 2 > b.len() {
        None
    } else {
        let op = tag_op(b[pos]);
        let nin = b[pos + 1] as int;
        match sdec_names(b, pos + 2, nin) {
            None => None,
            Some((ins, p1)) => if p1 + 1 > b.len() {
                None
            } else {
                let nout = b[p1] as int;
                match sdec_names(b, p1 + 1, nout) {
                    None => None,
                    Some((outs, p2)) => if p2 + 1 > b.len() {
                        None
                    } else {
                        let nattr = b[p2] as int;
                        match sdec_attrs(b, p2 + 1, nattr) {
                            None => None,
                            Some((ats, p3)) => Some(
                                (NodeV { op, inputs: ins, outputs: outs, attrs: ats }, p3),
                            ),
                        }
                    },
                }
            },
        }
    }
}

pub open spec fn sdec_nodes(b: Seq<u8>, pos: int, k: int) -> Option<(Seq<NodeV>, int)>
    decreases k,
{
    if k <= 0 {
        Some((Seq::empty(), pos))
    } else {
        match sdec_node(b, pos) {
            None => None,
            Some((n, p1)) => match sdec_nodes(b, p1, k - 1) {
                None => None,
                Some((rest, p2)) => Some((seq![n] + rest, p2)),
            },
        }
    }
}

pub open spec fn sdec_init(b: Seq<u8>, pos: int) -> Option<((Seq<u8>, TensorV), int)> {
    match sdec_name(b, pos) {
        None => None,
        Some((n, p1)) => match sdec_tensor(b, p1) {
            None => None,
            Some((t, p2)) => Some(((n, t), p2)),
        },
    }
}

pub open spec fn sdec_inits(b: Seq<u8>, pos: int, k: int) -> Option<(Seq<(Seq<u8>, TensorV)>, int)>
    decreases k,
{
    if k <= 0 {
        Some((Seq::empty(), pos))
    } else {
        match sdec_init(b, pos) {
            None => None,
            Some((p, p1)) => match sdec_inits(b, p1, k - 1) {
                None => None,
                Some((rest, p2)) => Some((seq![p] + rest, p2)),
            },
        }
    }
}

/// Whole-buffer decoding of a model message; the message must span the
/// buffer exactly.
pub open spec fn spec_decode_model(b: Seq<u8>) -> Option<ModelV> {
    if b.len() < 3 || b[0] != 1 {
        None
    } else {
        let ninit = b[1] + 0x100 * (b[2] as int);
        match sdec_inits(b, 3, ninit) {
            None => None,
            Some((inits, p1)) => if p1 + 2 > b.len() {
                None
            } else {
                let nnodes = b[p1] + 0x100 * (b[p1 + 1] as int);
                match sdec_nodes(b, p1 + 2, nnodes) {
                    None => None,
                    Some((nodes, p2)) => match sdec_name(b, p2) {
                        None => None,
                        Some((inname, p3)) => match sdec_name(b, p3) {
                            None => None,
                            Some((outname, p4)) => if p4 == b.len() {
                                Some(
                                    ModelV {
                                        initializers: inits,
                                        nodes,
                                        input_name: inname,
                                        output_name: outname,
                                    },
                                )
                            } else {
                                None
                            },
                        },
                    },
                }
            },
        }
    }
}

/// Every tensor of a decoded initializer list is well formed.
pub proof fn lemma_sdec_inits_wf(b: Seq<u8>, pos: int, k: int)
    requires
        sdec_inits(b, pos, k) is Some,
    ensures
        forall|j: int| 0 <= j < sdec_inits(b, pos, k).unwrap().0.len() ==> tensor_wf(
            #[trigger] sdec_inits(b, pos, k).unwrap().0[j].1,
        ),
    decreases k,
{
    if k <= 0 {
    } else {
        let (p, p1) = sdec_init(b, pos).unwrap();
        crate::wire::lemma_sdec_wf(b, sdec_name(b, pos).unwrap().1);
        lemma_sdec_inits_wf(b, p1, k - 1);
        let rest = sdec_inits(b, p1, k - 1).unwrap().0;
        assert forall|j: int| 0 <= j < sdec_inits(b, pos, k).unwrap().0.len() implies tensor_wf(
            #[trigger] sdec_inits(b, pos, k).unwrap().0[j].1,
        ) by {
            if j == 0 {
            } else {
                assert(sdec_inits(b, pos, k).unwrap().0[j] == rest[j - 1]);
            }
        }
    }
}

fn read_i64_at(b: &Vec<u8>, pos: usize) -> (r: Result<(i64, usize), OnnxError>)
    requires
        pos <= b@.len(),
    ensures
        r matches Ok(p) ==> sdec_i64(b@, pos as int) == Some((p.0, p.1 as int)) && pos <= p.1
            <= b@.len(),
        r is Err ==> sdec_i64(b@, pos as int) is None && r == Err::<(i64, usize), OnnxError>(
            OnnxError::Decode,
        ),
{
    let blen = b.len();
    if blen - pos < 8 {
        return Err(OnnxError::Decode);
    }
    let w: u64 = (b[pos] as u64) + 0x100 * (b[pos + 1] as u64) + 0x10000 * (b[pos + 2] as u64)
        + 0x1000000 * (b[pos + 3] as u64) + 0x100000000 * (b[pos + 4] as u64) + 0x10000000000 * (b[pos
        + 5] as u64) + 0x1000000000000 * (b[pos + 6] as u64) + 0x100000000000000 * (b[pos + 7] as u64);
    assert(w as int == le_qword(b@, pos as int));
    let v = ((w as i128) - 0x8000_0000_0000_0000i128) as i64;
    Ok((v, pos + 8))
}

fn decode_name_at(b: &Vec<u8>, pos: usize) -> (r: Result<(Vec<u8>, usize), OnnxError>)
    requires
        pos <= b@.len(),
    ensures
        r matches Ok(p) ==> sdec_name(b@, pos as int) == Some((p.0@, p.1 as int)) && pos <= p.1
            <= b@.len(),
        r is Err ==> sdec_name(b@, pos as int) is None && r == Err::<(Vec<u8>, usize), OnnxError>(
            OnnxError::Decode,
        ),
{
    let blen = b.len();
    if blen - pos < 1 {
        return Err(OnnxError::Decode);
    }
    let l = b[pos] as usize;
    if blen - (pos + 1) < l {
        return Err(OnnxError::Decode);
    }
    let mut out: Vec<u8> = Vec::new();
    let mut i: usize = 0;
    while i < l
        invariant
            i <= l,
            pos + 1 + l <= b@.len(),
            b@.len() <= usize::MAX,
            out@ == b@.subrange(pos + 1, pos + 1 + i as int),
        decreases l - i,
    {
        out.push(b[pos + 1 + i]);
        proof {
            assert(out@ =~= b@.subrange(pos + 1, pos + 1 + (i + 1)));
        }
        i += 1;
    }
    Ok((out, pos + 1 + l))
}

fn decode_names_at(b: &Vec<u8>, pos: usize, k: usize) -> (r: Result<(Vec<Vec<u8>>, usize), OnnxError>)
    requires
        pos <= b@.len(),
    ensures
        r matches Ok(p) ==> sdec_names(b@, pos as int, k as int) == Some(
            (p.0@.map_values(|v: Vec<u8>| v@), p.1 as int),
        ) && pos <= p.1 <= b@.len(),
        r is Err ==> sdec_names(b@, pos as int, k as int) is None && r == Err::<
            (Vec<Vec<u8>>, usize),
            OnnxError,
        >(OnnxError::Decode),
{
    let mut out: Vec<Vec<u8>> = Vec::new();
    let mut cur: usize = pos;
    let mut i: usize = 0;
    while i < k
        invariant
            i <= k,
            pos <= cur,
            cur <= b@.len(),
            sdec_names(b@, pos as int, k as int) == (match sdec_names(b@, cur as int, k - i) {
                None => None::<(Seq<Seq<u8>>, int)>,
                Some((rest, e)) => Some((out@.map_values(|v: Vec<u8>| v@) + rest, e)),
            }),
        decreases k - i,
    {
        let ghost prev = out@.map_values(|v: Vec<u8>| v@);
        match decode_name_at(b, cur) {
            Err(_) => {
                return Err(OnnxError::Decode);
            },
            Ok((n, p1)) => {
                proof {
                    let (nv, _) = sdec_name(b@, cur as int).unwrap();
                    assert(nv == n@);
                }
                out.push(n);
                cur = p1;
                proof {
                    assert(out@.map_values(|v: Vec<u8>| v@) =~= prev + seq![out@[out@.len() - 1]@]);
                    if sdec_names(b@, cur as int, k - i - 1) is Some {
                        let (rest, e) = sdec_names(b@, cur as int, k - i - 1).unwrap();
                        assert(prev + (seq![out@[out@.len() - 1]@] + rest) =~= (prev + seq![
                            out@[out@.len() - 1]@,
                        ]) + rest);
                    }
                }
                i += 1;
            },
        }
    }
    proof {
        let fin = out@.map_values(|v: Vec<u8>| v@);
        assert(sdec_names(b@, cur as int, 0) == Some((Seq::<Seq<u8>>::empty(), cur as int)));
        assert(fin + Seq::<Seq<u8>>::empty() =~= fin);
    }
    Ok((out, cur))
}

fn decode_i64s_at(b: &Vec<u8>, pos: usize, k: usize) -> (r: Result<(Vec<i64>, usize), OnnxError>)
    requires
        pos <= b@.len(),
    ensures
        r matches Ok(p) ==> sdec_i64s(b@, pos as int, k as int) == Some((p.0@, p.1 as int)) && pos
            <= p.1 <= b@.len(),
        r is Err ==> sdec_i64s(b@, pos as int, k as int) is None && r == Err::<
            (Vec<i64>, usize),
            OnnxError,
        >(OnnxError::Decode),
{
    let mut out: Vec<i64> = Vec::new();
    let mut cur: usize = pos;
    let mut i: usize = 0;
    while i < k
        invariant
            i <= k,
            pos <= cur,
            cur <= b@.len(),
            sdec_i64s(b@, pos as int, k as int) == (match sdec_i64s(b@, cur as int, k - i) {
                None => None::<(Seq<i64>, int)>,
                Some((rest, e)) => Some((out@ + rest, e)),
            }),
        decreases k - i,
    {
        let ghost prev = out@;
        match read_i64_at(b, cur) {
            Err(_) => {
                return Err(OnnxError::Decode);
            },
            Ok((v, p1)) => {
                out.push(v);
                cur = p1;
                proof {
                    assert(out@ =~= prev + seq![v]);
                    if sdec_i64s(b@, cur as int, k - i - 1) is Some {
                        let (rest, e) = sdec_i64s(b@, cur as int, k - i - 1).unwrap();
                        assert(prev + (seq![v] + rest) =~= (prev + seq![v]) + rest);
                    }
                }
                i += 1;
            },
        }
    }
    proof {
        assert(out@ + Seq::<i64>::empty() =~= out@);
    }
    Ok((out, cur))
}

fn decode_attr_at(b: &Vec<u8>, pos: usize) -> (r: Result<(Attr, usize), OnnxError>)
    requires
        pos <= b@.len(),
    ensures
        r matches Ok(p) ==> sdec_attr(b@, pos as int) == Some((p.0@, p.1 as int)) && pos <= p.1
            <= b@.len(),
        r is Err ==> sdec_attr(b@, pos as int) is None && r == Err::<(Attr, usize), OnnxError>(
            OnnxError::Decode,
        ),
{
    let blen = b.len();
    if blen - pos < 2 {
        return Err(OnnxError::Decode);
    }
    let key = b[pos];
    let kind = b[pos + 1];
    if kind == 1 {
        match read_i64_at(b, pos + 2) {
            Err(_) => Err(OnnxError::Decode),
            Ok((v, p2)) => Ok((Attr { key, value: AttrValue::Int(v) }, p2)),
        }
    } else if kind == 2 {
        if blen - pos < 3 {
            return Err(OnnxError::Decode);
        }
        let cnt = b[pos + 2] as usize;
        match decode_i64s_at(b, pos + 3, cnt) {
            Err(_) => Err(OnnxError::Decode),
            Ok((vs, p2)) => Ok((Attr { key, value: AttrValue::Ints(vs) }, p2)),
        }
    } else {
        Err(OnnxError::Decode)
    }
}

fn decode_attrs_at(b: &Vec<u8>, pos: usize, k: usize) -> (r: Result<(Vec<Attr>, usize), OnnxError>)
    requires
        pos <= b@.len(),
    ensures
        r matches Ok(p) ==> sdec_attrs(b@, pos as int, k as int) == Some(
            (p.0@.map_values(|a: Attr| a@), p.1 as int),
        ) && pos <= p.1 <= b@.len(),
        r is Err ==> sdec_attrs(b@, pos as int, k as int) is None && r == Err::<
            (Vec<Attr>, usize),
            OnnxError,
        >(OnnxError::Decode),
{
    let mut out: Vec<Attr> = Vec::new();
    let mut cur: usize = pos;
    let mut i: usize = 0;
    while i < k
        invariant
            i <= k,
            pos <= cur,
            cur <= b@.len(),
            sdec_attrs(b@, pos as int, k as int) == (match sdec_attrs(b@, cur as int, k - i) {
                None => None::<(Seq<AttrV>, int)>,
                Some((rest, e)) => Some((out@.map_values(|a: Attr| a@) + rest, e)),
            }),
        decreases k - i,
    {
        let ghost prev = out@.map_values(|a: Attr| a@);
        match decode_attr_at(b, cur) {
            Err(_) => {
                return Err(OnnxError::Decode);
            },
            Ok((a, p1)) => {
                out.push(a);
                cur = p1;
                proof {
                    assert(out@.map_values(|a: Attr| a@) =~= prev + seq![out@[out@.len() - 1]@]);
                    if sdec_attrs(b@, cur as int, k - i - 1) is Some {
                        let (rest, e) = sdec_attrs(b@, cur as int, k - i - 1).unwrap();
                        assert(prev + (seq![out@[out@.len() - 1]@] + rest) =~= (prev + seq![
                            out@[out@.len() - 1]@,
                        ]) + rest);
                    }
                }
                i += 1;
            },
        }
    }
    proof {
        let fin = out@.map_values(|a: Attr| a@);
        assert(fin + Seq::<AttrV>::empty() =~= fin);
    }
    Ok((out, cur))
}

fn op_of_tag(t: u8) -> (r: OpKind)
    ensures
        r == tag_op(t),
{
    if t == 1 {
        OpKind::Relu
    } else if t == 2 {
        OpKind::Conv
    } else if t == 3 {
        OpKind::MaxPool
    } else if t == 4 {
        OpKind::AveragePool
    } else if t == 5 {
        OpKind::GlobalAveragePool
    } else if t == 6 {
        OpKind::Gemm
    } else if t == 7 {
        OpKind::BatchNormalization
    } else if t == 8 {
        OpKind::Concat
    } else if t == 9 {
        OpKind::Reshape
    } else if t == 10 {
        OpKind::Flatten
    } else if t == 11 {
        OpKind::Dropout
    } else if t == 12 {
        OpKind::Identity
    } else if t == 13 {
        OpKind::Add
    } else {
        OpKind::Other(t)
    }
}

fn decode_node_at(b: &Vec<u8>, pos: usize) -> (r: Result<(Node, usize), OnnxError>)
    requires
        pos <= b@.len(),
    ensures
        r matches Ok(p) ==> sdec_node(b@, pos as int) == Some((p.0@, p.1 as int)) && pos <= p.1
            <= b@.len(),
        r is Err ==> sdec_node(b@, pos as int) is None && r == Err::<(Node, usize), OnnxError>(
            OnnxError::Decode,
        ),
{
    let blen = b.len();
    if blen - pos < 2 {
        return Err(OnnxError::Decode);
    }
    let op = op_of_tag(b[pos]);
    let nin = b[pos + 1] as usize;
    let (ins, p1) = match decode_names_at(b, pos + 2, nin) {
        Err(_) => {
            return Err(OnnxError::Decode);
        },
        Ok(p) => p,
    };
    if blen - p1 < 1 {
        return Err(OnnxError::Decode);
    }
    let nout = b[p1] as usize;
    let (outs, p2) = match decode_names_at(b, p1 + 1, nout) {
        Err(_) => {
            return Err(OnnxError::Decode);
        },
        Ok(p) => p,
    };
    if blen - p2 < 1 {
        return Err(OnnxError::Decode);
    }
    let nattr = b[p2] as usize;
    let (ats, p3) = match decode_attrs_at(b, p2 + 1, nattr) {
        Err(_) => {
            return Err(OnnxError::Decode);
        },
        Ok(p) => p,
    };
    let n = Node { op, inputs: ins, outputs: outs, attrs: ats };
    proof {
        assert(sdec_node(b@, pos as int) == Some((n@, p3 as int)));
    }
    Ok((n, p3))
}

fn decode_nodes_at(b: &Vec<u8>, pos: usize, k: usize) -> (r: Result<(Vec<Node>, usize), OnnxError>)
    requires
        pos <= b@.len(),
    ensures
        r matches Ok(p) ==> sdec_nodes(b@, pos as int, k as int) == Some(
            (p.0@.map_values(|n: Node| n@), p.1 as int),
        ) && pos <= p.1 <= b@.len(),
        r is Err ==> sdec_nodes(b@, pos as int, k as int) is None && r == Err::<
            (Vec<Node>, usize),
            OnnxError,
        >(OnnxError::Decode),
{
    let mut out: Vec<Node> = Vec::new();
    let mut cur: usize = pos;
    let mut i: usize = 0;
    while i < k
        invariant
            i <= k,
            pos <= cur,
            cur <= b@.len(),
            sdec_nodes(b@, pos as int, k as int) == (match sdec_nodes(b@, cur as int, k - i) {
                None => None::<(Seq<NodeV>, int)>,
                Some((rest, e)) => Some((out@.map_values(|n: Node| n@) + rest, e)),
            }),
        decreases k - i,
    {
        let ghost prev = out@.map_values(|n: Node| n@);
        match decode_node_at(b, cur) {
            Err(_) => {
                return Err(OnnxError::Decode);
            },
            Ok((n, p1)) => {
                out.push(n);
                cur = p1;
                proof {
                    assert(out@.map_values(|n: Node| n@) =~= prev + seq![out@[out@.len() - 1]@]);
                    if sdec_nodes(b@, cur as int, k - i - 1) is Some {
                        let (rest, e) = sdec_nodes(b@, cur as int, k - i - 1).unwrap();
                        assert(prev + (seq![out@[out@.len() - 1]@] + rest) =~= (prev + seq![
                            out@[out@.len() - 1]@,
                        ]) + rest);
                    }
                }
                i += 1;
            },
        }
    }
    proof {
        let fin = out@.map_values(|n: Node| n@);
        assert(fin + Seq::<NodeV>::empty() =~= fin);
    }
    Ok((out, cur))
}

fn decode_inits_at(b: &Vec<u8>, pos: usize, k: usize) -> (r: Result<
    (Vec<(Vec<u8>, Tensor)>, usize),
    OnnxError,
>)
    requires
        pos <= b@.len(),
    ensures
        r matches Ok(p) ==> sdec_inits(b@, pos as int, k as int) == Some(
            (p.0@.map_values(|q: (Vec<u8>, Tensor)| (q.0@, q.1@)), p.1 as int),
        ) && pos <= p.1 <= b@.len(),
        r is Err ==> sdec_inits(b@, pos as int, k as int) is None && r == Err::<
            (Vec<(Vec<u8>, Tensor)>, usize),
            OnnxError,
        >(OnnxError::Decode),
{
    let mut out: Vec<(Vec<u8>, Tensor)> = Vec::new();
    let mut cur: usize = pos;
    let mut i: usize = 0;
    while i < k
        invariant
            i <= k,
            pos <= cur,
            cur <= b@.len(),
            sdec_inits(b@, pos as int, k as int) == (match sdec_inits(b@, cur as int, k - i) {
                None => None::<(Seq<(Seq<u8>, TensorV)>, int)>,
                Some((rest, e)) => Some(
                    (out@.map_values(|q: (Vec<u8>, Tensor)| (q.0@, q.1@)) + rest, e),
                ),
            }),
        decreases k - i,
    {
        let ghost prev = out@.map_values(|q: (Vec<u8>, Tensor)| (q.0@, q.1@));
        let (name, p1) = match decode_name_at(b, cur) {
            Err(_) => {
                return Err(OnnxError::Decode);
            },
            Ok(p) => p,
        };
        let (t, p2) = match decode_tensor_at(b, p1) {
            Err(_) => {
                return Err(OnnxError::Decode);
            },
            Ok(p) => p,
        };
        proof {
            assert(sdec_init(b@, cur as int) == Some(((name@, t@), p2 as int)));
        }
        out.push((name, t));
        cur = p2;
        proof {
            let last = out@[out@.len() - 1];
            assert(out@.map_values(|q: (Vec<u8>, Tensor)| (q.0@, q.1@)) =~= prev + seq![
                (last.0@, last.1@),
            ]);
            if sdec_inits(b@, cur as int, k - i - 1) is Some {
                let (rest, e) = sdec_inits(b@, cur as int, k - i - 1).unwrap();
                assert(prev + (seq![(last.0@, last.1@)] + rest) =~= (prev + seq![
                    (last.0@, last.1@),
                ]) + rest);
            }
        }
        i += 1;
    }
    proof {
        let fin = out@.map_values(|q: (Vec<u8>, Tensor)| (q.0@, q.1@));
        assert(fin + Seq::<(Seq<u8>, TensorV)>::empty() =~= fin);
    }
    Ok((out, cur))
}

/// Decodes a model message; the message must span the buffer exactly.
/// Succeeds on precisely the buffers `spec_decode_model` accepts and returns
/// exactly the model it gives — so a truncated or otherwise malformed model
/// file is always answered with `Decode`.
pub fn decode_model(b: &Vec<u8>) -> (r: Result<Model, OnnxError>)
    ensures
        r matches Ok(m) ==> spec_decode_model(b@) == Some(m@) && model_wf(m@),
        r is Err ==> spec_decode_model(b@) is None && r == Err::<Model, OnnxError>(
            OnnxError::Decode,
        ),
{
    let blen = b.len();
    if blen < 3 {
        return Err(OnnxError::Decode);
    }
    if b[0] != 1 {
        return Err(OnnxError::Decode);
    }
    let ninit = (b[1] as usize) + 0x100 * (b[2] as usize);
    let (inits, p1) = match decode_inits_at(b, 3, ninit) {
        Err(_) => {
            return Err(OnnxError::Decode);
        },
        Ok(p) => p,
    };
    if blen - p1 < 2 {
        return Err(OnnxError::Decode);
    }
    let nnodes = (b[p1] as usize) + 0x100 * (b[p1 + 1] as usize);
    let (nodes, p2) = match decode_nodes_at(b, p1 + 2, nnodes) {
        Err(_) => {
            return Err(OnnxError::Decode);
        },
        Ok(p) => p,
    };
    let (inname, p3) = match decode_name_at(b, p2) {
        Err(_) => {
            return Err(OnnxError::Decode);
        },
        Ok(p) => p,
    };
    let (outname, p4) = match decode_name_at(b, p3) {
        Err(_) => {
            return Err(OnnxError::Decode);
        },
        Ok(p) => p,
    };
    if p4 != blen {
        return Err(OnnxError::Decode);
    }
    let m = Model { initializers: inits, nodes, input_name: inname, output_name: outname };
    proof {
        assert(spec_decode_model(b@) == Some(m@));
        lemma_sdec_inits_wf(b@, 3, ninit as int);
    }
    Ok(m)
}

/// Looks up an integer attribute; `dflt` when absent, `None` on a kind
/// mismatch.
pub fn get_int_or(attrs: &Vec<Attr>, key: u8, dflt: i64) -> (r: Option<i64>)
    ensures
        r == attr_int_or(attrs@.map_values(|a: Attr| a@), key, dflt),
{
    let ghost av = attrs@.map_values(|a: Attr| a@);
    proof {
        assert(av.skip(0) =~= av);
    }
    let mut i: usize = 0;
    while i < attrs.len()
        invariant
            i <= attrs.len(),
            av == attrs@.map_values(|a: Attr| a@),
            find_attr(av, key) == find_attr(av.skip(i as int), key),
        decreases attrs.len() - i,
    {
        proof {
            assert(av.skip(i as int)[0] == av[i as int]);
            assert(av.skip(i as int).skip(1) =~= av.skip(i as int + 1));
        }
        if attrs[i].key == key {
            match &attrs[i].value {
                AttrValue::Int(v) => {
                    return Some(*v);
                },
                AttrValue::Ints(_) => {
                    return None;
                },
            }
        }
        i += 1;
    }
    proof {
        assert(av.skip(attrs@.len() as int).len() == 0);
    }
    Some(dflt)
}

/// Looks up an integer-list attribute; `dflt` when absent, `None` on a kind
/// mismatch.
pub fn get_ints_or(attrs: &Vec<Attr>, key: u8, dflt: Vec<i64>) -> (r: Option<Vec<i64>>)
    ensures
        r matches Some(v) ==> attr_ints_or(attrs@.map_values(|a: Attr| a@), key, dflt@) == Some(v@),
        r is None ==> attr_ints_or(attrs@.map_values(|a: Attr| a@), key, dflt@) is None,
{
    let ghost av = attrs@.map_values(|a: Attr| a@);
    proof {
        assert(av.skip(0) =~= av);
    }
    let mut i: usize = 0;
    while i < attrs.len()
        invariant
            i <= attrs.len(),
            av == attrs@.map_values(|a: Attr| a@),
            find_attr(av, key) == find_attr(av.skip(i as int), key),
        decreases attrs.len() - i,
    {
        proof {
            assert(av.skip(i as int)[0] == av[i as int]);
            assert(av.skip(i as int).skip(1) =~= av.skip(i as int + 1));
        }
        if attrs[i].key == key {
            match &attrs[i].value {
                AttrValue::Int(_) => {
                    return None;
                },
                AttrValue::Ints(vs) => {
                    let mut out: Vec<i64> = Vec::new();
                    let mut j: usize = 0;
                    while j < vs.len()
                        invariant
                            j <= vs.len(),
                            out@ == vs@.take(j as int),
                        decreases vs.len() - j,
                    {
                        out.push(vs[j]);
                        proof {
                            assert(out@ =~= vs@.take(j + 1));
                        }
                        j += 1;
                    }
                    proof {
                        assert(vs@.take(vs@.len() as int) =~= vs@);
                    }
                    return Some(out);
                },
            }
        }
        i += 1;
    }
    proof {
        assert(av.skip(attrs@.len() as int).len() == 0);
    }
    Some(dflt)
}

} // verus!
