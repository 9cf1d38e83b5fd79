//! The graph executor: seeds an environment with the model's initializers
//! and the caller's input, executes the nodes strictly in recorded order,
//! and returns the tensor bound to the declared output name. Execution is a
//! pure function of the model and the input (`spec_run`); the executable
//! `run` is proved to return exactly that function's value.

use vstd::prelude::*;
use crate::error::OnnxError;
use crate::tensor::{Tensor, TensorV, tensor_wf, bytes_eq};
use crate::model::{Model, ModelV, NodeV, Attr, OpKind, model_wf};
use crate::ops::{spec_relu, spec_identity, spec_reshape, spec_flatten, spec_conv, spec_batchnorm,
    spec_pool, spec_globalavg, spec_gemm, spec_add, spec_concat, relu, reshape, flatten, conv,
    batchnorm, pool, globalavg, gemm, add_t, concat_axis, copy_tensor, copy_bytes};

verus! {

/// The value bound to a name, later bindings shadowing earlier ones.
pub open spec fn env_get(env: Seq<(Seq<u8>, TensorV)>, name: Seq<u8>) -> Option<TensorV>
    decreases env.len(),
{
    if env.len() == 0 {
        None
    } else if env.last().0 == name {
        Some(env.last().1)
    } else {
        env_get(env.drop_last(), name)
    }
}

/// The tensors a list of names refers to, or `None` if any is unbound.
pub open spec fn resolve(env: Seq<(Seq<u8>, TensorV)>, names: Seq<Seq<u8>>) -> Option<Seq<TensorV>>
    decreases names.len(),
{
    if names.len() == 0 {
        Some(Seq::empty())
    } else {
        match env_get(env, names[0]) {
            None => None,
            Some(t) => match resolve(env, names.skip(1)) {
                None => None,
                Some(rest) => Some(seq![t] + rest),
            },
        }
    }
}

/// The registry: the kernel of each operator tag. A tag with no kernel is
/// `UnknownOp`.
pub open spec fn spec_apply(op: OpKind, ins: Seq<TensorV>, attrs: Seq<crate::model::AttrV>) -> Result<
    TensorV,
    OnnxError,
> {
    match op {
        OpKind::Relu => spec_relu(ins),
        OpKind::Conv => spec_conv(ins, attrs),
        OpKind::Reshape => spec_reshape(ins, attrs),
        OpKind::Flatten => spec_flatten(ins, attrs),
        OpKind::Gemm => spec_gemm(ins, attrs),
        OpKind::Add => spec_add(ins),
        OpKind::MaxPool => spec_pool(ins, attrs, false),
        OpKind::AveragePool => spec_pool(ins, attrs, true),
        OpKind::GlobalAveragePool => spec_globalavg(ins),
        OpKind::BatchNormalization => spec_batchnorm(ins, attrs),
        OpKind::Concat => spec_concat(ins, attrs),
        OpKind::Dropout => spec_identity(ins),
        OpKind::Identity => spec_identity(ins),
        _ => Err(OnnxError::UnknownOp),
    }
}

/// One node: resolve the inputs, apply the kernel, bind the single declared
/// output name (shadowing any earlier binding).
pub open spec fn step_node(env: Seq<(Seq<u8>, TensorV)>, node: NodeV) -> Result<
    Seq<(Seq<u8>, TensorV)>,
    OnnxError,
> {
    match resolve(env, node.inputs) {
        None => Err(OnnxError::MissingInput),
        Some(ins) => if node.outputs.len() != 1 {
            Err(OnnxError::ShapeMismatch)
        } else {
            match spec_apply(node.op, ins, node.attrs) {
                Err(e) => Err(e),
                Ok(t) => Ok(env.push((node.outputs[0], t))),
            }
        },
    }
}

/// The initial environment: the initializers, then the input under the
/// declared input name.
pub open spec fn init_env(m: ModelV, input: TensorV) -> Seq<(Seq<u8>, TensorV)> {
    m.initializers + seq![(m.input_name, input)]
}

/// The environment after the first `n` nodes, or the first failure.
pub open spec fn run_prefix(m: ModelV, input: TensorV, n: int) -> Result<
    Seq<(Seq<u8>, TensorV)>,
    OnnxError,
>
    decreases n,
{
    if n <= 0 {
        Ok(init_env(m, input))
    } else {
        match run_prefix(m, input, n - 1) {
            Err(e) => Err(e),
            Ok(env) => step_node(env, m.nodes[n - 1]),
        }
    }
}

/// What a run returns: the tensor bound to the declared output name after
/// every node has executed, or the first failure.
pub open spec fn spec_run(m: ModelV, input: TensorV) -> Result<TensorV, OnnxError> {
    match run_prefix(m, input, m.nodes.len() as int) {
        Err(e) => Err(e),
        Ok(env) => match env_get(env, m.output_name) {
            None => Err(OnnxError::MissingInput),
            Some(t) => Ok(t),
        },
    }
}

/// Law: execution is deterministic — `spec_run` is a function, so two runs
/// on the same model and input return bit-identical results. The executable
/// `run` returns exactly `spec_run`'s value, so this extends to it.
pub proof fn lemma_run_deterministic(
    m: ModelV,
    input: TensorV,
    r1: Result<TensorV, OnnxError>,
    r2: Result<TensorV, OnnxError>,
)
    requires
        r1 == spec_run(m, input),
        r2 == spec_run(m, input),
    ensures
        r1 == r2,
{
}

/// A failed prefix stays failed: the first error aborts the whole run.
proof fn lemma_run_prefix_err(m: ModelV, input: TensorV, n1: int, n2: int)
    requires
        run_prefix(m, input, n1) is Err,
        n1 <= n2,
    ensures
        run_prefix(m, input, n2) == run_prefix(m, input, n1),
    decreases n2 - n1,
{
    if n1 < n2 {
        lemma_run_prefix_err(m, input, n1, n2 - 1);
    }
}

/// Every tensor an environment lookup returns came from the environment.
proof fn lemma_env_get_wf(env: Seq<(Seq<u8>, TensorV)>, name: Seq<u8>)
    requires
        forall|i: int| 0 <= i < env.len() ==> tensor_wf(#[trigger] env[i].1),
        env_get(env, name) is Some,
    ensures
        tensor_wf(env_get(env, name).unwrap()),
    decreases env.len(),
{
    if env.len() > 0 && env.last().0 != name {
        lemma_env_get_wf(env.drop_last(), name);
    }
}

/// The spec view of an executable environment.
pub open spec fn ev(env: Seq<(Vec<u8>, Tensor)>) -> Seq<(Seq<u8>, TensorV)> {
    env.map_values(|p: (Vec<u8>, Tensor)| (p.0@, p.1@))
}

fn env_lookup(env: &Vec<(Vec<u8>, Tensor)>, name: &Vec<u8>) -> (r: Option<Tensor>)
    ensures
        r matches Some(t) ==> env_get(ev(env@), name@) == Some(t@),
        r is None ==> env_get(ev(env@), name@) is None,
{
    let ghost e = ev(env@);
    let mut i: usize = env.len();
    proof {
        assert(e.take(env@.len() as int) =~= e);
    }
    while i > 0
        invariant
            i <= env@.len(),
            e == ev(env@),
            env_get(e, name@) == env_get(e.take(i as int), name@),
        decreases i,
    {
        proof {
            assert(e.take(i as int).last() == e[i - 1]);
            assert(e.take(i as int).drop_last() =~= e.take(i - 1));
        }
        if bytes_eq(&env[i - 1].0, name) {
            let t = copy_tensor(&env[i - 1].1);
            return Some(t);
        }
        i = i - 1;
    }
    proof {
        assert(e.take(0).len() == 0);
    }
    None
}

fn resolve_inputs(env: &Vec<(Vec<u8>, Tensor)>, names: &Vec<Vec<u8>>) -> (r: Result<
    Vec<Tensor>,
    OnnxError,
>)
    requires
        forall|i: int| 0 <= i < ev(env@).len() ==> tensor_wf(#[trigger] ev(env@)[i].1),
    ensures
        r matches Ok(v) ==> resolve(ev(env@), names@.map_values(|n: Vec<u8>| n@)) == Some(
            v@.map_values(|t: Tensor| t@),
        ) && (forall|i: int| 0 <= i < v@.len() ==> tensor_wf(#[trigger] v@[i]@)),
        r is Err ==> resolve(ev(env@), names@.map_values(|n: Vec<u8>| n@)) is None && r == Err::<
            Vec<Tensor>,
            OnnxError,
        >(OnnxError::MissingInput),
{
    let ghost nv = names@.map_values(|n: Vec<u8>| n@);
    let ghost e = ev(env@);
    proof {
        assert(nv.skip(0) =~= nv);
    }
    let mut out: Vec<Tensor> = Vec::new();
    let mut i: usize = 0;
    while i < names.len()
        invariant
            i <= names@.len(),
            e == ev(env@),
            nv == names@.map_values(|n: Vec<u8>| n@),
            forall|j: int| 0 <= j < e.len() ==> tensor_wf(#[trigger] e[j].1),
            forall|j: int| 0 <= j < out@.len() ==> tensor_wf(#[trigger] out@[j]@),
            resolve(e, nv) == (match resolve(e, nv.skip(i as int)) {
                None => None::<Seq<TensorV>>,
                Some(rest) => Some(out@.map_values(|t: Tensor| t@) + rest),
            }),
        decreases names.len() - i,
    {
        let ghost prev = out@.map_values(|t: Tensor| t@);
        proof {
            assert(nv.skip(i as int)[0] == nv[i as int]);
            assert(nv.skip(i as int).skip(1) =~= nv.skip(i as int + 1));
        }
        match env_lookup(env, &names[i]) {
            None => {
                return Err(OnnxError::MissingInput);
            },
            Some(t) => {
                proof {
                    lemma_env_get_wf(e, nv[i as int]);
                }
                out.push(t);
                proof {
                    assert(out@.map_values(|t: Tensor| t@) =~= prev + seq![out@[out@.len() - 1]@]);
                    if resolve(e, nv.skip(i as int + 1)) is Some {
                        let rest = resolve(e, nv.skip(i as int + 1)).unwrap();
                        assert(prev + (seq![out@[out@.len() - 1]@] + rest) =~= (prev + seq![
                            out@[out@.len() - 1]@,
                        ]) + rest);
                    }
                }
                i += 1;
            },
        }
    }
    proof {
        assert(nv.skip(nv.len() as int).len() == 0);
        let fin = out@.map_values(|t: Tensor| t@);
        assert(fin + Seq::<TensorV>::empty() =~= fin);
    }
    Ok(out)
}

/// Applies the registered kernel of one operator tag.
fn apply_kernel(op: OpKind, ins: &Vec<Tensor>, attrs: &Vec<Attr>) -> (r: Result<Tensor, OnnxError>)
    requires
        forall|i: int| 0 <= i < ins@.len() ==> tensor_wf(#[trigger] ins@[i]@),
    ensures
        r matches Ok(t) ==> spec_apply(
            op,
            ins@.map_values(|t: Tensor| t@),
            attrs@.map_values(|a: Attr| a@),
        ) == Ok::<TensorV, OnnxError>(t@) && tensor_wf(t@),
        r matches Err(e) ==> spec_apply(
            op,
            ins@.map_values(|t: Tensor| t@),
            attrs@.map_values(|a: Attr| a@),
        ) == Err::<TensorV, OnnxError>(e),
{
    let ghost iv = ins@.map_values(|t: Tensor| t@);
    match op {
        OpKind::Relu => {
            if ins.len() != 1 {
                return Err(OnnxError::ShapeMismatch);
            }
            proof {
                assert(iv =~= seq![ins@[0]@]);
            }
            Ok(relu(&ins[0]))
        },
        OpKind::Conv => {
            if ins.len() == 2 {
                proof {
                    assert(iv =~= seq![ins@[0]@, ins@[1]@]);
                }
                conv(&ins[0], &ins[1], None, attrs)
            } else if ins.len() == 3 {
                proof {
                    assert(iv =~= seq![ins@[0]@, ins@[1]@, ins@[2]@]);
                }
                conv(&ins[0], &ins[1], Some(&ins[2]), attrs)
            } else {
                Err(OnnxError::ShapeMismatch)
            }
        },
        OpKind::Reshape => {
            if ins.len() != 1 {
                return Err(OnnxError::ShapeMismatch);
            }
            proof {
                assert(iv =~= seq![ins@[0]@]);
            }
            reshape(&ins[0], attrs)
        },
        OpKind::Flatten => {
            if ins.len() != 1 {
                return Err(OnnxError::ShapeMismatch);
            }
            proof {
                assert(iv =~= seq![ins@[0]@]);
            }
            flatten(&ins[0], attrs)
        },
        OpKind::Gemm => {
            if ins.len() == 2 {
                proof {
                    assert(iv =~= seq![ins@[0]@, ins@[1]@]);
                }
                gemm(&ins[0], &ins[1], None, attrs)
            } else if ins.len() == 3 {
                proof {
                    assert(iv =~= seq![ins@[0]@, ins@[1]@, ins@[2]@]);
                }
                gemm(&ins[0], &ins[1], Some(&ins[2]), attrs)
            } else {
                Err(OnnxError::ShapeMismatch)
            }
        },
        OpKind::Add => {
            if ins.len() != 2 {
                return Err(OnnxError::ShapeMismatch);
            }
            proof {
                assert(iv =~= seq![ins@[0]@, ins@[1]@]);
            }
            add_t(&ins[0], &ins[1])
        },
        OpKind::MaxPool => {
            if ins.len() != 1 {
                return Err(OnnxError::ShapeMismatch);
            }
            proof {
                assert(iv =~= seq![ins@[0]@]);
            }
            pool(&ins[0], attrs, false)
        },
        OpKind::AveragePool => {
            if ins.len() != 1 {
                return Err(OnnxError::ShapeMismatch);
            }
            proof {
                assert(iv =~= seq![ins@[0]@]);
            }
            pool(&ins[0], attrs, true)
        },
        OpKind::GlobalAveragePool => {
            if ins.len() != 1 {
                return Err(OnnxError::ShapeMismatch);
            }
            proof {
                assert(iv =~= seq![ins@[0]@]);
            }
            globalavg(&ins[0])
        },
        OpKind::BatchNormalization => batchnorm(ins, attrs),
        OpKind::Concat => concat_axis(ins, attrs),
        OpKind::Dropout => {
            if ins.len() != 1 {
                return Err(OnnxError::ShapeMismatch);
            }
            Ok(copy_tensor(&ins[0]))
        },
        OpKind::Identity => {
            if ins.len() != 1 {
                return Err(OnnxError::ShapeMismatch);
            }
            Ok(copy_tensor(&ins[0]))
        },
        _ => Err(OnnxError::UnknownOp),
    }
}

/// Runs a model on one input tensor. Returns exactly `spec_run(model, input)`:
/// nodes execute in recorded order, each node's inputs are resolved in the
/// environment (`MissingInput` when absent), its kernel is looked up
/// (`UnknownOp` for an unregistered tag) and applied, and the declared output
/// is returned (`MissingInput` if never produced).
pub fn run(model: &Model, input: &Tensor) -> (r: Result<Tensor, OnnxError>)
    requires
        tensor_wf(input@),
        model_wf(model@),
    ensures
        r matches Ok(t) ==> spec_run(model@, input@) == Ok::<TensorV, OnnxError>(t@)
            && tensor_wf(t@),
        r matches Err(e) ==> spec_run(model@, input@) == Err::<TensorV, OnnxError>(e),
{
    let ghost m = model@;
    let mut env: Vec<(Vec<u8>, Tensor)> = Vec::new();
    let mut i: usize = 0;
    while i < model.initializers.len()
        invariant
            i <= model.initializers@.len(),
            m == model@,
            model_wf(m),
            ev(env@) == m.initializers.take(i as int),
        decreases model.initializers.len() - i,
    {
        let name = copy_bytes(&model.initializers[i].0);
        let t = copy_tensor(&model.initializers[i].1);
        let ghost before = ev(env@);
        env.push((name, t));
        proof {
            assert(ev(env@) =~= before.push((name@, t@)));
            assert((name@, t@) == m.initializers[i as int]);
            assert(m.initializers.take(i as int + 1) =~= m.initializers.take(i as int).push(
                m.initializers[i as int],
            ));
        }
        i += 1;
    }
    proof {
        assert(m.initializers.take(m.initializers.len() as int) =~= m.initializers);
    }
    env.push((copy_bytes(&model.input_name), copy_tensor(input)));
    proof {
        assert(ev(env@) =~= init_env(m, input@));
        assert(run_prefix(m, input@, 0) == Ok::<Seq<(Seq<u8>, TensorV)>, OnnxError>(ev(env@)));
        assert forall|j: int| 0 <= j < ev(env@).len() implies tensor_wf(#[trigger] ev(env@)[j].1) by {
            if j < m.initializers.len() {
                assert(ev(env@)[j].1 == m.initializers[j].1);
            }
        }
    }
    let mut k: usize = 0;
    while k < model.nodes.len()
        invariant
            k <= model.nodes@.len(),
            m == model@,
            model_wf(m),
            tensor_wf(input@),
            run_prefix(m, input@, k as int) == Ok::<Seq<(Seq<u8>, TensorV)>, OnnxError>(ev(env@)),
            forall|j: int| 0 <= j < ev(env@).len() ==> tensor_wf(#[trigger] ev(env@)[j].1),
        decreases model.nodes.len() - k,
    {
        let node = &model.nodes[k];
        proof {
            assert(m.nodes[k as int] == node@);
        }
        let ins = match resolve_inputs(&env, &node.inputs) {
            Err(e) => {
                proof {
                    assert(step_node(ev(env@), node@) == Err::<Seq<(Seq<u8>, TensorV)>, OnnxError>(
                        OnnxError::MissingInput,
                    ));
                    assert(run_prefix(m, input@, k as int + 1) == Err::<
                        Seq<(Seq<u8>, TensorV)>,
                        OnnxError,
                    >(OnnxError::MissingInput));
                    lemma_run_prefix_err(m, input@, k as int + 1, m.nodes.len() as int);
                }
                return Err(e);
            },
            Ok(v) => v,
        };
        if node.outputs.len() != 1 {
            proof {
                assert(run_prefix(m, input@, k as int + 1) == Err::<
                    Seq<(Seq<u8>, TensorV)>,
                    OnnxError,
                >(OnnxError::ShapeMismatch));
                lemma_run_prefix_err(m, input@, k as int + 1, m.nodes.len() as int);
            }
            return Err(OnnxError::ShapeMismatch);
        }
        let t = match apply_kernel(node.op, &ins, &node.attrs) {
            Err(e) => {
                proof {
                    assert(run_prefix(m, input@, k as int + 1) == Err::<
                        Seq<(Seq<u8>, TensorV)>,
                        OnnxError,
                    >(e));
                    lemma_run_prefix_err(m, input@, k as int + 1, m.nodes.len() as int);
                }
                return Err(e);
            },
            Ok(t) => t,
        };
        let ghost before = ev(env@);
        let name = copy_bytes(&node.outputs[0]);
        env.push((name, t));
        proof {
            assert(ev(env@) =~= before.push((node@.outputs[0], t@)));
            assert(run_prefix(m, input@, k as int + 1) == Ok::<Seq<(Seq<u8>, TensorV)>, OnnxError>(
                ev(env@),
            ));
            assert forall|j: int| 0 <= j < ev(env@).len() implies tensor_wf(
                #[trigger] ev(env@)[j].1,
            ) by {
                if j < before.len() {
                    assert(ev(env@)[j] == before[j]);
                }
            }
        }
        k += 1;
    }
    match env_lookup(&env, &model.output_name) {
        None => Err(OnnxError::MissingInput),
        Some(t) => {
            proof {
                lemma_env_get_wf(ev(env@), m.output_name);
            }
            Ok(t)
        },
    }
}

} // verus!
