//! The classification helper: per-row top-k extraction over a rank-2 output
//! tensor, for the display layer.

use vstd::prelude::*;
use crate::error::OnnxError;
use crate::tensor::{Tensor, TensorV, tensor_wf, shape_product};

verus! {

/// Ranking order: higher value first, ties broken by the lower index.
pub open spec fn pair_better(i1: int, v1: int, i2: int, v2: int) -> bool {
    v1 > v2 || (v1 == v2 && i1 < i2)
}

/// Whether some entry of the row carries class index `c`.
pub open spec fn has_idx(s: Seq<(usize, i32)>, c: int) -> bool {
    exists|a: int| 0 <= a < s.len() && (#[trigger] s[a]).0 == c
}

/// One well-formed top-k row over `data[off .. off + classes]`: exactly
/// `min(k, classes)` entries, each carrying its class's value, strictly
/// descending in the ranking order, and at least as good as every class the
/// row leaves out.
pub open spec fn row_ok(data: Seq<i32>, off: int, classes: int, k: int, row: Seq<(usize, i32)>) -> bool {
    &&& row.len() == if k <= classes {
        k
    } else {
        classes
    }
    &&& (forall|a: int| 0 <= a < row.len() ==> (#[trigger] row[a]).0 < classes && row[a].1 == data[off
        + row[a].0])
    &&& (forall|a: int, b: int| 0 <= a < b < row.len() ==> pair_better(
        (#[trigger] row[a]).0 as int,
        row[a].1 as int,
        (#[trigger] row[b]).0 as int,
        row[b].1 as int,
    ))
    &&& (forall|c: int| 0 <= c < classes && !has_idx(row, c) ==> forall|a: int| 0 <= a < row.len()
        ==> pair_better((#[trigger] row[a]).0 as int, row[a].1 as int, c, data[off + c] as int))
}

/// Picks the top `k` classes of each batch row of a rank-2 tensor, in
/// strictly descending ranking order. Fails with `ShapeMismatch` only when
/// the tensor is not rank 2.
pub fn top_k(t: &Tensor, k: usize) -> (r: Result<Vec<Vec<(usize, i32)>>, OnnxError>)
    requires
        tensor_wf(t@),
    ensures
        r is Ok <==> t@.shape.len() == 2,
        r matches Ok(rows) ==> {
            &&& rows@.len() == t@.shape[0]
            &&& forall|b: int| 0 <= b < rows@.len() ==> row_ok(
                t@.data,
                b * (t@.shape[1] as int),
                t@.shape[1] as int,
                k as int,
                (#[trigger] rows@[b])@,
            )
        },
        r is Err ==> r == Err::<Vec<Vec<(usize, i32)>>, OnnxError>(OnnxError::ShapeMismatch),
{
    if t.shape.len() != 2 {
        return Err(OnnxError::ShapeMismatch);
    }
    let batch = t.shape[0];
    let classes = t.shape[1];
    proof {
        assert(t@.shape.skip(1).skip(1).len() == 0);
        assert(shape_product(t@.shape.skip(1).skip(1)) == 1);
        assert(shape_product(t@.shape.skip(1)) == (classes as nat) * 1);
        assert(t@.data.len() == (batch as nat) * ((classes as nat) * 1));
        assert(t@.data.len() == (batch as int) * (classes as int)) by (nonlinear_arith)
            requires
                t@.data.len() == (batch as nat) * ((classes as nat) * 1),
        ;
    }
    let kk = if k <= classes {
        k
    } else {
        classes
    };
    let mut rows: Vec<Vec<(usize, i32)>> = Vec::new();
    let mut b: usize = 0;
    while b < batch
        invariant
            b <= batch,
            tensor_wf(t@),
            t@.shape.len() == 2,
            batch == t@.shape[0],
            classes == t@.shape[1],
            t@.data.len() == (batch as int) * (classes as int),
            kk == if k <= classes {
                k
            } else {
                classes
            },
            rows@.len() == b,
            forall|q: int| 0 <= q < b ==> row_ok(
                t@.data,
                q * (classes as int),
                classes as int,
                k as int,
                (#[trigger] rows@[q])@,
            ),
        decreases batch - b,
    {
        proof {
            assert((b as int) * (classes as int) + (classes as int) <= (batch as int) * (
            classes as int)) by (nonlinear_arith)
                requires
                    (b as int) < (batch as int) && classes >= 0,
            ;
            assert(0 <= (b as int) * (classes as int)) by (nonlinear_arith)
                requires
                    b >= 0 && classes >= 0,
            ;
        }
        let dlen = t.data.len();
        let off = b * classes;
        let ghost goff = (b as int) * (classes as int);
        // all classes of this row, each with its value
        let mut rest: Vec<(usize, i32)> = Vec::new();
        let mut c: usize = 0;
        while c < classes
            invariant
                c <= classes,
                tensor_wf(t@),
                goff == (b as int) * (classes as int),
                goff + classes <= t@.data.len(),
                t@.data.len() <= usize::MAX,
                goff >= 0,
                off == goff,
                classes == t@.shape[1],
                rest@.len() == c,
                forall|q: int| 0 <= q < c ==> (#[trigger] rest@[q]).0 == q && rest@[q].1
                    == t@.data[goff + q],
            decreases classes - c,
        {
            rest.push((c, t.data[off + c]));
            c += 1;
        }
        proof {
            assert forall|cc: int| 0 <= cc < classes implies has_idx(rest@, cc) by {
                assert(rest@[cc].0 == cc);
            }
        }
        // selection: repeatedly move the best remaining class into the row
        let mut sel: Vec<(usize, i32)> = Vec::new();
        let mut a: usize = 0;
        while a < kk
            invariant
                a <= kk,
                kk <= classes,
                tensor_wf(t@),
                goff == (b as int) * (classes as int),
                goff + classes <= t@.data.len(),
                goff >= 0,
                classes == t@.shape[1],
                sel@.len() == a,
                rest@.len() == classes - a,
                forall|q: int| 0 <= q < sel@.len() ==> (#[trigger] sel@[q]).0 < classes
                    && sel@[q].1 == t@.data[goff + sel@[q].0],
                forall|q: int| 0 <= q < rest@.len() ==> (#[trigger] rest@[q]).0 < classes
                    && rest@[q].1 == t@.data[goff + rest@[q].0],
                forall|p: int, q: int| 0 <= p < q < sel@.len() ==> pair_better(
                    (#[trigger] sel@[p]).0 as int,
                    sel@[p].1 as int,
                    (#[trigger] sel@[q]).0 as int,
                    sel@[q].1 as int,
                ),
                forall|p: int, q: int| 0 <= p < sel@.len() && 0 <= q < rest@.len() ==> pair_better(
                    (#[trigger] sel@[p]).0 as int,
                    sel@[p].1 as int,
                    (#[trigger] rest@[q]).0 as int,
                    rest@[q].1 as int,
                ),
                forall|cc: int| 0 <= cc < classes ==> has_idx(sel@, cc) || has_idx(rest@, cc),
                forall|p: int, q: int| 0 <= p < rest@.len() && 0 <= q < rest@.len() && p != q ==> (
                #[trigger] rest@[p]).0 != (#[trigger] rest@[q]).0,
                forall|p: int, q: int| 0 <= p < sel@.len() && 0 <= q < rest@.len() ==> (
                #[trigger] sel@[p]).0 != (#[trigger] rest@[q]).0,
            decreases kk - a,
        {
            let mut best: usize = 0;
            let mut q: usize = 1;
            while q < rest.len()
                invariant
                    rest@.len() > 0,
                    best < q <= rest@.len(),
                    forall|p: int, p2: int| 0 <= p < rest@.len() && 0 <= p2 < rest@.len() && p != p2
                        ==> (#[trigger] rest@[p]).0 != (#[trigger] rest@[p2]).0,
                    forall|p: int| 0 <= p < q && p != best ==> pair_better(
                        (#[trigger] rest@[best as int]).0 as int,
                        rest@[best as int].1 as int,
                        (#[trigger] rest@[p]).0 as int,
                        rest@[p].1 as int,
                    ),
                decreases rest@.len() - q,
            {
                let cur = rest[q];
                let bst = rest[best];
                if cur.1 > bst.1 || (cur.1 == bst.1 && cur.0 < bst.0) {
                    best = q;
                }
                q += 1;
            }
            let ghost old_rest = rest@;
            let ghost old_sel = sel@;
            let picked = rest.remove(best);
            sel.push(picked);
            proof {
                assert(rest@ =~= old_rest.remove(best as int));
                assert(sel@ =~= old_sel.push(picked));
                // every remaining entry is an old entry other than the pick
                assert forall|p: int| 0 <= p < rest@.len() implies #[trigger] rest@[p] == (if p
                    < best as int {
                    old_rest[p]
                } else {
                    old_rest[p + 1]
                }) by {
                    if p < best as int {
                        assert(old_rest[p] == rest@[p]);
                    } else {
                        assert(old_rest[p + 1] == rest@[p]);
                    }
                }
                // completeness is kept: a class in the old rest is the picked
                // one or still in the new rest
                assert forall|cc: int| 0 <= cc < classes implies has_idx(sel@, cc) || has_idx(
                    rest@,
                    cc,
                ) by {
                    if has_idx(old_sel, cc) {
                        let w = choose|w: int| 0 <= w < old_sel.len() && (#[trigger] old_sel[w]).0
                            == cc;
                        assert(sel@[w].0 == cc);
                    } else {
                        assert(has_idx(old_rest, cc));
                        let w = choose|w: int|
                            0 <= w < old_rest.len() && (#[trigger] old_rest[w]).0 == cc;
                        if w == best as int {
                            assert(sel@[sel@.len() - 1].0 == cc);
                        } else if w < best as int {
                            assert(rest@[w].0 == cc);
                            assert(has_idx(rest@, cc));
                        } else {
                            assert(rest@[w - 1].0 == cc);
                            assert(has_idx(rest@, cc));
                        }
                    }
                }
            }
            a += 1;
        }
        rows.push(sel);
        proof {
            assert forall|cc: int| 0 <= cc < classes && !has_idx(rows@[b as int]@, cc) implies
                forall|p: int|
                    0 <= p < rows@[b as int]@.len() ==> pair_better(
                        (#[trigger] rows@[b as int]@[p]).0 as int,
                        rows@[b as int]@[p].1 as int,
                        cc,
                        t@.data[goff + cc] as int,
                    ) by {
                assert(has_idx(rest@, cc));
                let w = choose|w: int| 0 <= w < rest@.len() && (#[trigger] rest@[w]).0 == cc;
                assert forall|p: int| 0 <= p < rows@[b as int]@.len() implies pair_better(
                    (#[trigger] rows@[b as int]@[p]).0 as int,
                    rows@[b as int]@[p].1 as int,
                    cc,
                    t@.data[goff + cc] as int,
                ) by {
                    assert(pair_better(
                        rows@[b as int]@[p].0 as int,
                        rows@[b as int]@[p].1 as int,
                        rest@[w].0 as int,
                        rest@[w].1 as int,
                    ));
                }
            }
            assert(row_ok(t@.data, goff, classes as int, k as int, rows@[b as int]@));
        }
        b += 1;
    }
    Ok(rows)
}

} // verus!
