use crate::field::{
    ext_add, ext_mul, ext_one, lemma_ext_add_assoc, lemma_ext_add_comm, lemma_ext_distrib,
    lemma_ext_mul_assoc, lemma_ext_mul_comm, Ext,
};
use crate::mle::{cube_size, tables};
use vstd::prelude::*;

verus! {

/// The layers of a tower, each as its list of evaluation tables.
pub open spec fn layers(v: Seq<Vec<Vec<Ext>>>) -> Seq<Seq<Seq<Ext>>> {
    Seq::new(v.len(), |d: int| tables(v[d]@))
}

/// Entry `x` of interleaved output vector `f`: slot `x % per_instance` of instance
/// `x / per_instance`, where slot `i` holds entry `f * per_fanin + x / per_instance` of
/// input `i`, and slots past the last input hold `default`.
pub open spec fn interleaved_entry(
    mles: Seq<Seq<Ext>>,
    per_instance: nat,
    per_fanin: nat,
    f: nat,
    x: nat,
    default: Ext,
) -> Ext {
    let i = x % per_instance;
    let j = x / per_instance;
    if i < mles.len() {
        mles[i as int][(f * per_fanin + j) as int]
    } else {
        default
    }
}

/// `1 * layer[0][s] * ... * layer[n-1][s]`.
pub open spec fn branch_product(layer: Seq<Seq<Ext>>, s: int, n: nat) -> Ext
    decreases n,
{
    if n == 0 {
        ext_one()
    } else {
        ext_mul(branch_product(layer, s, (n - 1) as nat), layer[n - 1][s])
    }
}

/// The coarser product layer: branch `i` is the pointwise product, over all branches of
/// `layer`, of their `i`-th chunk.
pub open spec fn product_parent(layer: Seq<Seq<Ext>>) -> Seq<Seq<Ext>> {
    let fanin = layer.len();
    let c = layer[0].len() / fanin;
    Seq::new(fanin, |i: int| Seq::new(c, |k: int| branch_product(layer, i * c + k, fanin)))
}

/// `p1 q2 + p2 q1` as computed by the fractional-sum tower.
pub open spec fn frac_num(p1: Ext, p2: Ext, q1: Ext, q2: Ext) -> Ext {
    ext_add(ext_mul(p2, q1), ext_mul(p1, q2))
}

/// The coarser logup layer `[p1, p2, q1, q2]`: half `h` of each table is merged as the
/// fraction sum `p1/q1 + p2/q2`, entry by entry.
pub open spec fn logup_parent(layer: Seq<Seq<Ext>>) -> Seq<Seq<Ext>> {
    let c = layer[0].len() / 2;
    let (p1, p2, q1, q2) = (layer[0], layer[1], layer[2], layer[3]);
    let num = |h: int| Seq::new(c, |k: int| frac_num(p1[h * c + k], p2[h * c + k], q1[h * c + k], q2[h * c + k]));
    let den = |h: int| Seq::new(c, |k: int| ext_mul(q1[h * c + k], q2[h * c + k]));
    seq![num(0), num(1), den(0), den(1)]
}

pub open spec fn ones(n: nat) -> Seq<Ext> {
    Seq::new(n, |i: int| ext_one())
}

/// `len` is `2^n` for some `n`.
pub open spec fn is_cube_size(len: nat) -> bool
    decreases len,
{
    if len <= 1 {
        len == 1
    } else {
        len % 2 == 0 && is_cube_size(len / 2)
    }
}

proof fn lemma_cube_size_add(a: nat, b: nat)
    ensures
        cube_size(a + b) == cube_size(a) * cube_size(b),
    decreases b,
{
    if b > 0 {
        lemma_cube_size_add(a, (b - 1) as nat);
        assert(cube_size(a + b) == 2 * cube_size((a + b - 1) as nat));
        assert(cube_size(a) * cube_size(b) == cube_size(a) * (2 * cube_size((b - 1) as nat)));
        assert(cube_size(a) * (2 * cube_size((b - 1) as nat)) == 2 * (cube_size(a) * cube_size(
            (b - 1) as nat,
        ))) by (nonlinear_arith);
    } else {
        assert(cube_size(b) == 1);
        assert(a + b == a);
    }
}

/// Interleaves per-record vectors into `num_limbs` vectors: output `f` holds, for each of
/// its instances, one slot per input vector (then `default` up to `2^log2_per_instance_size`
/// slots), taken from chunk `f` of the inputs.
pub fn interleaving_mles_to_mles(
    mles: &Vec<Vec<Ext>>,
    log2_num_instances: usize,
    log2_per_instance_size: usize,
    num_limbs: usize,
    default: Ext,
) -> (out: Vec<Vec<Ext>>)
    requires
        mles.len() >= 1,
        forall|i: int| 0 <= i < mles.len() ==> (#[trigger] mles@[i]).len() == cube_size(
            log2_num_instances as nat,
        ),
        num_limbs >= 1,
        mles.len() <= cube_size(log2_per_instance_size as nat),
        cube_size((log2_num_instances + log2_per_instance_size) as nat) <= usize::MAX,
    ensures
        out.len() == num_limbs,
        forall|f: int|
            0 <= f < num_limbs ==> (#[trigger] out@[f])@ == Seq::new(
                (cube_size(log2_num_instances as nat) / num_limbs as nat) * cube_size(
                    log2_per_instance_size as nat,
                ),
                |x: int|
                    interleaved_entry(
                        tables(mles@),
                        cube_size(log2_per_instance_size as nat),
                        cube_size(log2_num_instances as nat) / num_limbs as nat,
                        f as nat,
                        x as nat,
                        default,
                    ),
            ),
{
    proof {
        lemma_cube_size_add(log2_num_instances as nat, log2_per_instance_size as nat);
        crate::mle::lemma_cube_size_mono(log2_per_instance_size as nat, (log2_num_instances + log2_per_instance_size) as nat);
        crate::mle::lemma_cube_size_pos(log2_per_instance_size as nat);
        crate::mle::lemma_cube_size_pos(log2_num_instances as nat);
    }
    let per_instance = crate::mle::cube_size_exec(log2_per_instance_size);
    let num_instances = mles[0].len();
    let per_fanin = num_instances / num_limbs;
    proof {
        assert(per_fanin * per_instance <= num_instances * per_instance) by (nonlinear_arith)
            requires
                per_fanin <= num_instances,
        ;
        assert(per_fanin * num_limbs <= num_instances) by (nonlinear_arith)
            requires
                per_fanin == num_instances / num_limbs,
                num_limbs >= 1,
        ;
    }
    let len = per_fanin * per_instance;
    let ghost ms = tables(mles@);
    let mut out: Vec<Vec<Ext>> = Vec::new();
    let mut f: usize = 0;
    while f < num_limbs
        invariant
            f <= num_limbs,
            out.len() == f,
            ms == tables(mles@),
            num_instances == cube_size(log2_num_instances as nat),
            per_instance == cube_size(log2_per_instance_size as nat),
            per_instance >= 1,
            per_fanin == num_instances / num_limbs,
            per_fanin * num_limbs <= num_instances,
            len == per_fanin * per_instance,
            mles.len() <= per_instance,
            forall|i: int| 0 <= i < mles.len() ==> (#[trigger] mles@[i]).len() == num_instances,
            forall|g: int|
                0 <= g < f ==> (#[trigger] out@[g])@ == Seq::new(
                    len as nat,
                    |x: int|
                        interleaved_entry(
                            ms,
                            per_instance as nat,
                            per_fanin as nat,
                            g as nat,
                            x as nat,
                            default,
                        ),
                ),
        decreases num_limbs - f,
    {
        let mut v: Vec<Ext> = Vec::new();
        let mut x: usize = 0;
        proof {
            assert((f + 1) * per_fanin <= num_limbs * per_fanin) by (nonlinear_arith)
                requires
                    f < num_limbs,
            ;
        }
        while x < len
            invariant
                x <= len,
                f < num_limbs,
                (f + 1) * per_fanin <= num_instances,
                ms == tables(mles@),
                per_instance >= 1,
                len == per_fanin * per_instance,
                mles.len() <= per_instance,
                forall|i: int| 0 <= i < mles.len() ==> (#[trigger] mles@[i]).len() == num_instances,
                v@.len() == x,
                forall|y: int|
                    0 <= y < x ==> #[trigger] v@[y] == interleaved_entry(
                        ms,
                        per_instance as nat,
                        per_fanin as nat,
                        f as nat,
                        y as nat,
                        default,
                    ),
            decreases len - x,
        {
            let i = x % per_instance;
            let j = x / per_instance;
            proof {
                assert(j < per_fanin) by (nonlinear_arith)
                    requires
                        x < per_fanin * per_instance,
                        j == x / per_instance,
                        per_instance >= 1,
                ;
                assert(f * per_fanin + j < num_instances) by (nonlinear_arith)
                    requires
                        j < per_fanin,
                        (f + 1) * per_fanin <= num_instances,
                ;
            }
            if i < mles.len() {
                v.push(mles[i][f * per_fanin + j]);
            } else {
                v.push(default);
            }
            x = x + 1;
        }
        proof {
            assert(v@ =~= Seq::new(
                len as nat,
                |y: int|
                    interleaved_entry(ms, per_instance as nat, per_fanin as nat, f as nat, y as nat, default),
            ));
        }
        out.push(v);
        f = f + 1;
    }
    out
}

/// `n` tables, all as long as the first.
pub open spec fn uniform(layer: Seq<Seq<Ext>>, n: nat) -> bool {
    &&& layer.len() == n
    &&& forall|i: int| 0 <= i < layer.len() ==> (#[trigger] layer[i]).len() == layer[0].len()
}

fn product_parent_exec(layer: &Vec<Vec<Ext>>) -> (out: Vec<Vec<Ext>>)
    requires
        layer.len() >= 1,
        uniform(tables(layer@), layer.len() as nat),
    ensures
        tables(out@) == product_parent(tables(layer@)),
        uniform(tables(out@), layer.len() as nat),
{
    let ghost l = tables(layer@);
    let fanin = layer.len();
    let c = layer[0].len() / fanin;
    proof {
        assert(c * fanin <= layer[0].len()) by (nonlinear_arith)
            requires
                c == layer[0].len() / fanin,
                fanin >= 1,
        ;
    }
    let mut out: Vec<Vec<Ext>> = Vec::new();
    let mut i: usize = 0;
    while i < fanin
        invariant
            i <= fanin,
            fanin == layer.len(),
            l == tables(layer@),
            uniform(l, fanin as nat),
            c == l[0].len() / fanin as nat,
            c * fanin <= l[0].len(),
            out.len() == i,
            forall|g: int|
                0 <= g < i ==> (#[trigger] out@[g])@ == Seq::new(
                    c as nat,
                    |k: int| branch_product(l, g * c + k, fanin as nat),
                ),
        decreases fanin - i,
    {
        let mut v: Vec<Ext> = Vec::new();
        let mut k: usize = 0;
        proof {
            assert((i + 1) * c <= fanin * c) by (nonlinear_arith)
                requires
                    i < fanin,
            ;
        }
        while k < c
            invariant
                k <= c,
                i < fanin,
                fanin == layer.len(),
                l == tables(layer@),
                uniform(l, fanin as nat),
                (i + 1) * c <= l[0].len(),
                l[0].len() == layer@[0].len(),
                v@.len() == k,
                forall|y: int|
                    0 <= y < k ==> #[trigger] v@[y] == branch_product(l, i * c + y, fanin as nat),
            decreases c - k,
        {
            proof {
                assert(i * c + k < (i + 1) * c) by (nonlinear_arith)
                    requires
                        k < c,
                ;
            }
            let s = i * c + k;
            let mut acc = Ext::one();
            let mut b: usize = 0;
            while b < fanin
                invariant
                    b <= fanin,
                    fanin == layer.len(),
                    l == tables(layer@),
                    uniform(l, fanin as nat),
                    s < l[0].len(),
                    acc == branch_product(l, s as int, b as nat),
                decreases fanin - b,
            {
                assert(l[b as int].len() == l[0].len());
                acc = acc.mul(layer[b][s]);
                b = b + 1;
            }
            v.push(acc);
            k = k + 1;
        }
        proof {
            assert(v@ =~= Seq::new(c as nat, |k: int| branch_product(l, i * c + k, fanin as nat)));
        }
        out.push(v);
        i = i + 1;
    }
    proof {
        assert(tables(out@) =~= product_parent(l));
    }
    out
}

/// The same layers in the opposite order.
fn reverse_layers(acc: Vec<Vec<Vec<Ext>>>) -> (res: Vec<Vec<Vec<Ext>>>)
    ensures
        res.len() == acc.len(),
        forall|d: int|
            0 <= d < acc.len() ==> #[trigger] layers(res@)[d] == layers(acc@)[acc.len() - 1 - d],
{
    let ghost all = layers(acc@);
    let ghost total = acc.len();
    let mut acc = acc;
    let mut res: Vec<Vec<Vec<Ext>>> = Vec::new();
    while acc.len() > 0
        invariant
            acc.len() + res.len() == total,
            all.len() == total,
            forall|d: int| 0 <= d < acc.len() ==> #[trigger] layers(acc@)[d] == all[d],
            forall|d: int| 0 <= d < res.len() ==> #[trigger] layers(res@)[d] == all[total - 1 - d],
        decreases acc.len(),
    {
        let ghost before = layers(acc@);
        let ghost accb = acc@;
        let layer = acc.pop().unwrap();
        proof {
            assert(layer == accb[acc.len() as int]);
            assert(tables(layer@) == before[acc.len() as int]);
        }
        let ghost res_before = layers(res@);
        res.push(layer);
        proof {
            assert forall|d: int| 0 <= d < acc.len() implies #[trigger] layers(acc@)[d] == all[d] by {
                assert(layers(acc@)[d] == before[d]);
            }
            assert forall|d: int| 0 <= d < res.len() implies #[trigger] layers(res@)[d] == all[total - 1 - d] by {
                if d < res.len() - 1 {
                    assert(layers(res@)[d] == res_before[d]);
                }
            }
        }
    }
    res
}

/// Builds a product tower from its leaf layer: `num_vars` layers, root first, each
/// layer the product parent of the next and the last one `last_layer`.
pub fn infer_tower_product_witness(
    num_vars: usize,
    last_layer: Vec<Vec<Ext>>,
    num_product_fanin: usize,
) -> (res: Vec<Vec<Vec<Ext>>>)
    requires
        num_vars >= 1,
        num_product_fanin >= 1,
        last_layer.len() == num_product_fanin,
        uniform(tables(last_layer@), num_product_fanin as nat),
    ensures
        res.len() == num_vars,
        layers(res@)[num_vars - 1] == tables(last_layer@),
        forall|d: int|
            0 <= d < num_vars - 1 ==> #[trigger] layers(res@)[d] == product_parent(
                layers(res@)[d + 1],
            ),
{
    let ghost leaves = tables(last_layer@);
    let mut acc: Vec<Vec<Vec<Ext>>> = Vec::new();
    acc.push(last_layer);
    let mut n: usize = 1;
    while n < num_vars
        invariant
            1 <= n <= num_vars,
            num_product_fanin >= 1,
            acc.len() == n,
            layers(acc@)[0] == leaves,
            forall|d: int| 0 <= d < n ==> uniform(#[trigger] layers(acc@)[d], num_product_fanin as nat),
            forall|d: int|
                0 <= d < n - 1 ==> #[trigger] layers(acc@)[d + 1] == product_parent(layers(acc@)[d]),
        decreases num_vars - n,
    {
        assert(uniform(layers(acc@)[n - 1], num_product_fanin as nat));
        assert(layers(acc@)[n - 1] == tables(acc@[n - 1]@));
        let next = product_parent_exec(&acc[n - 1]);
        let ghost before = layers(acc@);
        acc.push(next);
        proof {
            assert forall|d: int| 0 <= d < n implies #[trigger] layers(acc@)[d] == before[d] by {}
        }
        n = n + 1;
    }
    let ghost all = layers(acc@);
    let res = reverse_layers(acc);
    proof {
        assert forall|d: int| 0 <= d < num_vars - 1 implies #[trigger] layers(res@)[d] == product_parent(
            layers(res@)[d + 1],
        ) by {
            assert(layers(res@)[d] == all[num_vars - 1 - d]);
            assert(layers(res@)[d + 1] == all[num_vars - 1 - (d + 1)]);
            assert(all[(num_vars - 2 - d) + 1] == product_parent(all[num_vars - 2 - d]));
        }
        assert(layers(res@)[num_vars - 1] == all[0]);
    }
    res
}

fn ones_vec(n: usize) -> (v: Vec<Ext>)
    ensures
        v@ == ones(n as nat),
{
    let mut v: Vec<Ext> = Vec::new();
    let mut i: usize = 0;
    while i < n
        invariant
            i <= n,
            v@ == ones(i as nat),
        decreases n - i,
    {
        v.push(Ext::one());
        i = i + 1;
        proof {
            assert(v@ =~= ones(i as nat));
        }
    }
    v
}

fn logup_parent_exec(layer: &Vec<Vec<Ext>>) -> (out: Vec<Vec<Ext>>)
    requires
        uniform(tables(layer@), 4),
    ensures
        tables(out@) == logup_parent(tables(layer@)),
        uniform(tables(out@), 4),
        out@[0].len() == layer@[0].len() / 2,
{
    let ghost l = tables(layer@);
    let c = layer[0].len() / 2;
    let mut nums: Vec<Vec<Ext>> = Vec::new();
    let mut dens: Vec<Vec<Ext>> = Vec::new();
    let mut h: usize = 0;
    while h < 2
        invariant
            h <= 2,
            l == tables(layer@),
            uniform(l, 4),
            c == l[0].len() / 2,
            l[0].len() == layer@[0].len(),
            nums.len() == h,
            dens.len() == h,
            forall|g: int|
                0 <= g < h ==> (#[trigger] nums@[g])@ == Seq::new(
                    c as nat,
                    |k: int|
                        frac_num(l[0][g * c + k], l[1][g * c + k], l[2][g * c + k], l[3][g * c + k]),
                ),
            forall|g: int|
                0 <= g < h ==> (#[trigger] dens@[g])@ == Seq::new(
                    c as nat,
                    |k: int| ext_mul(l[2][g * c + k], l[3][g * c + k]),
                ),
        decreases 2 - h,
    {
        let mut pv: Vec<Ext> = Vec::new();
        let mut qv: Vec<Ext> = Vec::new();
        let start = h * c;
        let mut k: usize = 0;
        while k < c
            invariant
                k <= c,
                h < 2,
                start == h * c,
                l == tables(layer@),
                uniform(l, 4),
                c == l[0].len() / 2,
                l[0].len() == layer@[0].len(),
                pv@.len() == k,
                qv@.len() == k,
                forall|y: int|
                    0 <= y < k ==> #[trigger] pv@[y] == frac_num(
                        l[0][start + y],
                        l[1][start + y],
                        l[2][start + y],
                        l[3][start + y],
                    ),
                forall|y: int|
                    0 <= y < k ==> #[trigger] qv@[y] == ext_mul(l[2][start + y], l[3][start + y]),
            decreases c - k,
        {
            let s = start + k;
            assert(l[1].len() == l[0].len() && l[2].len() == l[0].len() && l[3].len() == l[0].len());
            let p1 = layer[0][s];
            let p2 = layer[1][s];
            let q1 = layer[2][s];
            let q2 = layer[3][s];
            pv.push(p2.mul(q1).add(p1.mul(q2)));
            qv.push(q1.mul(q2));
            k = k + 1;
        }
        proof {
            assert(pv@ =~= Seq::new(
                c as nat,
                |k: int| frac_num(l[0][h * c + k], l[1][h * c + k], l[2][h * c + k], l[3][h * c + k]),
            ));
            assert(qv@ =~= Seq::new(c as nat, |k: int| ext_mul(l[2][h * c + k], l[3][h * c + k])));
        }
        nums.push(pv);
        dens.push(qv);
        h = h + 1;
    }
    let d1 = dens.pop().unwrap();
    let d0 = dens.pop().unwrap();
    let n1 = nums.pop().unwrap();
    let n0 = nums.pop().unwrap();
    let out = vec![n0, n1, d0, d1];
    proof {
        assert(tables(out@) =~= logup_parent(l));
    }
    out
}

/// Builds a fractional-sum tower from the two leaf denominator tables `[q1, q2]`, whose
/// numerators are all one: root first, every layer `[p1, p2, q1, q2]` the logup parent of
/// the next, down to the leaf layer `[1, 1, q1, q2]`.
pub fn infer_tower_logup_witness(q_mles: Vec<Vec<Ext>>) -> (res: Vec<Vec<Vec<Ext>>>)
    requires
        q_mles.len() == 2,
        q_mles@[0].len() == q_mles@[1].len(),
        is_cube_size(q_mles@[0].len() as nat),
    ensures
        res.len() >= 1,
        cube_size((res.len() - 1) as nat) == q_mles@[0].len(),
        layers(res@)[res.len() - 1] == seq![
            ones(q_mles@[0].len() as nat),
            ones(q_mles@[0].len() as nat),
            q_mles@[0]@,
            q_mles@[1]@,
        ],
        forall|d: int|
            0 <= d < res.len() - 1 ==> #[trigger] layers(res@)[d] == logup_parent(
                layers(res@)[d + 1],
            ),
        forall|d: int| 0 <= d < res.len() ==> uniform(#[trigger] layers(res@)[d], 4),
        layers(res@)[0][0].len() == 1,
        is_logup_tower(layers(res@), q_mles@[0]@, q_mles@[1]@),
        forall|d: int|
            0 <= d < res.len() - 1 ==> (#[trigger] layers(res@)[d + 1])[0].len() == 2 * layers(
                res@,
            )[d][0].len(),
{
    let ghost q1v = q_mles@[0]@;
    let ghost q2v = q_mles@[1]@;
    let mut q_mles = q_mles;
    let q2 = q_mles.pop().unwrap();
    let q1 = q_mles.pop().unwrap();
    let len = q1.len();
    let leaf = vec![ones_vec(len), ones_vec(len), q1, q2];
    let ghost leaves = tables(leaf@);
    proof {
        assert(leaves =~= seq![ones(len as nat), ones(len as nat), q1v, q2v]);
    }
    let mut acc: Vec<Vec<Vec<Ext>>> = Vec::new();
    acc.push(leaf);
    let mut cur_len = len;
    proof {
        assert(layers(acc@)[0] == leaves);
        assert(cube_size((acc.len() - 1) as nat) == 1);
    }
    while cur_len > 1
        invariant
            acc.len() >= 1,
            layers(acc@)[0] == leaves,
            forall|d: int| 0 <= d < acc.len() ==> uniform(#[trigger] layers(acc@)[d], 4),
            forall|d: int|
                0 <= d < acc.len() - 1 ==> #[trigger] layers(acc@)[d + 1] == logup_parent(
                    layers(acc@)[d],
                ),
            layers(acc@)[acc.len() - 1][0].len() == cur_len,
            forall|d: int|
                0 <= d < acc.len() - 1 ==> (#[trigger] layers(acc@)[d])[0].len() == 2 * layers(
                    acc@,
                )[d + 1][0].len(),
            is_cube_size(cur_len as nat),
            cube_size((acc.len() - 1) as nat) * cur_len == len,
        decreases cur_len,
    {
        let n = acc.len();
        assert(uniform(layers(acc@)[n - 1], 4));
        assert(layers(acc@)[n - 1] == tables(acc@[n - 1]@));
        let next = logup_parent_exec(&acc[n - 1]);
        let ghost before = layers(acc@);
        acc.push(next);
        proof {
            assert forall|d: int| 0 <= d < n implies #[trigger] layers(acc@)[d] == before[d] by {}
            assert(cur_len % 2 == 0);
            assert(layers(acc@)[n as int][0].len() == cur_len / 2);
            assert(cube_size(n as nat) == 2 * cube_size((n - 1) as nat));
            assert(cube_size(n as nat) * (cur_len / 2) == cube_size((n - 1) as nat) * cur_len) by (nonlinear_arith)
                requires
                    cube_size(n as nat) == 2 * cube_size((n - 1) as nat),
                    cur_len % 2 == 0,
            ;
        }
        cur_len = cur_len / 2;
    }
    proof {
        assert(cur_len == 1);
        assert(cube_size((acc.len() - 1) as nat) == len);
    }
    let ghost all = layers(acc@);
    let res = reverse_layers(acc);
    proof {
        let n = res.len() as int;
        assert forall|d: int| 0 <= d < n - 1 implies #[trigger] layers(res@)[d] == logup_parent(
            layers(res@)[d + 1],
        ) by {
            assert(layers(res@)[d] == all[n - 1 - d]);
            assert(layers(res@)[d + 1] == all[n - 1 - (d + 1)]);
            assert(all[(n - 2 - d) + 1] == logup_parent(all[n - 2 - d]));
        }
        assert(layers(res@)[n - 1] == all[0]);
        assert forall|d: int| 0 <= d < n implies uniform(#[trigger] layers(res@)[d], 4) by {
            assert(layers(res@)[d] == all[n - 1 - d]);
        }
        assert forall|d: int| 0 <= d < n - 1 implies (#[trigger] layers(res@)[d + 1])[0].len() == 2
            * layers(res@)[d][0].len() by {
            assert(layers(res@)[d] == all[n - 1 - d]);
            assert(layers(res@)[d + 1] == all[n - 1 - (d + 1)]);
            assert(all[(n - 2 - d)][0].len() == 2 * all[(n - 2 - d) + 1][0].len());
        }
        assert(layers(res@)[0] == all[n - 1]);
    }
    res
}

/// `a/b + c/d` kept as the pair `(c b + a d, b d)`: how the fractional-sum tower merges
/// two entries.
pub open spec fn frac_add(x: (Ext, Ext), y: (Ext, Ext)) -> (Ext, Ext) {
    (frac_num(x.0, y.0, x.1, y.1), ext_mul(x.1, y.1))
}

/// The fractions of a non-empty sequence added from left to right.
pub open spec fn frac_sum(s: Seq<(Ext, Ext)>) -> (Ext, Ext)
    decreases s.len(),
{
    if s.len() <= 1 {
        s[0]
    } else {
        frac_add(frac_sum(s.drop_last()), s.last())
    }
}

/// The fractions a logup layer `[p1, p2, q1, q2]` stands for: `p1[k]/q1[k]` for every
/// `k`, then `p2[k]/q2[k]`.
pub open spec fn layer_fracs(l: Seq<Seq<Ext>>) -> Seq<(Ext, Ext)> {
    let m = l[0].len();
    Seq::new(2 * m, |j: int| if j < m { (l[0][j], l[2][j]) } else { (l[1][j - m], l[3][j - m]) })
}

/// The leaf fractions `1/q1[k]` for every `k`, then `1/q2[k]`.
pub open spec fn leaf_fracs(q1: Seq<Ext>, q2: Seq<Ext>) -> Seq<(Ext, Ext)> {
    Seq::new(
        q1.len() + q2.len(),
        |j: int| if j < q1.len() { (ext_one(), q1[j]) } else { (ext_one(), q2[j - q1.len()]) },
    )
}

proof fn lemma_mul_right_distrib(u: Ext, v: Ext, w: Ext)
    ensures
        ext_mul(ext_add(u, v), w) == ext_add(ext_mul(u, w), ext_mul(v, w)),
{
    lemma_ext_mul_comm(ext_add(u, v), w);
    lemma_ext_distrib(w, u, v);
    lemma_ext_mul_comm(w, u);
    lemma_ext_mul_comm(w, v);
}

proof fn lemma_frac_add_comm(x: (Ext, Ext), y: (Ext, Ext))
    ensures
        frac_add(x, y) == frac_add(y, x),
{
    lemma_ext_add_comm(ext_mul(y.0, x.1), ext_mul(x.0, y.1));
    lemma_ext_mul_comm(x.1, y.1);
    lemma_ext_mul_comm(y.0, x.1);
    lemma_ext_mul_comm(x.0, y.1);
    lemma_ext_add_comm(ext_mul(x.1, y.0), ext_mul(y.1, x.0));
    lemma_ext_mul_comm(x.1, y.0);
    lemma_ext_mul_comm(y.1, x.0);
}

proof fn lemma_frac_add_assoc(x: (Ext, Ext), y: (Ext, Ext), z: (Ext, Ext))
    ensures
        frac_add(frac_add(x, y), z) == frac_add(x, frac_add(y, z)),
{
    let (a, b) = x;
    let (c, d) = y;
    let (e, f) = z;
    // denominators: (b d) f == b (d f)
    lemma_ext_mul_assoc(b, d, f);
    // left numerator: e (b d) + (c b + a d) f
    let cb = ext_mul(c, b);
    let ad = ext_mul(a, d);
    lemma_mul_right_distrib(cb, ad, f);
    // right numerator: (e d + c f) b + a (d f)
    let ed = ext_mul(e, d);
    let cf = ext_mul(c, f);
    lemma_mul_right_distrib(ed, cf, b);
    // e (b d) == (e d) b
    lemma_ext_mul_comm(b, d);
    lemma_ext_mul_assoc(e, d, b);
    // (c b) f == (c f) b
    lemma_ext_mul_assoc(c, b, f);
    lemma_ext_mul_comm(b, f);
    lemma_ext_mul_assoc(c, f, b);
    // (a d) f == a (d f)
    lemma_ext_mul_assoc(a, d, f);
    let t1 = ext_mul(ed, b);
    let t2 = ext_mul(cf, b);
    let t3 = ext_mul(a, ext_mul(d, f));
    lemma_ext_add_assoc(t1, t2, t3);
}

proof fn lemma_frac_add_medial(x: (Ext, Ext), y: (Ext, Ext), z: (Ext, Ext), w: (Ext, Ext))
    ensures
        frac_add(frac_add(x, y), frac_add(z, w)) == frac_add(frac_add(x, z), frac_add(y, w)),
{
    lemma_frac_add_assoc(x, y, frac_add(z, w));
    lemma_frac_add_assoc(y, z, w);
    lemma_frac_add_comm(y, z);
    lemma_frac_add_assoc(z, y, w);
    lemma_frac_add_assoc(x, z, frac_add(y, w));
}

proof fn lemma_frac_sum_concat(a: Seq<(Ext, Ext)>, b: Seq<(Ext, Ext)>)
    requires
        a.len() >= 1,
        b.len() >= 1,
    ensures
        frac_sum(a + b) == frac_add(frac_sum(a), frac_sum(b)),
    decreases b.len(),
{
    let ab = a + b;
    if b.len() == 1 {
        assert(ab.drop_last() =~= a);
    } else {
        assert(ab.drop_last() =~= a + b.drop_last());
        lemma_frac_sum_concat(a, b.drop_last());
        lemma_frac_add_assoc(frac_sum(a), frac_sum(b.drop_last()), b.last());
    }
}

/// Entry-wise sums of two sequences of the same length.
pub open spec fn frac_zip(a: Seq<(Ext, Ext)>, b: Seq<(Ext, Ext)>) -> Seq<(Ext, Ext)> {
    Seq::new(a.len(), |j: int| frac_add(a[j], b[j]))
}

proof fn lemma_frac_sum_zip(a: Seq<(Ext, Ext)>, b: Seq<(Ext, Ext)>)
    requires
        a.len() >= 1,
        b.len() == a.len(),
    ensures
        frac_sum(frac_zip(a, b)) == frac_add(frac_sum(a), frac_sum(b)),
    decreases a.len(),
{
    if a.len() > 1 {
        let z = frac_zip(a, b);
        assert(z.drop_last() =~= frac_zip(a.drop_last(), b.drop_last()));
        lemma_frac_sum_zip(a.drop_last(), b.drop_last());
        lemma_frac_add_medial(frac_sum(a.drop_last()), frac_sum(b.drop_last()), a.last(), b.last());
    }
}

/// Merging a layer into its parent keeps the sum of the fractions it stands for.
proof fn lemma_logup_parent_sum(l: Seq<Seq<Ext>>)
    requires
        uniform(l, 4),
        l[0].len() >= 2,
        l[0].len() % 2 == 0,
    ensures
        frac_sum(layer_fracs(logup_parent(l))) == frac_sum(layer_fracs(l)),
{
    let m = l[0].len() as int;
    let f = layer_fracs(l);
    let lo = f.subrange(0, m);
    let hi = f.subrange(m, 2 * m);
    assert(f =~= lo + hi);
    lemma_frac_sum_concat(lo, hi);
    let par = logup_parent(l);
    assert(layer_fracs(par) =~= frac_zip(lo, hi)) by {
        let c = m / 2;
        assert forall|j: int| 0 <= j < m implies #[trigger] layer_fracs(par)[j] == frac_add(lo[j], hi[j]) by {
            if j < c {
                assert(par[0][j] == frac_num(l[0][j], l[1][j], l[2][j], l[3][j]));
            } else {
                assert(par[1][j - c] == frac_num(l[0][c + (j - c)], l[1][c + (j - c)], l[2][c + (j - c)], l[3][c + (j - c)]));
            }
        }
    }
    lemma_frac_sum_zip(lo, hi);
}

/// What the logup builder guarantees of its output `w` for the leaves `q1`, `q2`.
pub open spec fn is_logup_tower(w: Seq<Seq<Seq<Ext>>>, q1: Seq<Ext>, q2: Seq<Ext>) -> bool {
    &&& w.len() >= 1
    &&& w[w.len() - 1] == seq![ones(q1.len()), ones(q1.len()), q1, q2]
    &&& forall|d: int| 0 <= d < w.len() - 1 ==> #[trigger] w[d] == logup_parent(w[d + 1])
    &&& forall|d: int| 0 <= d < w.len() ==> uniform(#[trigger] w[d], 4)
    &&& w[0][0].len() == 1
    &&& forall|d: int| 0 <= d < w.len() - 1 ==> (#[trigger] w[d + 1])[0].len() == 2 * w[d][0].len()
}

proof fn lemma_tower_len(w: Seq<Seq<Seq<Ext>>>, q1: Seq<Ext>, q2: Seq<Ext>, d: int)
    requires
        is_logup_tower(w, q1, q2),
        0 <= d < w.len(),
    ensures
        w[d][0].len() >= 1,
    decreases d,
{
    if d > 0 {
        lemma_tower_len(w, q1, q2, d - 1);
        assert(w[(d - 1) + 1][0].len() == 2 * w[d - 1][0].len());
    }
}

proof fn lemma_tower_sum(w: Seq<Seq<Seq<Ext>>>, q1: Seq<Ext>, q2: Seq<Ext>, d: int)
    requires
        is_logup_tower(w, q1, q2),
        0 <= d < w.len(),
    ensures
        frac_sum(layer_fracs(w[d])) == frac_sum(layer_fracs(w[w.len() - 1])),
    decreases w.len() - d,
{
    if d < w.len() - 1 {
        lemma_tower_len(w, q1, q2, d);
        assert(w[d + 1][0].len() == 2 * w[d][0].len());
        lemma_tower_sum(w, q1, q2, d + 1);
        assert(w[d] == logup_parent(w[d + 1]));
        lemma_logup_parent_sum(w[d + 1]);
    }
}

/// The logup identity: the fraction at the root of a fractional-sum tower,
/// `p1/q1 + p2/q2`, is the sum of all its leaf fractions `1/q` (each fraction kept as a
/// numerator and a denominator, added left to right).
pub proof fn logup_root_is_leaf_fraction_sum(w: Seq<Seq<Seq<Ext>>>, q1: Seq<Ext>, q2: Seq<Ext>)
    requires
        is_logup_tower(w, q1, q2),
    ensures
        frac_add((w[0][0][0], w[0][2][0]), (w[0][1][0], w[0][3][0])) == frac_sum(leaf_fracs(q1, q2)),
{
    lemma_tower_sum(w, q1, q2, 0);
    let root = layer_fracs(w[0]);
    assert(root.len() == 2);
    assert(root.drop_last() =~= seq![(w[0][0][0], w[0][2][0])]);
    assert(frac_sum(root.drop_last()) == (w[0][0][0], w[0][2][0]));
    assert(root.last() == (w[0][1][0], w[0][3][0]));
    assert(frac_sum(root) == frac_add((w[0][0][0], w[0][2][0]), (w[0][1][0], w[0][3][0])));
    let leaves = w[w.len() - 1];
    assert(uniform(leaves, 4));
    assert(layer_fracs(leaves) =~= leaf_fracs(q1, q2));
}

} // verus!
