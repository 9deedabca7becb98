use crate::field::{ext_add, ext_mul, ext_one, ext_sub, Ext};
use vstd::prelude::*;

verus! {

/// The evaluation tables held by a vector of vectors.
pub open spec fn tables(v: Seq<Vec<Ext>>) -> Seq<Seq<Ext>> {
    Seq::new(v.len(), |i: int| v[i]@)
}

/// Number of points of the boolean hypercube with `n` coordinates.
pub open spec fn cube_size(n: nat) -> nat
    decreases n,
{
    if n == 0 {
        1
    } else {
        2 * cube_size((n - 1) as nat)
    }
}

/// `a + r (b - a)`: the line through `a` (at 0) and `b` (at 1), taken at `r`.
pub open spec fn lerp(a: Ext, b: Ext, r: Ext) -> Ext {
    ext_add(a, ext_mul(r, ext_sub(b, a)))
}

/// Fixes the lowest variable of an evaluation table to `r`: entries `2i` and `2i + 1`
/// differ only in that variable.
pub open spec fn fold_low(t: Seq<Ext>, r: Ext) -> Seq<Ext> {
    Seq::new(t.len() / 2, |i: int| lerp(t[2 * i], t[2 * i + 1], r))
}

/// Fixes the lowest `p.len()` variables of `t`, lowest first, to the coordinates of `p`.
pub open spec fn fold_all(t: Seq<Ext>, p: Seq<Ext>) -> Seq<Ext>
    decreases p.len(),
{
    if p.len() == 0 {
        t
    } else {
        fold_low(fold_all(t, p.drop_last()), p.last())
    }
}

/// Value of the multilinear extension of table `t` at point `p`
/// (coordinate `j` of `p` is bit `j` of a table index).
pub open spec fn mle_eval(t: Seq<Ext>, p: Seq<Ext>) -> Ext {
    fold_all(t, p)[0]
}

/// `a b + (1 - a)(1 - b)`.
pub open spec fn eq_term(a: Ext, b: Ext) -> Ext {
    ext_add(ext_mul(a, b), ext_mul(ext_sub(ext_one(), a), ext_sub(ext_one(), b)))
}

/// The equality polynomial `eq(a, b) = prod_j (a_j b_j + (1 - a_j)(1 - b_j))`.
pub open spec fn eq_eval(a: Seq<Ext>, b: Seq<Ext>) -> Ext
    decreases a.len(),
{
    if a.len() == 0 || b.len() == 0 {
        ext_one()
    } else {
        ext_mul(eq_eval(a.drop_last(), b.drop_last()), eq_term(a.last(), b.last()))
    }
}

pub open spec fn scale(t: Seq<Ext>, c: Ext) -> Seq<Ext> {
    Seq::new(t.len(), |i: int| ext_mul(t[i], c))
}

/// Evaluation table of `eq(r, .)` on the hypercube: entry `i` weights bit `j` of `i`
/// by `r_j` and its complement by `1 - r_j`.
pub open spec fn eq_table(r: Seq<Ext>) -> Seq<Ext>
    decreases r.len(),
{
    if r.len() == 0 {
        seq![ext_one()]
    } else {
        let t = eq_table(r.drop_last());
        let x = r.last();
        scale(t, ext_sub(ext_one(), x)) + scale(t, x)
    }
}

pub proof fn lemma_cube_size_mono(a: nat, b: nat)
    requires
        a <= b,
    ensures
        cube_size(a) <= cube_size(b),
    decreases b,
{
    if a < b {
        lemma_cube_size_mono(a, (b - 1) as nat);
    }
}

pub proof fn lemma_cube_size_pos(n: nat)
    ensures
        cube_size(n) >= 1,
    decreases n,
{
    if n > 0 {
        lemma_cube_size_pos((n - 1) as nat);
    }
}

/// Fixing `n` variables of a table of `2^n * m` entries leaves `m` entries.
pub proof fn lemma_fold_all_len(t: Seq<Ext>, p: Seq<Ext>, m: nat)
    requires
        t.len() == cube_size(p.len()) * m,
    ensures
        fold_all(t, p).len() == m,
    decreases p.len(),
{
    if p.len() > 0 {
        let n = (p.len() - 1) as nat;
        assert(cube_size(p.len()) * m == cube_size(n) * (2 * m)) by (nonlinear_arith)
            requires
                cube_size(p.len()) == 2 * cube_size(n),
        ;
        assert(p.drop_last().len() == n);
        lemma_fold_all_len(t, p.drop_last(), 2 * m);
        let prev = fold_all(t, p.drop_last());
        assert(prev.len() == 2 * m);
        assert(fold_low(prev, p.last()).len() == m);
        assert(fold_all(t, p) == fold_low(prev, p.last()));
    } else {
        assert(cube_size(p.len()) == 1);
        assert(t.len() == m);
    }
}

pub fn fold_table(t: &Vec<Ext>, r: Ext) -> (out: Vec<Ext>)
    ensures
        out@ == fold_low(t@, r),
{
    let half = t.len() / 2;
    let mut out: Vec<Ext> = Vec::with_capacity(half);
    let mut i: usize = 0;
    while i < half
        invariant
            half == t.len() / 2,
            i <= half,
            out@.len() == i,
            forall|k: int| 0 <= k < i ==> out@[k] == lerp(t@[2 * k], t@[2 * k + 1], r),
        decreases half - i,
    {
        let a = t[2 * i];
        let b = t[2 * i + 1];
        out.push(a.add(r.mul(b.sub(a))));
        i = i + 1;
    }
    assert(out@ =~= fold_low(t@, r));
    out
}

proof fn lemma_fold_all_step(t: Seq<Ext>, p: Seq<Ext>, j: int)
    requires
        0 <= j < p.len(),
    ensures
        fold_all(t, p.subrange(0, j + 1)) == fold_low(fold_all(t, p.subrange(0, j)), p[j]),
{
    assert(p.subrange(0, j + 1).drop_last() =~= p.subrange(0, j));
}

/// Evaluates the multilinear extension of `t` at `point`.
pub fn evaluate(t: &Vec<Ext>, point: &Vec<Ext>) -> (r: Ext)
    requires
        t.len() == cube_size(point.len() as nat),
    ensures
        r == mle_eval(t@, point@),
{
    let n = point.len();
    proof {
        lemma_fold_all_len(t@, point@, 1);
        lemma_cube_size_pos(n as nat);
    }
    if n == 0 {
        return t[0];
    }
    proof {
        lemma_fold_all_step(t@, point@, 0);
        assert(point@.subrange(0, 0) =~= Seq::<Ext>::empty());
    }
    let mut cur = fold_table(t, point[0]);
    let mut j: usize = 1;
    while j < n
        invariant
            n == point.len(),
            1 <= j <= n,
            cur@ == fold_all(t@, point@.subrange(0, j as int)),
        decreases n - j,
    {
        proof {
            lemma_fold_all_step(t@, point@, j as int);
        }
        cur = fold_table(&cur, point[j]);
        j = j + 1;
    }
    proof {
        assert(point@.subrange(0, n as int) =~= point@);
    }
    cur[0]
}

/// `a b + (1 - a)(1 - b)`.
pub fn eq_term_exec(a: Ext, b: Ext) -> (r: Ext)
    ensures
        r == eq_term(a, b),
{
    let one = Ext::one();
    a.mul(b).add(one.sub(a).mul(one.sub(b)))
}

/// `eq(a, b)` over the common prefix length of two points of equal length.
pub fn eq_eval_exec(a: &Vec<Ext>, b: &Vec<Ext>) -> (r: Ext)
    requires
        a.len() == b.len(),
    ensures
        r == eq_eval(a@, b@),
{
    let n = a.len();
    let mut acc = Ext::one();
    let mut j: usize = 0;
    while j < n
        invariant
            n == a.len(),
            n == b.len(),
            j <= n,
            acc == eq_eval(a@.subrange(0, j as int), b@.subrange(0, j as int)),
        decreases n - j,
    {
        proof {
            let aj = a@.subrange(0, j + 1);
            let bj = b@.subrange(0, j + 1);
            assert(aj.drop_last() =~= a@.subrange(0, j as int));
            assert(bj.drop_last() =~= b@.subrange(0, j as int));
        }
        acc = acc.mul(eq_term_exec(a[j], b[j]));
        j = j + 1;
    }
    proof {
        assert(a@.subrange(0, n as int) =~= a@);
        assert(b@.subrange(0, n as int) =~= b@);
    }
    acc
}

fn scale_into(out: &mut Vec<Ext>, t: &Vec<Ext>, c: Ext)
    ensures
        final(out)@ == old(out)@ + scale(t@, c),
{
    let mut i: usize = 0;
    let ghost start = out@;
    while i < t.len()
        invariant
            i <= t.len(),
            out@ == start + scale(t@, c).subrange(0, i as int),
        decreases t.len() - i,
    {
        out.push(t[i].mul(c));
        i = i + 1;
        proof {
            assert(start + scale(t@, c).subrange(0, i as int) =~= out@);
        }
    }
    proof {
        assert(scale(t@, c).subrange(0, i as int) =~= scale(t@, c));
    }
}

/// Evaluation table of `eq(r, .)` over the hypercube with `r.len()` coordinates.
pub fn build_eq(r: &Vec<Ext>) -> (t: Vec<Ext>)
    ensures
        t@ == eq_table(r@),
        t.len() == cube_size(r.len() as nat),
{
    let n = r.len();
    let mut t: Vec<Ext> = vec![Ext::one()];
    let mut j: usize = 0;
    proof {
        assert(r@.subrange(0, 0).len() == 0);
        assert(t@ =~= eq_table(r@.subrange(0, 0)));
    }
    while j < n
        invariant
            n == r.len(),
            j <= n,
            t@ == eq_table(r@.subrange(0, j as int)),
            t.len() == cube_size(j as nat),
        decreases n - j,
    {
        let x = r[j];
        let mut next: Vec<Ext> = Vec::new();
        scale_into(&mut next, &t, Ext::one().sub(x));
        scale_into(&mut next, &t, x);
        proof {
            let rj = r@.subrange(0, j + 1);
            assert(rj.drop_last() =~= r@.subrange(0, j as int));
            assert(next@ =~= eq_table(rj));
        }
        t = next;
        j = j + 1;
    }
    proof {
        assert(r@.subrange(0, n as int) =~= r@);
    }
    t
}

/// `2^n`.
pub fn cube_size_exec(n: usize) -> (r: usize)
    requires
        cube_size(n as nat) <= usize::MAX,
    ensures
        r == cube_size(n as nat),
{
    let mut r: usize = 1;
    let mut i: usize = 0;
    while i < n
        invariant
            i <= n,
            cube_size(n as nat) <= usize::MAX,
            r == cube_size(i as nat),
        decreases n - i,
    {
        proof {
            lemma_cube_size_mono((i + 1) as nat, n as nat);
        }
        r = r * 2;
        i = i + 1;
    }
    r
}

/// A copy of `t`.
pub fn copy_table(t: &Vec<Ext>) -> (r: Vec<Ext>)
    ensures
        r@ == t@,
{
    let mut r: Vec<Ext> = Vec::new();
    let mut i: usize = 0;
    while i < t.len()
        invariant
            i <= t.len(),
            r@ == t@.subrange(0, i as int),
        decreases t.len() - i,
    {
        r.push(t[i]);
        i = i + 1;
        proof {
            assert(r@ =~= t@.subrange(0, i as int));
        }
    }
    proof {
        assert(t@.subrange(0, t.len() as int) =~= t@);
    }
    r
}

} // verus!
