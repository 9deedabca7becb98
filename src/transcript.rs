use crate::field::{ext_add, ext_mul, ext_of, ext_one, Ext};
use vstd::prelude::*;

verus! {

/// Multiplier of the transcript's absorbing map.
pub const MIX_C0: u64 = 0x9e37_79b9_7f4a_7c15;

pub const MIX_C1: u64 = 0x6a09_e667_f3bc_c909;

pub open spec fn mix() -> Ext {
    Ext { c0: (MIX_C0 as int % (crate::field::P as int)) as u64, c1: (MIX_C1 as int % (crate::field::P as int)) as u64 }
}

/// State after absorbing `x` into state `s`.
pub open spec fn absorb(s: Ext, x: Ext) -> Ext {
    ext_mul(ext_add(s, x), mix())
}

/// State after absorbing each element of `xs` in order.
pub open spec fn absorb_all(s: Ext, xs: Seq<Ext>) -> Ext
    decreases xs.len(),
{
    if xs.len() == 0 {
        s
    } else {
        absorb(absorb_all(s, xs.drop_last()), xs.last())
    }
}

/// State after drawing a challenge from state `s`; the challenge is the new state.
pub open spec fn squeeze(s: Ext) -> Ext {
    ext_add(ext_mul(s, mix()), ext_one())
}

/// `a^k`.
pub open spec fn ext_pow(a: Ext, k: nat) -> Ext
    decreases k,
{
    if k == 0 {
        ext_one()
    } else {
        ext_mul(ext_pow(a, (k - 1) as nat), a)
    }
}

/// `[1, a, a^2, ..., a^(n-1)]`.
pub open spec fn powers(a: Ext, n: nat) -> Seq<Ext> {
    Seq::new(n, |i: int| ext_pow(a, i as nat))
}

/// A Fiat-Shamir transcript: a running state that absorbs every prover message and
/// derives each challenge from everything absorbed before it. Prover and verifier that
/// absorb the same messages and draw in the same order see the same challenges. The
/// mixing map is a polynomial over the field, which binds the challenges to the
/// messages but is not a cryptographic hash.
pub struct Transcript {
    pub state: Ext,
}

impl Transcript {
    /// A transcript whose initial state is the domain separator `seed`.
    pub fn new(seed: u64) -> (t: Transcript)
        ensures
            t.state == ext_of(seed),
    {
        Transcript { state: Ext::from_u64(seed) }
    }

    fn mix_exec() -> (r: Ext)
        ensures
            r == mix(),
    {
        Ext { c0: MIX_C0 % crate::field::P, c1: MIX_C1 % crate::field::P }
    }

    pub fn append(&mut self, x: Ext)
        ensures
            final(self).state == absorb(old(self).state, x),
    {
        self.state = self.state.add(x).mul(Self::mix_exec());
    }

    pub fn append_all(&mut self, xs: &Vec<Ext>)
        ensures
            final(self).state == absorb_all(old(self).state, xs@),
    {
        let ghost s0 = self.state;
        let mut i: usize = 0;
        proof {
            assert(xs@.subrange(0, 0) =~= Seq::<Ext>::empty());
        }
        while i < xs.len()
            invariant
                i <= xs.len(),
                self.state == absorb_all(s0, xs@.subrange(0, i as int)),
            decreases xs.len() - i,
        {
            proof {
                assert(xs@.subrange(0, i + 1).drop_last() =~= xs@.subrange(0, i as int));
            }
            self.append(xs[i]);
            i = i + 1;
        }
        proof {
            assert(xs@.subrange(0, xs.len() as int) =~= xs@);
        }
    }

    /// Draws the next challenge.
    pub fn get_challenge(&mut self) -> (c: Ext)
        ensures
            c == squeeze(old(self).state),
            final(self).state == c,
    {
        self.state = self.state.mul(Self::mix_exec()).add(Ext::one());
        self.state
    }

    /// Draws one challenge `a` and returns its first `n` powers.
    pub fn get_challenge_pows(&mut self, n: usize) -> (r: Vec<Ext>)
        ensures
            r@ == powers(squeeze(old(self).state), n as nat),
            final(self).state == squeeze(old(self).state),
    {
        let a = self.get_challenge();
        let mut r: Vec<Ext> = Vec::new();
        let mut cur = Ext::one();
        let mut i: usize = 0;
        while i < n
            invariant
                i <= n,
                cur == ext_pow(a, i as nat),
                r@ == powers(a, i as nat),
            decreases n - i,
        {
            r.push(cur);
            cur = cur.mul(a);
            i = i + 1;
            proof {
                assert(r@ =~= powers(a, i as nat));
            }
        }
        r
    }
}

} // verus!
