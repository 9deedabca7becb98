use ceno_tower::expression::prn;
use ceno_tower::field::{Ext, P};

fn e(v: u64) -> Ext {
    Ext::from_u64(v)
}

#[test]
fn base_arithmetic_wraps_mod_p() {
    assert_eq!(e(P - 1).add(e(2)), e(1));
    assert_eq!(e(3).sub(e(5)), e(P - 2));
    assert_eq!(e(P), Ext::zero());
    assert_eq!(e(1u64 << 32).mul(e(1u64 << 32)), e((1u64 << 32) - 1));
}

#[test]
fn extension_multiplication_uses_the_non_residue() {
    let x = Ext { c0: 0, c1: 1 };
    // x^2 = 7
    assert_eq!(x.mul(x), e(7));
    let a = Ext { c0: 2, c1: 3 };
    let b = Ext { c0: 5, c1: 4 };
    // (2 + 3x)(5 + 4x) = 10 + 84 + (8 + 15) x
    assert_eq!(a.mul(b), Ext { c0: 94, c1: 23 });
}

#[test]
fn prn_wraps_only_when_asked() {
    assert_eq!(prn("a + b".to_string(), true), "(a + b)");
    assert_eq!(prn("a + b".to_string(), false), "a + b");
}
