use ceno_tower::field::Ext;
use ceno_tower::witness::{
    infer_tower_logup_witness, infer_tower_product_witness, interleaving_mles_to_mles,
};

fn e(v: u64) -> Ext {
    Ext::from_u64(v)
}

fn es(vs: &[u64]) -> Vec<Ext> {
    vs.iter().map(|v| e(*v)).collect()
}

#[test]
fn test_infer_tower_witness() {
    let num_product_fanin = 2;
    let last_layer = vec![vec![Ext::one(), e(2)], vec![e(3), e(4)]];
    let num_vars = 2;
    let res = infer_tower_product_witness(num_vars, last_layer.clone(), 2);
    let (left, right) = (&res[0][0], &res[0][1]);
    assert!(left.len() == 1 && right.len() == 1);
    let final_product = left[0].mul(right[0]);
    let expected_final_product = last_layer
        .iter()
        .map(|f| f.iter().cloned().reduce(|a, b| a.mul(b)).unwrap())
        .reduce(|a, b| a.mul(b))
        .unwrap();
    assert_eq!(res.len(), num_vars);
    assert!(res.iter().all(|layer_wit| layer_wit.len() == num_product_fanin));
    assert_eq!(final_product, expected_final_product);
}

#[test]
fn test_interleaving_mles_to_mles() {
    let num_product_fanin = 2;
    // [[1, 2], [3, 4], [5, 6], [7, 8]]
    let input_mles = vec![es(&[1, 2]), es(&[3, 4]), es(&[5, 6]), es(&[7, 8])];
    let res = interleaving_mles_to_mles(&input_mles, 1, 2, num_product_fanin, Ext::one());
    // [[1, 3, 5, 7], [2, 4, 6, 8]]
    assert_eq!(res[0], es(&[1, 3, 5, 7]));
    assert_eq!(res[1], es(&[2, 4, 6, 8]));
}

#[test]
fn test_interleaving_mles_to_mles_padding() {
    let num_product_fanin = 2;
    // [[1,2],[3,4],[5,6]]]
    let input_mles = vec![es(&[1, 2]), es(&[3, 4]), es(&[5, 6])];
    let res = interleaving_mles_to_mles(&input_mles, 1, 2, num_product_fanin, Ext::zero());
    // [[1, 3, 5, 0], [2, 4, 6, 0]]
    assert_eq!(res[0], es(&[1, 3, 5, 0]));
    assert_eq!(res[1], es(&[2, 4, 6, 0]));
}

#[test]
fn test_infer_tower_logup_witness() {
    let num_vars = 2;
    let q = vec![es(&[1, 2, 3, 4]), es(&[5, 6, 7, 8])];
    let mut res = infer_tower_logup_witness(q);
    assert_eq!(num_vars + 1, res.len());
    // input layer
    let layer = res.pop().unwrap();
    // input layer p
    assert_eq!(layer[0], vec![e(1); 4]);
    assert_eq!(layer[1], vec![e(1); 4]);
    // input layer q is none
    assert_eq!(layer[2], es(&[1, 2, 3, 4]));
    assert_eq!(layer[3], es(&[5, 6, 7, 8]));

    // next layer
    let layer = res.pop().unwrap();
    // next layer p1
    assert_eq!(layer[0], es(&[1 * 1 + 5 * 1, 2 * 1 + 6 * 1]));
    // next layer p2
    assert_eq!(layer[1], es(&[3 * 1 + 7 * 1, 4 * 1 + 8 * 1]));
    // next layer q1
    assert_eq!(layer[2], es(&[1 * 5, 2 * 6]));
    // next layer q2
    assert_eq!(layer[3], es(&[3 * 7, 4 * 8]));

    // output layer
    let layer = res.pop().unwrap();
    // p1 = p11 * q12 + p12 * q11
    assert_eq!(layer[0], es(&[(1 * 1 + 5 * 1) * (3 * 7) + (3 * 1 + 7 * 1) * (1 * 5)]));
    // p2 = p21 * q22 + p22 * q21
    assert_eq!(layer[1], es(&[(2 * 1 + 6 * 1) * (4 * 8) + (4 * 1 + 8 * 1) * (2 * 6)]));
    // q1 = q12 * q11
    assert_eq!(layer[2], es(&[(3 * 7) * (1 * 5)]));
    // q2 = q22 * q21
    assert_eq!(layer[3], es(&[(4 * 8) * (2 * 6)]));
}

#[test]
fn product_tower_halves_each_layer() {
    let leaves = vec![es(&[1, 2, 3, 4]), es(&[5, 6, 7, 8])];
    let res = infer_tower_product_witness(3, leaves, 2);
    assert_eq!(res.len(), 3);
    // middle layer: chunk i of both branches multiplied pointwise
    assert_eq!(res[1][0], es(&[1 * 5, 2 * 6]));
    assert_eq!(res[1][1], es(&[3 * 7, 4 * 8]));
    assert_eq!(res[0][0], es(&[5 * 21]));
    assert_eq!(res[0][1], es(&[12 * 32]));
    // the root holds the product of every leaf
    assert_eq!(res[0][0][0].mul(res[0][1][0]), e(40320));
}

#[test]
fn logup_root_is_fraction_sum() {
    // 1/2 + 1/3 + 1/4 + 1/5 = (30 + 20 + 15 + 12) / 60 = 77/60,
    // the root keeps it as p1 q2 + p2 q1 over q1 q2.
    let res = infer_tower_logup_witness(vec![es(&[2, 3]), es(&[4, 5])]);
    assert_eq!(res.len(), 2);
    let root = &res[0];
    let num = root[0][0].mul(root[3][0]).add(root[1][0].mul(root[2][0]));
    let den = root[2][0].mul(root[3][0]);
    // p/q = 77/60 exactly when p * 60 == q * 77
    assert_eq!(num.mul(e(60)), den.mul(e(77)));
    assert_eq!(den, e(120));
}

#[test]
fn logup_single_entry_is_its_own_root() {
    let res = infer_tower_logup_witness(vec![es(&[9]), es(&[11])]);
    assert_eq!(res.len(), 1);
    assert_eq!(res[0], vec![es(&[1]), es(&[1]), es(&[9]), es(&[11])]);
}

#[test]
fn interleaving_splits_instances_across_limbs() {
    // four instances, two records each, two output vectors
    let input = vec![es(&[1, 2, 3, 4]), es(&[5, 6, 7, 8])];
    let res = interleaving_mles_to_mles(&input, 2, 1, 2, Ext::one());
    assert_eq!(res.len(), 2);
    assert_eq!(res[0], es(&[1, 5, 2, 6]));
    assert_eq!(res[1], es(&[3, 7, 4, 8]));
}
