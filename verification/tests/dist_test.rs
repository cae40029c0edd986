use thistle::hnswlib::dist::{
    checked_eval, CosineDistance, CosineTerms, DistCosine, DistHamming, DistJaccard, DistL1, DistL2,
    DistLevenshtein, Distance, MetricError, Ratio,
};

/// L1 distance on `f32` vectors; the key is the bit pattern of the distance, which
/// orders as the distance does.
struct FloatL1;

impl Distance<f32> for FloatL1 {
    fn eval(&self, va: &[f32], vb: &[f32]) -> u64 {
        let sum: f32 = va.iter().zip(vb.iter()).map(|t| (*t.0 - *t.1).abs()).sum();
        sum.to_bits() as u64
    }
}

#[test]
fn test_access_to_dist_l1() {
    let distl1 = DistL1;
    //
    let v1: Vec<i32> = vec![1, 2, 3];
    let v2: Vec<i32> = vec![2, 2, 3];

    let d1 = Distance::eval(&distl1, &v1, &v2) as f32;
    assert_eq!(d1, 1 as f32);

    let v3: Vec<f32> = vec![1., 2., 3.];
    let v4: Vec<f32> = vec![2., 2., 3.];
    let d2 = f32::from_bits(FloatL1.eval(&v3, &v4) as u32);
    assert_eq!(d2, 1 as f32);
}

#[test]
fn test_access_to_dist_cos() {
    let distcos = DistCosine;
    //
    let v1: Vec<i32> = vec![1, -1, 1];
    let v2: Vec<i32> = vec![2, 1, -1];

    let terms = distcos.terms(&v1, &v2).unwrap();
    assert_eq!(terms, CosineTerms { dot: 0, norm_a: 3, norm_b: 6 });
    let d1 = 1. - terms.dot as f32 / (terms.norm_a as f32 * terms.norm_b as f32).sqrt();
    assert_eq!(d1, 1. as f32);
}

#[test]
fn integer_metrics_are_exact() {
    let a: Vec<i32> = vec![i32::MIN, 0, 7];
    let b: Vec<i32> = vec![i32::MAX, -3, 7];
    // 2^32 - 1 + 3
    assert_eq!(DistL1.eval(&a, &b), 4294967298);
    assert_eq!(DistL1.eval(&a, &a), 0);
    // (2^32 - 1)^2 + 9
    assert_eq!(DistL2.eval(&a, &b), 18446744065119617034);
    // twice (2^32 - 1)^2 does not fit a key
    assert_eq!(DistL2.eval(&[i32::MIN, i32::MIN], &[i32::MAX, i32::MAX]), u64::MAX);
    assert_eq!(DistL2.eval(&[3i32, 0], &[0i32, 4]), 25);
    assert_eq!(DistL2.eval(&[3u8, 0], &[0u8, 255]), 9 + 255 * 255);
    assert_eq!(DistL2.eval(&[9u16], &[9u16]), 0);
    assert_eq!(DistL1.eval(&[i64::MIN, 5], &[i64::MAX, 2]), u64::MAX);
    assert_eq!(DistL1.eval(&[i64::MIN, 0], &[i64::MAX, 0]), u64::MAX);
    assert_eq!(DistL1.eval(&[-4i64, 0], &[5i64, 1]), 10);
    assert_eq!(DistL1.eval(&[1u32, 9], &[4u32, 2]), 10);
    assert_eq!(DistL1.eval(&[1u16, 9], &[4u16, 2]), 10);
    assert_eq!(DistL1.eval(&[1u8, 9], &[4u8, 2]), 10);
    assert_eq!(DistL2.eval(&[1u32, 9], &[4u32, 2]), 58);
    assert_eq!(checked_eval(&DistL1, &[1u8, 9], &[4u8]), Err(MetricError::DimensionMismatch));
}

#[test]
fn cosine_terms_of_degenerate_and_equal_vectors() {
    let zero: Vec<i32> = vec![0, 0, 0];
    let v: Vec<i32> = vec![3, -4, 12];
    assert_eq!(DistCosine.terms(&zero, &v), Ok(CosineTerms { dot: 0, norm_a: 0, norm_b: 169 }));
    assert_eq!(DistCosine.terms(&v, &zero), Ok(CosineTerms { dot: 0, norm_a: 169, norm_b: 0 }));
    assert_eq!(DistCosine.terms(&v, &v), Ok(CosineTerms { dot: 169, norm_a: 169, norm_b: 169 }));
    assert_eq!(DistCosine.terms(&v, &[1, 2]), Err(MetricError::DimensionMismatch));
    let big: Vec<i32> = vec![i32::MIN, i32::MIN];
    let terms = DistCosine.terms(&big, &big).unwrap();
    assert_eq!(terms.dot, 2 * (1i128 << 62));
    assert_eq!(terms.norm_a, 2 * (1u128 << 62));
    let a: Vec<u16> = vec![1, 2, 3];
    let b: Vec<u16> = vec![4, 5, 6];
    assert_eq!(DistCosine.terms(&a, &b), Ok(CosineTerms { dot: 32, norm_a: 14, norm_b: 77 }));
    // a vector of zeros is at distance 0 from every vector, and every vector from itself
    assert_eq!(DistCosine.terms(&zero, &v).unwrap().distance(), CosineDistance::Zero);
    assert_eq!(DistCosine.terms(&v, &zero).unwrap().distance(), CosineDistance::Zero);
    assert_eq!(DistCosine.terms(&zero, &zero).unwrap().distance(), CosineDistance::Zero);
    assert_eq!(DistCosine.terms(&v, &v).unwrap().distance(), CosineDistance::Zero);
    assert_eq!(DistCosine.terms(&big, &big).unwrap().distance(), CosineDistance::Zero);
    let terms = DistCosine.terms(&a, &b).unwrap();
    assert_eq!(terms.distance(), CosineDistance::OneMinus(terms));
    let opposite: Vec<i32> = vec![-3, 4, -12];
    let terms = DistCosine.terms(&v, &opposite).unwrap();
    assert_eq!(terms, CosineTerms { dot: -169, norm_a: 169, norm_b: 169 });
    assert_eq!(terms.distance(), CosineDistance::OneMinus(terms));
}

#[test]
fn test_jaccard_u16() {
    let v1: Vec<u16> = vec![1, 2, 1, 4, 3];
    let v2: Vec<u16> = vec![2, 2, 1, 5, 6];

    let ratio = DistJaccard.ratio(&v1, &v2).unwrap();
    let dist = 1. - (ratio.den - ratio.num) as f32 / ratio.den as f32;
    println!("dist jaccard = {:?}", dist);
    assert_eq!(dist, 1. - 11. / 16.);
}

#[test]
fn test_levenshtein() {
    let mut v1: Vec<u16> = vec![1, 2, 3, 4];
    let mut v2: Vec<u16> = vec![1, 2, 3, 3];
    let mut dist = DistLevenshtein.eval(&v1, &v2) as f32;
    println!("dist levenshtein = {:?}", dist);
    assert_eq!(dist, 1.0);
    v1 = vec![1, 2, 3, 4];
    v2 = vec![1, 2, 3, 4];
    dist = DistLevenshtein.eval(&v1, &v2) as f32;
    println!("dist levenshtein = {:?}", dist);
    assert_eq!(dist, 0.0);
    v1 = vec![1, 1, 1, 4];
    v2 = vec![1, 2, 3, 4];
    dist = DistLevenshtein.eval(&v1, &v2) as f32;
    println!("dist levenshtein = {:?}", dist);
    assert_eq!(dist, 2.0);
    v2 = vec![1, 1, 1, 4];
    v1 = vec![1, 2, 3, 4];
    dist = DistLevenshtein.eval(&v1, &v2) as f32;
    println!("dist levenshtein = {:?}", dist);
    assert_eq!(dist, 2.0);
}

#[test]
fn levenshtein_between_sequences_of_different_lengths() {
    // kitten -> sitting: two substitutions and one insertion
    let kitten: Vec<u16> = "kitten".bytes().map(|b| b as u16).collect();
    let sitting: Vec<u16> = "sitting".bytes().map(|b| b as u16).collect();
    assert_eq!(DistLevenshtein.edit_distance(&kitten, &sitting), 3);
    assert_eq!(DistLevenshtein.edit_distance(&sitting, &kitten), 3);
    assert_eq!(DistLevenshtein.eval(&kitten, &sitting), 3);
    assert_eq!(DistLevenshtein.eval(&sitting, &kitten), 3);
    let empty: Vec<u16> = Vec::new();
    assert_eq!(DistLevenshtein.edit_distance(&empty, &empty), 0);
    assert_eq!(DistLevenshtein.edit_distance(&kitten, &empty), 6);
    assert_eq!(DistLevenshtein.edit_distance(&empty, &sitting), 7);
    assert_eq!(DistLevenshtein.edit_distance(&[1u8, 2, 3], &[3u8, 2, 1]), 2);
    assert_eq!(DistLevenshtein.edit_distance(&[1i64, 2, 3, 4, 5], &[2i64, 3, 4, 5]), 1);
    assert_eq!(DistLevenshtein.edit_distance(&[-1i32, 1], &[1i32, -1]), 2);
}

#[test]
fn levenshtein_is_zero_on_equal_sequences_and_symmetric() {
    let samples: Vec<Vec<u16>> = vec![
        vec![],
        vec![7],
        vec![1, 2, 3, 4],
        vec![1, 1, 1, 4],
        vec![9, 8, 7, 6, 5, 4],
        vec![1, 2, 1, 2, 1, 2, 1],
    ];
    for a in samples.iter() {
        assert_eq!(DistLevenshtein.edit_distance(a, a), 0);
        for b in samples.iter() {
            assert_eq!(
                DistLevenshtein.edit_distance(a, b),
                DistLevenshtein.edit_distance(b, a)
            );
        }
    }
}

#[test]
fn hamming_counts_differing_positions() {
    let a: Vec<i32> = vec![1, -2, 3, 4, 5];
    let b: Vec<i32> = vec![1, 2, 3, -4, 6];
    assert_eq!(DistHamming.eval(&a, &b), 3);
    assert_eq!(DistHamming.eval(&a, &a), 0);
    let c: Vec<u8> = vec![0, 255, 7];
    let d: Vec<u8> = vec![0, 254, 7];
    assert_eq!(DistHamming.eval(&c, &d), 1);
    let e: Vec<u16> = vec![1, 2];
    let f: Vec<u16> = vec![2, 1];
    assert_eq!(DistHamming.eval(&e, &f), 2);
    let g: Vec<u32> = vec![];
    assert_eq!(DistHamming.eval(&g, &g), 0);
    let h: Vec<i16> = vec![-1, -1, -1];
    let i: Vec<i16> = vec![-1, 1, -1];
    assert_eq!(DistHamming.eval(&h, &i), 1);
    assert_eq!(DistHamming.eval(&[i64::MIN, 0, i64::MAX], &[i64::MAX, 0, i64::MAX]), 1);
}

#[test]
fn checked_eval_rejects_vectors_of_different_lengths() {
    let a: Vec<i32> = vec![1, 2, 3];
    let b: Vec<i32> = vec![1, 2];
    assert_eq!(checked_eval(&DistHamming, &a, &b), Err(MetricError::DimensionMismatch));
    assert_eq!(checked_eval(&DistHamming, &a, &a), Ok(0));
    let c: Vec<i32> = vec![3, 2, 1];
    assert_eq!(checked_eval(&DistHamming, &a, &c), Ok(2));
    let s: Vec<u16> = vec![1, 2, 3, 4];
    let t: Vec<u16> = vec![1, 2, 3, 3];
    assert_eq!(checked_eval(&DistLevenshtein, &s, &t), Ok(1));
}

#[test]
fn jaccard_edge_cases() {
    let zero: Vec<u8> = vec![0, 0, 0];
    assert_eq!(DistJaccard.ratio(&zero, &zero), Ok(Ratio { num: 0, den: 1 }));
    let a: Vec<u8> = vec![1, 0, 3];
    assert_eq!(DistJaccard.ratio(&a, &a), Ok(Ratio { num: 0, den: 4 }));
    assert_eq!(DistJaccard.ratio(&a, &zero), Ok(Ratio { num: 4, den: 4 }));
    let short: Vec<u8> = vec![1, 0];
    assert_eq!(DistJaccard.ratio(&a, &short), Err(MetricError::DimensionMismatch));
    let big: Vec<u32> = vec![u32::MAX, u32::MAX, 5];
    let small: Vec<u32> = vec![1, u32::MAX, 9];
    // sum of maxima 2 * (2^32 - 1) + 9, sum of minima 1 + (2^32 - 1) + 5
    assert_eq!(
        DistJaccard.ratio(&big, &small),
        Ok(Ratio { num: 4294967298, den: 8589934599 })
    );
    let empty: Vec<u16> = Vec::new();
    assert_eq!(DistJaccard.ratio(&empty, &empty), Ok(Ratio { num: 0, den: 1 }));
}
