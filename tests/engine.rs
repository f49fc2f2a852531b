use ntrumls::codec::{
    decode_private, decode_public, decode_signature, encode_private, encode_public,
    encode_signature, push_poly, push_trits, unpack_poly, unpack_trits,
};
use ntrumls::digits::{group_vec, push_digits, ungroup_vec};
use ntrumls::hash::expand;
use ntrumls::params::{from_oid, xxx_20140508_401, xxx_20151024_907, Oid};
use ntrumls::poly::{
    add_mod, check_within, invert_pow2, invert_small, is_one, mul_mod, mul_sparse, scale_mod,
    sub_mod,
};
use ntrumls::scheme::{sample_positions, targets};
use sha2::Digest;

#[test]
fn cyclic_convolution_exact() {
    let a = vec![1i64, 2, 3];
    let b = vec![4i64, 5, 6];
    assert_eq!(mul_mod(&a, &b, 7), vec![3, 3, 0]);
    assert_eq!(mul_mod(&a, &b, 1000), vec![31, 31, 28]);
}

#[test]
fn sparse_product_matches_shifted_sums() {
    let b = vec![1i64, 2, 3, 4, 5];
    assert_eq!(mul_sparse(&vec![1], &vec![2], &b, 7), vec![1, 3, 1, 1, 1]);
    let dense_f = vec![0i64, 1, 6, 0, 0];
    assert_eq!(mul_sparse(&vec![1], &vec![2], &b, 7), mul_mod(&dense_f, &b, 7));
}

#[test]
fn coefficientwise_operations() {
    let a = vec![5i64, 6, 0];
    let b = vec![3i64, 1, 6];
    assert_eq!(add_mod(&a, &b, 7), vec![1, 0, 6]);
    assert_eq!(sub_mod(&a, &b, 7), vec![2, 5, 1]);
    assert_eq!(scale_mod(&a, 3, 7), vec![1, 4, 0]);
    assert!(is_one(&vec![1, 0, 0]));
    assert!(!is_one(&vec![1, 0, 1]));
}

#[test]
fn centered_bounds() {
    // 250 is -6 modulo 256, 5 is 5
    assert!(check_within(&vec![250, 5], 256, 6));
    assert!(!check_within(&vec![250, 5], 256, 5));
    assert!(!check_within(&vec![128], 256, 127));
    assert!(check_within(&vec![128], 256, 128));
}

#[test]
fn inverse_modulo_three() {
    let a = vec![1i64, 1, 0, 0, 0];
    let b = invert_small(&a, 3).unwrap();
    assert_eq!(mul_mod(&a, &b, 3), vec![1, 0, 0, 0, 0]);
    // 2 + x vanishes at x = 1 modulo 3
    assert!(invert_small(&vec![2, 1, 0, 0, 0], 3).is_none());
}

#[test]
fn inverse_modulo_two_and_power_of_two() {
    // 1 + x vanishes at x = 1 modulo 2
    assert!(invert_small(&vec![1, 1, 0, 0, 0], 2).is_none());
    let a = vec![1i64, 1, 1, 0, 0];
    let b = invert_small(&a, 2).unwrap();
    assert_eq!(mul_mod(&a, &b, 2), vec![1, 0, 0, 0, 0]);
    let a = vec![3i64, 255, 7, 0, 2];
    let b = invert_pow2(&a, 256).unwrap();
    assert_eq!(mul_mod(&a, &b, 256), vec![1, 0, 0, 0, 0]);
    assert!(invert_pow2(&vec![2, 0, 0, 0, 0], 256).is_none());
}

#[test]
fn digits_group_and_ungroup() {
    let mut out = Vec::new();
    push_digits(&mut out, 11, 2, 5);
    assert_eq!(out, vec![1, 1, 0, 1, 0]);
    let mut out = Vec::new();
    push_digits(&mut out, 200, 3, 5);
    assert_eq!(out, vec![2, 0, 1, 1, 2]);
    let bits = ungroup_vec(&vec![5, 3], 2, 3);
    assert_eq!(bits, vec![1, 0, 1, 1, 1, 0]);
    assert_eq!(group_vec(&bits, 2, 3, 2), vec![5, 3]);
}

#[test]
fn bit_packing_layout_and_round_trip() {
    let mut out = Vec::new();
    push_poly(&mut out, &vec![1, 2, 3], 4);
    assert_eq!(out, vec![0x21, 0x03]);
    let c: Vec<i64> = (0..401).map(|i| (i * 7919) % (1 << 18)).collect();
    let mut packed = Vec::new();
    push_poly(&mut packed, &c, 18);
    assert_eq!(packed.len(), 903);
    assert_eq!(unpack_poly(&packed, 401, 18), c);
}

#[test]
fn trit_packing_layout_and_round_trip() {
    let mut out = Vec::new();
    push_trits(&mut out, &vec![2, 0, 1, 1, 2, 1]);
    assert_eq!(out, vec![200, 1]);
    let g: Vec<i64> = (0..401).map(|i| (i * i) % 3).collect();
    let mut packed = Vec::new();
    push_trits(&mut packed, &g);
    assert_eq!(packed.len(), 81);
    assert_eq!(unpack_trits(&packed, 401), g);
}

#[test]
fn blob_codecs_round_trip() {
    let ps = xxx_20140508_401();
    let f: Vec<usize> = (1..23).collect();
    let g: Vec<usize> = (100..122).collect();
    let g_inv: Vec<i64> = (0..401).map(|i| i % 3).collect();
    let blob = encode_private(&ps, &f, &g, &g_inv);
    let parts = decode_private(&blob).unwrap();
    assert_eq!(parts.f, f);
    assert_eq!(parts.g, g);
    assert_eq!(parts.g_inv, g_inv);
    assert_eq!(parts.params, ps);

    let h: Vec<i64> = (0..401).map(|i| (i * 31337) % (1 << 18)).collect();
    let digest = vec![9u8; 64];
    let blob = encode_public(&ps, &h, &digest);
    let parts = decode_public(&blob).unwrap();
    assert_eq!(parts.h, h);
    assert_eq!(parts.digest, digest);

    let blob = encode_signature(&ps, &h);
    let (ps2, s) = decode_signature(&blob).unwrap();
    assert_eq!(ps2, ps);
    assert_eq!(s, h);
    assert!(decode_signature(&blob[..blob.len() - 1]).is_none());
    assert!(decode_public(&blob).is_none());
}

#[test]
fn private_blob_rejects_bad_slots() {
    let ps = xxx_20140508_401();
    let f: Vec<usize> = (1..23).collect();
    let g: Vec<usize> = (100..122).collect();
    let g_inv: Vec<i64> = vec![0; 401];
    let blob = encode_private(&ps, &f, &g, &g_inv);
    // sign byte of the first slot of F
    let mut bad = blob.clone();
    bad[7] = 0xff;
    assert!(decode_private(&bad).is_none());
    // index 401 is out of range
    let mut bad = blob.clone();
    bad[5] = 1;
    bad[6] = 145;
    assert!(decode_private(&bad).is_none());
}

#[test]
fn parameter_table_by_identifier() {
    assert_eq!(from_oid(Oid(0xff, 0xff, 0xff)), Some(xxx_20140508_401()));
    assert_eq!(from_oid(Oid(0xff, 0xff, 0xf6)), Some(xxx_20151024_907()));
    assert_eq!(from_oid(Oid(0xff, 0xff, 0xf8)), None);
    assert_eq!(from_oid(Oid(0x00, 0xff, 0xff)), None);
}

#[test]
fn parameter_sizes() {
    let ps = xxx_20140508_401();
    assert_eq!(ps.get_n(), 401);
    assert_eq!(ps.get_p(), 3);
    assert_eq!((ps.get_d1(), ps.get_d2(), ps.get_d3()), (8, 8, 6));
    assert_eq!(ps.product_form_bytes(), 88);
    assert_eq!(ps.polynomial_bytes(), 3328);
    assert_eq!(ps.packed_poly_bytes(), 903);
    assert_eq!(ps.privkey_packed_bytes(), 262);
    assert_eq!(ps.pubkey_packed_bytes(), 972);
    assert_eq!(ps.signature_packed_bytes(), 908);
    assert_eq!(ps.norm_bound_s, (1 << 17) - 240);
}

#[test]
fn stream_is_counter_mode_hash() {
    let out = expand(b"abc", 70);
    let mut first = b"abc".to_vec();
    first.extend_from_slice(&[0, 0, 0, 0]);
    let mut second = b"abc".to_vec();
    second.extend_from_slice(&[0, 0, 0, 1]);
    let d0 = sha2::Sha512::digest(&first);
    let d1 = sha2::Sha512::digest(&second);
    assert_eq!(&out[..64], &d0[..]);
    assert_eq!(&out[64..], &d1[..6]);
}

#[test]
fn message_targets_follow_the_hash() {
    let digest = vec![1u8; 64];
    let (ts, tt) = targets(&digest, b"m", 5);
    let mut input = digest.clone();
    input.push(b'm');
    let seed = sha2::Sha512::digest(&input);
    let stream = expand(&seed, 10);
    let want_s: Vec<i64> = stream[..5].iter().map(|b| (*b % 3) as i64).collect();
    let want_t: Vec<i64> = stream[5..].iter().map(|b| (*b % 3) as i64).collect();
    assert_eq!(ts, want_s);
    assert_eq!(tt, want_t);
}

#[test]
fn sampled_positions_are_distinct_and_in_range() {
    let stream = expand(b"positions", 400);
    let v = sample_positions(&stream, 50, 101).unwrap();
    assert_eq!(v.len(), 50);
    for (i, x) in v.iter().enumerate() {
        assert!(*x >= 1 && *x < 101);
        assert!(!v[..i].contains(x));
    }
    assert!(sample_positions(&stream[..10], 50, 101).is_none());
}

#[test]
fn draws_above_the_limit_are_rejected() {
    // for n = 101 the limit is 65500: 0xffff is rejected, 0x0005 gives 6,
    // a repeat of 6 is skipped, 0x0064 gives 1
    let stream = [0xff, 0xff, 0x00, 0x05, 0x00, 0x05, 0x00, 0x64];
    assert_eq!(sample_positions(&stream, 2, 101), Some(vec![6, 1]));
    assert_eq!(sample_positions(&stream, 3, 101), None);
}
