//! Fixed-layout byte encodings: ring elements bit-packed, `g^-1 mod p`
//! trit-packed, sparse secrets one four-byte slot per index, and the framed
//! blobs of keys and signatures.
use crate::digits::{
    all_below, group, group_vec, lemma_group_ungroup, lemma_to_from,
    lemma_ungroup_group, lemma_ungroup_layout, to_digits, ungroup, ungroup_vec,
};
use crate::params::{from_oid, spec_from_oid, Oid, ParamSet};
use crate::poly::reduced;
use vstd::arithmetic::power::pow;
use vstd::prelude::*;

verus! {

pub open spec fn widen(c: Seq<i64>) -> Seq<u32> {
    Seq::new(c.len(), |i: int| c[i] as u32)
}

pub open spec fn narrow(d: Seq<u32>) -> Seq<i64> {
    Seq::new(d.len(), |i: int| d[i] as i64)
}

pub open spec fn widen_bytes(b: Seq<u8>) -> Seq<u32> {
    Seq::new(b.len(), |i: int| b[i] as u32)
}

pub open spec fn narrow_bytes(d: Seq<u32>) -> Seq<u8> {
    Seq::new(d.len(), |i: int| d[i] as u8)
}

/// d followed by zeros up to length len.
pub open spec fn pad(d: Seq<u32>, len: nat) -> Seq<u32> {
    d + Seq::new((len - d.len()) as nat, |i: int| 0u32)
}

/// Bytes of n coefficients of w bits.
pub open spec fn packed_len(n: nat, w: nat) -> nat {
    (n * w + 7) / 8
}

/// Coefficients of w bits each, bit-packed least significant bit first.
pub open spec fn pack_poly_spec(c: Seq<i64>, w: nat) -> Seq<u8> {
    let nb = packed_len(c.len(), w);
    narrow_bytes(group(pad(ungroup(widen(c), 2, w), nb * 8), 2, 8, nb))
}

/// The n coefficients of w bits each that a bit-packed byte string holds.
pub open spec fn unpack_poly_spec(b: Seq<u8>, n: nat, w: nat) -> Seq<i64> {
    narrow(group(ungroup(widen_bytes(b), 2, 8), 2, w, n))
}

/// Every digit of an ungrouped string lies below the base.
pub proof fn lemma_ungroup_below(x: Seq<u32>, base: int, w: nat)
    requires
        2 <= base <= 256,
    ensures
        all_below(ungroup(x, base, w), base),
{
    lemma_ungroup_layout(x, base, w);
    let u = ungroup(x, base, w);
    assert forall|k: int| 0 <= k < u.len() implies #[trigger] u[k] < base by {
        let i = k / w as int;
        let j = k % w as int;
        assert(w > 0) by (nonlinear_arith)
            requires
                u.len() == x.len() * w,
                0 <= k < u.len(),
        ;
        vstd::arithmetic::div_mod::lemma_fundamental_div_mod(k, w as int);
        vstd::arithmetic::div_mod::lemma_div_pos_is_pos(k, w as int);
        assert(i < x.len()) by (nonlinear_arith)
            requires
                k == w * i + j,
                0 <= j < w,
                k < x.len() * w,
                w > 0,
        ;
        assert(k == i * w + j) by (nonlinear_arith)
            requires
                k == w * i + j,
        ;
        assert(i * w + w <= x.len() * w) by (nonlinear_arith)
            requires
                i < x.len(),
        ;
        assert(0 <= i * w) by (nonlinear_arith)
            requires
                0 <= i,
        ;
        lemma_digits_below(x[i] as int, base, w);
        assert(u.subrange(i * w, i * w + w)[j] == u[k]);
    }
}

pub proof fn lemma_digits_below(x: int, base: int, w: nat)
    requires
        0 <= x,
        2 <= base <= 256,
    ensures
        all_below(to_digits(x, base, w), base),
        to_digits(x, base, w).len() == w,
    decreases w,
{
    if w > 0 {
        lemma_digits_below(x / base, base, (w - 1) as nat);
        let t = to_digits(x, base, w);
        assert(t == seq![(x % base) as u32] + to_digits(x / base, base, (w - 1) as nat));
        assert forall|k: int| 0 <= k < t.len() implies #[trigger] t[k] < base by {
            if k > 0 {
                assert(t[k] == to_digits(x / base, base, (w - 1) as nat)[k - 1]);
            }
        }
    }
}

/// Bit-packing then unpacking gives the coefficients back.
pub proof fn lemma_poly_round_trip(c: Seq<i64>, w: nat)
    requires
        1 <= w <= 24,
        reduced(c, pow(2, w)),
    ensures
        pack_poly_spec(c, w).len() == packed_len(c.len(), w),
        unpack_poly_spec(pack_poly_spec(c, w), c.len(), w) == c,
{
    let n = c.len();
    let nb = packed_len(n, w);
    vstd::arithmetic::power::lemma_pow_increases(2, w, 24);
    vstd::arithmetic::power2::lemma2_to64();
    vstd::arithmetic::power::lemma_pow_positive(2, 8);
    assert(pow(2, 24) == 0x100_0000) by {
        vstd::arithmetic::power2::lemma_pow2(24);
    }
    assert(pow(2, 8) == 256) by {
        vstd::arithmetic::power2::lemma_pow2(8);
    }
    let wc = widen(c);
    assert forall|i: int| 0 <= i < wc.len() implies (#[trigger] wc[i] as int) < pow(2, w) by {
        assert(0 <= c[i] < pow(2, w));
    }
    let bits = ungroup(wc, 2, w);
    lemma_ungroup_layout(wc, 2, w);
    lemma_ungroup_below(wc, 2, w);
    assert(bits.len() <= nb * 8) by (nonlinear_arith)
        requires
            bits.len() == n * w,
            nb == (n * w + 7) / 8,
    ;
    let padded = pad(bits, nb * 8);
    assert(padded.len() == nb * 8);
    assert(all_below(padded, 2)) by {
        assert forall|k: int| 0 <= k < padded.len() implies #[trigger] padded[k] < 2 by {
            if k < bits.len() {
                assert(padded[k] == bits[k]);
            }
        }
    }
    let grouped = group(padded, 2, 8, nb);
    assert forall|k: int| 0 <= k < nb implies (#[trigger] grouped[k] as int) < 256 by {
        assert(k * 8 + 8 <= nb * 8) by (nonlinear_arith)
            requires
                k < nb,
        ;
        let run = padded.subrange(k * 8, k * 8 + 8);
        assert(all_below(run, 2));
        lemma_to_from(run, 2);
    }
    let packed = narrow_bytes(grouped);
    assert(widen_bytes(packed) =~= grouped);
    lemma_ungroup_group(padded, 2, 8, nb);
    // the first n * w bits of the padding are the bits of c
    assert forall|i: int| 0 <= i < n implies #[trigger] group(padded, 2, w, n)[i] == group(
        bits,
        2,
        w,
        n,
    )[i] by {
        assert(i * w + w <= n * w) by (nonlinear_arith)
            requires
                i < n,
        ;
        assert(0 <= i * w) by (nonlinear_arith)
            requires
                0 <= i,
        ;
        assert(padded.subrange(i * w, i * w + w) =~= bits.subrange(i * w, i * w + w));
    }
    assert(group(padded, 2, w, n) =~= group(bits, 2, w, n));
    lemma_group_ungroup(wc, 2, w);
    assert(narrow(wc) =~= c);
}

/// The values of a Vec<i64> in [0, 2^24), as u32.
pub fn widen_vec(c: &Vec<i64>) -> (r: Vec<u32>)
    requires
        reduced(c@, 0x100_0000),
    ensures
        r@ == widen(c@),
{
    let mut r: Vec<u32> = Vec::with_capacity(c.len());
    let mut i: usize = 0;
    while i < c.len()
        invariant
            reduced(c@, 0x100_0000),
            0 <= i <= c.len(),
            r.len() == i,
            forall|k: int| 0 <= k < i ==> #[trigger] r@[k] == c@[k] as u32,
        decreases c.len() - i,
    {
        r.push(c[i] as u32);
        i = i + 1;
    }
    assert(r@ =~= widen(c@));
    r
}

pub fn narrow_vec(d: &Vec<u32>) -> (r: Vec<i64>)
    ensures
        r@ == narrow(d@),
{
    let mut r: Vec<i64> = Vec::with_capacity(d.len());
    let mut i: usize = 0;
    while i < d.len()
        invariant
            0 <= i <= d.len(),
            r.len() == i,
            forall|k: int| 0 <= k < i ==> #[trigger] r@[k] == d@[k] as i64,
        decreases d.len() - i,
    {
        r.push(d[i] as i64);
        i = i + 1;
    }
    assert(r@ =~= narrow(d@));
    r
}

pub fn widen_bytes_vec(b: &[u8]) -> (r: Vec<u32>)
    ensures
        r@ == widen_bytes(b@),
{
    let mut r: Vec<u32> = Vec::with_capacity(b.len());
    let mut i: usize = 0;
    while i < b.len()
        invariant
            0 <= i <= b.len(),
            r.len() == i,
            forall|k: int| 0 <= k < i ==> #[trigger] r@[k] == b@[k] as u32,
        decreases b.len() - i,
    {
        r.push(b[i] as u32);
        i = i + 1;
    }
    assert(r@ =~= widen_bytes(b@));
    r
}

/// Appends the low byte of every value of d.
pub fn push_narrow_bytes(out: &mut Vec<u8>, d: &Vec<u32>)
    ensures
        final(out)@ == old(out)@ + narrow_bytes(d@),
{
    let ghost start = old(out)@;
    let mut i: usize = 0;
    while i < d.len()
        invariant
            0 <= i <= d.len(),
            out@ == start + narrow_bytes(d@).take(i as int),
        decreases d.len() - i,
    {
        out.push(d[i] as u8);
        i = i + 1;
        assert(out@ =~= start + narrow_bytes(d@).take(i as int));
    }
    assert(narrow_bytes(d@).take(d.len() as int) =~= narrow_bytes(d@));
}

/// d followed by zeros up to length len.
pub fn pad_vec(d: &mut Vec<u32>, len: usize)
    requires
        old(d).len() <= len,
    ensures
        final(d)@ == pad(old(d)@, len as nat),
{
    let ghost start = old(d)@;
    while d.len() < len
        invariant
            start.len() <= d.len() <= len,
            d@ == pad(start, d.len() as nat),
        decreases len - d.len(),
    {
        let ghost before = d.len();
        d.push(0);
        assert(d@ =~= pad(start, d.len() as nat));
    }
}

/// Appends the coefficients of c, w bits each, bit-packed.
pub fn push_poly(out: &mut Vec<u8>, c: &Vec<i64>, w: usize)
    requires
        1 <= w <= 24,
        c.len() <= 4096,
        reduced(c@, 0x100_0000),
    ensures
        final(out)@ == old(out)@ + pack_poly_spec(c@, w as nat),
{
    let n = c.len();
    let wc = widen_vec(c);
    let mut bits = ungroup_vec(&wc, 2, w);
    proof {
        lemma_ungroup_layout(wc@, 2, w as nat);
        lemma_ungroup_below(wc@, 2, w as nat);
        vstd::arithmetic::power2::lemma2_to64();
        assert(pow(2, 8) == 256) by {
            vstd::arithmetic::power2::lemma_pow2(8);
        }
    }
    assert(n * w <= 4096 * 24) by (nonlinear_arith)
        requires
            n <= 4096,
            w <= 24,
    ;
    let nb = (n * w + 7) / 8;
    assert(bits.len() <= nb * 8) by (nonlinear_arith)
        requires
            bits.len() == n * w,
            nb == (n * w + 7) / 8,
    ;
    pad_vec(&mut bits, nb * 8);
    assert(all_below(bits@, 2)) by {
        assert forall|k: int| 0 <= k < bits.len() implies #[trigger] bits@[k] < 2 by {
            if k < n * w {
                assert(bits@[k] == ungroup(wc@, 2, w as nat)[k]);
            }
        }
    }
    let grouped = group_vec(&bits, 2, 8, nb);
    push_narrow_bytes(out, &grouped);
}

/// The n coefficients of w bits each that a bit-packed byte string holds.
pub fn unpack_poly(b: &[u8], n: usize, w: usize) -> (r: Vec<i64>)
    requires
        1 <= w <= 24,
        n * w <= b.len() * 8,
    ensures
        r@ == unpack_poly_spec(b@, n as nat, w as nat),
        reduced(r@, pow(2, w as nat)),
{
    let wb = widen_bytes_vec(b);
    let bits = ungroup_vec(&wb, 2, 8);
    proof {
        lemma_ungroup_layout(wb@, 2, 8);
        lemma_ungroup_below(wb@, 2, 8);
        vstd::arithmetic::power::lemma_pow_increases(2, w as nat, 24);
        vstd::arithmetic::power2::lemma2_to64();
        assert(pow(2, 24) == 0x100_0000) by {
            vstd::arithmetic::power2::lemma_pow2(24);
        }
    }
    let coeffs = group_vec(&bits, 2, w, n);
    let r = narrow_vec(&coeffs);
    proof {
        let g = group(bits@, 2, w as nat, n as nat);
        assert forall|i: int| 0 <= i < n implies 0 <= #[trigger] r@[i] < pow(2, w as nat) by {
            assert(i * w + w <= n * w) by (nonlinear_arith)
                requires
                    i < n,
            ;
            assert(0 <= i * w) by (nonlinear_arith)
                requires
                    0 <= i,
            ;
            let run = bits@.subrange(i * w, i * w + w);
            assert(all_below(run, 2));
            lemma_to_from(run, 2);
        }
    }
    r
}

/// Bytes of n trits packed five to a byte.
pub open spec fn trits_len(n: nat) -> nat {
    (n + 4) / 5
}

/// Coefficients in [0, 3), five to a byte in base 3, least significant first.
pub open spec fn pack_trits_spec(g: Seq<i64>) -> Seq<u8> {
    let nb = trits_len(g.len());
    narrow_bytes(group(pad(widen(g), nb * 5), 3, 5, nb))
}

/// The first n trits that a trit-packed byte string holds.
pub open spec fn unpack_trits_spec(b: Seq<u8>, n: nat) -> Seq<i64> {
    narrow(ungroup(widen_bytes(b), 3, 5).take(n as int))
}

/// Trit-packing then unpacking gives the coefficients back.
pub proof fn lemma_trits_round_trip(g: Seq<i64>)
    requires
        reduced(g, 3),
    ensures
        pack_trits_spec(g).len() == trits_len(g.len()),
        unpack_trits_spec(pack_trits_spec(g), g.len()) == g,
{
    let n = g.len();
    let nb = trits_len(n);
    assert(pow(3, 5) == 243) by {
        vstd::arithmetic::power::lemma_pow_adds(3, 1, 4);
        vstd::arithmetic::power::lemma_pow_adds(3, 1, 3);
        vstd::arithmetic::power::lemma_pow_adds(3, 1, 2);
        vstd::arithmetic::power::lemma_pow_adds(3, 1, 1);
        vstd::arithmetic::power::lemma_pow1(3);
    }
    let wg = widen(g);
    let padded = pad(wg, nb * 5);
    assert(padded.len() == nb * 5);
    assert(all_below(padded, 3)) by {
        assert forall|k: int| 0 <= k < padded.len() implies #[trigger] padded[k] < 3 by {
            if k < n {
                assert(padded[k] == wg[k]);
            }
        }
    }
    let grouped = group(padded, 3, 5, nb);
    assert forall|k: int| 0 <= k < nb implies (#[trigger] grouped[k] as int) < 256 by {
        assert(k * 5 + 5 <= nb * 5) by (nonlinear_arith)
            requires
                k < nb,
        ;
        let run = padded.subrange(k * 5, k * 5 + 5);
        assert(all_below(run, 3));
        lemma_to_from(run, 3);
    }
    assert(widen_bytes(narrow_bytes(grouped)) =~= grouped);
    lemma_ungroup_group(padded, 3, 5, nb);
    assert(padded.take(n as int) =~= wg);
    assert(narrow(wg) =~= g);
}

/// Appends the coefficients of g, in [0, 3), five to a byte.
pub fn push_trits(out: &mut Vec<u8>, g: &Vec<i64>)
    requires
        g.len() <= 4096,
        reduced(g@, 3),
    ensures
        final(out)@ == old(out)@ + pack_trits_spec(g@),
{
    let n = g.len();
    let mut d = widen_vec(g);
    let nb = (n + 4) / 5;
    pad_vec(&mut d, nb * 5);
    assert(pow(3, 5) == 243) by {
        vstd::arithmetic::power::lemma_pow_adds(3, 1, 4);
        vstd::arithmetic::power::lemma_pow_adds(3, 1, 3);
        vstd::arithmetic::power::lemma_pow_adds(3, 1, 2);
        vstd::arithmetic::power::lemma_pow_adds(3, 1, 1);
        vstd::arithmetic::power::lemma_pow1(3);
    }
    assert(all_below(d@, 3)) by {
        assert forall|k: int| 0 <= k < d.len() implies #[trigger] d@[k] < 3 by {
            if k < n {
                assert(d@[k] == widen(g@)[k]);
            }
        }
    }
    let grouped = group_vec(&d, 3, 5, nb);
    push_narrow_bytes(out, &grouped);
}

/// The first n trits that a trit-packed byte string holds.
pub fn unpack_trits(b: &[u8], n: usize) -> (r: Vec<i64>)
    requires
        n <= b.len() * 5,
    ensures
        r@ == unpack_trits_spec(b@, n as nat),
        r.len() == n,
        reduced(r@, 3),
{
    let wb = widen_bytes_vec(b);
    let d = ungroup_vec(&wb, 3, 5);
    proof {
        lemma_ungroup_layout(wb@, 3, 5);
        lemma_ungroup_below(wb@, 3, 5);
    }
    let mut r: Vec<i64> = Vec::with_capacity(n);
    let mut i: usize = 0;
    while i < n
        invariant
            n <= d.len(),
            all_below(d@, 3),
            0 <= i <= n,
            r.len() == i,
            forall|k: int| 0 <= k < i ==> #[trigger] r@[k] == d@[k] as i64,
        decreases n - i,
    {
        r.push(d[i] as i64);
        i = i + 1;
    }
    assert(r@ =~= unpack_trits_spec(b@, n as nat));
    r
}

/// Whether slot i of a sparse secret with blocks d1, d2, d3 holds a -1.
pub open spec fn is_minus(i: int, d1: int, d2: int) -> bool {
    d1 <= i < d1 + d2
}

/// The sign byte of slot i: 1 for +1, 0xff for -1.
pub open spec fn sign_byte(i: int, d1: int, d2: int) -> u8 {
    if is_minus(i, d1, d2) {
        0xff
    } else {
        1
    }
}

/// Positions, one four-byte slot each: index high byte, index low byte,
/// sign byte, zero.
pub open spec fn pack_positions_spec(pos: Seq<usize>, d1: int, d2: int) -> Seq<u8> {
    Seq::new(
        pos.len() * 4,
        |k: int|
            {
                let i = k / 4;
                if k % 4 == 0 {
                    (pos[i] / 256) as u8
                } else if k % 4 == 1 {
                    (pos[i] % 256) as u8
                } else if k % 4 == 2 {
                    sign_byte(i, d1, d2)
                } else {
                    0u8
                }
            },
    )
}

/// The index held by slot i.
pub open spec fn slot_index(b: Seq<u8>, i: int) -> usize {
    (b[4 * i] as int * 256 + b[4 * i + 1] as int) as usize
}

/// The indices held by the first `count` slots.
pub open spec fn unpack_positions_spec(b: Seq<u8>, count: nat) -> Seq<usize> {
    Seq::new(count, |i: int| slot_index(b, i))
}

/// Every one of the first `count` slots carries the sign of its block, a
/// zero fourth byte and an index in [1, n).
pub open spec fn slots_valid(b: Seq<u8>, count: nat, d1: int, d2: int, n: int) -> bool {
    forall|i: int| 0 <= i < count ==> #[trigger] slot_ok(b, i, d1, d2, n)
}

/// Slot i carries the sign of its block, a zero fourth byte and an index in [1, n).
pub open spec fn slot_ok(b: Seq<u8>, i: int, d1: int, d2: int, n: int) -> bool {
    &&& b[4 * i + 2] == sign_byte(i, d1, d2)
    &&& b[4 * i + 3] == 0
    &&& 1 <= slot_index(b, i) < n
}

/// Positions in [1, n), as sampled for a sparse secret.
pub open spec fn positions_in(pos: Seq<usize>, n: int) -> bool {
    forall|k: int| 0 <= k < pos.len() ==> 1 <= #[trigger] pos[k] < n
}

/// Packing positions then unpacking them gives them back.
pub proof fn lemma_positions_round_trip(pos: Seq<usize>, d1: int, d2: int, n: int)
    requires
        positions_in(pos, n),
        n <= 65536,
    ensures
        pack_positions_spec(pos, d1, d2).len() == 4 * pos.len(),
        slots_valid(pack_positions_spec(pos, d1, d2), pos.len(), d1, d2, n),
        unpack_positions_spec(pack_positions_spec(pos, d1, d2), pos.len()) == pos,
{
    let b = pack_positions_spec(pos, d1, d2);
    assert forall|i: int| 0 <= i < pos.len() implies #[trigger] slot_index(b, i) == pos[i]
        && slot_ok(b, i, d1, d2, n) by {
        assert((4 * i) / 4 == i && (4 * i) % 4 == 0);
        assert((4 * i + 1) / 4 == i && (4 * i + 1) % 4 == 1);
        assert((4 * i + 2) / 4 == i && (4 * i + 2) % 4 == 2);
        assert((4 * i + 3) / 4 == i && (4 * i + 3) % 4 == 3);
        assert(pos[i] < 65536);
        assert((pos[i] / 256) * 256 + pos[i] % 256 == pos[i]);
    }
    assert(unpack_positions_spec(b, pos.len()) =~= pos);
}

/// Appends one four-byte slot per position.
pub fn push_positions(out: &mut Vec<u8>, pos: &Vec<usize>, d1: usize, d2: usize)
    requires
        positions_in(pos@, 65536),
    ensures
        final(out)@ == old(out)@ + pack_positions_spec(pos@, d1 as int, d2 as int),
{
    let ghost start = old(out)@;
    let ghost want = pack_positions_spec(pos@, d1 as int, d2 as int);
    let mut i: usize = 0;
    while i < pos.len()
        invariant
            positions_in(pos@, 65536),
            want == pack_positions_spec(pos@, d1 as int, d2 as int),
            0 <= i <= pos.len(),
            out@ == start + want.take(4 * i),
        decreases pos.len() - i,
    {
        let x = pos[i];
        let minus = d1 <= i && i - d1 < d2;
        let sign: u8 = if minus {
            0xff
        } else {
            1
        };
        out.push((x / 256) as u8);
        out.push((x % 256) as u8);
        out.push(sign);
        out.push(0);
        assert((4 * i) / 4 == i && (4 * i) % 4 == 0);
        assert((4 * i + 1) / 4 == i && (4 * i + 1) % 4 == 1);
        assert((4 * i + 2) / 4 == i && (4 * i + 2) % 4 == 2);
        assert((4 * i + 3) / 4 == i && (4 * i + 3) % 4 == 3);
        i = i + 1;
        assert(out@ =~= start + want.take(4 * i));
    }
    assert(want.take(4 * pos.len()) =~= want);
}

/// The indices of the first `count` slots from `start` on, when every one
/// of them is valid.
pub fn unpack_positions(b: &[u8], start: usize, count: usize, d1: usize, d2: usize, n: usize) -> (r:
    Option<Vec<usize>>)
    requires
        start + 4 * count <= b.len(),
    ensures
        r is Some == slots_valid(b@.subrange(start as int, b.len() as int), count as nat, d1 as int, d2 as int, n as int),
        r matches Some(v) ==> v@ == unpack_positions_spec(b@.subrange(start as int, b.len() as int), count as nat),
{
    let ghost s = b@.subrange(start as int, b.len() as int);
    let mut v: Vec<usize> = Vec::with_capacity(count);
    let mut i: usize = 0;
    while i < count
        invariant
            start + 4 * count <= b.len(),
            s == b@.subrange(start as int, b.len() as int),
            0 <= i <= count,
            v.len() == i,
            forall|k: int| 0 <= k < i ==> #[trigger] v@[k] == slot_index(s, k),
            forall|k: int| 0 <= k < i ==> #[trigger] slot_ok(s, k, d1 as int, d2 as int, n as int),
        decreases count - i,
    {
        let o = start + 4 * i;
        let x = (b[o] as usize) * 256 + b[o + 1] as usize;
        let minus = d1 <= i && i - d1 < d2;
        let sign: u8 = if minus {
            0xff
        } else {
            1
        };
        assert(s[4 * i as int] == b@[o as int]);
        assert(s[4 * i + 1] == b@[o + 1]);
        assert(s[4 * i + 2] == b@[o + 2]);
        assert(s[4 * i + 3] == b@[o + 3]);
        if b[o + 2] != sign || b[o + 3] != 0 || x < 1 || x >= n {
            assert(!slot_ok(s, i as int, d1 as int, d2 as int, n as int));
            return None;
        }
        v.push(x);
        i = i + 1;
    }
    assert(v@ =~= unpack_positions_spec(s, count as nat));
    Some(v)
}

/// Tag byte of a private key blob.
pub const TAG_PRIVATE: u8 = 1;

/// Tag byte of a public key blob.
pub const TAG_PUBLIC: u8 = 2;

/// Tag byte of a signature blob.
pub const TAG_SIGNATURE: u8 = 3;

/// Tag, object identifier length, object identifier.
pub open spec fn header(tag: u8, oid: Oid) -> Seq<u8> {
    seq![tag, 3u8, oid.0, oid.1, oid.2]
}

/// The parameter set named by a blob's header, when its tag is the one given.
pub open spec fn header_params(b: Seq<u8>, tag: u8) -> Option<ParamSet> {
    if b.len() >= 5 && b[0] == tag && b[1] == 3 {
        spec_from_oid(Oid(b[2], b[3], b[4]))
    } else {
        None
    }
}

/// A private key blob: header, the slots of F, the slots of G, then
/// `g^-1 mod p` trit-packed.
pub open spec fn private_blob(ps: ParamSet, f: Seq<usize>, g: Seq<usize>, g_inv: Seq<i64>) -> Seq<
    u8,
> {
    header(TAG_PRIVATE, ps.oid) + pack_positions_spec(f, ps.d1 as int, ps.d2 as int)
        + pack_positions_spec(g, ps.d1 as int, ps.d2 as int) + pack_trits_spec(g_inv)
}

/// What a private key blob holds: its parameter set, F, G and `g^-1 mod p`.
pub open spec fn parse_private(b: Seq<u8>) -> Option<(ParamSet, Seq<usize>, Seq<usize>, Seq<i64>)> {
    match header_params(b, TAG_PRIVATE) {
        None => None,
        Some(ps) => {
            let w = ps.weight();
            let f_part = b.subrange(5, b.len() as int);
            let g_part = b.subrange(5 + 4 * w as int, b.len() as int);
            if b.len() != ps.spec_privkey_packed_bytes() {
                None
            } else if !slots_valid(f_part, w, ps.d1 as int, ps.d2 as int, ps.n as int)
                || !slots_valid(g_part, w, ps.d1 as int, ps.d2 as int, ps.n as int) {
                None
            } else {
                Some(
                    (
                        ps,
                        unpack_positions_spec(f_part, w),
                        unpack_positions_spec(g_part, w),
                        unpack_trits_spec(b.subrange(5 + 8 * w as int, b.len() as int), ps.n as nat),
                    ),
                )
            }
        },
    }
}

/// A public key blob: header, h bit-packed, then the digest of h.
pub open spec fn public_blob(ps: ParamSet, h: Seq<i64>, digest: Seq<u8>) -> Seq<u8> {
    header(TAG_PUBLIC, ps.oid) + pack_poly_spec(h, ps.q_bits as nat) + digest
}

/// What a public key blob holds: its parameter set, h and the digest.
pub open spec fn parse_public(b: Seq<u8>) -> Option<(ParamSet, Seq<i64>, Seq<u8>)> {
    match header_params(b, TAG_PUBLIC) {
        None => None,
        Some(ps) => {
            let pb = ps.spec_packed_poly_bytes();
            if b.len() != ps.spec_pubkey_packed_bytes() {
                None
            } else {
                Some(
                    (
                        ps,
                        unpack_poly_spec(b.subrange(5, 5 + pb as int), ps.n as nat, ps.q_bits as nat),
                        b.subrange(5 + pb as int, b.len() as int),
                    ),
                )
            }
        },
    }
}

/// A signature blob: header, then s bit-packed.
pub open spec fn signature_blob(ps: ParamSet, s: Seq<i64>) -> Seq<u8> {
    header(TAG_SIGNATURE, ps.oid) + pack_poly_spec(s, ps.q_bits as nat)
}

/// What a signature blob holds: its parameter set and s.
pub open spec fn parse_signature(b: Seq<u8>) -> Option<(ParamSet, Seq<i64>)> {
    match header_params(b, TAG_SIGNATURE) {
        None => None,
        Some(ps) => {
            if b.len() != ps.spec_signature_packed_bytes() {
                None
            } else {
                Some(
                    (
                        ps,
                        unpack_poly_spec(
                            b.subrange(5, b.len() as int),
                            ps.n as nat,
                            ps.q_bits as nat,
                        ),
                    ),
                )
            }
        },
    }
}

/// The parameter set is the table's record for its identifier.
pub open spec fn standard(ps: ParamSet) -> bool {
    spec_from_oid(ps.oid) == Some(ps)
}

/// The bytes of b from start to end.
pub fn sub_bytes(b: &[u8], start: usize, end: usize) -> (r: Vec<u8>)
    requires
        start <= end <= b.len(),
    ensures
        r@ == b@.subrange(start as int, end as int),
{
    let mut r: Vec<u8> = Vec::with_capacity(end - start);
    let mut i: usize = start;
    while i < end
        invariant
            start <= i <= end <= b.len(),
            r@ == b@.subrange(start as int, i as int),
        decreases end - i,
    {
        r.push(b[i]);
        i = i + 1;
        assert(r@ =~= b@.subrange(start as int, i as int));
    }
    r
}

fn push_header(out: &mut Vec<u8>, tag: u8, oid: Oid)
    ensures
        final(out)@ == old(out)@ + header(tag, oid),
{
    out.push(tag);
    out.push(3);
    out.push(oid.0);
    out.push(oid.1);
    out.push(oid.2);
    assert(final(out)@ =~= old(out)@ + header(tag, oid));
}

/// The parameter set named by a blob's header, when its tag is the one given.
fn read_header(b: &[u8], tag: u8) -> (r: Option<ParamSet>)
    ensures
        r == header_params(b@, tag),
        r matches Some(ps) ==> ps.wf() && standard(ps),
{
    if b.len() >= 5 && b[0] == tag && b[1] == 3 {
        let r = from_oid(Oid(b[2], b[3], b[4]));
        proof {
            if let Some(ps) = r {
                assert(ps.oid == Oid(b@[2], b@[3], b@[4]));
            }
        }
        r
    } else {
        None
    }
}

/// Encodes a private key.
pub fn encode_private(ps: &ParamSet, f: &Vec<usize>, g: &Vec<usize>, g_inv: &Vec<i64>) -> (r: Vec<u8>)
    requires
        ps.wf(),
        positions_in(f@, ps.n as int),
        positions_in(g@, ps.n as int),
        g_inv.len() <= 4096,
        reduced(g_inv@, 3),
    ensures
        r@ == private_blob(*ps, f@, g@, g_inv@),
{
    let mut out: Vec<u8> = Vec::new();
    push_header(&mut out, TAG_PRIVATE, ps.oid);
    push_positions(&mut out, f, ps.d1 as usize, ps.d2 as usize);
    push_positions(&mut out, g, ps.d1 as usize, ps.d2 as usize);
    push_trits(&mut out, g_inv);
    out
}

/// Encodes a public key.
pub fn encode_public(ps: &ParamSet, h: &Vec<i64>, digest: &Vec<u8>) -> (r: Vec<u8>)
    requires
        ps.wf(),
        h.len() == ps.n,
        reduced(h@, ps.q as int),
    ensures
        r@ == public_blob(*ps, h@, digest@),
{
    let mut out: Vec<u8> = Vec::new();
    push_header(&mut out, TAG_PUBLIC, ps.oid);
    proof {
        lemma_q_bound(*ps);
    }
    push_poly(&mut out, h, ps.q_bits as usize);
    append_bytes(&mut out, digest);
    out
}

/// Encodes a signature.
pub fn encode_signature(ps: &ParamSet, s: &Vec<i64>) -> (r: Vec<u8>)
    requires
        ps.wf(),
        s.len() == ps.n,
        reduced(s@, ps.q as int),
    ensures
        r@ == signature_blob(*ps, s@),
{
    let mut out: Vec<u8> = Vec::new();
    push_header(&mut out, TAG_SIGNATURE, ps.oid);
    proof {
        lemma_q_bound(*ps);
    }
    push_poly(&mut out, s, ps.q_bits as usize);
    out
}

/// The packed bits of h, without header or digest.
pub fn pack_public_element(ps: &ParamSet, h: &Vec<i64>) -> (r: Vec<u8>)
    requires
        ps.wf(),
        h.len() == ps.n,
        reduced(h@, ps.q as int),
    ensures
        r@ == pack_poly_spec(h@, ps.q_bits as nat),
{
    let mut out: Vec<u8> = Vec::new();
    proof {
        lemma_q_bound(*ps);
    }
    push_poly(&mut out, h, ps.q_bits as usize);
    assert(out@ =~= pack_poly_spec(h@, ps.q_bits as nat));
    out
}

pub proof fn lemma_q_bound(ps: ParamSet)
    requires
        ps.wf(),
    ensures
        256 <= ps.q <= 0x100_0000,
        ps.q as int == pow(2, ps.q_bits as nat),
{
    vstd::arithmetic::power::lemma_pow_increases(2, 8, ps.q_bits as nat);
    vstd::arithmetic::power2::lemma_pow2(8);
    vstd::arithmetic::power2::lemma_pow2(ps.q_bits as nat);
    vstd::arithmetic::power::lemma_pow_increases(2, ps.q_bits as nat, 24);
    vstd::arithmetic::power2::lemma_pow2(24);
    vstd::arithmetic::power2::lemma2_to64();
}

fn append_bytes(out: &mut Vec<u8>, s: &Vec<u8>)
    ensures
        final(out)@ == old(out)@ + s@,
{
    crate::hash::append(out, s.as_slice());
}

/// A decoded private key.
pub struct SecretParts {
    pub params: ParamSet,
    /// Sampled positions of F, in block order.
    pub f: Vec<usize>,
    /// Sampled positions of G, in block order.
    pub g: Vec<usize>,
    /// The inverse of G modulo 3.
    pub g_inv: Vec<i64>,
}

/// A decoded public key.
pub struct PublicParts {
    pub params: ParamSet,
    /// The public ring element.
    pub h: Vec<i64>,
    /// The digest of the packed h.
    pub digest: Vec<u8>,
}

/// Decodes a private key blob.
pub fn decode_private(b: &[u8]) -> (r: Option<SecretParts>)
    ensures
        r is Some == parse_private(b@) is Some,
        r matches Some(x) ==> parse_private(b@) == Some((x.params, x.f@, x.g@, x.g_inv@))
            && x.params.wf() && standard(x.params) && x.f.len() == x.params.weight() && x.g.len()
            == x.params.weight() && positions_in(x.f@, x.params.n as int) && positions_in(
            x.g@,
            x.params.n as int,
        ) && x.g_inv.len() == x.params.n && reduced(x.g_inv@, 3),
{
    let ps = match read_header(b, TAG_PRIVATE) {
        None => {
            return None;
        },
        Some(ps) => ps,
    };
    if b.len() != ps.privkey_packed_bytes() {
        return None;
    }
    let w = ps.d1 as usize + ps.d2 as usize + ps.d3 as usize;
    let n = ps.n as usize;
    let f = match unpack_positions(b, 5, w, ps.d1 as usize, ps.d2 as usize, n) {
        None => {
            return None;
        },
        Some(f) => f,
    };
    let g = match unpack_positions(b, 5 + 4 * w, w, ps.d1 as usize, ps.d2 as usize, n) {
        None => {
            return None;
        },
        Some(g) => g,
    };
    let tail = sub_bytes(b, 5 + 8 * w, b.len());
    let g_inv = unpack_trits(tail.as_slice(), n);
    proof {
        let fs = b@.subrange(5, b.len() as int);
        let gs = b@.subrange(5 + 4 * w, b.len() as int);
        assert forall|k: int| 0 <= k < w implies 1 <= #[trigger] f@[k] < n by {
            assert(slot_ok(fs, k, ps.d1 as int, ps.d2 as int, n as int));
        }
        assert forall|k: int| 0 <= k < w implies 1 <= #[trigger] g@[k] < n by {
            assert(slot_ok(gs, k, ps.d1 as int, ps.d2 as int, n as int));
        }
    }
    Some(SecretParts { params: ps, f, g, g_inv })
}

/// Decodes a public key blob.
pub fn decode_public(b: &[u8]) -> (r: Option<PublicParts>)
    ensures
        r is Some == parse_public(b@) is Some,
        r matches Some(x) ==> parse_public(b@) == Some((x.params, x.h@, x.digest@))
            && x.params.wf() && standard(x.params) && x.h.len() == x.params.n && reduced(
            x.h@,
            x.params.q as int,
        ),
{
    let ps = match read_header(b, TAG_PUBLIC) {
        None => {
            return None;
        },
        Some(ps) => ps,
    };
    if b.len() != ps.pubkey_packed_bytes() {
        return None;
    }
    let pb = ps.packed_poly_bytes();
    let body = sub_bytes(b, 5, 5 + pb);
    proof {
        ps.lemma_size_bound();
    }
    assert(ps.n * ps.q_bits <= body.len() * 8) by (nonlinear_arith)
        requires
            body.len() == (ps.n * ps.q_bits + 7) / 8,
    ;
    let h = unpack_poly(body.as_slice(), ps.n as usize, ps.q_bits as usize);
    proof {
        lemma_q_bound(ps);
    }
    let digest = sub_bytes(b, 5 + pb, b.len());
    Some(PublicParts { params: ps, h, digest })
}

/// Decodes a signature blob into its parameter set and s.
pub fn decode_signature(b: &[u8]) -> (r: Option<(ParamSet, Vec<i64>)>)
    ensures
        r is Some == parse_signature(b@) is Some,
        r matches Some(x) ==> parse_signature(b@) == Some((x.0, x.1@)) && x.0.wf() && standard(
            x.0,
        ) && x.1.len() == x.0.n && reduced(x.1@, x.0.q as int),
{
    let ps = match read_header(b, TAG_SIGNATURE) {
        None => {
            return None;
        },
        Some(ps) => ps,
    };
    if b.len() != ps.signature_packed_bytes() {
        return None;
    }
    let body = sub_bytes(b, 5, b.len());
    proof {
        ps.lemma_size_bound();
    }
    assert(ps.n * ps.q_bits <= body.len() * 8) by (nonlinear_arith)
        requires
            body.len() == (ps.n * ps.q_bits + 7) / 8,
    ;
    let s = unpack_poly(body.as_slice(), ps.n as usize, ps.q_bits as usize);
    proof {
        lemma_q_bound(ps);
    }
    Some((ps, s))
}

/// Slot checks and indices depend only on the bytes of the slots.
pub proof fn lemma_slots_prefix(x: Seq<u8>, p: Seq<u8>, count: nat, d1: int, d2: int, n: int)
    requires
        p.len() == 4 * count,
        x.len() >= p.len(),
        forall|j: int| 0 <= j < p.len() ==> #[trigger] x[j] == p[j],
    ensures
        slots_valid(x, count, d1, d2, n) == slots_valid(p, count, d1, d2, n),
        unpack_positions_spec(x, count) == unpack_positions_spec(p, count),
{
    assert forall|i: int| 0 <= i < count implies #[trigger] slot_ok(x, i, d1, d2, n) == slot_ok(
        p,
        i,
        d1,
        d2,
        n,
    ) && slot_index(x, i) == slot_index(p, i) by {
        assert(x[4 * i] == p[4 * i]);
        assert(x[4 * i + 1] == p[4 * i + 1]);
        assert(x[4 * i + 2] == p[4 * i + 2]);
        assert(x[4 * i + 3] == p[4 * i + 3]);
    }
    if slots_valid(x, count, d1, d2, n) {
        assert forall|i: int| 0 <= i < count implies #[trigger] slot_ok(p, i, d1, d2, n) by {
            assert(slot_ok(x, i, d1, d2, n));
        }
    }
    if slots_valid(p, count, d1, d2, n) {
        assert forall|i: int| 0 <= i < count implies #[trigger] slot_ok(x, i, d1, d2, n) by {
            assert(slot_ok(p, i, d1, d2, n));
        }
    }
    assert(unpack_positions_spec(x, count) =~= unpack_positions_spec(p, count));
}

/// Encoding a private key then decoding it gives it back.
pub proof fn lemma_private_round_trip(ps: ParamSet, f: Seq<usize>, g: Seq<usize>, g_inv: Seq<i64>)
    requires
        ps.wf(),
        standard(ps),
        f.len() == ps.weight(),
        g.len() == ps.weight(),
        positions_in(f, ps.n as int),
        positions_in(g, ps.n as int),
        g_inv.len() == ps.n,
        reduced(g_inv, 3),
    ensures
        parse_private(private_blob(ps, f, g, g_inv)) == Some((ps, f, g, g_inv)),
{
    let w = ps.weight();
    let (d1, d2, n) = (ps.d1 as int, ps.d2 as int, ps.n as int);
    let pf = pack_positions_spec(f, d1, d2);
    let pg = pack_positions_spec(g, d1, d2);
    let pt = pack_trits_spec(g_inv);
    lemma_positions_round_trip(f, d1, d2, n);
    lemma_positions_round_trip(g, d1, d2, n);
    lemma_trits_round_trip(g_inv);
    let b = private_blob(ps, f, g, g_inv);
    assert(b == header(TAG_PRIVATE, ps.oid) + pf + pg + pt);
    assert(b.len() == ps.spec_privkey_packed_bytes());
    assert(b[0] == TAG_PRIVATE && b[1] == 3 && b[2] == ps.oid.0 && b[3] == ps.oid.1 && b[4]
        == ps.oid.2);
    assert(Oid(b[2], b[3], b[4]) == ps.oid);
    assert(header_params(b, TAG_PRIVATE) == Some(ps));
    let f_part = b.subrange(5, b.len() as int);
    let g_part = b.subrange(5 + 4 * w as int, b.len() as int);
    assert forall|j: int| 0 <= j < pf.len() implies #[trigger] f_part[j] == pf[j] by {
        assert(f_part[j] == b[5 + j]);
    }
    assert forall|j: int| 0 <= j < pg.len() implies #[trigger] g_part[j] == pg[j] by {
        assert(g_part[j] == b[5 + 4 * w + j]);
    }
    lemma_slots_prefix(f_part, pf, w, d1, d2, n);
    lemma_slots_prefix(g_part, pg, w, d1, d2, n);
    assert(b.subrange(5 + 8 * w as int, b.len() as int) =~= pt);
}

/// Encoding a public key then decoding it gives it back.
pub proof fn lemma_public_round_trip(ps: ParamSet, h: Seq<i64>, digest: Seq<u8>)
    requires
        ps.wf(),
        standard(ps),
        h.len() == ps.n,
        reduced(h, ps.q as int),
        digest.len() == 64,
    ensures
        parse_public(public_blob(ps, h, digest)) == Some((ps, h, digest)),
{
    lemma_q_bound(ps);
    lemma_poly_round_trip(h, ps.q_bits as nat);
    let ph = pack_poly_spec(h, ps.q_bits as nat);
    let b = public_blob(ps, h, digest);
    let pb = ps.spec_packed_poly_bytes();
    assert(ph.len() == pb);
    assert(b[0] == TAG_PUBLIC && b[1] == 3 && b[2] == ps.oid.0 && b[3] == ps.oid.1 && b[4]
        == ps.oid.2);
    assert(Oid(b[2], b[3], b[4]) == ps.oid);
    assert(header_params(b, TAG_PUBLIC) == Some(ps));
    assert(b.subrange(5, 5 + pb as int) =~= ph);
    assert(b.subrange(5 + pb as int, b.len() as int) =~= digest);
}

/// Encoding a signature then decoding it gives it back.
pub proof fn lemma_signature_round_trip(ps: ParamSet, s: Seq<i64>)
    requires
        ps.wf(),
        standard(ps),
        s.len() == ps.n,
        reduced(s, ps.q as int),
    ensures
        parse_signature(signature_blob(ps, s)) == Some((ps, s)),
{
    lemma_q_bound(ps);
    lemma_poly_round_trip(s, ps.q_bits as nat);
    let b = signature_blob(ps, s);
    assert(b[0] == TAG_SIGNATURE && b[1] == 3 && b[2] == ps.oid.0 && b[3] == ps.oid.1 && b[4]
        == ps.oid.2);
    assert(Oid(b[2], b[3], b[4]) == ps.oid);
    assert(header_params(b, TAG_SIGNATURE) == Some(ps));
    assert(b.subrange(5, b.len() as int) =~= pack_poly_spec(s, ps.q_bits as nat));
}

} // verus!
