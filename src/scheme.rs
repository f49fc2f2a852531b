//! The signature scheme over blobs.
//!
//! Keys: sparse secrets F and G (three blocks of d1, d2, d3 sampled positions
//! with signs +1, -1, +1), X = p * F invertible modulo q, G invertible modulo
//! p, and the public element h = G * X^-1 mod q, so that h * X == G.
//!
//! Why p sits on the secret that moves s: a signer corrects a candidate by
//! s += a * X, which changes t = h * s by a * G. Had h been p * g * f^-1
//! (f * h == p * g), a correction s += a * f would change t by p * a * g and
//! leave t unchanged modulo p, so the target of t could never be met. With
//! X = p * F, s stays fixed modulo p and G^-1 mod p steers t, which is why
//! the private key stores G^-1 mod p.
//!
//! Why positions are drawn from [1, N) with a constant term at 0: a ternary
//! polynomial with exactly d1 + d2 + d3 nonzero coefficients has
//! F(1) == d1 + d2 + d3 (mod 2), which is even for seven of the nine
//! parameter sets, and such an F is never invertible modulo 2; likewise
//! G(1) == d1 - d2 + d3 is a multiple of 3 for seven sets, and such a G is
//! never invertible modulo 3. A constant term of 1, added exactly when the
//! count calls for it, makes key generation possible for every set.
//!
//! A message gives two targets modulo p, one for s and one for t = h * s.
//! A signature s is accepted when every centered coefficient of s and of t
//! lies within the norm bounds and both meet their targets modulo p.
use crate::codec::{
    decode_private, decode_public, decode_signature, encode_private, encode_public,
    encode_signature, lemma_private_round_trip, lemma_public_round_trip, lemma_q_bound,
    lemma_signature_round_trip, pack_poly_spec, pack_public_element, parse_private, parse_public,
    parse_signature, positions_in, private_blob, public_blob, signature_blob, standard,
};
use crate::hash::{append, append_be32, be32, expand, expand_spec, sha512, sha512_of};
use crate::params::{from_oid, ParamSet};
use crate::poly::{
    add_mod, center, centered, check_within, conv, invert_pow2, invert_small, mul_mod, mul_sparse,
    one, positions_ok, reduced, scale, scale_mod, sparse_mul, sub_mod, within, zeros, add_spec,
    sub_spec,
};
use vstd::prelude::*;

verus! {

/// Key generation gives up after this many samplings.
pub const MAX_KEYGEN_ATTEMPTS: u32 = 64;

/// Signing gives up after this many rejected candidates.
pub const MAX_SIGNING_ATTEMPTS: u32 = 1024;

/// Domain tag of the stream that blinds a signing attempt.
pub const TAG_BLINDING: u8 = 1;

/// Domain tag of the stream that key generation samples from.
pub const TAG_KEYGEN: u8 = 2;

/// No position occurs twice.
pub open spec fn distinct(v: Seq<usize>) -> bool {
    forall|i: int, j: int| 0 <= i < v.len() && 0 <= j < v.len() && i != j ==> v[i] != v[j]
}

/// F carries a constant term 1 when its sampled weight is even: a
/// polynomial with F(1) even is never invertible modulo 2.
pub open spec fn f_has_one(ps: ParamSet) -> bool {
    ps.weight() % 2 == 0
}

/// G carries a constant term 1 when its sampled coefficients sum to a
/// multiple of 3: a polynomial with G(1) == 0 mod 3 is never invertible
/// modulo 3.
pub open spec fn g_has_one(ps: ParamSet) -> bool {
    (ps.d1 + ps.d3 - ps.d2) % 3 == 0
}

/// The +1 positions of a sparse secret: blocks one and three, and 0 when
/// it carries a constant term.
pub open spec fn plus_positions(pos: Seq<usize>, ps: ParamSet, with_one: bool) -> Seq<usize> {
    let d12 = ps.d1 + ps.d2;
    pos.subrange(0, ps.d1 as int) + pos.subrange(d12, pos.len() as int) + if with_one {
        seq![0usize]
    } else {
        Seq::empty()
    }
}

/// The -1 positions of a sparse secret: block two.
pub open spec fn minus_positions(pos: Seq<usize>, ps: ParamSet) -> Seq<usize> {
    pos.subrange(ps.d1 as int, ps.d1 + ps.d2)
}

/// The dense form modulo m of a sparse secret.
pub open spec fn dense(pos: Seq<usize>, ps: ParamSet, with_one: bool, m: int) -> Seq<i64> {
    sparse_mul(plus_positions(pos, ps, with_one), minus_positions(pos, ps), one(ps.n as nat), m)
}

/// X = p * F modulo q.
pub open spec fn x_of(ps: ParamSet, f: Seq<usize>) -> Seq<i64> {
    scale(dense(f, ps, f_has_one(ps), ps.q as int), 3, ps.q as int)
}

/// The secrets and the public element fit together: X is invertible modulo
/// q with h = G * X^-1, and `g_inv` is the inverse of G modulo p.
pub open spec fn keys_match(
    ps: ParamSet,
    f: Seq<usize>,
    g: Seq<usize>,
    g_inv: Seq<i64>,
    h: Seq<i64>,
) -> bool {
    &&& distinct(f)
    &&& distinct(g)
    &&& exists|x_inv: Seq<i64>|
        conv(x_of(ps, f), x_inv, ps.q as int) == one(ps.n as nat) && h == conv(
            dense(g, ps, g_has_one(ps), ps.q as int),
            x_inv,
            ps.q as int,
        )
    &&& conv(dense(g, ps, g_has_one(ps), 3), g_inv, 3) == one(ps.n as nat)
}

/// A private and a public key blob of the given parameter set that belong
/// together, the public one carrying the digest of its packed h.
#[verifier::opaque]
pub open spec fn key_pair(ps: ParamSet, private_blob: Seq<u8>, public_blob: Seq<u8>) -> bool {
    match (parse_private(private_blob), parse_public(public_blob)) {
        (Some((ps1, f, g, g_inv)), Some((ps2, h, digest))) => {
            &&& ps1 == ps
            &&& ps2 == ps
            &&& keys_match(ps, f, g, g_inv, h)
            &&& digest == sha512_of(pack_poly_spec(h, ps.q_bits as nat))
        },
        _ => false,
    }
}

/// The stream that a message gives under a public key digest.
pub open spec fn message_stream(digest: Seq<u8>, message: Seq<u8>, n: nat) -> Seq<u8> {
    expand_spec(sha512_of(digest + message), 2 * n)
}

/// The target of s modulo p.
pub open spec fn target_s(digest: Seq<u8>, message: Seq<u8>, n: nat) -> Seq<i64> {
    Seq::new(n, |i: int| (message_stream(digest, message, n)[i] % 3) as i64)
}

/// The target of t modulo p.
pub open spec fn target_t(digest: Seq<u8>, message: Seq<u8>, n: nat) -> Seq<i64> {
    Seq::new(n, |i: int| (message_stream(digest, message, n)[n + i] % 3) as i64)
}

/// The centered coefficients of a modulo 3.
pub open spec fn residues(a: Seq<i64>, q: int) -> Seq<i64> {
    Seq::new(a.len(), |i: int| (centered(a[i] as int, q) % 3) as i64)
}

/// Whether s is a signature of the message under (h, digest): s and
/// t = h * s lie within the norm bounds and meet the message's targets.
pub open spec fn accepts(
    ps: ParamSet,
    h: Seq<i64>,
    digest: Seq<u8>,
    message: Seq<u8>,
    s: Seq<i64>,
) -> bool {
    let q = ps.q as int;
    let n = ps.n as nat;
    let t = conv(h, s, q);
    &&& within(s, q, ps.norm_bound_s as int)
    &&& within(t, q, ps.norm_bound_t as int)
    &&& residues(s, q) == target_s(digest, message, n)
    &&& residues(t, q) == target_t(digest, message, n)
}

/// Whether a signature blob verifies under a public key blob: both decode,
/// name the same parameter set, and the signature is accepted.
pub open spec fn verifies(signature: Seq<u8>, public_key: Seq<u8>, message: Seq<u8>) -> bool {
    match (parse_signature(signature), parse_public(public_key)) {
        (Some((ps1, s)), Some((ps2, h, digest))) => ps1 == ps2 && accepts(
            ps2,
            h,
            digest,
            message,
            s,
        ),
        _ => false,
    }
}

/// Both key blobs decode and name the same parameter set.
pub open spec fn keys_decode_alike(private_key: Seq<u8>, public_key: Seq<u8>) -> bool {
    match (parse_private(private_key), parse_public(public_key)) {
        (Some(sk), Some(pk)) => sk.0 == pk.0,
        _ => false,
    }
}

/// The draw at byte k: two stream bytes, most significant first.
pub open spec fn draw_value(stream: Seq<u8>, k: int) -> int {
    stream[k] as int * 256 + stream[k + 1] as int
}

/// The largest multiple of n - 1 not above 2^16. Draws at or above it are
/// rejected, so that a kept draw gives each position of [1, n) alike.
pub open spec fn draw_limit(n: int) -> int {
    (65536int / (n - 1)) * (n - 1)
}

/// The positions sampled from byte k of the stream on, having drawn `acc`
/// so far: each kept draw v gives the position v mod (n - 1) + 1, a
/// position drawn before is skipped, and sampling stops at `count`
/// positions. `None` when the stream runs out first.
pub open spec fn sample_from(stream: Seq<u8>, k: int, count: nat, n: int, acc: Seq<usize>) -> Option<
    Seq<usize>,
>
    decreases stream.len() - k,
{
    if acc.len() >= count {
        Some(acc)
    } else if k < 0 || k + 2 > stream.len() {
        None
    } else {
        let v = draw_value(stream, k);
        let x = (v % (n - 1) + 1) as usize;
        if v < draw_limit(n) && !acc.contains(x) {
            sample_from(stream, k + 2, count, n, acc.push(x))
        } else {
            sample_from(stream, k + 2, count, n, acc)
        }
    }
}

/// The first `count` distinct positions in [1, n) that the stream gives.
pub open spec fn sampled(stream: Seq<u8>, count: nat, n: int) -> Option<Seq<usize>> {
    sample_from(stream, 0, count, n, Seq::empty())
}

/// The first `count` distinct positions in [1, n) drawn from pairs of
/// stream bytes by rejection sampling; `None` when the stream runs out
/// first.
pub fn sample_positions(stream: &[u8], count: usize, n: usize) -> (r: Option<Vec<usize>>)
    requires
        2 <= n <= 65536,
    ensures
        r is Some == sampled(stream@, count as nat, n as int) is Some,
        r matches Some(v) ==> sampled(stream@, count as nat, n as int) == Some(v@),
        r matches Some(v) ==> v.len() == count && positions_in(v@, n as int) && distinct(v@),
{
    let mut taken: Vec<bool> = Vec::with_capacity(n);
    let mut i: usize = 0;
    while i < n
        invariant
            0 <= i <= n,
            taken.len() == i,
            forall|x: int| 0 <= x < i ==> !#[trigger] taken@[x],
        decreases n - i,
    {
        taken.push(false);
        i = i + 1;
    }
    assert((65536int / (n - 1)) * (n - 1) <= 65536) by (nonlinear_arith)
        requires
            n >= 2,
    ;
    let limit: usize = (65536 / (n - 1)) * (n - 1);
    let mut v: Vec<usize> = Vec::with_capacity(count);
    let mut k: usize = 0;
    assert(!Seq::<usize>::empty().contains(0usize));
    while k <= stream.len() && stream.len() - k >= 2 && v.len() < count
        invariant
            2 <= n <= 65536,
            limit == draw_limit(n as int),
            taken.len() == n,
            k <= stream.len(),
            v.len() <= count,
            positions_in(v@, n as int),
            distinct(v@),
            forall|x: int| 0 <= x < n ==> #[trigger] taken@[x] == v@.contains(x as usize),
            sample_from(stream@, k as int, count as nat, n as int, v@) == sampled(
                stream@,
                count as nat,
                n as int,
            ),
        decreases stream.len() - k,
    {
        let d = (stream[k] as usize) * 256 + stream[k + 1] as usize;
        let x = d % (n - 1) + 1;
        assert(d as int == draw_value(stream@, k as int));
        if d < limit && !taken[x] {
            let ghost old_v = v@;
            taken.set(x, true);
            v.push(x);
            assert(v@ == old_v.push(x));
            assert forall|y: int| 0 <= y < n implies #[trigger] taken@[y] == v@.contains(
                y as usize,
            ) by {
                if y == x {
                    assert(v@[v.len() - 1] == x);
                } else {
                    if old_v.contains(y as usize) {
                        let j = choose|j: int| 0 <= j < old_v.len() && old_v[j] == y as usize;
                        assert(v@[j] == y as usize);
                    }
                    if v@.contains(y as usize) {
                        let j = choose|j: int| 0 <= j < v@.len() && v@[j] == y as usize;
                        assert(j < old_v.len());
                        assert(old_v[j] == y as usize);
                    }
                }
            }
            assert forall|j: int| 0 <= j < old_v.len() implies old_v[j] != x by {
                if old_v[j] == x {
                    assert(old_v.contains(x));
                }
            }
        }
        k = k + 2;
    }
    if v.len() == count {
        Some(v)
    } else {
        None
    }
}

/// The +1 and -1 positions of a sparse secret.
pub fn split_positions(pos: &Vec<usize>, ps: &ParamSet, with_one: bool) -> (r: (
    Vec<usize>,
    Vec<usize>,
))
    requires
        ps.wf(),
        pos.len() == ps.weight(),
        positions_in(pos@, ps.n as int),
    ensures
        r.0@ == plus_positions(pos@, *ps, with_one),
        r.1@ == minus_positions(pos@, *ps),
        positions_ok(r.0@, ps.n as nat),
        positions_ok(r.1@, ps.n as nat),
{
    let d1 = ps.d1 as usize;
    let d12 = d1 + ps.d2 as usize;
    let mut plus: Vec<usize> = Vec::new();
    let mut minus: Vec<usize> = Vec::new();
    let mut i: usize = 0;
    while i < pos.len()
        invariant
            ps.wf(),
            d1 == ps.d1,
            d12 == ps.d1 + ps.d2,
            pos.len() == ps.weight(),
            0 <= i <= pos.len(),
            plus@ == (if i <= d1 {
                pos@.subrange(0, i as int)
            } else if i <= d12 {
                pos@.subrange(0, d1 as int)
            } else {
                pos@.subrange(0, d1 as int) + pos@.subrange(d12 as int, i as int)
            }),
            minus@ == (if i <= d1 {
                Seq::empty()
            } else if i <= d12 {
                pos@.subrange(d1 as int, i as int)
            } else {
                pos@.subrange(d1 as int, d12 as int)
            }),
        decreases pos.len() - i,
    {
        if i < d1 || i >= d12 {
            plus.push(pos[i]);
        } else {
            minus.push(pos[i]);
        }
        i = i + 1;
        assert(pos@.subrange(0, i as int) =~= pos@.subrange(0, i - 1) + seq![pos@[i - 1]]);
        if i - 1 >= d1 {
            assert(pos@.subrange(d1 as int, i as int) =~= pos@.subrange(d1 as int, i - 1) + seq![
                pos@[i - 1],
            ]);
        }
        if i - 1 >= d12 {
            assert(pos@.subrange(d12 as int, i as int) =~= pos@.subrange(d12 as int, i - 1) + seq![
                pos@[i - 1],
            ]);
        }
        assert(pos@.subrange(d1 as int, d1 as int) =~= Seq::<usize>::empty());
        assert(pos@.subrange(d12 as int, d12 as int) =~= Seq::<usize>::empty());
        assert(pos@.subrange(0, d1 as int) + Seq::<usize>::empty() =~= pos@.subrange(0, d1 as int));
    }
    if with_one {
        plus.push(0);
    }
    assert(plus@ =~= plus_positions(pos@, *ps, with_one));
    assert(minus@ =~= minus_positions(pos@, *ps));
    (plus, minus)
}

/// The unit element 1 with n coefficients.
fn unit(n: usize) -> (r: Vec<i64>)
    ensures
        r@ == one(n as nat),
{
    let mut r = zeros(n);
    if n > 0 {
        r.set(0, 1);
    }
    assert(r@ =~= one(n as nat));
    r
}

/// The dense form modulo m of a sparse secret.
pub fn dense_secret(pos: &Vec<usize>, ps: &ParamSet, with_one: bool, m: i64) -> (r: Vec<i64>)
    requires
        ps.wf(),
        2 <= m <= 0x100_0000,
        pos.len() == ps.weight(),
        positions_in(pos@, ps.n as int),
    ensures
        r@ == dense(pos@, *ps, with_one, m as int),
        r.len() == ps.n,
        reduced(r@, m as int),
{
    let (plus, minus) = split_positions(pos, ps, with_one);
    let u = unit(ps.n as usize);
    mul_sparse(&plus, &minus, &u, m)
}

/// The centered coefficients of a modulo 3.
pub fn residues_of(a: &Vec<i64>, q: i64) -> (r: Vec<i64>)
    requires
        reduced(a@, q as int),
        2 <= q <= 0x100_0000,
    ensures
        r@ == residues(a@, q as int),
        reduced(r@, 3),
{
    let mut r: Vec<i64> = Vec::with_capacity(a.len());
    let mut i: usize = 0;
    while i < a.len()
        invariant
            reduced(a@, q as int),
            2 <= q <= 0x100_0000,
            0 <= i <= a.len(),
            r.len() == i,
            forall|k: int| 0 <= k < i ==> #[trigger] r@[k] == residues(a@, q as int)[k],
            reduced(r@, 3),
        decreases a.len() - i,
    {
        let c = center(a[i], q);
        proof {
            vstd::arithmetic::div_mod::lemma_mod_multiples_vanish(q as int, c as int, 3);
        }
        r.push((c + 3 * q) % 3);
        i = i + 1;
    }
    assert(r@ =~= residues(a@, q as int));
    r
}

/// The targets of s and of t modulo p that a message gives.
pub fn targets(digest: &Vec<u8>, message: &[u8], n: usize) -> (r: (Vec<i64>, Vec<i64>))
    requires
        n <= 2048,
    ensures
        r.0@ == target_s(digest@, message@, n as nat),
        r.1@ == target_t(digest@, message@, n as nat),
        reduced(r.0@, 3),
        reduced(r.1@, 3),
{
    let mut input: Vec<u8> = Vec::new();
    append(&mut input, digest.as_slice());
    append(&mut input, message);
    let seed = sha512(input.as_slice());
    let stream = expand(seed.as_slice(), 2 * n);
    assert(input@ == digest@ + message@);
    let mut ts: Vec<i64> = Vec::with_capacity(n);
    let mut tt: Vec<i64> = Vec::with_capacity(n);
    let mut i: usize = 0;
    while i < n
        invariant
            n <= 2048,
            stream@ == message_stream(digest@, message@, n as nat),
            0 <= i <= n,
            ts.len() == i,
            tt.len() == i,
            forall|k: int| 0 <= k < i ==> #[trigger] ts@[k] == target_s(digest@, message@, n as nat)[k],
            forall|k: int| 0 <= k < i ==> #[trigger] tt@[k] == target_t(digest@, message@, n as nat)[k],
            reduced(ts@, 3),
            reduced(tt@, 3),
        decreases n - i,
    {
        ts.push((stream[i] % 3) as i64);
        tt.push((stream[n + i] % 3) as i64);
        i = i + 1;
    }
    assert(ts@ =~= target_s(digest@, message@, n as nat));
    assert(tt@ =~= target_t(digest@, message@, n as nat));
    (ts, tt)
}

/// Whether every coefficient of a equals that of b.
fn same(a: &Vec<i64>, b: &Vec<i64>) -> (r: bool)
    ensures
        r == (a@ == b@),
{
    if a.len() != b.len() {
        return false;
    }
    let mut i: usize = 0;
    while i < a.len()
        invariant
            a.len() == b.len(),
            0 <= i <= a.len(),
            forall|k: int| 0 <= k < i ==> a@[k] == b@[k],
        decreases a.len() - i,
    {
        if a[i] != b[i] {
            return false;
        }
        i = i + 1;
    }
    assert(a@ =~= b@);
    true
}

/// Whether s is accepted under (h, digest) for the message, given its targets.
pub fn accept_candidate(
    ps: &ParamSet,
    h: &Vec<i64>,
    digest: &Vec<u8>,
    message: &[u8],
    s: &Vec<i64>,
    ts: &Vec<i64>,
    tt: &Vec<i64>,
) -> (r: bool)
    requires
        ps.wf(),
        h.len() == ps.n,
        s.len() == ps.n,
        reduced(h@, ps.q as int),
        reduced(s@, ps.q as int),
        ts@ == target_s(digest@, message@, ps.n as nat),
        tt@ == target_t(digest@, message@, ps.n as nat),
    ensures
        r == accepts(*ps, h@, digest@, message@, s@),
{
    proof {
        lemma_q_bound(*ps);
    }
    let q = ps.q;
    if !check_within(s, q, ps.norm_bound_s) {
        return false;
    }
    let rs = residues_of(s, q);
    if !same(&rs, ts) {
        return false;
    }
    let t = mul_mod(h, s, q);
    if !check_within(&t, q, ps.norm_bound_t) {
        return false;
    }
    let rt = residues_of(&t, q);
    same(&rt, tt)
}

/// Whether a signature blob verifies under a public key blob for a message.
pub fn verify_blobs(signature: &[u8], public_key: &[u8], message: &[u8]) -> (r: bool)
    ensures
        r == verifies(signature@, public_key@, message@),
{
    let (ps, s) = match decode_signature(signature) {
        None => {
            return false;
        },
        Some(x) => x,
    };
    let pk = match decode_public(public_key) {
        None => {
            return false;
        },
        Some(pk) => pk,
    };
    if ps != pk.params {
        return false;
    }
    proof {
        lemma_q_bound(ps);
        vstd::arithmetic::power2::lemma_pow2(ps.q_bits as nat);
    }
    let (ts, tt) = targets(&pk.digest, message, ps.n as usize);
    accept_candidate(&ps, &pk.h, &pk.digest, message, &s, &ts, &tt)
}

/// The ternary coefficients of a modulo 3 (0, 1, 2 standing for 0, 1, -1)
/// as residues modulo q.
pub open spec fn lift(a: Seq<i64>, q: int) -> Seq<i64> {
    Seq::new(a.len(), |i: int| if a[i] == 2 { (q - 1) as i64 } else { a[i] })
}

/// What is hashed to seed the blinding of attempt `attempt`.
pub open spec fn blinding_input(digest: Seq<u8>, message: Seq<u8>, attempt: nat) -> Seq<u8> {
    seq![TAG_BLINDING] + digest + message + be32(attempt)
}

/// The stream that blinds attempt `attempt`: three bytes per coefficient.
pub open spec fn blinding_stream(digest: Seq<u8>, message: Seq<u8>, attempt: nat, n: nat) -> Seq<
    u8,
> {
    expand_spec(sha512_of(blinding_input(digest, message, attempt)), 3 * n)
}

/// Coefficient i of a blinded start: the target t plus 3 times a
/// perturbation in [-half, range - half), range = q / 3, taken from three
/// stream bytes, then reduced into [0, q).
pub open spec fn blinded(stream: Seq<u8>, i: int, t: int, q: int) -> i64 {
    let x = stream[3 * i] as int + 256 * stream[3 * i + 1] as int + 65536 * stream[3 * i + 2] as int;
    let range = q / 3;
    let v = t + 3 * (x % range - range / 2);
    (if v < 0 {
        v + q
    } else {
        v
    }) as i64
}

/// The blinded start s0 of attempt `attempt` for targets ts.
pub open spec fn blinding_spec(
    digest: Seq<u8>,
    message: Seq<u8>,
    attempt: nat,
    ts: Seq<i64>,
    q: int,
) -> Seq<i64> {
    let stream = blinding_stream(digest, message, attempt, ts.len());
    Seq::new(ts.len(), |i: int| blinded(stream, i, ts[i] as int, q))
}

/// The ternary coefficients of a modulo 3 (0, 1, 2 standing for 0, 1, -1)
/// as residues modulo q.
fn lift_ternary(a: &Vec<i64>, q: i64) -> (r: Vec<i64>)
    requires
        reduced(a@, 3),
        4 <= q,
    ensures
        r@ == lift(a@, q as int),
        reduced(r@, q as int),
{
    let mut r: Vec<i64> = Vec::with_capacity(a.len());
    let mut i: usize = 0;
    while i < a.len()
        invariant
            reduced(a@, 3),
            4 <= q,
            0 <= i <= a.len(),
            r.len() == i,
            reduced(r@, q as int),
            forall|k: int| 0 <= k < i ==> #[trigger] r@[k] == lift(a@, q as int)[k],
        decreases a.len() - i,
    {
        let v: i64 = if a[i] == 2 {
            q - 1
        } else {
            a[i]
        };
        r.push(v);
        i = i + 1;
    }
    assert(r@ =~= lift(a@, q as int));
    r
}

/// The blinded start s0 of a signing attempt: the target of s plus p times
/// a perturbation drawn from the stream of (tag, digest, message, attempt),
/// each coefficient kept inside (-q/2, q/2) before reduction modulo q.
fn blinding(digest: &Vec<u8>, message: &[u8], attempt: u32, ts: &Vec<i64>, q: i64) -> (r: Vec<i64>)
    requires
        256 <= q <= 0x100_0000,
        ts.len() <= 2048,
        reduced(ts@, 3),
    ensures
        r@ == blinding_spec(digest@, message@, attempt as nat, ts@, q as int),
        reduced(r@, q as int),
{
    let n = ts.len();
    let mut input: Vec<u8> = Vec::new();
    input.push(TAG_BLINDING);
    append(&mut input, digest.as_slice());
    append(&mut input, message);
    append_be32(&mut input, attempt);
    assert(input@ =~= blinding_input(digest@, message@, attempt as nat));
    let seed = sha512(input.as_slice());
    let stream = expand(seed.as_slice(), 3 * n);
    let ghost want = blinding_spec(digest@, message@, attempt as nat, ts@, q as int);
    let range = q / 3;
    let half = range / 2;
    let mut r: Vec<i64> = Vec::with_capacity(n);
    let mut i: usize = 0;
    while i < n
        invariant
            256 <= q <= 0x100_0000,
            n == ts.len() <= 2048,
            stream@ == blinding_stream(digest@, message@, attempt as nat, n as nat),
            want == blinding_spec(digest@, message@, attempt as nat, ts@, q as int),
            reduced(ts@, 3),
            range == q / 3,
            half == range / 2,
            0 <= i <= n,
            r.len() == i,
            reduced(r@, q as int),
            forall|k: int| 0 <= k < i ==> #[trigger] r@[k] == want[k],
        decreases n - i,
    {
        let x = stream[3 * i] as i64 + 256 * (stream[3 * i + 1] as i64) + 65536 * (stream[3 * i
            + 2] as i64);
        let e = x % range - half;
        let v = ts[i] + 3 * e;
        assert(-q < v < q) by (nonlinear_arith)
            requires
                range == q / 3,
                half == range / 2,
                0 <= x % range < range,
                e == x % range - half,
                0 <= ts[i as int] < 3,
                v == ts[i as int] + 3 * e,
                256 <= q,
        ;
        let s0 = if v < 0 {
            v + q
        } else {
            v
        };
        assert(s0 == blinded(stream@, i as int, ts@[i as int] as int, q as int));
        r.push(s0);
        i = i + 1;
    }
    assert(r@ =~= want);
    r
}

/// What is hashed to seed key-generation attempt `attempt`.
pub open spec fn keygen_input(seed: Seq<u8>, attempt: nat) -> Seq<u8> {
    seq![TAG_KEYGEN] + seed + be32(attempt)
}

/// The stream of key-generation attempt `attempt`: 8 * weight bytes to
/// sample F from, then 8 * weight bytes to sample G from.
pub open spec fn keygen_stream(seed: Seq<u8>, attempt: nat, ps: ParamSet) -> Seq<u8> {
    expand_spec(sha512_of(keygen_input(seed, attempt)), 16 * ps.weight())
}

/// The positions of F that attempt `attempt` samples, if its stream holds them.
pub open spec fn sampled_f(ps: ParamSet, seed: Seq<u8>, attempt: nat) -> Option<Seq<usize>> {
    sampled(
        keygen_stream(seed, attempt, ps).subrange(0, 8 * ps.weight() as int),
        ps.weight(),
        ps.n as int,
    )
}

/// The positions of G that attempt `attempt` samples, if its stream holds them.
pub open spec fn sampled_g(ps: ParamSet, seed: Seq<u8>, attempt: nat) -> Option<Seq<usize>> {
    sampled(
        keygen_stream(seed, attempt, ps).subrange(8 * ps.weight() as int, 16 * ps.weight() as int),
        ps.weight(),
        ps.n as int,
    )
}

/// Attempt `attempt` sampled F and G, and the blobs are exactly the
/// encodings of the private key (F, G, G^-1 mod p) and of the public key
/// (h, digest of packed h) that they decode to.
#[verifier::opaque]
pub open spec fn attempt_yields(
    ps: ParamSet,
    seed: Seq<u8>,
    attempt: nat,
    private_key: Seq<u8>,
    public_key: Seq<u8>,
) -> bool {
    match (
        sampled_f(ps, seed, attempt),
        sampled_g(ps, seed, attempt),
        parse_private(private_key),
        parse_public(public_key),
    ) {
        (Some(f), Some(g), Some((_, f2, g2, g_inv)), Some((_, h, _))) => {
            &&& f2 == f
            &&& g2 == g
            &&& private_key == private_blob(ps, f, g, g_inv)
            &&& public_key == public_blob(ps, h, sha512_of(pack_poly_spec(h, ps.q_bits as nat)))
        },
        _ => false,
    }
}

/// The blobs built from what an attempt sampled form a key pair, and are
/// what that attempt yields.
#[verifier::rlimit(50)]
proof fn lemma_keys_from_attempt(
    ps: ParamSet,
    seed: Seq<u8>,
    attempt: nat,
    f: Seq<usize>,
    g: Seq<usize>,
    g_inv: Seq<i64>,
    h: Seq<i64>,
    x_inv: Seq<i64>,
)
    requires
        ps.wf(),
        standard(ps),
        sampled_f(ps, seed, attempt) == Some(f),
        sampled_g(ps, seed, attempt) == Some(g),
        f.len() == ps.weight(),
        g.len() == ps.weight(),
        positions_in(f, ps.n as int),
        positions_in(g, ps.n as int),
        distinct(f),
        distinct(g),
        g_inv.len() == ps.n,
        reduced(g_inv, 3),
        h.len() == ps.n,
        reduced(h, ps.q as int),
        conv(x_of(ps, f), x_inv, ps.q as int) == one(ps.n as nat),
        h == conv(dense(g, ps, g_has_one(ps), ps.q as int), x_inv, ps.q as int),
        conv(dense(g, ps, g_has_one(ps), 3), g_inv, 3) == one(ps.n as nat),
        sha512_of(pack_poly_spec(h, ps.q_bits as nat)).len() == 64,
    ensures
        key_pair(
            ps,
            private_blob(ps, f, g, g_inv),
            public_blob(ps, h, sha512_of(pack_poly_spec(h, ps.q_bits as nat))),
        ),
        attempt_yields(
            ps,
            seed,
            attempt,
            private_blob(ps, f, g, g_inv),
            public_blob(ps, h, sha512_of(pack_poly_spec(h, ps.q_bits as nat))),
        ),
{
    let digest = sha512_of(pack_poly_spec(h, ps.q_bits as nat));
    lemma_private_round_trip(ps, f, g, g_inv);
    lemma_public_round_trip(ps, h, digest);
    assert(keys_match(ps, f, g, g_inv, h));
    reveal(key_pair);
    reveal(attempt_yields);
}

/// One key-generation attempt: samples F and G from the attempt's stream
/// and, when X = p * F is invertible modulo q and G modulo p, encodes the
/// keys.
fn keygen_attempt(ps: &ParamSet, seed: &[u8], attempt: u32, f_one: bool, g_one: bool) -> (r: Option<
    (Vec<u8>, Vec<u8>),
>)
    requires
        ps.wf(),
        standard(*ps),
        f_one == f_has_one(*ps),
        g_one == g_has_one(*ps),
    ensures
        r matches Some((sk, pk)) ==> key_pair(*ps, sk@, pk@) && attempt_yields(
            *ps,
            seed@,
            attempt as nat,
            sk@,
            pk@,
        ),
{
    let n = ps.n as usize;
    let q = ps.q;
    let w = ps.d1 as usize + ps.d2 as usize + ps.d3 as usize;
    proof {
        lemma_q_bound(*ps);
    }
    let mut input: Vec<u8> = Vec::new();
    input.push(TAG_KEYGEN);
    append(&mut input, seed);
    append_be32(&mut input, attempt);
    assert(input@ =~= keygen_input(seed@, attempt as nat));
    let kseed = sha512(input.as_slice());
    let stream = expand(kseed.as_slice(), 16 * w);
    let f_stream = crate::codec::sub_bytes(stream.as_slice(), 0, 8 * w);
    let g_stream = crate::codec::sub_bytes(stream.as_slice(), 8 * w, 16 * w);
    let fs = sample_positions(f_stream.as_slice(), w, n);
    let gs = sample_positions(g_stream.as_slice(), w, n);
    if let (Some(f), Some(g)) = (fs, gs) {
        let fd = dense_secret(&f, ps, f_one, q);
        let x = scale_mod(&fd, 3, q);
        if let Some(x_inv) = invert_pow2(&x, q) {
            let g3 = dense_secret(&g, ps, g_one, 3);
            if let Some(g_inv) = invert_small(&g3, 3) {
                let gq = dense_secret(&g, ps, g_one, q);
                let h = mul_mod(&gq, &x_inv, q);
                let packed = pack_public_element(ps, &h);
                let digest = sha512(packed.as_slice());
                let sk = encode_private(ps, &f, &g, &g_inv);
                let pk = encode_public(ps, &h, &digest);
                proof {
                    assert(f_stream@ =~= keygen_stream(seed@, attempt as nat, *ps).subrange(
                        0,
                        8 * ps.weight() as int,
                    ));
                    assert(g_stream@ =~= keygen_stream(seed@, attempt as nat, *ps).subrange(
                        8 * ps.weight() as int,
                        16 * ps.weight() as int,
                    ));
                    lemma_keys_from_attempt(*ps, seed@, attempt as nat, f@, g@, g_inv@, h@, x_inv@);
                }
                return Some((sk, pk));
            }
        }
    }
    None
}

/// Key generation from a seed: samples F and G from the stream of (tag,
/// seed, attempt) until X = p * F is invertible modulo q and G modulo p,
/// then encodes the private and the public key. `None` when the parameter
/// set is not one of the table, or after the last attempt.
pub fn generate_key_blobs(ps: &ParamSet, seed: &[u8]) -> (r: Option<(Vec<u8>, Vec<u8>)>)
    ensures
        r matches Some((sk, pk)) ==> key_pair(*ps, sk@, pk@),
        r matches Some((sk, pk)) ==> exists|a: nat|
            a < MAX_KEYGEN_ATTEMPTS && #[trigger] attempt_yields(*ps, seed@, a, sk@, pk@),
        !standard(*ps) ==> r is None,
{
    let table = match from_oid(ps.oid) {
        None => {
            return None;
        },
        Some(t) => t,
    };
    if table != *ps {
        return None;
    }
    let n = ps.n as usize;
    let q = ps.q;
    let w = ps.d1 as usize + ps.d2 as usize + ps.d3 as usize;
    let f_one = w % 2 == 0;
    let g_one = (ps.d1 as usize + ps.d3 as usize + 2 * ps.d2 as usize) % 3 == 0;
    proof {
        lemma_q_bound(*ps);
        vstd::arithmetic::div_mod::lemma_mod_multiples_vanish(
            ps.d2 as int,
            ps.d1 + ps.d3 - ps.d2,
            3,
        );
        assert(g_one == g_has_one(*ps));
    }
    let mut attempt: u32 = 0;
    while attempt < MAX_KEYGEN_ATTEMPTS
        invariant
            ps.wf(),
            standard(*ps),
            f_one == f_has_one(*ps),
            g_one == g_has_one(*ps),
        decreases MAX_KEYGEN_ATTEMPTS - attempt,
    {
        if let Some(keys) = keygen_attempt(ps, seed, attempt, f_one, g_one) {
            return Some(keys);
        }
        attempt = attempt + 1;
    }
    None
}

/// The candidate s of signing attempt `attempt`: the blinded start s0 of
/// the message's target for s, corrected by a * p * F where
/// a = (target of t - t0) * G^-1 mod p and t0 = h * s0, so that t = h * s
/// meets the target of t modulo p whenever no coefficient wraps.
pub open spec fn candidate(
    ps: ParamSet,
    f: Seq<usize>,
    g_inv: Seq<i64>,
    h: Seq<i64>,
    digest: Seq<u8>,
    message: Seq<u8>,
    attempt: nat,
) -> Seq<i64> {
    let q = ps.q as int;
    let n = ps.n as nat;
    let s0 = blinding_spec(digest, message, attempt, target_s(digest, message, n), q);
    let t0 = conv(h, s0, q);
    let a3 = conv(sub_spec(target_t(digest, message, n), residues(t0, q), 3), g_inv, 3);
    let af = sparse_mul(
        plus_positions(f, ps, f_has_one(ps)),
        minus_positions(f, ps),
        lift(a3, q),
        q,
    );
    add_spec(s0, scale(af, 3, q), q)
}

/// The first attempt from `attempt` on, below the cap, whose candidate is
/// accepted.
pub open spec fn first_accepted(
    ps: ParamSet,
    f: Seq<usize>,
    g_inv: Seq<i64>,
    h: Seq<i64>,
    digest: Seq<u8>,
    message: Seq<u8>,
    attempt: nat,
) -> Option<nat>
    decreases MAX_SIGNING_ATTEMPTS - attempt,
{
    if attempt >= MAX_SIGNING_ATTEMPTS {
        None
    } else if accepts(ps, h, digest, message, candidate(ps, f, g_inv, h, digest, message, attempt)) {
        Some(attempt)
    } else {
        first_accepted(ps, f, g_inv, h, digest, message, attempt + 1)
    }
}

/// The signature blob that signing owes for the key blobs and the message:
/// the packed candidate of the first accepted attempt, when both keys
/// decode, name the same parameter set and some attempt below the cap is
/// accepted.
pub open spec fn signature_of(private_key: Seq<u8>, public_key: Seq<u8>, message: Seq<u8>) -> Option<
    Seq<u8>,
> {
    match (parse_private(private_key), parse_public(public_key)) {
        (Some((ps1, f, _, g_inv)), Some((ps, h, digest))) => {
            if ps1 != ps {
                None
            } else {
                match first_accepted(ps, f, g_inv, h, digest, message, 0) {
                    Some(a) => Some(
                        signature_blob(ps, candidate(ps, f, g_inv, h, digest, message, a)),
                    ),
                    None => None,
                }
            }
        },
        _ => None,
    }
}

/// The blob decodes, and packing what it decodes to gives it back.
pub open spec fn repacks_signature(b: Seq<u8>) -> bool {
    match parse_signature(b) {
        Some((ps, s)) => signature_blob(ps, s) == b,
        None => false,
    }
}

/// Signing: decodes both keys and, attempt after attempt, blinds the
/// message's target, corrects t modulo p with the secret and keeps the
/// first candidate that is accepted. `None` when a key does not decode, the
/// keys name different parameter sets, or no attempt below the cap is
/// accepted.
pub fn sign_blobs(private_key: &[u8], public_key: &[u8], message: &[u8]) -> (r: Option<Vec<u8>>)
    ensures
        r is Some == signature_of(private_key@, public_key@, message@) is Some,
        r matches Some(sig) ==> signature_of(private_key@, public_key@, message@) == Some(sig@),
        r matches Some(sig) ==> verifies(sig@, public_key@, message@),
        r matches Some(sig) ==> repacks_signature(sig@),
        r is Some ==> keys_decode_alike(private_key@, public_key@),
{
    let sk = match decode_private(private_key) {
        None => {
            return None;
        },
        Some(sk) => sk,
    };
    let pk = match decode_public(public_key) {
        None => {
            return None;
        },
        Some(pk) => pk,
    };
    if sk.params != pk.params {
        return None;
    }
    let ps = pk.params;
    let n = ps.n as usize;
    let q = ps.q;
    let w = ps.d1 as usize + ps.d2 as usize + ps.d3 as usize;
    let f_one = w % 2 == 0;
    proof {
        lemma_q_bound(ps);
    }
    let (ts, tt) = targets(&pk.digest, message, n);
    let (f_plus, f_minus) = split_positions(&sk.f, &ps, f_one);
    assert(keys_decode_alike(private_key@, public_key@));
    let ghost first = first_accepted(ps, sk.f@, sk.g_inv@, pk.h@, pk.digest@, message@, 0);
    let mut attempt: u32 = 0;
    while attempt < MAX_SIGNING_ATTEMPTS
        invariant
            ps.wf(),
            standard(ps),
            ps == pk.params,
            ps == sk.params,
            256 <= q <= 0x100_0000,
            q == ps.q,
            n == ps.n,
            pk.h.len() == n,
            reduced(pk.h@, q as int),
            sk.g_inv.len() == n,
            reduced(sk.g_inv@, 3),
            ts.len() == n,
            tt.len() == n,
            reduced(ts@, 3),
            reduced(tt@, 3),
            ts@ == target_s(pk.digest@, message@, n as nat),
            tt@ == target_t(pk.digest@, message@, n as nat),
            f_plus@ == plus_positions(sk.f@, ps, f_has_one(ps)),
            f_minus@ == minus_positions(sk.f@, ps),
            positions_ok(f_plus@, n as nat),
            positions_ok(f_minus@, n as nat),
            parse_public(public_key@) == Some((pk.params, pk.h@, pk.digest@)),
            parse_private(private_key@) == Some((sk.params, sk.f@, sk.g@, sk.g_inv@)),
            keys_decode_alike(private_key@, public_key@),
            first == first_accepted(ps, sk.f@, sk.g_inv@, pk.h@, pk.digest@, message@, 0),
            first == first_accepted(
                ps,
                sk.f@,
                sk.g_inv@,
                pk.h@,
                pk.digest@,
                message@,
                attempt as nat,
            ),
        decreases MAX_SIGNING_ATTEMPTS - attempt,
    {
        let s0 = blinding(&pk.digest, message, attempt, &ts, q);
        let t0 = mul_mod(&pk.h, &s0, q);
        let r0 = residues_of(&t0, q);
        let diff = sub_mod(&tt, &r0, 3);
        let a3 = mul_mod(&diff, &sk.g_inv, 3);
        let aq = lift_ternary(&a3, q);
        let af = mul_sparse(&f_plus, &f_minus, &aq, q);
        let paf = scale_mod(&af, 3, q);
        let s = add_mod(&s0, &paf, q);
        assert(s@ == candidate(ps, sk.f@, sk.g_inv@, pk.h@, pk.digest@, message@, attempt as nat));
        if accept_candidate(&ps, &pk.h, &pk.digest, message, &s, &ts, &tt) {
            let sig = encode_signature(&ps, &s);
            proof {
                lemma_signature_round_trip(ps, s@);
            }
            return Some(sig);
        }
        attempt = attempt + 1;
    }
    None
}

} // verus!
