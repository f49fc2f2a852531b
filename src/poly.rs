//! Arithmetic in Z_m[x]/(x^N - 1). A dense element is a `Vec<i64>` of N
//! coefficients, each reduced into [0, m).
use vstd::arithmetic::div_mod::{lemma_add_mod_noop_right, lemma_mod_bound};
use vstd::prelude::*;

verus! {

/// Every coefficient lies in [0, m).
pub open spec fn reduced(a: Seq<i64>, m: int) -> bool {
    forall|i: int| 0 <= i < a.len() ==> 0 <= #[trigger] a[i] < m
}

/// The index i - j taken cyclically, for i, j in [0, n).
pub open spec fn rot(i: int, j: int, n: int) -> int {
    if i >= j {
        i - j
    } else {
        i + n - j
    }
}

/// Sum of a[j] * b[i - j] over j < k, indices taken cyclically.
pub open spec fn conv_sum(a: Seq<i64>, b: Seq<i64>, i: int, k: int) -> int
    decreases k,
{
    if k <= 0 {
        0
    } else {
        conv_sum(a, b, i, k - 1) + a[k - 1] * b[rot(i, k - 1, b.len() as int)]
    }
}

/// The product a * b in Z_m[x]/(x^N - 1).
pub open spec fn conv(a: Seq<i64>, b: Seq<i64>, m: int) -> Seq<i64> {
    Seq::new(a.len(), |i: int| (conv_sum(a, b, i, a.len() as int) % m) as i64)
}

/// The unit element 1 of the ring, with n coefficients.
pub open spec fn one(n: nat) -> Seq<i64> {
    Seq::new(n, |i: int| if i == 0 { 1i64 } else { 0i64 })
}

/// Coefficient-wise a + b modulo m.
pub open spec fn add_spec(a: Seq<i64>, b: Seq<i64>, m: int) -> Seq<i64> {
    Seq::new(a.len(), |i: int| ((a[i] + b[i]) % m) as i64)
}

/// Coefficient-wise a - b modulo m.
pub open spec fn sub_spec(a: Seq<i64>, b: Seq<i64>, m: int) -> Seq<i64> {
    Seq::new(a.len(), |i: int| ((a[i] - b[i]) % m) as i64)
}

/// Coefficient-wise k * a modulo m.
pub open spec fn scale(a: Seq<i64>, k: int, m: int) -> Seq<i64> {
    Seq::new(a.len(), |i: int| ((k * a[i]) % m) as i64)
}

/// The representative of x (in [0, m)) in [-m/2, m/2).
pub open spec fn centered(x: int, m: int) -> int {
    if x < m / 2 {
        x
    } else {
        x - m
    }
}

/// Every centered coefficient of a lies in [-bound, bound].
pub open spec fn within(a: Seq<i64>, m: int, bound: int) -> bool {
    forall|i: int| 0 <= i < a.len() ==> -bound <= #[trigger] centered(a[i] as int, m) <= bound
}

/// The size limits under which the arithmetic below cannot overflow.
pub open spec fn ring_ok(n: nat, m: int) -> bool {
    2 <= n <= 2048 && 2 <= m <= 0x100_0000
}

/// Reducing a running sum before each addition gives the same residue.
pub proof fn lemma_mod_step(s: int, x: int, m: int)
    requires
        0 < m,
    ensures
        (s % m + x) % m == (s + x) % m,
{
    lemma_add_mod_noop_right(x, s, m);
}

/// The cyclic index i - j.
pub fn rot_index(i: usize, j: usize, n: usize) -> (r: usize)
    requires
        i < n,
        j < n,
    ensures
        r == rot(i as int, j as int, n as int),
        r < n,
{
    if i >= j {
        i - j
    } else {
        n - j + i
    }
}

/// The product a * b in Z_m[x]/(x^N - 1), by schoolbook convolution.
pub fn mul_mod(a: &Vec<i64>, b: &Vec<i64>, m: i64) -> (r: Vec<i64>)
    requires
        ring_ok(a.len() as nat, m as int),
        a.len() == b.len(),
        reduced(a@, m as int),
        reduced(b@, m as int),
    ensures
        r@ == conv(a@, b@, m as int),
        reduced(r@, m as int),
{
    let n = a.len();
    let mut r: Vec<i64> = Vec::with_capacity(n);
    let mut i: usize = 0;
    while i < n
        invariant
            n == a.len() == b.len(),
            ring_ok(n as nat, m as int),
            reduced(a@, m as int),
            reduced(b@, m as int),
            0 <= i <= n,
            r.len() == i,
            forall|k: int| 0 <= k < i ==> #[trigger] r@[k] == conv(a@, b@, m as int)[k],
        decreases n - i,
    {
        let mut acc: i64 = 0;
        let mut j: usize = 0;
        while j < n
            invariant
                n == a.len() == b.len(),
                ring_ok(n as nat, m as int),
                reduced(a@, m as int),
                reduced(b@, m as int),
                i < n,
                0 <= j <= n,
                acc as int == conv_sum(a@, b@, i as int, j as int),
                0 <= acc <= j * (0x100_0000 * 0x100_0000),
            decreases n - j,
        {
            let idx = rot_index(i, j, n);
            let x = a[j];
            let y = b[idx];
            assert(0 <= x * y <= 0x100_0000 * 0x100_0000) by (nonlinear_arith)
                requires
                    0 <= x < m,
                    0 <= y < m,
                    m <= 0x100_0000,
            ;
            assert(acc + x * y <= (j + 1) * (0x100_0000 * 0x100_0000)) by (nonlinear_arith)
                requires
                    acc <= j * (0x100_0000 * 0x100_0000),
                    x * y <= 0x100_0000 * 0x100_0000,
            ;
            acc = acc + x * y;
            j = j + 1;
        }
        acc = acc % m;
        r.push(acc);
        i = i + 1;
    }
    r
}

/// Sum of b[i - pos[k']] over k' < k, indices taken cyclically.
pub open spec fn shift_sum(b: Seq<i64>, pos: Seq<usize>, k: int, i: int) -> int
    decreases k,
{
    if k <= 0 {
        0
    } else {
        shift_sum(b, pos, k - 1, i) + b[rot(i, pos[k - 1] as int, b.len() as int)]
    }
}

/// The product of b with the ternary polynomial whose +1 coefficients sit at
/// `plus` and whose -1 coefficients sit at `minus`, modulo m.
pub open spec fn sparse_mul(plus: Seq<usize>, minus: Seq<usize>, b: Seq<i64>, m: int) -> Seq<i64> {
    Seq::new(
        b.len(),
        |i: int|
            ((shift_sum(b, plus, plus.len() as int, i) - shift_sum(b, minus, minus.len() as int, i))
                % m) as i64,
    )
}

/// Every position lies in [0, n).
pub open spec fn positions_ok(pos: Seq<usize>, n: nat) -> bool {
    forall|k: int| 0 <= k < pos.len() ==> #[trigger] pos[k] < n
}

/// Reducing both sides of a difference first gives the same residue.
pub proof fn lemma_sub_step(p: int, q: int, m: int)
    requires
        0 < m,
    ensures
        (p % m + m - q % m) % m == (p - q) % m,
{
    vstd::arithmetic::div_mod::lemma_mod_add_multiples_vanish(p % m - q % m, m);
    vstd::arithmetic::div_mod::lemma_sub_mod_noop(p, q, m);
}

/// The residue of shift_sum(b, pos, |pos|, i) modulo m.
fn shift_acc(b: &Vec<i64>, pos: &Vec<usize>, i: usize, m: i64) -> (r: i64)
    requires
        ring_ok(b.len() as nat, m as int),
        reduced(b@, m as int),
        positions_ok(pos@, b.len() as nat),
        i < b.len(),
    ensures
        r == shift_sum(b@, pos@, pos.len() as int, i as int) % (m as int),
        0 <= r < m,
{
    let n = b.len();
    let mut acc: i64 = 0;
    let mut k: usize = 0;
    proof {
        vstd::arithmetic::div_mod::lemma_small_mod(0, m as nat);
    }
    while k < pos.len()
        invariant
            n == b.len(),
            ring_ok(n as nat, m as int),
            reduced(b@, m as int),
            positions_ok(pos@, n as nat),
            i < n,
            0 <= k <= pos.len(),
            acc as int == shift_sum(b@, pos@, k as int, i as int) % (m as int),
        decreases pos.len() - k,
    {
        let y = b[rot_index(i, pos[k], n)];
        proof {
            lemma_mod_step(shift_sum(b@, pos@, k as int, i as int), y as int, m as int);
        }
        acc = (acc + y) % m;
        k = k + 1;
    }
    acc
}

/// The product of b with a sparse ternary polynomial, by adding shifted
/// copies of b: O(N * weight) rather than O(N^2).
pub fn mul_sparse(plus: &Vec<usize>, minus: &Vec<usize>, b: &Vec<i64>, m: i64) -> (r: Vec<i64>)
    requires
        ring_ok(b.len() as nat, m as int),
        reduced(b@, m as int),
        positions_ok(plus@, b.len() as nat),
        positions_ok(minus@, b.len() as nat),
    ensures
        r@ == sparse_mul(plus@, minus@, b@, m as int),
        reduced(r@, m as int),
{
    let n = b.len();
    let mut r: Vec<i64> = Vec::with_capacity(n);
    let mut i: usize = 0;
    while i < n
        invariant
            n == b.len(),
            ring_ok(n as nat, m as int),
            reduced(b@, m as int),
            positions_ok(plus@, n as nat),
            positions_ok(minus@, n as nat),
            0 <= i <= n,
            r.len() == i,
            forall|k: int| 0 <= k < i ==> #[trigger] r@[k] == sparse_mul(plus@, minus@, b@, m as int)[k],
        decreases n - i,
    {
        let ap = shift_acc(b, plus, i, m);
        let am = shift_acc(b, minus, i, m);
        proof {
            lemma_sub_step(
                shift_sum(b@, plus@, plus.len() as int, i as int),
                shift_sum(b@, minus@, minus.len() as int, i as int),
                m as int,
            );
        }
        r.push((ap + m - am) % m);
        i = i + 1;
    }
    r
}

/// Coefficient-wise a + b modulo m.
pub fn add_mod(a: &Vec<i64>, b: &Vec<i64>, m: i64) -> (r: Vec<i64>)
    requires
        a.len() == b.len(),
        ring_ok(a.len() as nat, m as int),
        reduced(a@, m as int),
        reduced(b@, m as int),
    ensures
        r@ == add_spec(a@, b@, m as int),
        reduced(r@, m as int),
{
    let mut r: Vec<i64> = Vec::with_capacity(a.len());
    let mut i: usize = 0;
    while i < a.len()
        invariant
            a.len() == b.len(),
            ring_ok(a.len() as nat, m as int),
            reduced(a@, m as int),
            reduced(b@, m as int),
            0 <= i <= a.len(),
            r.len() == i,
            forall|k: int| 0 <= k < i ==> #[trigger] r@[k] == add_spec(a@, b@, m as int)[k],
        decreases a.len() - i,
    {
        r.push((a[i] + b[i]) % m);
        i = i + 1;
    }
    r
}

/// Coefficient-wise a - b modulo m.
pub fn sub_mod(a: &Vec<i64>, b: &Vec<i64>, m: i64) -> (r: Vec<i64>)
    requires
        a.len() == b.len(),
        ring_ok(a.len() as nat, m as int),
        reduced(a@, m as int),
        reduced(b@, m as int),
    ensures
        r@ == sub_spec(a@, b@, m as int),
        reduced(r@, m as int),
{
    let mut r: Vec<i64> = Vec::with_capacity(a.len());
    let mut i: usize = 0;
    while i < a.len()
        invariant
            a.len() == b.len(),
            ring_ok(a.len() as nat, m as int),
            reduced(a@, m as int),
            reduced(b@, m as int),
            0 <= i <= a.len(),
            r.len() == i,
            forall|k: int| 0 <= k < i ==> #[trigger] r@[k] == sub_spec(a@, b@, m as int)[k],
        decreases a.len() - i,
    {
        proof {
            vstd::arithmetic::div_mod::lemma_mod_add_multiples_vanish(a[i as int] - b[i as int], m as int);
        }
        r.push((a[i] + m - b[i]) % m);
        i = i + 1;
    }
    r
}

/// Coefficient-wise k * a modulo m.
pub fn scale_mod(a: &Vec<i64>, k: i64, m: i64) -> (r: Vec<i64>)
    requires
        ring_ok(a.len() as nat, m as int),
        0 <= k < m,
        reduced(a@, m as int),
    ensures
        r@ == scale(a@, k as int, m as int),
        reduced(r@, m as int),
{
    let mut r: Vec<i64> = Vec::with_capacity(a.len());
    let mut i: usize = 0;
    while i < a.len()
        invariant
            ring_ok(a.len() as nat, m as int),
            0 <= k < m,
            reduced(a@, m as int),
            0 <= i <= a.len(),
            r.len() == i,
            forall|j: int| 0 <= j < i ==> #[trigger] r@[j] == scale(a@, k as int, m as int)[j],
        decreases a.len() - i,
    {
        let x = a[i];
        assert(0 <= k * x <= 0x100_0000 * 0x100_0000) by (nonlinear_arith)
            requires
                0 <= x < m,
                0 <= k < m,
                m <= 0x100_0000,
        ;
        r.push((k * x) % m);
        i = i + 1;
    }
    r
}

/// Whether a is the unit element 1.
pub fn is_one(a: &Vec<i64>) -> (r: bool)
    ensures
        r == (a@ == one(a.len() as nat)),
{
    let mut i: usize = 0;
    while i < a.len()
        invariant
            0 <= i <= a.len(),
            forall|j: int| 0 <= j < i ==> #[trigger] a@[j] == one(a.len() as nat)[j],
        decreases a.len() - i,
    {
        let want: i64 = if i == 0 { 1 } else { 0 };
        if a[i] != want {
            return false;
        }
        i = i + 1;
    }
    assert(a@ =~= one(a.len() as nat));
    true
}

/// The centered representative of a coefficient in [0, m).
pub fn center(x: i64, m: i64) -> (r: i64)
    requires
        0 <= x < m,
        m <= 0x100_0000,
    ensures
        r == centered(x as int, m as int),
{
    if x < m / 2 {
        x
    } else {
        x - m
    }
}

/// Whether every centered coefficient lies in [-bound, bound].
pub fn check_within(a: &Vec<i64>, m: i64, bound: i64) -> (r: bool)
    requires
        reduced(a@, m as int),
        m <= 0x100_0000,
        0 <= bound,
    ensures
        r == within(a@, m as int, bound as int),
{
    let mut i: usize = 0;
    while i < a.len()
        invariant
            reduced(a@, m as int),
            m <= 0x100_0000,
            0 <= bound,
            0 <= i <= a.len(),
            forall|j: int|
                0 <= j < i ==> -bound <= #[trigger] centered(a@[j] as int, m as int) <= bound,
        decreases a.len() - i,
    {
        let c = center(a[i], m);
        if c < -bound || c > bound {
            return false;
        }
        i = i + 1;
    }
    true
}

/// The index of the highest nonzero coefficient, if any.
fn degree(v: &Vec<i64>) -> (r: Option<usize>)
    ensures
        r matches Some(d) ==> d < v.len() && v@[d as int] != 0,
{
    let mut i: usize = v.len();
    while i > 0
        invariant
            i <= v.len(),
        decreases i,
    {
        if v[i - 1] != 0 {
            return Some(i - 1);
        }
        i = i - 1;
    }
    None
}

/// A vector of n zeros.
pub fn zeros(n: usize) -> (r: Vec<i64>)
    ensures
        r@ == Seq::new(n as nat, |i: int| 0i64),
{
    let mut r: Vec<i64> = Vec::with_capacity(n);
    let mut i: usize = 0;
    while i < n
        invariant
            0 <= i <= n,
            r@ == Seq::new(i as nat, |k: int| 0i64),
        decreases n - i,
    {
        r.push(0);
        i = i + 1;
        assert(r@ =~= Seq::new(i as nat, |k: int| 0i64));
    }
    r
}

/// v - c * x^sh * w, coefficient-wise modulo p, written into v, where the
/// shifted indices of w wrap around when `wrap` holds and stay in bounds
/// otherwise.
fn eliminate(v: &mut Vec<i64>, w: &Vec<i64>, c: i64, sh: usize, upto: usize, wrap: bool, p: i64)
    requires
        p == 2 || p == 3,
        0 <= c < p,
        old(v).len() == w.len(),
        2 <= w.len() <= 4096,
        upto <= w.len(),
        sh <= w.len(),
        wrap || upto + sh <= w.len(),
        reduced(old(v)@, p as int),
        reduced(w@, p as int),
    ensures
        final(v).len() == old(v).len(),
        reduced(final(v)@, p as int),
{
    let n = w.len();
    let mut k: usize = 0;
    while k < upto
        invariant
            p == 2 || p == 3,
            0 <= c < p,
            v.len() == n == w.len(),
            2 <= n <= 4096,
            upto <= n,
            sh <= n,
            wrap || upto + sh <= n,
            reduced(v@, p as int),
            reduced(w@, p as int),
            0 <= k <= upto,
        decreases upto - k,
    {
        let j = k + sh;
        let idx = if j >= n {
            j - n
        } else {
            j
        };
        let x = v[idx];
        let y = w[k];
        assert(0 <= c * y <= 4) by (nonlinear_arith)
            requires
                0 <= c < p,
                0 <= y < p,
                p <= 3,
        ;
        v.set(idx, (x + p * p - c * y) % p);
        k = k + 1;
    }
}

/// The inverse of a in Z_p[x]/(x^N - 1) for p = 2 or 3, by the extended
/// Euclidean algorithm against x^N - 1. `None` when the run ends without an
/// inverse; a returned element is checked to be the inverse.
pub fn invert_small(a: &Vec<i64>, p: i64) -> (r: Option<Vec<i64>>)
    requires
        p == 2 || p == 3,
        ring_ok(a.len() as nat, p as int),
        reduced(a@, p as int),
    ensures
        r matches Some(b) ==> b.len() == a.len() && reduced(b@, p as int) && conv(a@, b@, p as int)
            == one(a.len() as nat),
{
    let n = a.len();
    // r0 = x^N - 1 and r1 = a, both with N + 1 coefficients;
    // t0 * a == r0 and t1 * a == r1 modulo (x^N - 1, p).
    let mut r0 = zeros(n + 1);
    r0.set(0, p - 1);
    r0.set(n, 1);
    let mut r1: Vec<i64> = Vec::with_capacity(n + 1);
    let mut i: usize = 0;
    while i < n
        invariant
            n == a.len(),
            reduced(a@, p as int),
            0 <= i <= n,
            r1.len() == i,
            forall|k: int| 0 <= k < i ==> #[trigger] r1@[k] == a@[k],
        decreases n - i,
    {
        r1.push(a[i]);
        i = i + 1;
    }
    r1.push(0);
    let mut t0 = zeros(n);
    let mut t1 = zeros(n);
    t1.set(0, 1);
    let limit: usize = 4 * n + 8;
    let mut steps: usize = 0;
    let mut done = false;
    while !done && steps < limit
        invariant
            p == 2 || p == 3,
            ring_ok(n as nat, p as int),
            limit == 4 * n + 8,
            r0.len() == n + 1,
            r1.len() == n + 1,
            t0.len() == n,
            t1.len() == n,
            reduced(r0@, p as int),
            reduced(r1@, p as int),
            reduced(t0@, p as int),
            reduced(t1@, p as int),
        decreases limit - steps,
    {
        match degree(&r1) {
            None => {
                done = true;
            },
            Some(d1) => {
                let d0 = degree(&r0);
                match d0 {
                    Some(d0) if d0 >= d1 => {
                        let x = r0[d0];
                        let y = r1[d1];
                        assert(0 <= x * y <= 4) by (nonlinear_arith)
                            requires
                                0 <= x < p,
                                0 <= y < p,
                                p <= 3,
                        ;
                        // the inverse of a nonzero residue modulo 2 or 3 is itself
                        let c = (x * y) % p;
                        let sh = d0 - d1;
                        eliminate(&mut r0, &r1, c, sh, d1 + 1, false, p);
                        eliminate(&mut t0, &t1, c, sh % n, n, true, p);
                    },
                    _ => {
                        let tr = r0;
                        r0 = r1;
                        r1 = tr;
                        let tt = t0;
                        t0 = t1;
                        t1 = tt;
                    },
                }
            },
        }
        steps = steps + 1;
    }
    if !done {
        return None;
    }
    match degree(&r0) {
        Some(d) => {
            if d != 0 {
                return None;
            }
            let b = scale_mod(&t0, r0[0], p);
            let e = mul_mod(a, &b, p);
            if is_one(&e) {
                Some(b)
            } else {
                None
            }
        },
        None => None,
    }
}

/// The inverse of a in Z_q[x]/(x^N - 1) for q a power of two: the inverse
/// modulo 2, lifted by Newton steps b <- b * (2 - a * b). `None` when a has
/// no inverse modulo 2; a returned element is checked to be the inverse.
pub fn invert_pow2(a: &Vec<i64>, q: i64) -> (r: Option<Vec<i64>>)
    requires
        ring_ok(a.len() as nat, q as int),
        4 <= q,
        reduced(a@, q as int),
    ensures
        r matches Some(b) ==> b.len() == a.len() && reduced(b@, q as int) && conv(a@, b@, q as int)
            == one(a.len() as nat),
{
    let n = a.len();
    let mut a2: Vec<i64> = Vec::with_capacity(n);
    let mut i: usize = 0;
    while i < n
        invariant
            n == a.len(),
            reduced(a@, q as int),
            0 <= i <= n,
            a2.len() == i,
            reduced(a2@, 2),
        decreases n - i,
    {
        a2.push(a[i] % 2);
        i = i + 1;
    }
    let mut b = match invert_small(&a2, 2) {
        Some(b2) => b2,
        None => {
            return None;
        },
    };
    let mut two = zeros(n);
    two.set(0, 2);
    let mut round: usize = 0;
    while round < 6
        invariant
            n == a.len(),
            ring_ok(n as nat, q as int),
            4 <= q,
            reduced(a@, q as int),
            b.len() == n,
            two.len() == n,
            reduced(b@, q as int),
            reduced(two@, q as int),
        decreases 6 - round,
    {
        let e = mul_mod(a, &b, q);
        let d = sub_mod(&two, &e, q);
        b = mul_mod(&b, &d, q);
        round = round + 1;
    }
    let e = mul_mod(a, &b, q);
    if is_one(&e) {
        Some(b)
    } else {
        None
    }
}

} // verus!
