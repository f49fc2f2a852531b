//! Parameter sets: the ring degree, the modulus, the norm bounds and the
//! shape of the sparse secrets, one immutable record per object identifier.
use vstd::arithmetic::power2::{lemma2_to64, pow2};
use vstd::prelude::*;

verus! {

/// A three-byte object identifier naming a parameter set.
#[derive(Clone, Copy, Debug, PartialEq, Eq, Structural)]
pub struct Oid(pub u8, pub u8, pub u8);

/// One parameter set of the scheme.
#[derive(Clone, Copy, Debug, PartialEq, Eq, Structural)]
pub struct ParamSet {
    /// Object identifier written into every blob.
    pub oid: Oid,
    /// ceil(log2(N)): bits of one coefficient index.
    pub n_bits: u8,
    /// log2(q): bits of one coefficient modulo q.
    pub q_bits: u8,
    /// Ring degree N.
    pub n: u16,
    /// Message space prime.
    pub p: i8,
    /// Ring modulus, a power of two.
    pub q: i64,
    /// Largest norm that the secret adds to s.
    pub b_s: i64,
    /// Largest norm that the secret adds to t.
    pub b_t: i64,
    /// q/2 - b_s.
    pub norm_bound_s: i64,
    /// q/2 - b_t.
    pub norm_bound_t: i64,
    /// Sizes of the three blocks of a sparse secret.
    pub d1: u8,
    pub d2: u8,
    pub d3: u8,
    /// Ring degree padded for Karatsuba multiplication.
    pub padded_n: u16,
}

impl ParamSet {
    /// Number of sampled nonzero positions of a sparse secret.
    pub open spec fn weight(&self) -> nat {
        (self.d1 + self.d2 + self.d3) as nat
    }

    /// The record is internally consistent.
    pub open spec fn wf(&self) -> bool {
        &&& self.p == 3
        &&& 8 <= self.q_bits <= 24
        &&& self.q as int == pow2(self.q_bits as nat)
        &&& 5 <= self.n <= 2048
        &&& 1 <= self.n_bits <= 16
        &&& self.n as int <= pow2(self.n_bits as nat)
        &&& 1 <= self.weight()
        &&& 2 * self.weight() < self.n
        &&& 0 < self.b_s
        &&& 0 < self.b_t
        &&& self.norm_bound_s == self.q / 2 - self.b_s
        &&& self.norm_bound_t == self.q / 2 - self.b_t
        &&& 0 < self.norm_bound_s
        &&& 0 < self.norm_bound_t
    }

    /// Ring degree.
    pub fn get_n(&self) -> (r: u16)
        ensures
            r == self.n,
    {
        self.n
    }

    /// Message space prime.
    pub fn get_p(&self) -> (r: i8)
        ensures
            r == self.p,
    {
        self.p
    }

    /// Size of the first block of a sparse secret (coefficients +1).
    pub fn get_d1(&self) -> (r: u8)
        ensures
            r == self.d1,
    {
        self.d1
    }

    /// Size of the second block of a sparse secret (coefficients -1).
    pub fn get_d2(&self) -> (r: u8)
        ensures
            r == self.d2,
    {
        self.d2
    }

    /// Size of the third block of a sparse secret (coefficients +1).
    pub fn get_d3(&self) -> (r: u8)
        ensures
            r == self.d3,
    {
        self.d3
    }

    /// Bytes of a packed sparse secret: one four-byte slot per index.
    pub fn product_form_bytes(&self) -> (r: usize)
        requires
            self.wf(),
        ensures
            r == 4 * self.weight(),
    {
        4 * (self.d1 as usize + self.d2 as usize + self.d3 as usize)
    }

    /// Bytes of a padded polynomial of 64-bit coefficients.
    pub fn polynomial_bytes(&self) -> (r: usize)
        requires
            self.wf(),
        ensures
            r == self.padded_n * 8,
    {
        self.padded_n as usize * 8
    }

    /// Bytes of a ring element packed with `q_bits` bits per coefficient.
    pub open spec fn spec_packed_poly_bytes(&self) -> nat {
        ((self.n * self.q_bits + 7) / 8) as nat
    }

    /// Bytes of `g^-1 mod p` packed five coefficients to a byte.
    pub open spec fn spec_packed_trits_bytes(&self) -> nat {
        ((self.n + 4) / 5) as nat
    }

    pub open spec fn spec_privkey_packed_bytes(&self) -> nat {
        5 + 2 * (4 * self.weight()) + self.spec_packed_trits_bytes()
    }

    pub open spec fn spec_pubkey_packed_bytes(&self) -> nat {
        5 + self.spec_packed_poly_bytes() + 64
    }

    pub open spec fn spec_signature_packed_bytes(&self) -> nat {
        5 + self.spec_packed_poly_bytes()
    }

    /// Packed sizes stay small.
    pub proof fn lemma_size_bound(&self)
        requires
            self.wf(),
        ensures
            self.n * self.q_bits <= 2048 * 24,
    {
        assert(self.n * self.q_bits <= 2048 * 24) by (nonlinear_arith)
            requires
                self.n <= 2048,
                self.q_bits <= 24,
        ;
    }

    /// Bytes of a ring element packed with `q_bits` bits per coefficient.
    pub fn packed_poly_bytes(&self) -> (r: usize)
        requires
            self.wf(),
        ensures
            r == self.spec_packed_poly_bytes(),
    {
        proof {
            self.lemma_size_bound();
        }
        (self.n as usize * self.q_bits as usize + 7) / 8
    }

    /// Private key blob: tag (1 byte), OID length (1 byte), OID (3 bytes),
    /// the sparse secrets F and G, then `g^-1 mod p` five trits to a byte.
    pub fn privkey_packed_bytes(&self) -> (r: usize)
        requires
            self.wf(),
        ensures
            r == self.spec_privkey_packed_bytes(),
    {
        5 + 2 * (4 * (self.d1 as usize + self.d2 as usize + self.d3 as usize)) + (self.n as usize
            + 4) / 5
    }

    /// Public key blob: tag (1 byte), OID length (1 byte), OID (3 bytes),
    /// h (N * log2(q) bits), digest of h (64 bytes).
    pub fn pubkey_packed_bytes(&self) -> (r: usize)
        requires
            self.wf(),
        ensures
            r == self.spec_pubkey_packed_bytes(),
    {
        proof {
            self.lemma_size_bound();
        }
        5 + (self.n as usize * self.q_bits as usize + 7) / 8 + 64
    }

    /// Signature blob: tag (1 byte), OID length (1 byte), OID (3 bytes),
    /// s (N * log2(q) bits).
    pub fn signature_packed_bytes(&self) -> (r: usize)
        requires
            self.wf(),
        ensures
            r == self.spec_signature_packed_bytes(),
    {
        proof {
            self.lemma_size_bound();
        }
        5 + (self.n as usize * self.q_bits as usize + 7) / 8
    }
}

/// The record of a set from its defining values; q is 2^q_bits.
pub open spec fn spec_set(
    last: u8,
    n_bits: u8,
    q_bits: u8,
    n: u16,
    b_s: i64,
    b_t: i64,
    d1: u8,
    d2: u8,
    d3: u8,
    padded_n: u16,
) -> ParamSet {
    let q = pow2(q_bits as nat) as i64;
    ParamSet {
        oid: Oid(0xff, 0xff, last),
        n_bits,
        q_bits,
        n,
        p: 3,
        q,
        b_s,
        b_t,
        norm_bound_s: (q / 2 - b_s) as i64,
        norm_bound_t: (q / 2 - b_t) as i64,
        d1,
        d2,
        d3,
        padded_n,
    }
}

fn make_set(
    last: u8,
    n_bits: u8,
    q_bits: u8,
    n: u16,
    q: i64,
    b_s: i64,
    b_t: i64,
    d1: u8,
    d2: u8,
    d3: u8,
    padded_n: u16,
) -> (r: ParamSet)
    requires
        q as int == pow2(q_bits as nat),
        0 < b_s < q / 2,
        0 < b_t < q / 2,
    ensures
        r == spec_set(last, n_bits, q_bits, n, b_s, b_t, d1, d2, d3, padded_n),
{
    ParamSet {
        oid: Oid(0xff, 0xff, last),
        n_bits,
        q_bits,
        n,
        p: 3,
        q,
        b_s,
        b_t,
        norm_bound_s: q / 2 - b_s,
        norm_bound_t: q / 2 - b_t,
        d1,
        d2,
        d3,
        padded_n,
    }
}

/// 112 bit security parameter
pub fn xxx_20140508_401() -> (r: ParamSet)
    ensures
        r == spec_set(0xff, 9, 18, 401, 240, 80, 8, 8, 6, 416),
        r.wf(),
{
    proof {
        lemma2_to64();
    }
    make_set(0xff, 9, 18, 401, 262144, 240, 80, 8, 8, 6, 416)
}

/// 128 bit security parameter
pub fn xxx_20140508_439() -> (r: ParamSet)
    ensures
        r == spec_set(0xfe, 9, 19, 439, 264, 88, 9, 8, 5, 448),
        r.wf(),
{
    proof {
        lemma2_to64();
    }
    make_set(0xfe, 9, 19, 439, 524288, 264, 88, 9, 8, 5, 448)
}

/// 192 bit security parameter
pub fn xxx_20140508_593() -> (r: ParamSet)
    ensures
        r == spec_set(0xfd, 10, 19, 593, 300, 100, 10, 10, 8, 608),
        r.wf(),
{
    proof {
        lemma2_to64();
    }
    make_set(0xfd, 10, 19, 593, 524288, 300, 100, 10, 10, 8, 608)
}

/// 256 bit security parameter
pub fn xxx_20140508_743() -> (r: ParamSet)
    ensures
        r == spec_set(0xfc, 10, 20, 743, 336, 112, 11, 11, 15, 768),
        r.wf(),
{
    proof {
        lemma2_to64();
    }
    make_set(0xfc, 10, 20, 743, 1048576, 336, 112, 11, 11, 15, 768)
}

/// 112 bit security parameter, 2015 revision
pub fn xxx_20151024_401() -> (r: ParamSet)
    ensures
        r == spec_set(0xfb, 9, 15, 401, 138, 46, 8, 8, 6, 416),
        r.wf(),
{
    proof {
        lemma2_to64();
    }
    make_set(0xfb, 9, 15, 401, 32768, 138, 46, 8, 8, 6, 416)
}

/// 128 bit security parameter, 2015 revision
pub fn xxx_20151024_443() -> (r: ParamSet)
    ensures
        r == spec_set(0xfa, 9, 16, 443, 138, 46, 9, 8, 5, 448),
        r.wf(),
{
    proof {
        lemma2_to64();
    }
    make_set(0xfa, 9, 16, 443, 65536, 138, 46, 9, 8, 5, 448)
}

/// 192 bit security parameter, 2015 revision
pub fn xxx_20151024_563() -> (r: ParamSet)
    ensures
        r == spec_set(0xf9, 10, 16, 563, 174, 58, 10, 9, 8, 592),
        r.wf(),
{
    proof {
        lemma2_to64();
    }
    make_set(0xf9, 10, 16, 563, 65536, 174, 58, 10, 9, 8, 592)
}

/// 256 bit security parameter, 2015 revision
pub fn xxx_20151024_743() -> (r: ParamSet)
    ensures
        r == spec_set(0xf7, 10, 17, 743, 186, 62, 11, 11, 6, 752),
        r.wf(),
{
    proof {
        lemma2_to64();
    }
    make_set(0xf7, 10, 17, 743, 131072, 186, 62, 11, 11, 6, 752)
}

/// 256 bit security parameter, 2015 revision, larger ring
pub fn xxx_20151024_907() -> (r: ParamSet)
    ensures
        r == spec_set(0xf6, 10, 17, 907, 225, 75, 13, 12, 7, 912),
        r.wf(),
{
    proof {
        lemma2_to64();
    }
    make_set(0xf6, 10, 17, 907, 131072, 225, 75, 13, 12, 7, 912)
}

/// The parameter set that an object identifier names, if any.
pub open spec fn spec_from_oid(oid: Oid) -> Option<ParamSet> {
    if oid.0 != 0xff || oid.1 != 0xff {
        None
    } else if oid.2 == 0xff {
        Some(spec_set(0xff, 9, 18, 401, 240, 80, 8, 8, 6, 416))
    } else if oid.2 == 0xfe {
        Some(spec_set(0xfe, 9, 19, 439, 264, 88, 9, 8, 5, 448))
    } else if oid.2 == 0xfd {
        Some(spec_set(0xfd, 10, 19, 593, 300, 100, 10, 10, 8, 608))
    } else if oid.2 == 0xfc {
        Some(spec_set(0xfc, 10, 20, 743, 336, 112, 11, 11, 15, 768))
    } else if oid.2 == 0xfb {
        Some(spec_set(0xfb, 9, 15, 401, 138, 46, 8, 8, 6, 416))
    } else if oid.2 == 0xfa {
        Some(spec_set(0xfa, 9, 16, 443, 138, 46, 9, 8, 5, 448))
    } else if oid.2 == 0xf9 {
        Some(spec_set(0xf9, 10, 16, 563, 174, 58, 10, 9, 8, 592))
    } else if oid.2 == 0xf7 {
        Some(spec_set(0xf7, 10, 17, 743, 186, 62, 11, 11, 6, 752))
    } else if oid.2 == 0xf6 {
        Some(spec_set(0xf6, 10, 17, 907, 225, 75, 13, 12, 7, 912))
    } else {
        None
    }
}

/// Looks a parameter set up by its object identifier. Every set of the table
/// is well formed and carries the identifier it is found by.
pub fn from_oid(oid: Oid) -> (r: Option<ParamSet>)
    ensures
        r == spec_from_oid(oid),
        r matches Some(ps) ==> ps.wf() && ps.oid == oid,
{
    if oid.0 != 0xff || oid.1 != 0xff {
        None
    } else if oid.2 == 0xff {
        Some(xxx_20140508_401())
    } else if oid.2 == 0xfe {
        Some(xxx_20140508_439())
    } else if oid.2 == 0xfd {
        Some(xxx_20140508_593())
    } else if oid.2 == 0xfc {
        Some(xxx_20140508_743())
    } else if oid.2 == 0xfb {
        Some(xxx_20151024_401())
    } else if oid.2 == 0xfa {
        Some(xxx_20151024_443())
    } else if oid.2 == 0xf9 {
        Some(xxx_20151024_563())
    } else if oid.2 == 0xf7 {
        Some(xxx_20151024_743())
    } else if oid.2 == 0xf6 {
        Some(xxx_20151024_907())
    } else {
        None
    }
}

} // verus!
