//! Little-endian digit strings: a number is split into w digits in a given
//! base, and a run of digits is grouped back into numbers. Bit packing (base
//! 2) and trit packing (base 3) are both built from these two steps.
use vstd::arithmetic::div_mod::{lemma_div_pos_is_pos, lemma_fundamental_div_mod};
use vstd::arithmetic::power::pow;
use vstd::prelude::*;

verus! {

/// The w lowest digits of x in the given base, least significant first.
pub open spec fn to_digits(x: int, base: int, w: nat) -> Seq<u32>
    decreases w,
{
    if w == 0 {
        Seq::empty()
    } else {
        seq![(x % base) as u32] + to_digits(x / base, base, (w - 1) as nat)
    }
}

/// The number that a digit string, least significant first, denotes.
pub open spec fn from_digits(d: Seq<u32>, base: int) -> int
    decreases d.len(),
{
    if d.len() == 0 {
        0
    } else {
        d[0] as int + base * from_digits(d.drop_first(), base)
    }
}

/// The digit strings of every number of x, each w digits long, one after another.
pub open spec fn ungroup(x: Seq<u32>, base: int, w: nat) -> Seq<u32>
    decreases x.len(),
{
    if x.len() == 0 {
        Seq::empty()
    } else {
        ungroup(x.drop_last(), base, w) + to_digits(x.last() as int, base, w)
    }
}

/// The numbers denoted by the first `count` runs of w digits of d.
pub open spec fn group(d: Seq<u32>, base: int, w: nat, count: nat) -> Seq<u32> {
    Seq::new(count, |i: int| from_digits(d.subrange(i * w, i * w + w), base) as u32)
}

/// Every entry is below the bound.
pub open spec fn all_below(d: Seq<u32>, bound: int) -> bool {
    forall|i: int| 0 <= i < d.len() ==> #[trigger] d[i] < bound
}

pub proof fn lemma_pow_step(base: int, w: nat)
    requires
        2 <= base,
        1 <= w,
    ensures
        pow(base, w) == base * pow(base, (w - 1) as nat),
        pow(base, (w - 1) as nat) >= 1,
{
    vstd::arithmetic::power::lemma_pow_positive(base, (w - 1) as nat);
    vstd::arithmetic::power::lemma_pow_adds(base, 1, (w - 1) as nat);
    vstd::arithmetic::power::lemma_pow1(base);
}

/// A number below base^w is given back by its w digits.
pub proof fn lemma_from_to(x: int, base: int, w: nat)
    requires
        2 <= base <= 256,
        0 <= x < pow(base, w),
    ensures
        from_digits(to_digits(x, base, w), base) == x,
        to_digits(x, base, w).len() == w,
        all_below(to_digits(x, base, w), base),
    decreases w,
{
    if w == 0 {
        assert(pow(base, 0) == 1) by {
            vstd::arithmetic::power::lemma_pow0(base);
        }
    } else {
        lemma_pow_step(base, w);
        let p = pow(base, (w - 1) as nat);
        lemma_fundamental_div_mod(x as int, base);
        assert(x / base < p) by (nonlinear_arith)
            requires
                x < base * p,
                2 <= base,
        ;
        lemma_from_to(x / base, base, (w - 1) as nat);
        let t = to_digits(x, base, w);
        let rest = to_digits(x / base, base, (w - 1) as nat);
        assert(t == seq![(x % base) as u32] + rest);
        assert(t.drop_first() =~= rest);
        assert(t[0] == (x % base) as u32);
        assert(0 <= x % base < base);
        assert(t[0] as int == x % base);
        assert(from_digits(t, base) == t[0] as int + base * from_digits(t.drop_first(), base));
        assert(x == base * (x / base) + x % base);
    }
}

/// w digits below the base are given back by the number they denote, which
/// is below base^w.
pub proof fn lemma_to_from(d: Seq<u32>, base: int)
    requires
        2 <= base,
        all_below(d, base),
    ensures
        to_digits(from_digits(d, base), base, d.len()) == d,
        0 <= from_digits(d, base) < pow(base, d.len()),
    decreases d.len(),
{
    if d.len() == 0 {
        vstd::arithmetic::power::lemma_pow0(base);
        assert(to_digits(0, base, 0) =~= d);
    } else {
        let rest = d.drop_first();
        lemma_to_from(rest, base);
        let r = from_digits(rest, base);
        let x = from_digits(d, base);
        assert(x == d[0] + base * r);
        vstd::arithmetic::div_mod::lemma_fundamental_div_mod_converse(
            x as int,
            base,
            r as int,
            d[0] as int,
        );
        lemma_pow_step(base, d.len());
        assert(0 <= x < pow(base, d.len())) by (nonlinear_arith)
            requires
                x == d[0] + base * r,
                d[0] < base,
                0 <= r < pow(base, (d.len() - 1) as nat),
                0 <= d[0],
                pow(base, d.len()) == base * pow(base, (d.len() - 1) as nat),
        ;
        assert(to_digits(x, base, d.len()) =~= d);
    }
}

/// The layout of an ungrouped string: run i holds the digits of x[i].
pub proof fn lemma_ungroup_layout(x: Seq<u32>, base: int, w: nat)
    ensures
        ungroup(x, base, w).len() == x.len() * w,
        forall|i: int|
            0 <= i < x.len() ==> #[trigger] ungroup(x, base, w).subrange(i * w, i * w + w)
                == to_digits(x[i] as int, base, w),
    decreases x.len(),
{
    lemma_to_digits_len(x.last() as int, base, w);
    if x.len() > 0 {
        let init = x.drop_last();
        lemma_ungroup_layout(init, base, w);
        lemma_to_digits_len(x.last() as int, base, w);
        let u = ungroup(x, base, w);
        let ui = ungroup(init, base, w);
        assert(u == ui + to_digits(x.last() as int, base, w));
        assert(u.len() == x.len() * w) by (nonlinear_arith)
            requires
                u.len() == ui.len() + w,
                ui.len() == init.len() * w,
                init.len() == x.len() - 1,
        ;
        assert forall|i: int| 0 <= i < x.len() implies #[trigger] u.subrange(i * w, i * w + w)
            == to_digits(x[i] as int, base, w) by {
            assert(0 <= i * w) by (nonlinear_arith)
                requires
                    0 <= i,
            ;
            if i < x.len() - 1 {
                assert(i * w + w <= init.len() * w) by (nonlinear_arith)
                    requires
                        i < init.len(),
                ;
                assert(u.subrange(i * w, i * w + w) =~= ui.subrange(i * w, i * w + w));
                assert(x[i] == init[i]);
            } else {
                assert(i * w == ui.len()) by (nonlinear_arith)
                    requires
                        i == init.len(),
                        ui.len() == init.len() * w,
                ;
                assert(u.subrange(i * w, i * w + w) =~= to_digits(x.last() as int, base, w));
            }
        }
    }
}

pub proof fn lemma_to_digits_len(x: int, base: int, w: nat)
    ensures
        to_digits(x, base, w).len() == w,
    decreases w,
{
    if w > 0 {
        lemma_to_digits_len(x / base, base, (w - 1) as nat);
        reveal_with_fuel(to_digits, 2);
        assert(to_digits(x, base, w).len() == 1 + to_digits(x / base, base, (w - 1) as nat).len());
    }
}

/// Grouping undoes ungrouping, for numbers below base^w.
pub proof fn lemma_group_ungroup(x: Seq<u32>, base: int, w: nat)
    requires
        2 <= base <= 256,
        forall|i: int| 0 <= i < x.len() ==> (#[trigger] x[i] as int) < pow(base, w),
    ensures
        group(ungroup(x, base, w), base, w, x.len()) == x,
{
    lemma_ungroup_layout(x, base, w);
    assert forall|i: int| 0 <= i < x.len() implies #[trigger] group(
        ungroup(x, base, w),
        base,
        w,
        x.len(),
    )[i] == x[i] by {
        lemma_from_to(x[i] as int, base, w);
        assert(ungroup(x, base, w).subrange(i * w, i * w + w) == to_digits(x[i] as int, base, w));
    }
    assert(group(ungroup(x, base, w), base, w, x.len()) =~= x);
}

/// Ungrouping undoes grouping, for a string of whole runs of digits below
/// the base.
pub proof fn lemma_ungroup_group(d: Seq<u32>, base: int, w: nat, count: nat)
    requires
        2 <= base,
        pow(base, w) <= 0x100_0000,
        d.len() == count * w,
        all_below(d, base),
    ensures
        ungroup(group(d, base, w, count), base, w) == d,
{
    let g = group(d, base, w, count);
    lemma_ungroup_layout(g, base, w);
    let u = ungroup(g, base, w);
    assert forall|k: int| 0 <= k < d.len() implies #[trigger] u[k] == d[k] by {
        let i = k / w as int;
        let j = k % w as int;
        assert(w > 0) by (nonlinear_arith)
            requires
                d.len() == count * w,
                0 <= k < d.len(),
        ;
        lemma_fundamental_div_mod(k, w as int);
        assert(0 <= j < w);
        lemma_div_pos_is_pos(k, w as int);
        assert(i < count) by (nonlinear_arith)
            requires
                k == w * i + j,
                0 <= j,
                k < count * w,
                w > 0,
        ;
        assert(i * w + w <= count * w) by (nonlinear_arith)
            requires
                i < count,
        ;
        assert(k == i * w + j) by (nonlinear_arith)
            requires
                k == w * i + j,
        ;
        let run = d.subrange(i * w, i * w + w);
        assert(all_below(run, base));
        lemma_to_from(run, base);
        assert(u.subrange(i * w, i * w + w) == to_digits(g[i] as int, base, w));
        assert(from_digits(run, base) < pow(base, w));
        assert(g[i] as int == from_digits(run, base));
        assert(u.subrange(i * w, i * w + w)[j] == u[k]);
        assert(run[j] == d[k]);
    }
    assert(u =~= d);
}

/// Appends the w lowest digits of x in the given base.
pub fn push_digits(out: &mut Vec<u32>, x: u32, base: u32, w: usize)
    requires
        2 <= base,
    ensures
        final(out)@ == old(out)@ + to_digits(x as int, base as int, w as nat),
{
    let ghost start = old(out)@;
    let mut v: u32 = x;
    let mut j: usize = 0;
    while j < w
        invariant
            2 <= base,
            0 <= j <= w,
            out@ + to_digits(v as int, base as int, (w - j) as nat) == start + to_digits(
                x as int,
                base as int,
                w as nat,
            ),
        decreases w - j,
    {
        let ghost before = out@;
        let ghost rest = to_digits((v / base) as int, base as int, (w - j - 1) as nat);
        assert(to_digits(v as int, base as int, (w - j) as nat) == seq![(v % base) as u32] + rest);
        out.push(v % base);
        assert(out@ + rest =~= before + (seq![(v % base) as u32] + rest));
        v = v / base;
        j = j + 1;
    }
    assert(to_digits(v as int, base as int, 0) =~= Seq::<u32>::empty());
    assert(out@ + Seq::<u32>::empty() =~= out@);
}

/// The digit strings of every number of x, each w digits long, one after another.
pub fn ungroup_vec(x: &Vec<u32>, base: u32, w: usize) -> (r: Vec<u32>)
    requires
        2 <= base,
    ensures
        r@ == ungroup(x@, base as int, w as nat),
{
    let mut r: Vec<u32> = Vec::new();
    let mut i: usize = 0;
    assert(x@.take(0) =~= Seq::<u32>::empty());
    while i < x.len()
        invariant
            2 <= base,
            0 <= i <= x.len(),
            r@ == ungroup(x@.take(i as int), base as int, w as nat),
        decreases x.len() - i,
    {
        assert(x@.take(i as int + 1).drop_last() =~= x@.take(i as int));
        assert(x@.take(i as int + 1).last() == x@[i as int]);
        push_digits(&mut r, x[i], base, w);
        i = i + 1;
    }
    assert(x@.take(x.len() as int) =~= x@);
    r
}

/// The number denoted by the w digits of d from `start` on.
fn from_digits_at(d: &Vec<u32>, start: usize, w: usize, base: u32) -> (r: u32)
    requires
        2 <= base <= 3,
        start + w <= d.len(),
        pow(base as int, w as nat) <= 0x100_0000,
        all_below(d@, base as int),
    ensures
        r as int == from_digits(d@.subrange(start as int, start + w), base as int),
{
    let mut v: u32 = 0;
    let mut j: usize = w;
    assert(d@.subrange(start + w, start + w) =~= Seq::<u32>::empty());
    while j > 0
        invariant
            2 <= base <= 3,
            start + w <= d.len(),
            pow(base as int, w as nat) <= 0x100_0000,
            all_below(d@, base as int),
            0 <= j <= w,
            v as int == from_digits(d@.subrange(start + j, start + w), base as int),
        decreases j,
    {
        let ghost cur = d@.subrange(start + j - 1, start + w);
        assert(cur.drop_first() =~= d@.subrange(start + j, start + w));
        assert(all_below(d@.subrange(start + j, start + w), base as int));
        proof {
            lemma_to_from(d@.subrange(start + j, start + w), base as int);
            vstd::arithmetic::power::lemma_pow_increases(base as nat, (w - j) as nat, w as nat);
        }
        let x = d[start + j - 1];
        assert(base * v + x <= 3 * 0x100_0000 + 3) by (nonlinear_arith)
            requires
                base <= 3,
                v <= 0x100_0000,
                x < 3,
        ;
        v = x + base * v;
        j = j - 1;
    }
    v
}

/// The numbers denoted by the first `count` runs of w digits of d.
pub fn group_vec(d: &Vec<u32>, base: u32, w: usize, count: usize) -> (r: Vec<u32>)
    requires
        2 <= base <= 3,
        count * w <= d.len(),
        pow(base as int, w as nat) <= 0x100_0000,
        all_below(d@, base as int),
    ensures
        r@ == group(d@, base as int, w as nat, count as nat),
{
    let mut r: Vec<u32> = Vec::with_capacity(count);
    let mut i: usize = 0;
    while i < count
        invariant
            2 <= base <= 3,
            count * w <= d.len(),
            pow(base as int, w as nat) <= 0x100_0000,
            all_below(d@, base as int),
            0 <= i <= count,
            r.len() == i,
            forall|k: int| 0 <= k < i ==> #[trigger] r@[k] == group(d@, base as int, w as nat, count as nat)[k],
        decreases count - i,
    {
        assert(i * w + w <= count * w) by (nonlinear_arith)
            requires
                i < count,
        ;
        let v = from_digits_at(d, i * w, w, base);
        r.push(v);
        i = i + 1;
    }
    assert(r@ =~= group(d@, base as int, w as nat, count as nat));
    r
}

} // verus!
