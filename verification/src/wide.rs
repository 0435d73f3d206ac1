//! Natural numbers of any size, held as little-endian 64-bit limbs: enough
//! to add, scale and compare sums of fractions exactly.
use vstd::prelude::*;

verus! {

/// `2^64`, the weight of one limb over the one below it.
pub open spec fn limb_base() -> nat {
    0x1_0000_0000_0000_0000
}

/// Weight of limb `i`: `2^(64 i)`.
pub open spec fn limb_weight(i: nat) -> nat
    decreases i,
{
    if i == 0 {
        1
    } else {
        limb_base() * limb_weight((i - 1) as nat)
    }
}

/// Limb `i`, zero past the end.
pub open spec fn limb_at(s: Seq<u64>, i: int) -> nat {
    if 0 <= i < s.len() {
        s[i] as nat
    } else {
        0
    }
}

/// Value of the lowest `n` limbs.
pub open spec fn value_below(s: Seq<u64>, n: nat) -> nat
    decreases n,
{
    if n == 0 {
        0
    } else {
        value_below(s, (n - 1) as nat) + limb_at(s, n - 1) * limb_weight((n - 1) as nat)
    }
}

/// The number the limbs stand for.
pub open spec fn limbs_value(s: Seq<u64>) -> nat {
    value_below(s, s.len())
}

/// How two numbers compare.
#[derive(Debug, Clone, Copy, PartialEq, Eq, Structural)]
pub enum Comparison {
    Less,
    Equal,
    Greater,
}

/// The lowest `n` limbs are worth less than limb `n`.
pub proof fn lemma_value_below_bound(s: Seq<u64>, n: nat)
    ensures
        value_below(s, n) < limb_weight(n),
    decreases n,
{
    if n > 0 {
        let m = (n - 1) as nat;
        lemma_value_below_bound(s, m);
        let l = limb_at(s, m as int);
        let w = limb_weight(m);
        assert(l < limb_base());
        assert(value_below(s, m) + l * w < limb_base() * w) by (nonlinear_arith)
            requires
                value_below(s, m) < w,
                l < limb_base(),
                l >= 0,
        ;
    }
}

/// Limbs past the end add nothing.
pub proof fn lemma_value_below_past(s: Seq<u64>, n: nat)
    requires
        n >= s.len(),
    ensures
        value_below(s, n) == limbs_value(s),
    decreases n,
{
    if n > s.len() {
        lemma_value_below_past(s, (n - 1) as nat);
        let w = limb_weight((n - 1) as nat);
        assert(limb_at(s, n - 1) == 0);
        assert(limb_at(s, n - 1) * w == 0) by (nonlinear_arith)
            requires
                limb_at(s, n - 1) == 0,
        ;
    }
}

/// The value of the lowest `n` limbs depends on those limbs only.
pub proof fn lemma_value_below_same(s: Seq<u64>, t: Seq<u64>, n: nat)
    requires
        forall|i: int| 0 <= i < n ==> limb_at(s, i) == limb_at(t, i),
    ensures
        value_below(s, n) == value_below(t, n),
    decreases n,
{
    if n > 0 {
        lemma_value_below_same(s, t, (n - 1) as nat);
        assert(limb_at(s, n - 1) == limb_at(t, n - 1));
    }
}

proof fn lemma_split_u128(t: u128)
    ensures
        (t as u64) as nat + ((t >> 64u128) as u64) as nat * limb_base() == t as nat,
        (t >> 64u128) as nat == ((t >> 64u128) as u64) as nat,
{
    assert((t as u64) as u128 + ((t >> 64u128) as u64) as u128 * 0x1_0000_0000_0000_0000u128 == t
        && (t >> 64u128) == ((t >> 64u128) as u64) as u128) by (bit_vector);
}

/// The number times a word.
pub fn scale(a: &Vec<u64>, m: u64) -> (r: Vec<u64>)
    ensures
        limbs_value(r@) == limbs_value(a@) * m,
{
    let mut r: Vec<u64> = Vec::new();
    let mut carry: u64 = 0;
    let mut i: usize = 0;
    proof {
        assert(value_below(a@, 0) * m == 0) by (nonlinear_arith)
            requires
                value_below(a@, 0) == 0,
        ;
        assert(carry * limb_weight(0) == 0) by (nonlinear_arith)
            requires
                carry == 0,
        ;
    }
    while i < a.len()
        invariant
            i <= a@.len(),
            r@.len() == i,
            value_below(r@, i as nat) + carry * limb_weight(i as nat) == value_below(
                a@,
                i as nat,
            ) * m,
        decreases a@.len() - i,
    {
        let x = a[i];
        proof {
            assert((x as int) * (m as int) + (carry as int) <= 0xffff_ffff_ffff_ffff_ffff_ffff_ffff_ffff)
                by (nonlinear_arith)
                requires
                    x <= 0xffff_ffff_ffff_ffff,
                    m <= 0xffff_ffff_ffff_ffff,
                    carry <= 0xffff_ffff_ffff_ffff,
            ;
        }
        let t: u128 = (x as u128) * (m as u128) + (carry as u128);
        let lo = t as u64;
        let hi = (t >> 64u128) as u64;
        let ghost before = r@;
        let ghost c = carry as nat;
        let ghost w = limb_weight(i as nat);
        proof {
            lemma_split_u128(t);
        }
        r.push(lo);
        proof {
            lemma_value_below_same(before, r@, i as nat);
            let ai = a@[i as int] as nat;
            let va = value_below(a@, i as nat);
            let vr = value_below(before, i as nat);
            assert(limb_at(r@, i as int) == lo as nat);
            assert(limb_at(a@, i as int) == ai);
            assert(lo as nat + hi as nat * limb_base() == ai * m + c);
            assert(vr + c * w == va * m);
            assert(vr + lo as nat * w + hi as nat * (limb_base() * w) == (va + ai * w) * m)
                by (nonlinear_arith)
                requires
                    lo as nat + hi as nat * limb_base() == ai * m + c,
                    vr + c * w == va * m,
            ;
        }
        carry = hi;
        i = i + 1;
    }
    let ghost before = r@;
    let n = r.len();
    r.push(carry);
    proof {
        lemma_value_below_same(before, r@, n as nat);
        assert(limb_at(r@, n as int) == carry as nat);
    }
    r
}

/// The sum of two numbers.
pub fn sum_of(a: &Vec<u64>, b: &Vec<u64>) -> (r: Vec<u64>)
    ensures
        limbs_value(r@) == limbs_value(a@) + limbs_value(b@),
{
    let n = if a.len() < b.len() {
        b.len()
    } else {
        a.len()
    };
    let mut r: Vec<u64> = Vec::new();
    let mut carry: u64 = 0;
    let mut i: usize = 0;
    while i < n
        invariant
            i <= n,
            n >= a@.len(),
            n >= b@.len(),
            r@.len() == i,
            carry <= 1,
            value_below(r@, i as nat) + carry * limb_weight(i as nat) == value_below(a@, i as nat)
                + value_below(b@, i as nat),
        decreases n - i,
    {
        let x: u64 = if i < a.len() {
            a[i]
        } else {
            0
        };
        let y: u64 = if i < b.len() {
            b[i]
        } else {
            0
        };
        let t: u128 = (x as u128) + (y as u128) + (carry as u128);
        let lo = t as u64;
        let hi = (t >> 64u128) as u64;
        let ghost before = r@;
        proof {
            lemma_split_u128(t);
            assert(hi <= 1) by (bit_vector)
                requires
                    t <= 0x1_ffff_ffff_ffff_ffffu128,
                    hi == (t >> 64u128) as u64,
            ;
        }
        r.push(lo);
        proof {
            lemma_value_below_same(before, r@, i as nat);
            let w = limb_weight(i as nat);
            assert(limb_at(r@, i as int) == lo as nat);
            assert(limb_at(a@, i as int) == x as nat);
            assert(limb_at(b@, i as int) == y as nat);
            let vr = value_below(before, i as nat);
            let va = value_below(a@, i as nat);
            let vb = value_below(b@, i as nat);
            assert(vr + lo as nat * w + hi as nat * (limb_base() * w) == va + x as nat * w + vb
                + y as nat * w) by (nonlinear_arith)
                requires
                    lo as nat + hi as nat * limb_base() == x as nat + y as nat + carry as nat,
                    vr + carry as nat * w == va + vb,
            ;
        }
        carry = hi;
        i = i + 1;
    }
    let ghost before = r@;
    r.push(carry);
    proof {
        lemma_value_below_same(before, r@, n as nat);
        assert(limb_at(r@, n as int) == carry as nat);
        lemma_value_below_past(a@, n as nat);
        lemma_value_below_past(b@, n as nat);
    }
    r
}

/// How the two numbers compare.
pub fn compare(a: &Vec<u64>, b: &Vec<u64>) -> (r: Comparison)
    ensures
        r == Comparison::Less <==> limbs_value(a@) < limbs_value(b@),
        r == Comparison::Equal <==> limbs_value(a@) == limbs_value(b@),
        r == Comparison::Greater <==> limbs_value(a@) > limbs_value(b@),
{
    let n = if a.len() < b.len() {
        b.len()
    } else {
        a.len()
    };
    let mut borrow: u64 = 0;
    let mut zero = true;
    let ghost mut diff: int = 0;
    let mut i: usize = 0;
    while i < n
        invariant
            i <= n,
            n >= a@.len(),
            n >= b@.len(),
            borrow <= 1,
            0 <= diff < limb_weight(i as nat),
            zero == (diff == 0),
            diff - borrow * limb_weight(i as nat) == value_below(a@, i as nat) - value_below(
                b@,
                i as nat,
            ),
        decreases n - i,
    {
        let x: u64 = if i < a.len() {
            a[i]
        } else {
            0
        };
        let y: u64 = if i < b.len() {
            b[i]
        } else {
            0
        };
        let need: u128 = (y as u128) + (borrow as u128);
        let (d, next): (u128, u64) = if (x as u128) >= need {
            ((x as u128) - need, 0)
        } else {
            ((x as u128) + 0x1_0000_0000_0000_0000u128 - need, 1)
        };
        proof {
            let w = limb_weight(i as nat);
            assert(limb_at(a@, i as int) == x as nat);
            assert(limb_at(b@, i as int) == y as nat);
            assert(d < limb_base());
            assert(d as int == x as int - y as int - borrow as int + next as int * limb_base());
            assert(diff + d * w < limb_base() * w) by (nonlinear_arith)
                requires
                    diff < w,
                    d < limb_base(),
                    d >= 0,
            ;
            assert((diff + d * w == 0) == (diff == 0 && d == 0)) by (nonlinear_arith)
                requires
                    diff >= 0,
                    d >= 0,
                    w > 0,
            ;
            assert((diff + d * w) - next as int * (limb_base() * w) == (value_below(a@, i as nat)
                + x as nat * w) - (value_below(b@, i as nat) + y as nat * w)) by (nonlinear_arith)
                requires
                    d as int == x as int - y as int - borrow as int + next as int * limb_base(),
                    diff - borrow * w == value_below(a@, i as nat) - value_below(b@, i as nat),
            ;
            diff = diff + d * w;
        }
        zero = zero && d == 0;
        borrow = next;
        i = i + 1;
    }
    proof {
        lemma_value_below_past(a@, n as nat);
        lemma_value_below_past(b@, n as nat);
    }
    if borrow == 1 {
        Comparison::Less
    } else if zero {
        Comparison::Equal
    } else {
        Comparison::Greater
    }
}

/// The number a word stands for.
pub fn from_word(x: u64) -> (r: Vec<u64>)
    ensures
        limbs_value(r@) == x,
{
    let mut r: Vec<u64> = Vec::new();
    r.push(x);
    proof {
        assert(limb_at(r@, 0) == x as nat);
        assert(limb_weight(0) == 1);
        assert(value_below(r@, 0) == 0);
        assert(x as nat * 1 == x as nat) by (nonlinear_arith);
    }
    r
}

} // verus!
