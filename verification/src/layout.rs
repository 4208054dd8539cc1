//! Allocation layouts: a requested size together with a power-of-two
//! alignment, and the arithmetic on them that the dispatch and the page
//! rounding rely on.

use vstd::prelude::*;

verus! {

use vstd::arithmetic::div_mod::{
    lemma_fundamental_div_mod,
    lemma_fundamental_div_mod_converse,
    lemma_mod_self_0,
    lemma_mod_sub_multiples_vanish,
    lemma_small_mod,
};

/// True when `n` is a power of two.
pub open spec fn is_power_of_two(n: int) -> bool
    decreases n,
{
    if n <= 0 {
        false
    } else if n == 1 {
        true
    } else {
        n % 2 == 0 && is_power_of_two(n / 2)
    }
}

/// `size` rounded up to the next multiple of `align`.
pub open spec fn round_up(size: int, align: int) -> int
    recommends
        align >= 1,
{
    if size % align == 0 {
        size
    } else {
        size + align - size % align
    }
}

/// The result of `round_up` is the least multiple of `align` that is at
/// least `size`.
pub proof fn lemma_round_up_props(size: int, align: int)
    requires
        0 <= size,
        1 <= align,
    ensures
        size <= round_up(size, align) <= size + align - 1,
        round_up(size, align) % align == 0,
{
    let r = size % align;
    lemma_fundamental_div_mod(size, align);
    if r == 0 {
    } else {
        assert(0 <= r < align) by {
            lemma_fundamental_div_mod(size, align);
        }
        // size - r is a multiple of align, and adding align keeps that.
        let q = size / align;
        assert(size == align * q + r);
        assert(size + align - r == (q + 1) * align) by (nonlinear_arith)
            requires
                size == align * q + r,
        ;
        assert((size + align - r) % align == 0) by {
            lemma_fundamental_div_mod_converse(size + align - r, align, q + 1, 0);
        }
    }
}

/// No multiple of `align` lies strictly between `size` and its rounding.
pub proof fn lemma_round_up_least(size: int, align: int, m: int)
    requires
        0 <= size,
        1 <= align,
        m % align == 0,
        size <= m,
    ensures
        round_up(size, align) <= m,
{
    lemma_round_up_props(size, align);
    let ru = round_up(size, align);
    if m < ru {
        // Both m and ru are multiples of align with 0 <= ru - m < align,
        // so they coincide, a contradiction with m < ru.
        lemma_mod_sub_multiples_vanish(ru, align);
        assert((ru - align) % align == 0);
        assert(size <= m < ru <= size + align - 1);
        lemma_fundamental_div_mod(m, align);
        lemma_fundamental_div_mod(ru, align);
        let qm = m / align;
        let qr = ru / align;
        assert(m == align * qm);
        assert(ru == align * qr);
        assert(align * qm < align * qr);
        assert(qm < qr) by (nonlinear_arith)
            requires
                align * qm < align * qr,
                align >= 1,
        ;
        assert(align * (qm + 1) <= align * qr) by (nonlinear_arith)
            requires
                qm + 1 <= qr,
                align >= 1,
        ;
        assert(ru - m >= align) by (nonlinear_arith)
            requires
                m == align * qm,
                ru == align * qr,
                align * (qm + 1) <= align * qr,
        ;
    }
}

/// A multiple of `b` is a multiple of every divisor `a` of `b`.
pub proof fn lemma_mod_divides_transfer(p: int, b: int, a: int)
    requires
        p >= 0,
        a >= 1,
        b >= 1,
        p % b == 0,
        b % a == 0,
    ensures
        p % a == 0,
{
    lemma_fundamental_div_mod(p, b);
    lemma_fundamental_div_mod(b, a);
    let q = p / b;
    let m = b / a;
    assert(p == b * q);
    assert(b == a * m);
    assert(p == a * (m * q)) by (nonlinear_arith)
        requires
            p == b * q,
            b == a * m,
    ;
    assert(m * q >= 0) by (nonlinear_arith)
        requires
            m >= 0,
            q >= 0,
            p == b * q,
            b == a * m,
            p >= 0,
            b >= 1,
            a >= 1,
    ;
    lemma_fundamental_div_mod_converse(p, a, m * q, 0);
}

/// A power of two is positive.
pub proof fn lemma_pow2_pos(n: int)
    requires
        is_power_of_two(n),
    ensures
        n >= 1,
{
}

/// A smaller power of two divides a larger one.
pub proof fn lemma_pow2_divides(a: int, b: int)
    requires
        is_power_of_two(a),
        is_power_of_two(b),
        a <= b,
    ensures
        b % a == 0,
    decreases b,
{
    if a == b {
        lemma_mod_self_0(a);
    } else {
        // a < b, so b >= 2 and b / 2 is a power of two no smaller than a.
        assert(b % 2 == 0 && is_power_of_two(b / 2));
        lemma_fundamental_div_mod(b, 2);
        lemma_pow2_le_half(a, b);
        {
            lemma_pow2_divides(a, b / 2);
            lemma_fundamental_div_mod(b / 2, a);
            let q = (b / 2) / a;
            assert(b / 2 == a * q);
            assert(b == a * (2 * q)) by (nonlinear_arith)
                requires
                    b == 2 * (b / 2),
                    b / 2 == a * q,
            ;
            lemma_fundamental_div_mod_converse(b, a, 2 * q, 0);
        }
    }
}

/// A power of two strictly below another is at most its half.
pub proof fn lemma_pow2_le_half(a: int, b: int)
    requires
        is_power_of_two(a),
        is_power_of_two(b),
        a < b,
    ensures
        b % 2 == 0,
        a <= b / 2,
    decreases b,
{
    assert(b >= 2);
    lemma_pow2_even(b);
    assert(is_power_of_two(b / 2));
    lemma_fundamental_div_mod(a, 2);
    lemma_fundamental_div_mod(b, 2);
    if a == 1 {
    } else {
        lemma_pow2_even(a);
        assert(is_power_of_two(a / 2));
        if a / 2 < b / 2 {
            lemma_pow2_le_half(a / 2, b / 2);
        }
    }
}

/// Every power of two other than 1 is even.
proof fn lemma_pow2_even(n: int)
    requires
        is_power_of_two(n),
        n != 1,
    ensures
        n % 2 == 0,
{
}

/// A size paired with a power-of-two alignment. The claims every layout
/// obeys are collected in [`Layout::valid`]; `from_size_align` is the only
/// constructor that checks them.
#[derive(Clone, Copy, Debug, PartialEq, Eq, Structural)]
pub struct Layout {
    pub size: usize,
    pub align: usize,
}

impl Layout {
    /// The claims a well-formed layout obeys: the alignment is a power of
    /// two and the padded size stays representable.
    pub open spec fn valid(self) -> bool {
        &&& is_power_of_two(self.align as int)
        &&& self.size + self.align - 1 <= isize::MAX
    }

    /// The size rounded up to a multiple of the alignment.
    pub open spec fn spec_padded_size(self) -> int {
        round_up(self.size as int, self.align as int)
    }

    /// Builds a layout after checking it, refusing an alignment that is not
    /// a power of two and a size whose padding would overflow.
    pub fn from_size_align(size: usize, align: usize) -> (r: Option<Layout>)
        ensures
            r is Some <==> (is_power_of_two(align as int) && size + align - 1
                <= isize::MAX),
            r is Some ==> r.unwrap() == (Layout { size, align }),
    {
        if !exec_is_power_of_two(align) {
            return None;
        }
        proof {
            lemma_pow2_pos(align as int);
        }
        if size <= isize::MAX as usize && align - 1 <= isize::MAX as usize - size {
            Some(Layout { size, align })
        } else {
            None
        }
    }

    /// Rounds the size up to a multiple of the alignment.
    pub fn pad_to_align(&self) -> (r: usize)
        requires
            self.valid(),
        ensures
            r == self.spec_padded_size(),
            r % self.align == 0,
            self.size <= r <= self.size + self.align - 1,
    {
        proof {
            lemma_pow2_pos(self.align as int);
            lemma_round_up_props(self.size as int, self.align as int);
        }
        let rem = self.size % self.align;
        if rem == 0 {
            self.size
        } else {
            self.size + (self.align - rem)
        }
    }

    /// Raises the alignment to at least `align`, keeping the size; refuses
    /// the result when it would no longer be representable.
    pub fn align_to(&self, align: usize) -> (r: Option<Layout>)
        requires
            self.valid(),
            is_power_of_two(align as int),
        ensures
            r is Some <==> self.size + max_usize_spec(self.align, align) - 1
                <= isize::MAX,
            r is Some ==> r.unwrap() == (Layout {
                size: self.size,
                align: max_usize_spec(self.align, align),
            }),
            r is Some ==> r.unwrap().valid(),
    {
        let a = if self.align >= align {
            self.align
        } else {
            align
        };
        proof {
            lemma_pow2_pos(a as int);
        }
        if self.size <= isize::MAX as usize && a - 1 <= isize::MAX as usize - self.size {
            Some(Layout { size: self.size, align: a })
        } else {
            None
        }
    }
}

/// The larger of two machine words.
pub open spec fn max_usize_spec(a: usize, b: usize) -> usize {
    if a >= b {
        a
    } else {
        b
    }
}

/// Runtime power-of-two test by halving, mirroring [`is_power_of_two`].
pub fn exec_is_power_of_two(n: usize) -> (b: bool)
    ensures
        b == is_power_of_two(n as int),
{
    if n == 0 {
        return false;
    }
    let mut m: usize = n;
    // Strip factors of two until an odd number remains.
    while m % 2 == 0
        invariant
            1 <= m <= n,
            is_power_of_two(m as int) ==> is_power_of_two(n as int),
            !is_power_of_two(m as int) ==> !is_power_of_two(n as int),
        decreases m,
    {
        assert(m / 2 >= 1);
        proof {
            lemma_fundamental_div_mod(m as int, 2);
        }
        m = m / 2;
    }
    m == 1
}

} // verus!
