//! [`Weekend`]: a bitmask over the seven weekdays, bit `n - 1` standing
//! for ISO weekday `n`.

use vstd::prelude::*;

use core::ops::BitOr;
use vstd::std_specs::ops::BitOrSpecImpl;

use crate::date::Weekday;

verus! {

/// A set of weekdays treated as non-working days.
#[derive(Debug, Clone, Copy, PartialEq, Eq, Hash, Structural)]
pub struct Weekend {
    mask: u8,
}

/// Bit `k` of `mask` is set.
pub open spec fn bit_set(mask: u8, k: u8) -> bool {
    (mask >> k) & 1u8 == 1u8
}

/// Setting bit `k` sets exactly that bit.
proof fn lemma_set_bit(m: u8, k: u8, j: u8)
    requires
        k < 7,
        j < 7,
    ensures
        bit_set(m | (1u8 << k), j) == (bit_set(m, j) || j == k),
{
    assert(bit_set(m | (1u8 << k), j) == (bit_set(m, j) || j == k)) by (bit_vector)
        requires
            k < 7,
            j < 7,
    ;
}

/// A bit of a union is set iff it is set in either operand.
proof fn lemma_union_bit(a: u8, b: u8, j: u8)
    requires
        j < 7,
    ensures
        bit_set(a | b, j) == (bit_set(a, j) || bit_set(b, j)),
{
    assert(bit_set(a | b, j) == (bit_set(a, j) || bit_set(b, j))) by (bit_vector);
}

/// No bit of the empty mask is set.
proof fn lemma_zero_bit(j: u8)
    requires
        j < 7,
    ensures
        !bit_set(0u8, j),
{
    assert(!bit_set(0u8, j)) by (bit_vector);
}

/// The bit that `contains` tests equals the bit model.
proof fn lemma_test_bit(m: u8, k: u8)
    requires
        k < 7,
    ensures
        (m & (1u8 << k) != 0) == bit_set(m, k),
{
    assert((m & (1u8 << k) != 0) == bit_set(m, k)) by (bit_vector)
        requires
            k < 7,
    ;
}

impl Weekend {
    /// `true` iff ISO weekday number `n` belongs to the weekend.
    pub closed spec fn has(self, n: int) -> bool {
        1 <= n <= 7 && bit_set(self.mask, (n - 1) as u8)
    }

    /// The mask with the single bit for `w`.
    fn bit(w: Weekday) -> (r: u8)
        ensures
            r == 1u8 << ((w.number() - 1) as u8),
    {
        1u8 << (w.get() - 1)
    }

    /// No weekend days.
    pub fn none() -> (w: Weekend)
        ensures
            forall|n: int| !w.has(n),
    {
        let w = Weekend { mask: 0 };
        proof {
            assert forall|n: int| !#[trigger] w.has(n) by {
                if 1 <= n <= 7 {
                    lemma_zero_bit((n - 1) as u8);
                }
            }
        }
        w
    }

    /// Saturday and Sunday.
    pub fn sat_sun() -> (w: Weekend)
        ensures
            forall|n: int| w.has(n) <==> (n == 6 || n == 7),
    {
        Weekend::from_pair(Weekday::Sat, Weekday::Sun)
    }

    /// Friday and Saturday.
    pub fn fri_sat() -> (w: Weekend)
        ensures
            forall|n: int| w.has(n) <==> (n == 5 || n == 6),
    {
        Weekend::from_pair(Weekday::Fri, Weekday::Sat)
    }

    /// Sunday alone.
    pub fn sun_only() -> (w: Weekend)
        ensures
            forall|n: int| w.has(n) <==> n == 7,
    {
        Weekend::from_pair(Weekday::Sun, Weekday::Sun)
    }

    fn from_pair(a: Weekday, b: Weekday) -> (w: Weekend)
        ensures
            forall|n: int| w.has(n) <==> (n == a.number() || n == b.number()),
    {
        let ka = a.get() - 1;
        let kb = b.get() - 1;
        let mask = (0u8 | (1u8 << ka)) | (1u8 << kb);
        let w = Weekend { mask };
        proof {
            assert forall|n: int| #[trigger] w.has(n) <==> (n == a.number() || n == b.number()) by {
                if 1 <= n <= 7 {
                    let j = (n - 1) as u8;
                    lemma_set_bit(0u8 | (1u8 << ka), kb, j);
                    lemma_set_bit(0u8, ka, j);
                    lemma_zero_bit(j);
                }
            }
        }
        w
    }

    /// `true` iff `w` is a weekend day.
    pub fn contains(self, w: Weekday) -> (r: bool)
        ensures
            r == self.has(w.number()),
    {
        proof {
            lemma_test_bit(self.mask, (w.number() - 1) as u8);
        }
        self.mask & Weekend::bit(w) != 0
    }

    /// The weekend made of the listed days.
    pub fn from_weekdays(weekdays: &[Weekday]) -> (w: Weekend)
        ensures
            forall|n: int|
                w.has(n) <==> exists|i: int| 0 <= i < weekdays@.len() && #[trigger] weekdays@[i].number() == n,
    {
        let mut mask: u8 = 0;
        let mut i: usize = 0;
        proof {
            assert forall|n: int| !#[trigger] (Weekend { mask: 0u8 }).has(n) by {
                if 1 <= n <= 7 {
                    lemma_zero_bit((n - 1) as u8);
                }
            }
        }
        while i < weekdays.len()
            invariant
                i <= weekdays@.len(),
                forall|n: int|
                    #[trigger] (Weekend { mask }).has(n) <==> exists|j: int|
                        0 <= j < i && #[trigger] weekdays@[j].number() == n,
            decreases weekdays@.len() - i,
        {
            let k = weekdays[i].get() - 1;
            let old_mask = mask;
            mask = mask | (1u8 << k);
            proof {
                assert forall|n: int| #[trigger] (Weekend { mask }).has(n) <==> exists|j: int|
                    0 <= j < i + 1 && #[trigger] weekdays@[j].number() == n by {
                    assert((Weekend { mask: old_mask }).has(n) <==> exists|j: int|
                        0 <= j < i && #[trigger] weekdays@[j].number() == n);
                    if 1 <= n <= 7 {
                        lemma_set_bit(old_mask, k, (n - 1) as u8);
                    }
                    crate::date::lemma_weekday_number(weekdays@[i as int]);
                    if weekdays@[i as int].number() == n {
                        assert(0 <= i < i + 1 && weekdays@[i as int].number() == n);
                    }
                    if exists|j: int| 0 <= j < i + 1 && #[trigger] weekdays@[j].number() == n {
                        let j = choose|j: int| 0 <= j < i + 1 && #[trigger] weekdays@[j].number() == n;
                        crate::date::lemma_weekday_number(weekdays@[j]);
                        if j < i {
                            assert(0 <= j < i && weekdays@[j].number() == n);
                        }
                    }
                }
            }
            i = i + 1;
        }
        Weekend { mask }
    }

    /// The union of two weekends.
    pub closed spec fn joined(a: Weekend, b: Weekend) -> Weekend {
        Weekend { mask: a.mask | b.mask }
    }

    /// The days that are weekend days in either operand.
    pub fn union(self, other: Weekend) -> (r: Weekend)
        ensures
            r == Weekend::joined(self, other),
            forall|n: int| r.has(n) <==> (self.has(n) || other.has(n)),
    {
        let r = Weekend { mask: self.mask | other.mask };
        proof {
            assert forall|n: int| #[trigger] r.has(n) == (self.has(n) || other.has(n)) by {
                if 1 <= n <= 7 {
                    lemma_union_bit(self.mask, other.mask, (n - 1) as u8);
                }
            }
        }
        r
    }
}

impl BitOr for Weekend {
    type Output = Weekend;

    /// The union of two weekends.
    fn bitor(self, other: Weekend) -> (r: Weekend) {
        self.union(other)
    }
}

impl BitOrSpecImpl for Weekend {
    open spec fn obeys_bitor_spec() -> bool {
        true
    }

    open spec fn bitor_req(self, other: Weekend) -> bool {
        true
    }

    open spec fn bitor_spec(self, other: Weekend) -> Weekend {
        Weekend::joined(self, other)
    }
}

} // verus!
