//! The priority capability.
//!
//! Any element placed in a priority queue exposes an ordinal priority key
//! through this trait; the comparison helpers are derived once from the
//! raw key comparison and reused by the heap algorithm.  The built-in
//! integer types carry default implementations that use the element's own
//! value as its priority, with the signed types shifted into the unsigned
//! key space so that the key order matches the numeric order.

use vstd::prelude::*;

verus! {

/// Offset that maps a 64-bit signed value into the unsigned key space
/// while keeping the numeric order.
pub const SIGN_OFFSET: i128 = 0x8000_0000_0000_0000;

/// Capability for determining an element's priority.
pub trait Priority: Sized {
    /// The element's ordinal priority key, for specifications.  An
    /// implementation overrides it alongside `priority`; left alone it
    /// keys every element equally.
    open spec fn prio_spec(&self) -> u64 {
        0
    }

    /// Returns the element's priority key.
    fn priority(&self) -> (p: u64)
        ensures
            p == self.prio_spec(),
    ;

    /// Compares two elements by priority.
    fn cmp_prio(&self, other: &Self) -> (r: core::cmp::Ordering)
        ensures
            r == core::cmp::Ordering::Less <==> self.prio_spec() < other.prio_spec(),
            r == core::cmp::Ordering::Equal <==> self.prio_spec() == other.prio_spec(),
            r == core::cmp::Ordering::Greater <==> self.prio_spec() > other.prio_spec(),
    {
        let a = self.priority();
        let b = other.priority();
        if a < b {
            core::cmp::Ordering::Less
        } else if a == b {
            core::cmp::Ordering::Equal
        } else {
            core::cmp::Ordering::Greater
        }
    }

    /// Whether this element's priority is strictly below the other's.
    fn lt_prio(&self, other: &Self) -> (r: bool)
        ensures
            r == (self.prio_spec() < other.prio_spec()),
    {
        self.priority() < other.priority()
    }

    /// Whether this element's priority is strictly above the other's.
    fn gt_prio(&self, other: &Self) -> (r: bool)
        ensures
            r == (self.prio_spec() > other.prio_spec()),
    {
        self.priority() > other.priority()
    }

    /// Whether this element's priority is at most the other's.
    fn le_prio(&self, other: &Self) -> (r: bool)
        ensures
            r == (self.prio_spec() <= other.prio_spec()),
    {
        self.priority() <= other.priority()
    }

    /// Whether this element's priority is at least the other's.
    fn ge_prio(&self, other: &Self) -> (r: bool)
        ensures
            r == (self.prio_spec() >= other.prio_spec()),
    {
        self.priority() >= other.priority()
    }

    /// Whether the two elements' priorities are equal.
    fn eq_prio(&self, other: &Self) -> (r: bool)
        ensures
            r == (self.prio_spec() == other.prio_spec()),
    {
        self.priority() == other.priority()
    }

    /// Whether the two elements' priorities differ.
    fn ne_prio(&self, other: &Self) -> (r: bool)
        ensures
            r == (self.prio_spec() != other.prio_spec()),
    {
        self.priority() != other.priority()
    }
}

/// Compares and returns the minimum of two values, by priority; `x` wins
/// ties.
pub fn prio_min<T: Priority>(x: T, y: T) -> (r: T)
    ensures
        r == x || r == y,
        r.prio_spec() <= x.prio_spec(),
        r.prio_spec() <= y.prio_spec(),
        if x.prio_spec() <= y.prio_spec() {
            r == x
        } else {
            r == y
        },
{
    if x.le_prio(&y) {
        x
    } else {
        y
    }
}

/// Compares and returns the maximum of two values, by priority; `x` wins
/// ties.
pub fn prio_max<T: Priority>(x: T, y: T) -> (r: T)
    ensures
        r == x || r == y,
        r.prio_spec() >= x.prio_spec(),
        r.prio_spec() >= y.prio_spec(),
        if x.prio_spec() >= y.prio_spec() {
            r == x
        } else {
            r == y
        },
{
    if x.ge_prio(&y) {
        x
    } else {
        y
    }
}

impl Priority for u8 {
    open spec fn prio_spec(&self) -> u64 {
        *self as u64
    }

    fn priority(&self) -> (p: u64) {
        *self as u64
    }
}

impl Priority for u16 {
    open spec fn prio_spec(&self) -> u64 {
        *self as u64
    }

    fn priority(&self) -> (p: u64) {
        *self as u64
    }
}

impl Priority for u32 {
    open spec fn prio_spec(&self) -> u64 {
        *self as u64
    }

    fn priority(&self) -> (p: u64) {
        *self as u64
    }
}

impl Priority for u64 {
    open spec fn prio_spec(&self) -> u64 {
        *self
    }

    fn priority(&self) -> (p: u64) {
        *self
    }
}

impl Priority for usize {
    open spec fn prio_spec(&self) -> u64 {
        *self as u64
    }

    fn priority(&self) -> (p: u64) {
        *self as u64
    }
}

impl Priority for i8 {
    open spec fn prio_spec(&self) -> u64 {
        (*self as i128 + SIGN_OFFSET) as u64
    }

    fn priority(&self) -> (p: u64) {
        (*self as i128 + SIGN_OFFSET) as u64
    }
}

impl Priority for i16 {
    open spec fn prio_spec(&self) -> u64 {
        (*self as i128 + SIGN_OFFSET) as u64
    }

    fn priority(&self) -> (p: u64) {
        (*self as i128 + SIGN_OFFSET) as u64
    }
}

impl Priority for i32 {
    open spec fn prio_spec(&self) -> u64 {
        (*self as i128 + SIGN_OFFSET) as u64
    }

    fn priority(&self) -> (p: u64) {
        (*self as i128 + SIGN_OFFSET) as u64
    }
}

impl Priority for i64 {
    open spec fn prio_spec(&self) -> u64 {
        (*self as i128 + SIGN_OFFSET) as u64
    }

    fn priority(&self) -> (p: u64) {
        (*self as i128 + SIGN_OFFSET) as u64
    }
}

impl Priority for isize {
    open spec fn prio_spec(&self) -> u64 {
        (*self as i128 + SIGN_OFFSET) as u64
    }

    fn priority(&self) -> (p: u64) {
        (*self as i128 + SIGN_OFFSET) as u64
    }
}

/// For the signed defaults the shifted key order matches the numeric
/// order: priorities compare exactly as the values themselves do.
pub proof fn lemma_signed_prio_order(a: i64, b: i64)
    ensures
        a.prio_spec() <= b.prio_spec() <==> a <= b,
{
}

} // verus!
