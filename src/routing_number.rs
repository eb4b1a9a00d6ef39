use core::cmp::Ordering;
use vstd::prelude::*;

verus! {

/// Half of the number space: two numbers this far apart or nearer are ordered by
/// the direction of the shorter way round the circle.
pub const HALF_RANGE: u16 = 32768;

/// How far `b` lies ahead of `a` when counting upwards round the 16-bit circle.
pub open spec fn distance_ahead(a: u16, b: u16) -> int {
    (b as int - a as int) % 65536
}

/// Wraparound order: `b` is after `a` when it lies at most half the circle ahead.
pub open spec fn compare_spec(a: u16, b: u16) -> Ordering {
    if a == b {
        Ordering::Equal
    } else if distance_ahead(a, b) <= HALF_RANGE as int {
        Ordering::Less
    } else {
        Ordering::Greater
    }
}

/// `x + n` on the 16-bit circle.
pub open spec fn wrap_add(x: u16, n: int) -> u16 {
    ((x as int + n) % 65536) as u16
}

/// Relies on rand::random: a value drawn from the thread-local generator; nothing
/// is known of which value comes out.
#[verifier::external_body]
fn random_u16() -> (r: u16) {
    rand::random::<u16>()
}

/// Number of one routing message. Numbers start at a random value and grow with
/// wraparound, so they are ordered on a circle rather than as plain integers.
#[derive(Debug, Clone, Copy, PartialEq, Eq, Structural)]
pub struct RoutingNumber(pub u16);

impl Default for RoutingNumber {
    /// A random number, so that a restarted sender does not reuse numbers.
    fn default() -> (r: Self) {
        RoutingNumber(random_u16())
    }
}

impl RoutingNumber {
    pub fn new(value: u16) -> (r: Self)
        ensures
            r.0 == value,
    {
        RoutingNumber(value)
    }

    /// Moves to the next number, from 65535 back to 0.
    pub fn increment(&mut self)
        ensures
            final(self).0 == wrap_add(old(self).0, 1),
    {
        self.add_assign(1);
    }

    /// Moves `rhs` numbers forward with wraparound.
    pub fn add_assign(&mut self, rhs: u16)
        ensures
            final(self).0 == wrap_add(old(self).0, rhs as int),
    {
        self.0 = self.0.wrapping_add(rhs);
    }

    /// The number `rhs` steps after this one, with wraparound.
    pub fn add(self, rhs: u16) -> (r: u16)
        ensures
            r == wrap_add(self.0, rhs as int),
    {
        let mut s = self;
        s.add_assign(rhs);
        s.0
    }

    /// How many steps `rhs` lies behind this number, with wraparound.
    pub fn sub(self, rhs: Self) -> (r: u16)
        ensures
            r as int == distance_ahead(rhs.0, self.0),
    {
        self.0.wrapping_sub(rhs.0)
    }

    /// Wraparound comparison of two routing numbers.
    pub fn compare(&self, other: &Self) -> (r: Ordering)
        ensures
            r == compare_spec(self.0, other.0),
    {
        if self.0 == other.0 {
            return Ordering::Equal;
        }
        let opposite_wide: u32 = self.0 as u32 + (u16::MAX / 2 + 1) as u32;
        let overflow = opposite_wide > u16::MAX as u32;
        let opposite: u16 = if overflow {
            (opposite_wide - 65536) as u16
        } else {
            opposite_wide as u16
        };
        if overflow {
            if self.0 > other.0 && other.0 > opposite {
                Ordering::Greater
            } else {
                Ordering::Less
            }
        } else {
            if self.0 < other.0 && other.0 <= opposite {
                Ordering::Less
            } else {
                Ordering::Greater
            }
        }
    }
}

impl PartialOrd for RoutingNumber {
    fn partial_cmp(&self, other: &Self) -> (r: Option<Ordering>)
        ensures
            r == Some(compare_spec(self.0, other.0)),
    {
        Some(self.compare(other))
    }
}

impl vstd::std_specs::cmp::PartialOrdSpecImpl for RoutingNumber {
    open spec fn obeys_partial_cmp_spec() -> bool {
        true
    }

    open spec fn partial_cmp_spec(&self, other: &Self) -> Option<Ordering> {
        Some(compare_spec(self.0, other.0))
    }
}

/// Every number is equal to itself; of two numbers at most 32767 steps apart in
/// the order they were issued, the earlier compares less than the later, and the
/// later greater than the earlier.
pub proof fn lemma_wraparound_order(a: u16, steps: u16)
    requires
        1 <= steps < HALF_RANGE,
    ensures
        compare_spec(a, a) == Ordering::Equal,
        compare_spec(a, wrap_add(a, steps as int)) == Ordering::Less,
        compare_spec(wrap_add(a, steps as int), a) == Ordering::Greater,
{
}

} // verus!
