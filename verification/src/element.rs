//! The values a window holds: copyable scalars that stand for integers.

use vstd::prelude::*;

verus! {

/// How the sum of two elements relates to a target.
#[derive(Clone, Copy, PartialEq, Eq, Debug)]
pub enum Balance {
    /// The sum is smaller than the target.
    Short,
    /// The sum is the target.
    Exact,
    /// The sum is larger than the target.
    Over,
}

/// A copyable scalar that stands for an integer and is ordered as that integer is.
///
/// All contracts on elements are stated over `value`, in unbounded arithmetic: the
/// sum of two elements is the sum of their values, whatever the width of the type.
pub trait Element: Copy {
    /// The integer this element stands for.
    spec fn value(self) -> int;

    /// Two elements that stand for the same integer are the same element.
    proof fn value_is_faithful(a: Self, b: Self)
        ensures
            a.value() == b.value() ==> a == b,
    ;

    /// Whether `self` comes strictly before `other`.
    fn precedes(&self, other: &Self) -> (r: bool)
        ensures
            r == (self.value() < other.value()),
    ;

    /// Whether `self` and `other` are the same value.
    fn same(&self, other: &Self) -> (r: bool)
        ensures
            r == (self.value() == other.value()),
    ;

    /// Weighs `self + other` against `target`; the sum never wraps.
    fn weigh(&self, other: &Self, target: &Self) -> (r: Balance)
        ensures
            r == balance_of(self.value() + other.value(), target.value()),
    ;

    /// The sign of the value (`true` when it is negative) and its absolute value.
    fn sign_and_magnitude(&self) -> (r: (bool, u128))
        ensures
            r.0 == (self.value() < 0),
            r.1 == (if self.value() < 0 { -self.value() } else { self.value() }),
    ;
}

/// The side of `target` on which `sum` lies.
pub open spec fn balance_of(sum: int, target: int) -> Balance {
    if sum < target {
        Balance::Short
    } else if sum == target {
        Balance::Exact
    } else {
        Balance::Over
    }
}

impl Element for u8 {
    open spec fn value(self) -> int {
        self as int
    }

    proof fn value_is_faithful(a: Self, b: Self) {
    }

    fn precedes(&self, other: &Self) -> (r: bool) {
        *self < *other
    }

    fn same(&self, other: &Self) -> (r: bool) {
        *self == *other
    }

    fn weigh(&self, other: &Self, target: &Self) -> (r: Balance) {
        match self.checked_add(*other) {
            Some(sum) => if sum < *target {
                Balance::Short
            } else if sum == *target {
                Balance::Exact
            } else {
                Balance::Over
            },
            // The sum is beyond the largest value, so beyond any target.
            None => Balance::Over,
        }
    }

    fn sign_and_magnitude(&self) -> (r: (bool, u128)) {
        (false, *self as u128)
    }
}

impl Element for u16 {
    open spec fn value(self) -> int {
        self as int
    }

    proof fn value_is_faithful(a: Self, b: Self) {
    }

    fn precedes(&self, other: &Self) -> (r: bool) {
        *self < *other
    }

    fn same(&self, other: &Self) -> (r: bool) {
        *self == *other
    }

    fn weigh(&self, other: &Self, target: &Self) -> (r: Balance) {
        match self.checked_add(*other) {
            Some(sum) => if sum < *target {
                Balance::Short
            } else if sum == *target {
                Balance::Exact
            } else {
                Balance::Over
            },
            // The sum is beyond the largest value, so beyond any target.
            None => Balance::Over,
        }
    }

    fn sign_and_magnitude(&self) -> (r: (bool, u128)) {
        (false, *self as u128)
    }
}

impl Element for u32 {
    open spec fn value(self) -> int {
        self as int
    }

    proof fn value_is_faithful(a: Self, b: Self) {
    }

    fn precedes(&self, other: &Self) -> (r: bool) {
        *self < *other
    }

    fn same(&self, other: &Self) -> (r: bool) {
        *self == *other
    }

    fn weigh(&self, other: &Self, target: &Self) -> (r: Balance) {
        match self.checked_add(*other) {
            Some(sum) => if sum < *target {
                Balance::Short
            } else if sum == *target {
                Balance::Exact
            } else {
                Balance::Over
            },
            // The sum is beyond the largest value, so beyond any target.
            None => Balance::Over,
        }
    }

    fn sign_and_magnitude(&self) -> (r: (bool, u128)) {
        (false, *self as u128)
    }
}

impl Element for u64 {
    open spec fn value(self) -> int {
        self as int
    }

    proof fn value_is_faithful(a: Self, b: Self) {
    }

    fn precedes(&self, other: &Self) -> (r: bool) {
        *self < *other
    }

    fn same(&self, other: &Self) -> (r: bool) {
        *self == *other
    }

    fn weigh(&self, other: &Self, target: &Self) -> (r: Balance) {
        match self.checked_add(*other) {
            Some(sum) => if sum < *target {
                Balance::Short
            } else if sum == *target {
                Balance::Exact
            } else {
                Balance::Over
            },
            // The sum is beyond the largest value, so beyond any target.
            None => Balance::Over,
        }
    }

    fn sign_and_magnitude(&self) -> (r: (bool, u128)) {
        (false, *self as u128)
    }
}

impl Element for u128 {
    open spec fn value(self) -> int {
        self as int
    }

    proof fn value_is_faithful(a: Self, b: Self) {
    }

    fn precedes(&self, other: &Self) -> (r: bool) {
        *self < *other
    }

    fn same(&self, other: &Self) -> (r: bool) {
        *self == *other
    }

    fn weigh(&self, other: &Self, target: &Self) -> (r: Balance) {
        match self.checked_add(*other) {
            Some(sum) => if sum < *target {
                Balance::Short
            } else if sum == *target {
                Balance::Exact
            } else {
                Balance::Over
            },
            // The sum is beyond the largest value, so beyond any target.
            None => Balance::Over,
        }
    }

    fn sign_and_magnitude(&self) -> (r: (bool, u128)) {
        (false, *self)
    }
}

impl Element for usize {
    open spec fn value(self) -> int {
        self as int
    }

    proof fn value_is_faithful(a: Self, b: Self) {
    }

    fn precedes(&self, other: &Self) -> (r: bool) {
        *self < *other
    }

    fn same(&self, other: &Self) -> (r: bool) {
        *self == *other
    }

    fn weigh(&self, other: &Self, target: &Self) -> (r: Balance) {
        match self.checked_add(*other) {
            Some(sum) => if sum < *target {
                Balance::Short
            } else if sum == *target {
                Balance::Exact
            } else {
                Balance::Over
            },
            // The sum is beyond the largest value, so beyond any target.
            None => Balance::Over,
        }
    }

    fn sign_and_magnitude(&self) -> (r: (bool, u128)) {
        (false, *self as u128)
    }
}

impl Element for i8 {
    open spec fn value(self) -> int {
        self as int
    }

    proof fn value_is_faithful(a: Self, b: Self) {
    }

    fn precedes(&self, other: &Self) -> (r: bool) {
        *self < *other
    }

    fn same(&self, other: &Self) -> (r: bool) {
        *self == *other
    }

    fn weigh(&self, other: &Self, target: &Self) -> (r: Balance) {
        match self.checked_add(*other) {
            Some(sum) => if sum < *target {
                Balance::Short
            } else if sum == *target {
                Balance::Exact
            } else {
                Balance::Over
            },
            // Out of range: two negatives fall below every target, two others rise
            // above every target.
            None => if *self < 0 {
                Balance::Short
            } else {
                Balance::Over
            },
        }
    }

    fn sign_and_magnitude(&self) -> (r: (bool, u128)) {
        if *self < 0 {
            // `-self` would leave the range for the least value; `-(self + 1)` does not.
            let short_by_one: i8 = -(*self + 1);
            (true, short_by_one as u128 + 1)
        } else {
            (false, *self as u128)
        }
    }
}

impl Element for i16 {
    open spec fn value(self) -> int {
        self as int
    }

    proof fn value_is_faithful(a: Self, b: Self) {
    }

    fn precedes(&self, other: &Self) -> (r: bool) {
        *self < *other
    }

    fn same(&self, other: &Self) -> (r: bool) {
        *self == *other
    }

    fn weigh(&self, other: &Self, target: &Self) -> (r: Balance) {
        match self.checked_add(*other) {
            Some(sum) => if sum < *target {
                Balance::Short
            } else if sum == *target {
                Balance::Exact
            } else {
                Balance::Over
            },
            // Out of range: two negatives fall below every target, two others rise
            // above every target.
            None => if *self < 0 {
                Balance::Short
            } else {
                Balance::Over
            },
        }
    }

    fn sign_and_magnitude(&self) -> (r: (bool, u128)) {
        if *self < 0 {
            // `-self` would leave the range for the least value; `-(self + 1)` does not.
            let short_by_one: i16 = -(*self + 1);
            (true, short_by_one as u128 + 1)
        } else {
            (false, *self as u128)
        }
    }
}

impl Element for i32 {
    open spec fn value(self) -> int {
        self as int
    }

    proof fn value_is_faithful(a: Self, b: Self) {
    }

    fn precedes(&self, other: &Self) -> (r: bool) {
        *self < *other
    }

    fn same(&self, other: &Self) -> (r: bool) {
        *self == *other
    }

    fn weigh(&self, other: &Self, target: &Self) -> (r: Balance) {
        match self.checked_add(*other) {
            Some(sum) => if sum < *target {
                Balance::Short
            } else if sum == *target {
                Balance::Exact
            } else {
                Balance::Over
            },
            // Out of range: two negatives fall below every target, two others rise
            // above every target.
            None => if *self < 0 {
                Balance::Short
            } else {
                Balance::Over
            },
        }
    }

    fn sign_and_magnitude(&self) -> (r: (bool, u128)) {
        if *self < 0 {
            // `-self` would leave the range for the least value; `-(self + 1)` does not.
            let short_by_one: i32 = -(*self + 1);
            (true, short_by_one as u128 + 1)
        } else {
            (false, *self as u128)
        }
    }
}

impl Element for i64 {
    open spec fn value(self) -> int {
        self as int
    }

    proof fn value_is_faithful(a: Self, b: Self) {
    }

    fn precedes(&self, other: &Self) -> (r: bool) {
        *self < *other
    }

    fn same(&self, other: &Self) -> (r: bool) {
        *self == *other
    }

    fn weigh(&self, other: &Self, target: &Self) -> (r: Balance) {
        match self.checked_add(*other) {
            Some(sum) => if sum < *target {
                Balance::Short
            } else if sum == *target {
                Balance::Exact
            } else {
                Balance::Over
            },
            // Out of range: two negatives fall below every target, two others rise
            // above every target.
            None => if *self < 0 {
                Balance::Short
            } else {
                Balance::Over
            },
        }
    }

    fn sign_and_magnitude(&self) -> (r: (bool, u128)) {
        if *self < 0 {
            // `-self` would leave the range for the least value; `-(self + 1)` does not.
            let short_by_one: i64 = -(*self + 1);
            (true, short_by_one as u128 + 1)
        } else {
            (false, *self as u128)
        }
    }
}

impl Element for i128 {
    open spec fn value(self) -> int {
        self as int
    }

    proof fn value_is_faithful(a: Self, b: Self) {
    }

    fn precedes(&self, other: &Self) -> (r: bool) {
        *self < *other
    }

    fn same(&self, other: &Self) -> (r: bool) {
        *self == *other
    }

    fn weigh(&self, other: &Self, target: &Self) -> (r: Balance) {
        match self.checked_add(*other) {
            Some(sum) => if sum < *target {
                Balance::Short
            } else if sum == *target {
                Balance::Exact
            } else {
                Balance::Over
            },
            // Out of range: two negatives fall below every target, two others rise
            // above every target.
            None => if *self < 0 {
                Balance::Short
            } else {
                Balance::Over
            },
        }
    }

    fn sign_and_magnitude(&self) -> (r: (bool, u128)) {
        if *self < 0 {
            // `-self` would leave the range for the least value; `-(self + 1)` does not.
            let short_by_one: i128 = -(*self + 1);
            (true, short_by_one as u128 + 1)
        } else {
            (false, *self as u128)
        }
    }
}

impl Element for isize {
    open spec fn value(self) -> int {
        self as int
    }

    proof fn value_is_faithful(a: Self, b: Self) {
    }

    fn precedes(&self, other: &Self) -> (r: bool) {
        *self < *other
    }

    fn same(&self, other: &Self) -> (r: bool) {
        *self == *other
    }

    fn weigh(&self, other: &Self, target: &Self) -> (r: Balance) {
        match self.checked_add(*other) {
            Some(sum) => if sum < *target {
                Balance::Short
            } else if sum == *target {
                Balance::Exact
            } else {
                Balance::Over
            },
            // Out of range: two negatives fall below every target, two others rise
            // above every target.
            None => if *self < 0 {
                Balance::Short
            } else {
                Balance::Over
            },
        }
    }

    fn sign_and_magnitude(&self) -> (r: (bool, u128)) {
        if *self < 0 {
            // `-self` would leave the range for the least value; `-(self + 1)` does not.
            let short_by_one: isize = -(*self + 1);
            (true, short_by_one as u128 + 1)
        } else {
            (false, *self as u128)
        }
    }
}

} // verus!
