//! How a destination directory is named from its group's index.
use vstd::prelude::*;

verus! {

/// The character of decimal digit `d`.
pub open spec fn digit_char(d: nat) -> char {
    seq!['0', '1', '2', '3', '4', '5', '6', '7', '8', '9'][d as int]
}

/// `n` in decimal: no sign, no padding, no leading zero (zero is `"0"`).
pub open spec fn decimal(n: nat) -> Seq<char>
    decreases n,
{
    if n < 10 {
        seq![digit_char(n)]
    } else {
        decimal(n / 10).push(digit_char(n % 10))
    }
}

/// Relies on `usize`'s `Display` through `ToString::to_string`: the number in
/// decimal digits, with no sign, padding or leading zero.
#[verifier::external_body]
pub(crate) fn usize_to_decimal(i: usize) -> (r: String)
    ensures
        r@ == decimal(i as nat),
{
    i.to_string()
}

/// A rule that names the destination directory of each group by its index.
pub trait DirectoryNaming {
    /// The indices that `directory_name` may be called on.
    spec fn can_name(&self, i: usize) -> bool;

    /// Whether `r` is a name that this rule may give group `i`.
    spec fn names_as(&self, i: usize, r: String) -> bool;

    /// The name of group `i`.
    fn directory_name(&self, i: usize) -> (r: String)
        requires
            self.can_name(i),
        ensures
            self.names_as(i, r),
    ;
}

/// Names each group by its index in decimal.
#[derive(Debug, Clone, Copy)]
pub struct DecimalName;

impl DirectoryNaming for DecimalName {
    open spec fn can_name(&self, i: usize) -> bool {
        true
    }

    open spec fn names_as(&self, i: usize, r: String) -> bool {
        r@ == decimal(i as nat)
    }

    fn directory_name(&self, i: usize) -> (r: String) {
        usize_to_decimal(i)
    }
}

/// A naming rule given as a function or closure.
#[derive(Debug, Clone, Copy)]
pub struct NameFn<F>(pub F);

impl<F: Fn(usize) -> String> DirectoryNaming for NameFn<F> {
    open spec fn can_name(&self, i: usize) -> bool {
        call_requires(self.0, (i,))
    }

    open spec fn names_as(&self, i: usize, r: String) -> bool {
        call_ensures(self.0, (i,), r)
    }

    fn directory_name(&self, i: usize) -> (r: String) {
        (self.0)(i)
    }
}

} // verus!
