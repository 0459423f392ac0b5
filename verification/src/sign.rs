use vstd::prelude::*;

verus! {

/// The polarity of a number. Zero has no polarity of its own: a canonical zero
/// is stored with `Positive`.
#[derive(Debug, Copy, Clone, Hash, PartialEq, Eq, Structural)]
pub enum Sign {
    Positive,
    Negative,
}

impl Sign {
    /// The factor `+1` or `-1` this sign stands for.
    pub open spec fn factor(self) -> int {
        match self {
            Sign::Positive => 1,
            Sign::Negative => -1,
        }
    }

    /// The opposite sign.
    pub open spec fn spec_inverse(self) -> Sign {
        match self {
            Sign::Positive => Sign::Negative,
            Sign::Negative => Sign::Positive,
        }
    }

    /// The sign of a product whose factors have these signs.
    pub open spec fn spec_mul(self, other: Sign) -> Sign {
        if self == other {
            Sign::Positive
        } else {
            Sign::Negative
        }
    }

    /// Flips the sign.
    pub fn inverse(&self) -> (result: Sign)
        ensures
            result == self.spec_inverse(),
            result.factor() == -self.factor(),
    {
        match self {
            Sign::Positive => Sign::Negative,
            _ => Sign::Positive,
        }
    }

    /// The sign of a product: positive exactly when both signs agree.
    pub fn mul(&self, other: &Sign) -> (result: Sign)
        ensures
            result == self.spec_mul(*other),
            result.factor() == self.factor() * other.factor(),
    {
        match (self, other) {
            (Sign::Negative, Sign::Negative) => Sign::Positive,
            (Sign::Positive, Sign::Positive) => Sign::Positive,
            _ => Sign::Negative,
        }
    }

    /// The sign as text: `"+"` or `"-"`.
    pub fn to_string(&self) -> (result: String)
        ensures
            result@ == self.text(),
    {
        match self {
            Sign::Positive => "+".to_owned(),
            Sign::Negative => "-".to_owned(),
        }
    }

    /// The text of a sign.
    pub open spec fn text(self) -> Seq<char> {
        match self {
            Sign::Positive => "+"@,
            Sign::Negative => "-"@,
        }
    }
}

} // verus!
