use vstd::prelude::*;

verus! {

/// Binding power of an operator, from loosest to tightest.
#[derive(Clone, Copy, Debug, PartialEq, Eq, Structural)]
pub enum Precedence {
    Lowest,
    Assignment,
    Or,
    And,
    Equality,
    Comparison,
    Term,
    Factor,
    Unary,
    Primary,
}

/// The position of a level in the total order.
pub open spec fn level(p: Precedence) -> nat {
    match p {
        Precedence::Lowest => 0,
        Precedence::Assignment => 1,
        Precedence::Or => 2,
        Precedence::And => 3,
        Precedence::Equality => 4,
        Precedence::Comparison => 5,
        Precedence::Term => 6,
        Precedence::Factor => 7,
        Precedence::Unary => 8,
        Precedence::Primary => 9,
    }
}

impl Precedence {
    /// The position of this level in the total order.
    pub fn level(self) -> (r: u8)
        ensures
            r as nat == level(self),
    {
        match self {
            Precedence::Lowest => 0,
            Precedence::Assignment => 1,
            Precedence::Or => 2,
            Precedence::And => 3,
            Precedence::Equality => 4,
            Precedence::Comparison => 5,
            Precedence::Term => 6,
            Precedence::Factor => 7,
            Precedence::Unary => 8,
            Precedence::Primary => 9,
        }
    }

    /// The level one tighter than this one; `Primary` is the tightest and stays.
    pub fn next(self) -> (r: Precedence)
        ensures
            level(self) < 9 ==> level(r) == level(self) + 1,
            level(self) == 9 ==> r == Precedence::Primary,
    {
        match self {
            Precedence::Lowest => Precedence::Assignment,
            Precedence::Assignment => Precedence::Or,
            Precedence::Or => Precedence::And,
            Precedence::And => Precedence::Equality,
            Precedence::Equality => Precedence::Comparison,
            Precedence::Comparison => Precedence::Term,
            Precedence::Term => Precedence::Factor,
            Precedence::Factor => Precedence::Unary,
            Precedence::Unary => Precedence::Primary,
            Precedence::Primary => Precedence::Primary,
        }
    }
}

/// Distinct levels occupy distinct positions, so the order is total.
pub proof fn lemma_level_injective(a: Precedence, b: Precedence)
    ensures
        level(a) == level(b) <==> a == b,
{
}

} // verus!
