use vstd::prelude::*;

verus! {

/// One of the six binary operators of the expression grammar.
#[derive(Debug, PartialEq, Eq, Structural, Clone, Copy)]
pub enum Operator {
    Add,
    Subtract,
    Multiply,
    Divide,
    Power,
    Remainder,
}

/// The error produced when a character is not one of `+ - * / ^ %`.
#[derive(Debug, PartialEq, Eq, Structural, Clone, Copy)]
pub enum OperatorError {
    UnexpectedOperator,
}

/// Whether `c` is the source character of one of the six operators.
pub open spec fn is_operator_char(c: char) -> bool {
    c == '+' || c == '-' || c == '*' || c == '/' || c == '^' || c == '%'
}

/// The operator denoted by an operator character.
pub open spec fn operator_of_char(c: char) -> Operator {
    if c == '+' {
        Operator::Add
    } else if c == '-' {
        Operator::Subtract
    } else if c == '*' {
        Operator::Multiply
    } else if c == '/' {
        Operator::Divide
    } else if c == '^' {
        Operator::Power
    } else {
        Operator::Remainder
    }
}

/// The source character of an operator.
pub open spec fn char_of_operator(op: Operator) -> char {
    match op {
        Operator::Add => '+',
        Operator::Subtract => '-',
        Operator::Multiply => '*',
        Operator::Divide => '/',
        Operator::Power => '^',
        Operator::Remainder => '%',
    }
}

/// The precedence tier an operator is reduced in: tier 1 is `^`,
/// tier 2 is `* / %`, tier 3 is `+ -`. Lower tiers reduce first.
pub open spec fn tier_of(op: Operator) -> int {
    match op {
        Operator::Power => 1,
        Operator::Multiply => 2,
        Operator::Divide => 2,
        Operator::Remainder => 2,
        Operator::Add => 3,
        Operator::Subtract => 3,
    }
}

impl Operator {
    /// Recognises one of the six operator characters, and rejects every
    /// other character.
    pub fn new(operator: &char) -> (r: Result<Self, OperatorError>)
        ensures
            r == if is_operator_char(*operator) {
                Ok::<Operator, OperatorError>(operator_of_char(*operator))
            } else {
                Err::<Operator, OperatorError>(OperatorError::UnexpectedOperator)
            },
    {
        match *operator {
            '+' => Ok(Operator::Add),
            '-' => Ok(Operator::Subtract),
            '*' => Ok(Operator::Multiply),
            '/' => Ok(Operator::Divide),
            '^' => Ok(Operator::Power),
            '%' => Ok(Operator::Remainder),
            _ => Err(OperatorError::UnexpectedOperator),
        }
    }

    /// The source character this operator renders as.
    pub fn to_char(&self) -> (c: char)
        ensures
            c == char_of_operator(*self),
    {
        match self {
            Operator::Add => '+',
            Operator::Subtract => '-',
            Operator::Multiply => '*',
            Operator::Divide => '/',
            Operator::Power => '^',
            Operator::Remainder => '%',
        }
    }

    /// Whether this operator belongs to precedence tier `tier`.
    pub fn in_tier(&self, tier: u8) -> (r: bool)
        ensures
            r == (tier_of(*self) == tier as int),
    {
        match self {
            Operator::Power => tier == 1,
            Operator::Multiply => tier == 2,
            Operator::Divide => tier == 2,
            Operator::Remainder => tier == 2,
            Operator::Add => tier == 3,
            Operator::Subtract => tier == 3,
        }
    }
}

/// The operator character map is a bijection: reading the character of an
/// operator gives that operator back, and conversely.
pub proof fn lemma_operator_char_bijection()
    ensures
        forall|op: Operator| #[trigger] operator_of_char(char_of_operator(op)) == op,
        forall|c: char| is_operator_char(c) ==> char_of_operator(
            #[trigger] operator_of_char(c),
        ) == c,
        forall|op: Operator| is_operator_char(#[trigger] char_of_operator(op)),
{
}

} // verus!
