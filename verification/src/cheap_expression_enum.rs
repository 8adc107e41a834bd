use vstd::prelude::*;

verus! {

/// A node of the lightweight equation model: an operand value, a bare
/// operator character, or a parenthesized sub-equation.
#[derive(Debug, PartialEq)]
pub enum CheapEquationItem {
    Operand(u32),
    Operator(char),
    Parenthesis(Parenthesis),
}

/// The children of a parenthesized sub-equation.
pub type Parenthesis = Vec<CheapEquationItem>;

/// The structural defects reduction can find.
#[derive(Debug, PartialEq, Eq, Structural, Clone, Copy)]
pub enum ReduceCheapEquationItemError {
    ExpectedOperand,
    ExpectedOperator,
}

/// An early stop of a reduction: a structural failure, or a request for
/// the raw result of applying the operator character to the two operand
/// values. The library performs no primitive float operation itself; the
/// caller answers each request and reduces again.
#[derive(Debug, PartialEq, Clone, Copy)]
pub enum CheapReductionStop {
    Failed(ReduceCheapEquationItemError),
    Need(u32, char, u32),
}

/// The failures of evaluating a source string in the lightweight model:
/// a reduction failure, an unclosed or an empty parenthesis.
#[derive(Debug, PartialEq, Eq, Structural, Clone, Copy)]
pub enum EvaluteStringError {
    EvaluteError(ReduceCheapEquationItemError),
    UnClosedParenthesis,
    EmptyParenthesis,
}

/// The precedence tier of an operator character: `^` first, then
/// `* / %`, then `+ -`; any other character belongs to no tier.
pub open spec fn cheap_tier_of(c: char) -> int {
    if c == '^' {
        1
    } else if c == '*' || c == '/' || c == '%' {
        2
    } else if c == '+' || c == '-' {
        3
    } else {
        0
    }
}

impl CheapEquationItem {
    /// The operand value, if this item is one.
    pub fn operand(&self) -> (r: Option<u32>)
        ensures
            r == match *self {
                CheapEquationItem::Operand(v) => Some(v),
                _ => None::<u32>,
            },
    {
        match self {
            CheapEquationItem::Operand(operand) => Some(*operand),
            CheapEquationItem::Operator(_) => None,
            CheapEquationItem::Parenthesis(_) => None,
        }
    }

    /// The operator character, if this item is one of the six recognised
    /// operators.
    pub fn operator(&self) -> (r: Option<char>)
        ensures
            r == match *self {
                CheapEquationItem::Operator(c) => if cheap_tier_of(c) != 0 {
                    Some(c)
                } else {
                    None::<char>
                },
                _ => None::<char>,
            },
    {
        match self {
            CheapEquationItem::Operand(_) => None,
            CheapEquationItem::Operator(operator) => {
                if *operator == '^' || *operator == '*' || *operator == '/' || *operator == '%'
                    || *operator == '+' || *operator == '-' {
                    Some(*operator)
                } else {
                    None
                }
            },
            CheapEquationItem::Parenthesis(_) => None,
        }
    }

    /// The children of a parenthesis, if this item is one.
    pub fn parenthesis(&self) -> (r: Option<&Parenthesis>)
        ensures
            match (r, self) {
                (Some(v), CheapEquationItem::Parenthesis(p)) => v@ == p@,
                (None, CheapEquationItem::Operand(_)) => true,
                (None, CheapEquationItem::Operator(_)) => true,
                _ => false,
            },
    {
        match self {
            CheapEquationItem::Operand(_) => None,
            CheapEquationItem::Operator(_) => None,
            CheapEquationItem::Parenthesis(parenthesis) => Some(parenthesis),
        }
    }
}

/// What reducing one item yields: operands and operator characters stand
/// for themselves; a parenthesis reduces — recursively — to the single
/// operand its children leave behind.
pub open spec fn spec_item_reduced(item: CheapEquationItem, answers: Seq<u32>) -> (
    Result<CheapEquationItem, CheapReductionStop>,
    nat,
)
    decreases item, 0int,
{
    match item {
        CheapEquationItem::Operand(v) => (Ok(CheapEquationItem::Operand(v)), 0 as nat),
        CheapEquationItem::Operator(c) => (Ok(CheapEquationItem::Operator(c)), 0 as nat),
        CheapEquationItem::Parenthesis(children) => {
            let (r, n) = spec_vec_reduced(children@, answers);
            match r {
                Err(stop) => (Err(stop), n),
                Ok(layer) => {
                    if layer.len() > 0 && layer[0] is Operand {
                        (Ok(layer[0]), n)
                    } else {
                        (
                            Err(
                                CheapReductionStop::Failed(
                                    ReduceCheapEquationItemError::ExpectedOperand,
                                ),
                            ),
                            n,
                        )
                    }
                },
            }
        },
    }
}

/// The resolve pass: every parenthesis becomes the operand it reduces
/// to, operands and operators pass through.
pub open spec fn spec_cheap_resolve(s: Seq<CheapEquationItem>, answers: Seq<u32>) -> (
    Result<Seq<CheapEquationItem>, CheapReductionStop>,
    nat,
)
    decreases s, 1int,
{
    if s.len() == 0 {
        (Ok(Seq::<CheapEquationItem>::empty()), 0 as nat)
    } else {
        let (r, n) = spec_item_reduced(s[0], answers);
        match r {
            Err(stop) => (Err(stop), n),
            Ok(item) => {
                let (rr, m) = spec_cheap_resolve(s.drop_first(), answers.skip(n as int));
                match rr {
                    Ok(rest) => (Ok(seq![item] + rest), (n + m) as nat),
                    Err(stop) => (Err(stop), (n + m) as nat),
                }
            },
        }
    }
}

/// The pair walk of one tier pass: the collector ends with the operand
/// most recently taken up; each `(operator, operand)` pair either
/// reduces into it — consuming one answer as the raw result — or is
/// re-emitted unchanged.
pub open spec fn spec_cheap_chunks(
    collector: Seq<CheapEquationItem>,
    rest: Seq<CheapEquationItem>,
    tier: int,
    answers: Seq<u32>,
) -> (Result<Seq<CheapEquationItem>, CheapReductionStop>, nat)
    decreases rest.len(),
{
    if rest.len() == 0 {
        (Ok(collector), 0 as nat)
    } else {
        if collector.len() == 0 || !(collector.last() is Operand) {
            (Err(CheapReductionStop::Failed(ReduceCheapEquationItemError::ExpectedOperand)), 0 as nat)
        } else {
            let left = collector.last()->Operand_0;
            match rest[0] {
                CheapEquationItem::Operator(c) => {
                    if cheap_tier_of(c) == 0 {
                        (
                            Err(
                                CheapReductionStop::Failed(
                                    ReduceCheapEquationItemError::ExpectedOperator,
                                ),
                            ),
                            0 as nat,
                        )
                    } else if rest.len() == 1 {
                        (
                            Err(
                                CheapReductionStop::Failed(
                                    ReduceCheapEquationItemError::ExpectedOperand,
                                ),
                            ),
                            0 as nat,
                        )
                    } else {
                        match rest[1] {
                            CheapEquationItem::Operand(right) => {
                                if cheap_tier_of(c) == tier {
                                    if answers.len() == 0 {
                                        (Err(CheapReductionStop::Need(left, c, right)), 0 as nat)
                                    } else {
                                        let (r, m) = spec_cheap_chunks(
                                            collector.drop_last().push(
                                                CheapEquationItem::Operand(answers[0]),
                                            ),
                                            rest.skip(2),
                                            tier,
                                            answers.drop_first(),
                                        );
                                        (r, (1 + m) as nat)
                                    }
                                } else {
                                    spec_cheap_chunks(
                                        collector.push(CheapEquationItem::Operator(c)).push(
                                            CheapEquationItem::Operand(right),
                                        ),
                                        rest.skip(2),
                                        tier,
                                        answers,
                                    )
                                }
                            },
                            _ => (
                                Err(
                                    CheapReductionStop::Failed(
                                        ReduceCheapEquationItemError::ExpectedOperand,
                                    ),
                                ),
                                0 as nat,
                            ),
                        }
                    }
                },
                _ => (
                    Err(
                        CheapReductionStop::Failed(
                            ReduceCheapEquationItemError::ExpectedOperator,
                        ),
                    ),
                    0 as nat,
                ),
            }
        }
    }
}

/// One tier pass over a resolved sequence: the first item seeds the
/// collector and must be an operand; the rest is walked in pairs.
pub open spec fn spec_cheap_pass(s: Seq<CheapEquationItem>, tier: int, answers: Seq<u32>) -> (
    Result<Seq<CheapEquationItem>, CheapReductionStop>,
    nat,
)
{
    if s.len() == 0 {
        (Err(CheapReductionStop::Failed(ReduceCheapEquationItemError::ExpectedOperand)), 0 as nat)
    } else {
        match s[0] {
            CheapEquationItem::Operand(first) => spec_cheap_chunks(
                seq![CheapEquationItem::Operand(first)],
                s.drop_first(),
                tier,
                answers,
            ),
            _ => (
                Err(
                    CheapReductionStop::Failed(ReduceCheapEquationItemError::ExpectedOperand),
                ),
                0 as nat,
            ),
        }
    }
}

/// What reducing a sibling sequence yields: it is resolved and reduced
/// tier by tier, leaving the single operand that carries its value. A
/// lone operand is already its own shortest representation and passes
/// through every tier unchanged.
pub open spec fn spec_vec_reduced(s: Seq<CheapEquationItem>, answers: Seq<u32>) -> (
    Result<Seq<CheapEquationItem>, CheapReductionStop>,
    nat,
)
    decreases s, 2int,
{
    let (r0, n0) = spec_cheap_resolve(s, answers);
    match r0 {
        Err(stop) => (Err(stop), n0),
        Ok(tokens) => {
            let (r1, n1) = spec_cheap_pass(tokens, 1, answers.skip(n0 as int));
            match r1 {
                Err(stop) => (Err(stop), (n0 + n1) as nat),
                Ok(t1) => {
                    let (r2, n2) = spec_cheap_pass(t1, 2, answers.skip(n0 + n1 as int));
                    match r2 {
                        Err(stop) => (Err(stop), (n0 + n1 + n2) as nat),
                        Ok(t2) => {
                            let (r3, n3) = spec_cheap_pass(
                                t2,
                                3,
                                answers.skip(n0 + n1 + n2 as int),
                            );
                            match r3 {
                                Err(stop) => (Err(stop), (n0 + n1 + n2 + n3) as nat),
                                Ok(t3) => (Ok(t3), (n0 + n1 + n2 + n3) as nat),
                            }
                        },
                    }
                },
            }
        },
    }
}

} // verus!

verus! {

/// Reducing a value to its shortest representation.
pub trait Reduce: View + Sized {
    /// The failure type of the reduction.
    type ReduceError;

    /// What `try_reduced` returns, and how many answers it consumes.
    spec fn try_reduced_spec(&self, answers: Seq<u32>) -> (Result<Self::V, Self::ReduceError>, nat);

    /// Returns the shortest representation of `self`. Each operator
    /// application consumes one entry of `answers` — the raw result of
    /// the operation.
    fn try_reduced(&self, answers: &Vec<u32>) -> (r: Result<Self, Self::ReduceError>)
        ensures
            ({
                let (sr, n) = self.try_reduced_spec(answers@);
                match (r, sr) {
                    (Ok(v), Ok(sv)) => v@ == sv,
                    (Err(a), Err(b)) => a == b,
                    _ => false,
                }
            }),
    ;
}

impl View for CheapEquationItem {
    type V = CheapEquationItem;

    open spec fn view(&self) -> CheapEquationItem {
        *self
    }
}

impl Reduce for Vec<CheapEquationItem> {
    type ReduceError = CheapReductionStop;

    open spec fn try_reduced_spec(&self, answers: Seq<u32>) -> (
        Result<Seq<CheapEquationItem>, CheapReductionStop>,
        nat,
    ) {
        spec_vec_reduced(self@, answers)
    }

    fn try_reduced(&self, answers: &Vec<u32>) -> (r: Result<Self, CheapReductionStop>) {
        proof {
            assert(answers@.skip(0) =~= answers@);
        }
        let (r, _) = vec_reduced_helper(self, answers, 0);
        r
    }
}

impl Reduce for CheapEquationItem {
    type ReduceError = CheapReductionStop;

    open spec fn try_reduced_spec(&self, answers: Seq<u32>) -> (
        Result<CheapEquationItem, CheapReductionStop>,
        nat,
    ) {
        spec_item_reduced(*self, answers)
    }

    fn try_reduced(&self, answers: &Vec<u32>) -> (r: Result<Self, CheapReductionStop>) {
        proof {
            assert(answers@.skip(0) =~= answers@);
        }
        let (r, _) = item_reduced_helper(self, answers, 0);
        r
    }
}

fn item_reduced_helper(item: &CheapEquationItem, answers: &Vec<u32>, k: usize) -> (r: (
    Result<CheapEquationItem, CheapReductionStop>,
    usize,
))
    requires
        k <= answers@.len(),
    ensures
        ({
            let (sr, n) = spec_item_reduced(*item, answers@.skip(k as int));
            &&& r.1 == k + n
            &&& r.1 <= answers@.len()
            &&& match (r.0, sr) {
                (Ok(v), Ok(sv)) => v == sv,
                (Err(a), Err(b)) => a == b,
                _ => false,
            }
        }),
    decreases *item, 0int,
{
    match item {
        CheapEquationItem::Operand(v) => (Ok(CheapEquationItem::Operand(*v)), k),
        CheapEquationItem::Operator(c) => (Ok(CheapEquationItem::Operator(*c)), k),
        CheapEquationItem::Parenthesis(children) => {
            let (rr, k1) = vec_reduced_helper(children, answers, k);
            match rr {
                Err(stop) => (Err(stop), k1),
                Ok(layer) => {
                    if layer.len() > 0 {
                        match layer[0] {
                            CheapEquationItem::Operand(v) => (
                                Ok(CheapEquationItem::Operand(v)),
                                k1,
                            ),
                            _ => (
                                Err(
                                    CheapReductionStop::Failed(
                                        ReduceCheapEquationItemError::ExpectedOperand,
                                    ),
                                ),
                                k1,
                            ),
                        }
                    } else {
                        (
                            Err(
                                CheapReductionStop::Failed(
                                    ReduceCheapEquationItemError::ExpectedOperand,
                                ),
                            ),
                            k1,
                        )
                    }
                },
            }
        },
    }
}

fn vec_reduced_helper(s: &Vec<CheapEquationItem>, answers: &Vec<u32>, k: usize) -> (r: (
    Result<Vec<CheapEquationItem>, CheapReductionStop>,
    usize,
))
    requires
        k <= answers@.len(),
    ensures
        ({
            let (sr, n) = spec_vec_reduced(s@, answers@.skip(k as int));
            &&& r.1 == k + n
            &&& r.1 <= answers@.len()
            &&& match (r.0, sr) {
                (Ok(v), Ok(sv)) => v@ == sv,
                (Err(a), Err(b)) => a == b,
                _ => false,
            }
        }),
    decreases s@, 2int,
{
    proof {
        assert(s@.skip(0) =~= s@);
    }
    let (r0, k0) = cheap_resolve_helper(s, 0, answers, k);
    match r0 {
        Err(stop) => (Err(stop), k0),
        Ok(tokens) => {
            proof {
                assert(answers@.skip(k as int).skip((k0 - k) as int) =~= answers@.skip(
                    k0 as int,
                ));
            }
            let (r1, k1) = cheap_pass_helper(&tokens, 1, answers, k0);
            match r1 {
                Err(stop) => (Err(stop), k1),
                Ok(t1) => {
                    proof {
                        assert(answers@.skip(k as int).skip((k1 - k) as int) =~= answers@.skip(
                            k1 as int,
                        ));
                    }
                    let (r2, k2) = cheap_pass_helper(&t1, 2, answers, k1);
                    match r2 {
                        Err(stop) => (Err(stop), k2),
                        Ok(t2) => {
                            proof {
                                assert(answers@.skip(k as int).skip((k2 - k) as int)
                                    =~= answers@.skip(k2 as int));
                            }
                            let (r3, k3) = cheap_pass_helper(&t2, 3, answers, k2);
                            match r3 {
                                Err(stop) => (Err(stop), k3),
                                Ok(t3) => (Ok(t3), k3),
                            }
                        },
                    }
                },
            }
        },
    }
}

fn cheap_resolve_helper(s: &Vec<CheapEquationItem>, j: usize, answers: &Vec<u32>, k: usize) -> (r: (
    Result<Vec<CheapEquationItem>, CheapReductionStop>,
    usize,
))
    requires
        j <= s@.len(),
        k <= answers@.len(),
    ensures
        ({
            let (sr, n) = spec_cheap_resolve(s@.skip(j as int), answers@.skip(k as int));
            &&& r.1 == k + n
            &&& r.1 <= answers@.len()
            &&& match (r.0, sr) {
                (Ok(v), Ok(sv)) => v@ == sv,
                (Err(a), Err(b)) => a == b,
                _ => false,
            }
        }),
    decreases s@, 1int, (s@.len() - j) as int,
{
    let ghost rem = s@.skip(j as int);
    proof {
        if j < s@.len() {
            assert(rem[0] == s@[j as int]);
            assert(rem.drop_first() =~= s@.skip(j + 1));
        }
    }
    if j == s.len() {
        let out: Vec<CheapEquationItem> = Vec::new();
        proof {
            assert(out@ =~= Seq::<CheapEquationItem>::empty());
        }
        (Ok(out), k)
    } else {
        let (ri, k1) = item_reduced_helper(&s[j], answers, k);
        match ri {
            Err(stop) => (Err(stop), k1),
            Ok(item) => {
                proof {
                    assert(answers@.skip(k as int).skip((k1 - k) as int) =~= answers@.skip(
                        k1 as int,
                    ));
                }
                let (rr, k2) = cheap_resolve_helper(s, j + 1, answers, k1);
                match rr {
                    Ok(rest) => {
                        let mut out: Vec<CheapEquationItem> = Vec::new();
                        out.push(item);
                        let mut tail = rest;
                        out.append(&mut tail);
                        (Ok(out), k2)
                    },
                    Err(stop) => (Err(stop), k2),
                }
            },
        }
    }
}

fn cheap_pass_helper(s: &Vec<CheapEquationItem>, tier: u8, answers: &Vec<u32>, k: usize) -> (r: (
    Result<Vec<CheapEquationItem>, CheapReductionStop>,
    usize,
))
    requires
        k <= answers@.len(),
    ensures
        ({
            let (sr, n) = spec_cheap_pass(s@, tier as int, answers@.skip(k as int));
            &&& r.1 == k + n
            &&& r.1 <= answers@.len()
            &&& match (r.0, sr) {
                (Ok(v), Ok(sv)) => v@ == sv,
                (Err(a), Err(b)) => a == b,
                _ => false,
            }
        }),
{
    if s.len() == 0 {
        (
            Err(CheapReductionStop::Failed(ReduceCheapEquationItemError::ExpectedOperand)),
            k,
        )
    } else {
        match s[0] {
            CheapEquationItem::Operand(first) => {
                let mut collector: Vec<CheapEquationItem> = Vec::new();
                collector.push(CheapEquationItem::Operand(first));
                proof {
                    assert(collector@ =~= seq![CheapEquationItem::Operand(first)]);
                    assert(s@.skip(1) =~= s@.drop_first());
                }
                cheap_chunks_helper(collector, s, 1, tier, answers, k)
            },
            _ => (
                Err(
                    CheapReductionStop::Failed(ReduceCheapEquationItemError::ExpectedOperand),
                ),
                k,
            ),
        }
    }
}

fn exec_cheap_tier_of(c: char) -> (r: u8)
    ensures
        r as int == cheap_tier_of(c),
{
    if c == '^' {
        1
    } else if c == '*' || c == '/' || c == '%' {
        2
    } else if c == '+' || c == '-' {
        3
    } else {
        0
    }
}

fn cheap_chunks_helper(
    collector: Vec<CheapEquationItem>,
    items: &Vec<CheapEquationItem>,
    i: usize,
    tier: u8,
    answers: &Vec<u32>,
    k: usize,
) -> (r: (Result<Vec<CheapEquationItem>, CheapReductionStop>, usize))
    requires
        i <= items@.len(),
        k <= answers@.len(),
    ensures
        ({
            let (sr, n) = spec_cheap_chunks(
                collector@,
                items@.skip(i as int),
                tier as int,
                answers@.skip(k as int),
            );
            &&& r.1 == k + n
            &&& r.1 <= answers@.len()
            &&& match (r.0, sr) {
                (Ok(v), Ok(sv)) => v@ == sv,
                (Err(a), Err(b)) => a == b,
                _ => false,
            }
        }),
    decreases items@.len() - i,
{
    let ghost rest = items@.skip(i as int);
    proof {
        if i < items@.len() {
            assert(rest[0] == items@[i as int]);
        }
        if i + 1 < items@.len() {
            assert(rest[1] == items@[i + 1]);
            assert(rest.skip(2) =~= items@.skip(i + 2));
        }
    }
    if i == items.len() {
        (Ok(collector), k)
    } else {
        let left_ok = match collector.last() {
            Some(CheapEquationItem::Operand(_)) => true,
            _ => false,
        };
        if !left_ok {
            (
                Err(CheapReductionStop::Failed(ReduceCheapEquationItemError::ExpectedOperand)),
                k,
            )
        } else {
            let left = match collector[collector.len() - 1] {
                CheapEquationItem::Operand(v) => v,
                _ => {
                    proof {
                        assert(false);
                    }
                    0
                },
            };
            match &items[i] {
                CheapEquationItem::Operator(c) => {
                    let c = *c;
                    let ctier = exec_cheap_tier_of(c);
                    if ctier == 0 {
                        (
                            Err(
                                CheapReductionStop::Failed(
                                    ReduceCheapEquationItemError::ExpectedOperator,
                                ),
                            ),
                            k,
                        )
                    } else if i + 1 == items.len() {
                        (
                            Err(
                                CheapReductionStop::Failed(
                                    ReduceCheapEquationItemError::ExpectedOperand,
                                ),
                            ),
                            k,
                        )
                    } else {
                        match &items[i + 1] {
                            CheapEquationItem::Operand(right) => {
                                let right = *right;
                                if ctier == tier {
                                    if k == answers.len() {
                                        (Err(CheapReductionStop::Need(left, c, right)), k)
                                    } else {
                                        let answer = answers[k];
                                        proof {
                                            assert(answers@.skip(k as int)[0] == answers@[
                                                k as int
                                            ]);
                                            assert(answers@.skip(k as int).drop_first()
                                                =~= answers@.skip(k + 1));
                                        }
                                        let ghost coll0 = collector@;
                                        let mut coll = collector;
                                        coll.pop();
                                        coll.push(CheapEquationItem::Operand(answer));
                                        proof {
                                            assert(coll@ =~= coll0.drop_last().push(
                                                CheapEquationItem::Operand(answer),
                                            ));
                                        }
                                        cheap_chunks_helper(coll, items, i + 2, tier, answers, k + 1)
                                    }
                                } else {
                                    let mut coll = collector;
                                    coll.push(CheapEquationItem::Operator(c));
                                    coll.push(CheapEquationItem::Operand(right));
                                    cheap_chunks_helper(coll, items, i + 2, tier, answers, k)
                                }
                            },
                            _ => (
                                Err(
                                    CheapReductionStop::Failed(
                                        ReduceCheapEquationItemError::ExpectedOperand,
                                    ),
                                ),
                                k,
                            ),
                        }
                    }
                },
                _ => (
                    Err(
                        CheapReductionStop::Failed(
                            ReduceCheapEquationItemError::ExpectedOperator,
                        ),
                    ),
                    k,
                ),
            }
        }
    }
}

} // verus!
