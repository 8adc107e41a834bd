use vstd::prelude::*;

verus! {

/// The six operators of the flat-equation model.
#[derive(Debug, PartialEq, Eq, Structural, Clone, Copy)]
pub enum MathOperator {
    Add,
    Sub,
    Mul,
    Div,
    Rem,
    Pow,
}

/// One token of a flat equation: an operand value or an operator.
#[derive(Debug, PartialEq, Clone, Copy)]
pub enum EquationItem<V> {
    Operand(V),
    Operator(MathOperator),
}

impl<V> EquationItem<V> {
    /// The operand value, if this token is one.
    pub fn operand(self) -> (r: Option<V>)
        ensures
            r == match self {
                EquationItem::Operand(v) => Some(v),
                EquationItem::Operator(_) => None::<V>,
            },
    {
        match self {
            EquationItem::Operand(operand) => Some(operand),
            EquationItem::Operator(_) => None,
        }
    }

    /// The operator, if this token is one.
    pub fn operator(self) -> (r: Option<MathOperator>)
        ensures
            r == match self {
                EquationItem::Operand(_) => None::<MathOperator>,
                EquationItem::Operator(op) => Some(op),
            },
    {
        match self {
            EquationItem::Operand(_) => None,
            EquationItem::Operator(operator) => Some(operator),
        }
    }
}

/// A node of a nested equation: a flat token, or a boxed sub-expression.
#[derive(Debug, PartialEq)]
pub enum ExpressionEnum<V> {
    Value(EquationItem<V>),
    Expression(Box<Expression<V>>),
}

/// A sibling sequence of nested-equation nodes.
pub type Expression<V> = Vec<ExpressionEnum<V>>;

/// The structural defects a flat or nested equation can have.
#[derive(Debug, PartialEq, Eq, Structural, Clone, Copy)]
pub enum ExpressionError {
    ExpectedOperand,
    ExpectedOperator,
    EmptyExpressionLayer,
    InvalidExpressionValueCount,
}

/// An early stop of a reduction: a structural failure, or a request for
/// the raw result of applying the operator to the two operand values.
/// The library performs no primitive float operation itself; the caller
/// answers each request and reduces again.
#[derive(Debug, PartialEq, Clone, Copy)]
pub enum ReductionStop<V> {
    Failed(ExpressionError),
    Need(V, MathOperator, V),
}

/// Which error — if any — appending `item` to a flat equation raises:
/// two operands in a row lack an operator, an operator at the start or
/// after another operator lacks an operand.
pub open spec fn equation_push_error<V>(
    s: Seq<EquationItem<V>>,
    item: EquationItem<V>,
) -> Option<ExpressionError> {
    let last_operand = s.len() > 0 && s.last() is Operand;
    match item {
        EquationItem::Operand(_) => if last_operand {
            Some(ExpressionError::ExpectedOperator)
        } else {
            None::<ExpressionError>
        },
        EquationItem::Operator(_) => if !last_operand {
            Some(ExpressionError::ExpectedOperand)
        } else {
            None::<ExpressionError>
        },
    }
}

/// Which error — if any — appending `item` to a nested equation raises;
/// a boxed sub-expression stands in an operand position.
pub open spec fn expression_push_error<V>(
    s: Seq<ExpressionEnum<V>>,
    item: ExpressionEnum<V>,
) -> Option<ExpressionError> {
    let last_operand = s.len() > 0 && !(s.last() matches ExpressionEnum::Value(
        EquationItem::Operator(_),
    ));
    match item {
        ExpressionEnum::Value(EquationItem::Operator(_)) => if !last_operand {
            Some(ExpressionError::ExpectedOperand)
        } else {
            None::<ExpressionError>
        },
        _ => if last_operand {
            Some(ExpressionError::ExpectedOperator)
        } else {
            None::<ExpressionError>
        },
    }
}

/// Appending a flat token, enforcing the alternation incrementally.
pub trait TryPushEquation<V>: View + Sized {
    /// Which error — if any — this push raises.
    spec fn push_error(&self, item: EquationItem<V>) -> Option<ExpressionError>;

    /// The contents after a successful push.
    spec fn pushed_view(&self, item: EquationItem<V>) -> Self::V;

    /// Appends `item` if the alternation allows it, and reports which
    /// expectation it broke otherwise, leaving the equation unchanged.
    fn try_push(&mut self, item: EquationItem<V>) -> (r: Result<(), ExpressionError>)
        ensures
            match old(self).push_error(item) {
                None => r == Ok::<(), ExpressionError>(()) && final(self)@ == old(
                    self,
                ).pushed_view(item),
                Some(e) => r == Err::<(), ExpressionError>(e) && final(self)@ == old(self)@,
            },
    ;
}

impl<V: Copy> TryPushEquation<V> for Vec<EquationItem<V>> {
    open spec fn push_error(&self, item: EquationItem<V>) -> Option<ExpressionError> {
        equation_push_error(self@, item)
    }

    open spec fn pushed_view(&self, item: EquationItem<V>) -> Seq<EquationItem<V>> {
        self@.push(item)
    }

    fn try_push(&mut self, item: EquationItem<V>) -> (r: Result<(), ExpressionError>) {
        let last_operand = match self.last() {
            Some(EquationItem::Operand(_)) => true,
            _ => false,
        };
        let item_operand = matches!(item, EquationItem::Operand(_));
        if item_operand && last_operand {
            Err(ExpressionError::ExpectedOperator)
        } else if !item_operand && !last_operand {
            Err(ExpressionError::ExpectedOperand)
        } else {
            self.push(item);
            Ok(())
        }
    }
}

/// Appending a nested-equation node, enforcing the alternation
/// incrementally.
pub trait TryPushEpression<V>: View + Sized {
    /// Which error — if any — this push raises.
    spec fn push_error(&self, item: ExpressionEnum<V>) -> Option<ExpressionError>;

    /// The contents after a successful push.
    spec fn pushed_view(&self, item: ExpressionEnum<V>) -> Self::V;

    /// Appends `item` if the alternation allows it, and reports which
    /// expectation it broke otherwise, leaving the expression unchanged.
    fn try_push(&mut self, item: ExpressionEnum<V>) -> (r: Result<(), ExpressionError>)
        ensures
            match old(self).push_error(item) {
                None => r == Ok::<(), ExpressionError>(()) && final(self)@ == old(
                    self,
                ).pushed_view(item),
                Some(e) => r == Err::<(), ExpressionError>(e) && final(self)@ == old(self)@,
            },
    ;
}

impl<V> TryPushEpression<V> for Vec<ExpressionEnum<V>> {
    open spec fn push_error(&self, item: ExpressionEnum<V>) -> Option<ExpressionError> {
        expression_push_error(self@, item)
    }

    open spec fn pushed_view(&self, item: ExpressionEnum<V>) -> Seq<ExpressionEnum<V>> {
        self@.push(item)
    }

    fn try_push(&mut self, item: ExpressionEnum<V>) -> (r: Result<(), ExpressionError>) {
        let last_operand = match self.last() {
            Some(ExpressionEnum::Value(EquationItem::Operator(_))) => false,
            None => false,
            _ => true,
        };
        let item_operator = matches!(item, ExpressionEnum::Value(EquationItem::Operator(_)));
        if item_operator && !last_operand {
            Err(ExpressionError::ExpectedOperand)
        } else if !item_operator && last_operand {
            Err(ExpressionError::ExpectedOperator)
        } else {
            self.push(item);
            Ok(())
        }
    }
}

/// The pair walk of one reduction pass over a flat equation. `layer` is
/// the output built so far — it always ends with the operand most
/// recently taken up. Each `(operator, operand)` pair either reduces into
/// that operand (when the operator is among the selected ones, consuming
/// one answer as the raw result) or is appended unchanged under the
/// alternation checks.
pub open spec fn spec_eval_pairs<V>(
    layer: Seq<EquationItem<V>>,
    rest: Seq<EquationItem<V>>,
    selected: Seq<MathOperator>,
    answers: Seq<V>,
) -> (Result<Seq<EquationItem<V>>, ReductionStop<V>>, nat)
    decreases rest.len(),
{
    if rest.len() < 2 {
        (Ok(layer), 0 as nat)
    } else {
        match rest[0] {
            EquationItem::Operand(_) => (
                Err(ReductionStop::Failed(ExpressionError::ExpectedOperator)),
                0 as nat,
            ),
            EquationItem::Operator(op) => {
                if selected.contains(op) {
                    if layer.len() == 0 || !(layer.last() is Operand) {
                        (Err(ReductionStop::Failed(ExpressionError::ExpectedOperand)), 0 as nat)
                    } else {
                        match rest[1] {
                            EquationItem::Operator(_) => (
                                Err(ReductionStop::Failed(ExpressionError::ExpectedOperand)),
                                0 as nat,
                            ),
                            EquationItem::Operand(right) => {
                                let left = layer.last()->Operand_0;
                                if answers.len() == 0 {
                                    (Err(ReductionStop::Need(left, op, right)), 0 as nat)
                                } else {
                                    let (r, m) = spec_eval_pairs(
                                        layer.drop_last().push(EquationItem::Operand(answers[0])),
                                        rest.skip(2),
                                        selected,
                                        answers.drop_first(),
                                    );
                                    (r, (1 + m) as nat)
                                }
                            },
                        }
                    }
                } else {
                    match equation_push_error(layer, rest[0]) {
                        Some(e) => (Err(ReductionStop::Failed(e)), 0 as nat),
                        None => {
                            let layer1 = layer.push(rest[0]);
                            match equation_push_error(layer1, rest[1]) {
                                Some(e) => (Err(ReductionStop::Failed(e)), 0 as nat),
                                None => spec_eval_pairs(
                                    layer1.push(rest[1]),
                                    rest.skip(2),
                                    selected,
                                    answers,
                                ),
                            }
                        },
                    }
                }
            },
        }
    }
}

/// One reduction pass over a flat equation: the first token seeds the
/// output — an empty equation and one not starting with an operand are
/// defects — the rest is walked in pairs, and a leftover token after the
/// pairs is a defect reported by its kind.
pub open spec fn spec_eval_operators<V>(
    items: Seq<EquationItem<V>>,
    selected: Seq<MathOperator>,
    answers: Seq<V>,
) -> (Result<Seq<EquationItem<V>>, ReductionStop<V>>, nat) {
    if items.len() == 0 {
        (Err(ReductionStop::Failed(ExpressionError::EmptyExpressionLayer)), 0 as nat)
    } else {
        match items[0] {
            EquationItem::Operator(_) => (
                Err(ReductionStop::Failed(ExpressionError::ExpectedOperand)),
                0 as nat,
            ),
            EquationItem::Operand(first) => {
                let rest = items.drop_first();
                let (r, n) = spec_eval_pairs(
                    seq![EquationItem::Operand(first)],
                    rest,
                    selected,
                    answers,
                );
                match r {
                    Err(stop) => (Err(stop), n),
                    Ok(layer) => {
                        if rest.len() % 2 == 1 {
                            match rest.last() {
                                EquationItem::Operand(_) => (
                                    Err(ReductionStop::Failed(ExpressionError::ExpectedOperator)),
                                    n,
                                ),
                                EquationItem::Operator(_) => (
                                    Err(ReductionStop::Failed(ExpressionError::ExpectedOperand)),
                                    n,
                                ),
                            }
                        } else {
                            (Ok(layer), n)
                        }
                    },
                }
            },
        }
    }
}

} // verus!

verus! {

/// Resolving a nested equation to a flat one: flat tokens pass through,
/// every boxed sub-expression is solved — recursively — into the operand
/// value it yields.
pub open spec fn spec_resolve_expression<V>(s: Seq<ExpressionEnum<V>>, answers: Seq<V>) -> (
    Result<Seq<EquationItem<V>>, ReductionStop<V>>,
    nat,
)
    decreases s, 0int,
{
    if s.len() == 0 {
        (Ok(Seq::<EquationItem<V>>::empty()), 0 as nat)
    } else {
        match s[0] {
            ExpressionEnum::Value(v) => {
                let (r, n) = spec_resolve_expression(s.drop_first(), answers);
                match r {
                    Ok(tokens) => (Ok(seq![v] + tokens), n),
                    Err(stop) => (Err(stop), n),
                }
            },
            ExpressionEnum::Expression(layer) => {
                let (r, n) = spec_solve(layer@, answers);
                match r {
                    Ok(v) => {
                        let (rr, m) = spec_resolve_expression(
                            s.drop_first(),
                            answers.skip(n as int),
                        );
                        match rr {
                            Ok(tokens) => (
                                Ok(seq![EquationItem::Operand(v)] + tokens),
                                (n + m) as nat,
                            ),
                            Err(stop) => (Err(stop), (n + m) as nat),
                        }
                    },
                    Err(stop) => (Err(stop), n),
                }
            },
        }
    }
}

/// Solving a nested equation: resolve it to a flat one, reduce the three
/// precedence tiers in fixed order — `Pow`, then `Mul`/`Div`/`Rem`, then
/// `Add`/`Sub` — and take the single operand that must remain.
pub open spec fn spec_solve<V>(s: Seq<ExpressionEnum<V>>, answers: Seq<V>) -> (
    Result<V, ReductionStop<V>>,
    nat,
)
    decreases s, 1int,
{
    let (r, n) = spec_resolve_expression(s, answers);
    match r {
        Err(stop) => (Err(stop), n),
        Ok(tokens) => {
            let (rr, m) = spec_solve_flat(tokens, answers.skip(n as int));
            (rr, (n + m) as nat)
        },
    }
}

/// The three tier passes over a flat equation, and the final extraction
/// of its value.
pub open spec fn spec_solve_flat<V>(tokens: Seq<EquationItem<V>>, answers: Seq<V>) -> (
    Result<V, ReductionStop<V>>,
    nat,
)
{
    let (r1, n1) = spec_eval_operators(tokens, seq![MathOperator::Pow], answers);
    match r1 {
        Err(stop) => (Err(stop), n1),
        Ok(t1) => {
            let (r2, n2) = spec_eval_operators(
                t1,
                seq![MathOperator::Mul, MathOperator::Div, MathOperator::Rem],
                answers.skip(n1 as int),
            );
            match r2 {
                Err(stop) => (Err(stop), (n1 + n2) as nat),
                Ok(t2) => {
                    let (r3, n3) = spec_eval_operators(
                        t2,
                        seq![MathOperator::Add, MathOperator::Sub],
                        answers.skip(n1 + n2 as int),
                    );
                    match r3 {
                        Err(stop) => (Err(stop), (n1 + n2 + n3) as nat),
                        Ok(t3) => {
                            if t3.len() == 0 {
                                (
                                    Err(
                                        ReductionStop::Failed(
                                            ExpressionError::EmptyExpressionLayer,
                                        ),
                                    ),
                                    (n1 + n2 + n3) as nat,
                                )
                            } else {
                                match t3[0] {
                                    EquationItem::Operand(v) => (Ok(v), (n1 + n2 + n3) as nat),
                                    EquationItem::Operator(_) => (
                                        Err(
                                            ReductionStop::Failed(
                                                ExpressionError::ExpectedOperand,
                                            ),
                                        ),
                                        (n1 + n2 + n3) as nat,
                                    ),
                                }
                            }
                        },
                    }
                },
            }
        },
    }
}

fn contains_op(selected: &[MathOperator], op: MathOperator) -> (r: bool)
    ensures
        r == selected@.contains(op),
{
    let mut i: usize = 0;
    while i < selected.len()
        invariant
            i <= selected@.len(),
            forall|j: int| 0 <= j < i ==> selected@[j] != op,
        decreases selected@.len() - i,
    {
        if selected[i] == op {
            return true;
        }
        i += 1;
    }
    false
}

fn eval_pairs_helper<V: Copy>(
    layer: Vec<EquationItem<V>>,
    items: &Vec<EquationItem<V>>,
    i: usize,
    selected: &[MathOperator],
    answers: &Vec<V>,
    k: usize,
) -> (r: (Result<Vec<EquationItem<V>>, ReductionStop<V>>, usize))
    requires
        1 <= i <= items@.len(),
        k <= answers@.len(),
    ensures
        ({
            let (sr, n) = spec_eval_pairs(
                layer@,
                items@.skip(i as int),
                selected@,
                answers@.skip(k as int),
            );
            &&& r.1 == k + n
            &&& r.1 <= answers@.len()
            &&& match (r.0, sr) {
                (Ok(v), Ok(s)) => v@ == s,
                (Err(a), Err(b)) => a == b,
                _ => false,
            }
        }),
    decreases items@.len() - i,
{
    let ghost rest = items@.skip(i as int);
    proof {
        if i < items@.len() {
            assert(rest[0] == items@[i as int]);
        }
        if i + 1 < items@.len() {
            assert(rest[1] == items@[i + 1]);
            assert(rest.skip(2) =~= items@.skip(i + 2));
        }
    }
    if items.len() - i < 2 {
        (Ok(layer), k)
    } else {
        match items[i] {
            EquationItem::Operand(_) => (
                Err(ReductionStop::Failed(ExpressionError::ExpectedOperator)),
                k,
            ),
            EquationItem::Operator(op) => {
                if contains_op(selected, op) {
                    let left_ok = match layer.last() {
                        Some(EquationItem::Operand(_)) => true,
                        _ => false,
                    };
                    if !left_ok {
                        (Err(ReductionStop::Failed(ExpressionError::ExpectedOperand)), k)
                    } else {
                        match items[i + 1] {
                            EquationItem::Operator(_) => (
                                Err(ReductionStop::Failed(ExpressionError::ExpectedOperand)),
                                k,
                            ),
                            EquationItem::Operand(right) => {
                                let left = match layer[layer.len() - 1] {
                                    EquationItem::Operand(v) => v,
                                    EquationItem::Operator(_) => {
                                        proof {
                                            assert(false);
                                        }
                                        right
                                    },
                                };
                                if k == answers.len() {
                                    (Err(ReductionStop::Need(left, op, right)), k)
                                } else {
                                    let solution = answers[k];
                                    proof {
                                        assert(answers@.skip(k as int)[0] == answers@[k as int]);
                                        assert(answers@.skip(k as int).drop_first() =~= answers@.skip(
                                            k + 1,
                                        ));
                                    }
                                    let ghost layer0 = layer@;
                                    let mut layer2 = layer;
                                    layer2.pop();
                                    layer2.push(EquationItem::Operand(solution));
                                    proof {
                                        assert(layer2@ =~= layer0.drop_last().push(
                                            EquationItem::Operand(solution),
                                        ));
                                    }
                                    eval_pairs_helper(layer2, items, i + 2, selected, answers, k + 1)
                                }
                            },
                        }
                    }
                } else {
                    let e0 = equation_push_error_exec(&layer, items[i]);
                    match e0 {
                        Some(e) => (Err(ReductionStop::Failed(e)), k),
                        None => {
                            let mut layer1 = layer;
                            layer1.push(items[i]);
                            let e1 = equation_push_error_exec(&layer1, items[i + 1]);
                            match e1 {
                                Some(e) => (Err(ReductionStop::Failed(e)), k),
                                None => {
                                    let mut layer2 = layer1;
                                    layer2.push(items[i + 1]);
                                    eval_pairs_helper(layer2, items, i + 2, selected, answers, k)
                                },
                            }
                        },
                    }
                }
            },
        }
    }
}

fn equation_push_error_exec<V: Copy>(s: &Vec<EquationItem<V>>, item: EquationItem<V>) -> (r:
    Option<ExpressionError>)
    ensures
        r == equation_push_error(s@, item),
{
    let last_operand = match s.last() {
        Some(EquationItem::Operand(_)) => true,
        _ => false,
    };
    let item_operand = matches!(item, EquationItem::Operand(_));
    if item_operand && last_operand {
        Some(ExpressionError::ExpectedOperator)
    } else if !item_operand && !last_operand {
        Some(ExpressionError::ExpectedOperand)
    } else {
        None
    }
}

} // verus!

verus! {

/// One reduction pass over a flat equation, reducing the selected
/// operators left to right.
pub trait EvaluateOperator<V>: Sized {
    /// What `eval_operators` returns, and how many answers it consumes.
    spec fn eval_operators_spec(&self, selected: Seq<MathOperator>, answers: Seq<V>) -> (
        Result<Seq<EquationItem<V>>, ReductionStop<V>>,
        nat,
    );

    /// Reduces every selected operator, consuming one entry of `answers`
    /// — the raw result of the operation — for each application.
    fn eval_operators(&self, selected: &[MathOperator], answers: &Vec<V>) -> (r: Result<
        Vec<EquationItem<V>>,
        ReductionStop<V>,
    >)
        ensures
            ({
                let (sr, n) = self.eval_operators_spec(selected@, answers@);
                match (r, sr) {
                    (Ok(v), Ok(s)) => v@ == s,
                    (Err(a), Err(b)) => a == b,
                    _ => false,
                }
            }),
    ;
}

impl<V: Copy> EvaluateOperator<V> for Vec<EquationItem<V>> {
    open spec fn eval_operators_spec(&self, selected: Seq<MathOperator>, answers: Seq<V>) -> (
        Result<Seq<EquationItem<V>>, ReductionStop<V>>,
        nat,
    ) {
        spec_eval_operators(self@, selected, answers)
    }

    fn eval_operators(&self, selected: &[MathOperator], answers: &Vec<V>) -> (r: Result<
        Vec<EquationItem<V>>,
        ReductionStop<V>,
    >) {
        proof {
            assert(answers@.skip(0) =~= answers@);
        }
        let (r, _) = eval_operators_helper(self, selected, answers, 0);
        r
    }
}

fn eval_operators_helper<V: Copy>(
    items: &Vec<EquationItem<V>>,
    selected: &[MathOperator],
    answers: &Vec<V>,
    k: usize,
) -> (r: (Result<Vec<EquationItem<V>>, ReductionStop<V>>, usize))
    requires
        k <= answers@.len(),
    ensures
        ({
            let (sr, n) = spec_eval_operators(items@, selected@, answers@.skip(k as int));
            &&& r.1 == k + n
            &&& r.1 <= answers@.len()
            &&& match (r.0, sr) {
                (Ok(v), Ok(s)) => v@ == s,
                (Err(a), Err(b)) => a == b,
                _ => false,
            }
        }),
{
    if items.len() == 0 {
        (Err(ReductionStop::Failed(ExpressionError::EmptyExpressionLayer)), k)
    } else {
        match items[0] {
            EquationItem::Operator(_) => (
                Err(ReductionStop::Failed(ExpressionError::ExpectedOperand)),
                k,
            ),
            EquationItem::Operand(first) => {
                let mut layer: Vec<EquationItem<V>> = Vec::new();
                layer.push(EquationItem::Operand(first));
                proof {
                    assert(layer@ =~= seq![EquationItem::Operand(first)]);
                    assert(items@.skip(1) =~= items@.drop_first());
                }
                let (r, k1) = eval_pairs_helper(layer, items, 1, selected, answers, k);
                match r {
                    Err(stop) => (Err(stop), k1),
                    Ok(out) => {
                        let rest_len = items.len() - 1;
                        if rest_len % 2 == 1 {
                            proof {
                                assert(items@.drop_first().last() == items@[items@.len() - 1]);
                            }
                            match items[items.len() - 1] {
                                EquationItem::Operand(_) => (
                                    Err(ReductionStop::Failed(ExpressionError::ExpectedOperator)),
                                    k1,
                                ),
                                EquationItem::Operator(_) => (
                                    Err(ReductionStop::Failed(ExpressionError::ExpectedOperand)),
                                    k1,
                                ),
                            }
                        } else {
                            (Ok(out), k1)
                        }
                    },
                }
            },
        }
    }
}

/// Solving a nested equation down to one value.
pub trait SolveExpression<V>: Sized {
    /// What `solve` returns, and how many answers it consumes.
    spec fn solve_spec(&self, answers: Seq<V>) -> (Result<V, ReductionStop<V>>, nat);

    /// Resolves every nested sub-expression, reduces the three precedence
    /// tiers in fixed order, and yields the single operand that remains.
    /// Each operator application consumes one entry of `answers` — the
    /// raw result of the operation.
    fn solve(&self, answers: &Vec<V>) -> (r: Result<V, ReductionStop<V>>)
        ensures
            r == self.solve_spec(answers@).0,
    ;
}

impl<V: Copy> SolveExpression<V> for Expression<V> {
    open spec fn solve_spec(&self, answers: Seq<V>) -> (Result<V, ReductionStop<V>>, nat) {
        spec_solve(self@, answers)
    }

    fn solve(&self, answers: &Vec<V>) -> (r: Result<V, ReductionStop<V>>) {
        proof {
            assert(answers@.skip(0) =~= answers@);
        }
        let (r, _) = solve_helper(self, answers, 0);
        r
    }
}

fn solve_helper<V: Copy>(s: &Vec<ExpressionEnum<V>>, answers: &Vec<V>, k: usize) -> (r: (
    Result<V, ReductionStop<V>>,
    usize,
))
    requires
        k <= answers@.len(),
    ensures
        ({
            let (sr, n) = spec_solve(s@, answers@.skip(k as int));
            r.1 == k + n && r.1 <= answers@.len() && r.0 == sr
        }),
    decreases s@, (s@.len() + 1) as int,
{
    proof {
        assert(s@.skip(0) =~= s@);
    }
    let (rr, k1) = resolve_expression_helper(s, 0, answers, k);
    match rr {
        Err(stop) => (Err(stop), k1),
        Ok(tokens) => {
            proof {
                assert(answers@.skip(k as int).skip((k1 - k) as int) =~= answers@.skip(k1 as int));
            }
            let (rv, k2) = solve_flat_helper(tokens, answers, k1);
            (rv, k2)
        },
    }
}

fn resolve_expression_helper<V: Copy>(
    s: &Vec<ExpressionEnum<V>>,
    j: usize,
    answers: &Vec<V>,
    k: usize,
) -> (r: (Result<Vec<EquationItem<V>>, ReductionStop<V>>, usize))
    requires
        j <= s@.len(),
        k <= answers@.len(),
    ensures
        ({
            let (sr, n) = spec_resolve_expression(s@.skip(j as int), answers@.skip(k as int));
            &&& r.1 == k + n
            &&& r.1 <= answers@.len()
            &&& match (r.0, sr) {
                (Ok(v), Ok(tokens)) => v@ == tokens,
                (Err(a), Err(b)) => a == b,
                _ => false,
            }
        }),
    decreases s@, (s@.len() - j) as int,
{
    let ghost rem = s@.skip(j as int);
    proof {
        if j < s@.len() {
            assert(rem[0] == s@[j as int]);
            assert(rem.drop_first() =~= s@.skip(j + 1));
        }
    }
    if j == s.len() {
        let out: Vec<EquationItem<V>> = Vec::new();
        proof {
            assert(out@ =~= Seq::<EquationItem<V>>::empty());
        }
        (Ok(out), k)
    } else {
        match &s[j] {
            ExpressionEnum::Value(v) => {
                let (rr, k1) = resolve_expression_helper(s, j + 1, answers, k);
                match rr {
                    Ok(tokens) => {
                        let mut out: Vec<EquationItem<V>> = Vec::new();
                        out.push(*v);
                        let mut rest = tokens;
                        out.append(&mut rest);
                        (Ok(out), k1)
                    },
                    Err(stop) => (Err(stop), k1),
                }
            },
            ExpressionEnum::Expression(layer) => {
                let (rv, k1) = solve_helper(layer, answers, k);
                match rv {
                    Ok(v) => {
                        proof {
                            assert(answers@.skip(k as int).skip((k1 - k) as int) =~= answers@.skip(
                                k1 as int,
                            ));
                        }
                        let (rr, k2) = resolve_expression_helper(s, j + 1, answers, k1);
                        match rr {
                            Ok(tokens) => {
                                let mut out: Vec<EquationItem<V>> = Vec::new();
                                out.push(EquationItem::Operand(v));
                                let mut rest = tokens;
                                out.append(&mut rest);
                                (Ok(out), k2)
                            },
                            Err(stop) => (Err(stop), k2),
                        }
                    },
                    Err(stop) => (Err(stop), k1),
                }
            },
        }
    }
}

fn solve_flat_helper<V: Copy>(tokens: Vec<EquationItem<V>>, answers: &Vec<V>, k: usize) -> (r: (
    Result<V, ReductionStop<V>>,
    usize,
))
    requires
        k <= answers@.len(),
    ensures
        ({
            let (sr, n) = spec_solve_flat(tokens@, answers@.skip(k as int));
            r.1 == k + n && r.1 <= answers@.len() && r.0 == sr
        }),
{
    let mut tier1: Vec<MathOperator> = Vec::new();
    tier1.push(MathOperator::Pow);
    let mut tier2: Vec<MathOperator> = Vec::new();
    tier2.push(MathOperator::Mul);
    tier2.push(MathOperator::Div);
    tier2.push(MathOperator::Rem);
    let mut tier3: Vec<MathOperator> = Vec::new();
    tier3.push(MathOperator::Add);
    tier3.push(MathOperator::Sub);
    proof {
        assert(tier1@ =~= seq![MathOperator::Pow]);
        assert(tier2@ =~= seq![MathOperator::Mul, MathOperator::Div, MathOperator::Rem]);
        assert(tier3@ =~= seq![MathOperator::Add, MathOperator::Sub]);
    }
    let (r1, k1) = eval_operators_helper(&tokens, tier1.as_slice(), answers, k);
    match r1 {
        Err(stop) => (Err(stop), k1),
        Ok(t1) => {
            proof {
                assert(answers@.skip(k as int).skip((k1 - k) as int) =~= answers@.skip(k1 as int));
            }
            let (r2, k2) = eval_operators_helper(&t1, tier2.as_slice(), answers, k1);
            match r2 {
                Err(stop) => (Err(stop), k2),
                Ok(t2) => {
                    proof {
                        assert(answers@.skip(k as int).skip((k2 - k) as int) =~= answers@.skip(
                            k2 as int,
                        ));
                    }
                    let (r3, k3) = eval_operators_helper(&t2, tier3.as_slice(), answers, k2);
                    match r3 {
                        Err(stop) => (Err(stop), k3),
                        Ok(t3) => {
                            if t3.len() == 0 {
                                (
                                    Err(
                                        ReductionStop::Failed(
                                            ExpressionError::EmptyExpressionLayer,
                                        ),
                                    ),
                                    k3,
                                )
                            } else {
                                match t3[0] {
                                    EquationItem::Operand(v) => (Ok(v), k3),
                                    EquationItem::Operator(_) => (
                                        Err(
                                            ReductionStop::Failed(
                                                ExpressionError::ExpectedOperand,
                                            ),
                                        ),
                                        k3,
                                    ),
                                }
                            }
                        },
                    }
                },
            }
        },
    }
}

} // verus!
