use vstd::prelude::*;

use crate::checked_operations::{classify, classify_bits, is_zero, is_zero_bits, MathError};
use crate::expression_builder::{spec_get_expression, ExpressionBuilder, ExpressionBuilderError};
use crate::expression_item::{copy_chars, items_view, lemma_items_view, ExpressionItem, ItemView};
use crate::operator::{tier_of, Operator};

verus! {

/// The ways evaluation can fail: a structural defect found during
/// reduction, a wrapped parse error, or a wrapped math error.
#[derive(Debug, PartialEq, Eq, Structural, Clone, Copy)]
pub enum EvalError {
    ExpressionBuilderError(ExpressionBuilderError),
    ExpectedOperand,
    ExpectedOperator,
    MathError(MathError),
}

/// How a parse error surfaces as an evaluation error: the two
/// same-named expectations map onto the evaluation variants, the
/// unterminated-group failure is carried along wrapped.
pub open spec fn eval_error_of_builder(err: ExpressionBuilderError) -> EvalError {
    match err {
        ExpressionBuilderError::ExpectedOperator => EvalError::ExpectedOperator,
        ExpressionBuilderError::ExpectedOperand => EvalError::ExpectedOperand,
        ExpressionBuilderError::ExpectedClosingParentheses => EvalError::ExpressionBuilderError(
            ExpressionBuilderError::ExpectedClosingParentheses,
        ),
    }
}

impl From<ExpressionBuilderError> for EvalError {
    fn from(err: ExpressionBuilderError) -> (r: Self)
        ensures
            r == eval_error_of_builder(err),
    {
        match err {
            ExpressionBuilderError::ExpectedOperator => EvalError::ExpectedOperator,
            ExpressionBuilderError::ExpectedOperand => EvalError::ExpectedOperand,
            err => EvalError::ExpressionBuilderError(err),
        }
    }
}

impl vstd::std_specs::convert::FromSpecImpl<ExpressionBuilderError> for EvalError {
    open spec fn obeys_from_spec() -> bool {
        true
    }

    open spec fn from_spec(err: ExpressionBuilderError) -> EvalError {
        eval_error_of_builder(err)
    }
}

/// What evaluation needs next from its caller. The library performs no
/// primitive float operation itself: the caller answers each request with
/// a single-precision bit pattern and evaluates again.
#[derive(Debug, PartialEq)]
pub enum EvalRequest {
    /// The value that this number literal denotes.
    Number(Vec<char>),
    /// The raw IEEE-754 result of applying the operator to the two
    /// operand values.
    Operation(u32, Operator, u32),
}

/// The outcome of an evaluation attempt: the expression's value as
/// single-precision bits, a failure, or a request for one more entry of
/// the answers transcript.
#[derive(Debug, PartialEq)]
pub enum EvalOutcome {
    Value(u32),
    Failed(EvalError),
    Need(EvalRequest),
}

/// The model of an evaluation request.
pub enum RequestView {
    Number(Seq<char>),
    Operation(u32, Operator, u32),
}

/// The model of an evaluation outcome.
pub enum OutcomeView {
    Value(u32),
    Failed(EvalError),
    Need(RequestView),
}

impl View for EvalRequest {
    type V = RequestView;

    open spec fn view(&self) -> RequestView {
        match self {
            EvalRequest::Number(lit) => RequestView::Number(lit@),
            EvalRequest::Operation(left, op, right) => RequestView::Operation(*left, *op, *right),
        }
    }
}

impl View for EvalOutcome {
    type V = OutcomeView;

    open spec fn view(&self) -> OutcomeView {
        match self {
            EvalOutcome::Value(v) => OutcomeView::Value(*v),
            EvalOutcome::Failed(e) => OutcomeView::Failed(*e),
            EvalOutcome::Need(req) => OutcomeView::Need(req@),
        }
    }
}

/// A token of the flattened sibling sequence that precedence reduction
/// works on: an operand value or an operator.
#[derive(Debug, PartialEq, Eq, Structural, Clone, Copy)]
pub enum EvalToken {
    Number(u32),
    Operation(Operator),
}

/// What evaluating one tree node yields: its value and the number of
/// answers consumed, or an early stop (a failure, or a request for the
/// next answer). An operand consumes one answer — the value of its
/// literal; an operator alone is a structural defect; a group is
/// flattened and reduced.
pub open spec fn spec_eval_item(item: ItemView, answers: Seq<u32>) -> (
    Result<u32, OutcomeView>,
    nat,
)
    decreases item, 0int,
{
    match item {
        ItemView::Operand(lit) => {
            if answers.len() == 0 {
                (Err(OutcomeView::Need(RequestView::Number(lit))), 0 as nat)
            } else {
                (Ok(answers[0]), 1 as nat)
            }
        },
        ItemView::Operator(_) => (Err(OutcomeView::Failed(EvalError::ExpectedOperand)), 0 as nat),
        ItemView::Parentheses(children) => spec_eval_group(children, answers),
    }
}

/// Evaluating a group: resolve every child to a value — recursively for
/// nested groups — then reduce the flat sequence tier by tier, and demand
/// that exactly one operand remains.
pub open spec fn spec_eval_group(children: Seq<ItemView>, answers: Seq<u32>) -> (
    Result<u32, OutcomeView>,
    nat,
)
    decreases children, 1int,
{
    let (r, n) = spec_resolve(children, answers);
    match r {
        Err(stop) => (Err(stop), n),
        Ok(tokens) => {
            let (rr, m) = spec_reduce_tiers(tokens, answers.skip(n as int));
            (rr, (n + m) as nat)
        },
    }
}

/// The resolve pass: operators pass through; every other child — an
/// operand or a nested group — becomes the operand value it evaluates to.
pub open spec fn spec_resolve(children: Seq<ItemView>, answers: Seq<u32>) -> (
    Result<Seq<EvalToken>, OutcomeView>,
    nat,
)
    decreases children, 0int,
{
    if children.len() == 0 {
        (Ok(Seq::<EvalToken>::empty()), 0 as nat)
    } else {
        match children[0] {
            ItemView::Operator(op) => {
                let (r, n) = spec_resolve(children.drop_first(), answers);
                match r {
                    Ok(tokens) => (
                        Ok(seq![EvalToken::Operation(op)] + tokens),
                        n,
                    ),
                    Err(stop) => (Err(stop), n),
                }
            },
            _ => {
                let (r, n) = spec_eval_item(children[0], answers);
                match r {
                    Ok(v) => {
                        let (rr, m) = spec_resolve(
                            children.drop_first(),
                            answers.skip(n as int),
                        );
                        match rr {
                            Ok(tokens) => (
                                Ok(seq![EvalToken::Number(v)] + tokens),
                                (n + m) as nat,
                            ),
                            Err(stop) => (Err(stop), (n + m) as nat),
                        }
                    },
                    Err(stop) => (Err(stop), n),
                }
            },
        }
    }
}

/// One reduction step of a tier pass: applying `op` to the accumulator
/// and the next operand. A division by a zero divisor fails before any
/// answer is consulted; otherwise the raw result — the next answer — is
/// classified.
pub open spec fn spec_apply(left: u32, op: Operator, right: u32, answers: Seq<u32>) -> (
    Result<u32, OutcomeView>,
    nat,
)
{
    if op == Operator::Divide && is_zero_bits(right) {
        (Err(OutcomeView::Failed(EvalError::MathError(MathError::DivisionBy0))), 0 as nat)
    } else if answers.len() == 0 {
        (Err(OutcomeView::Need(RequestView::Operation(left, op, right))), 0 as nat)
    } else {
        match classify_bits(answers[0]) {
            Ok(v) => (Ok(v), 1 as nat),
            Err(m) => (Err(OutcomeView::Failed(EvalError::MathError(m))), 1 as nat),
        }
    }
}

/// The pair walk of one tier pass. `acc` is the operand most recently
/// taken up; each `(operator, operand)` pair either reduces into it (when
/// the operator belongs to the tier) or is emitted unchanged. A pair that
/// does not start with an operator, or an operator with no operand after
/// it, is a structural defect.
pub open spec fn spec_tier_pairs(
    acc: u32,
    emitted: Seq<EvalToken>,
    rest: Seq<EvalToken>,
    tier: int,
    answers: Seq<u32>,
) -> (Result<Seq<EvalToken>, OutcomeView>, nat)
    decreases rest.len(),
{
    if rest.len() == 0 {
        (Ok(emitted.push(EvalToken::Number(acc))), 0 as nat)
    } else {
        match rest[0] {
            EvalToken::Number(_) => (
                Err(OutcomeView::Failed(EvalError::ExpectedOperator)),
                0 as nat,
            ),
            EvalToken::Operation(op) => {
                if rest.len() == 1 {
                    (Err(OutcomeView::Failed(EvalError::ExpectedOperand)), 0 as nat)
                } else {
                    match rest[1] {
                        EvalToken::Operation(_) => (
                            Err(OutcomeView::Failed(EvalError::ExpectedOperand)),
                            0 as nat,
                        ),
                        EvalToken::Number(right) => {
                            if tier_of(op) == tier {
                                let (r, n) = spec_apply(acc, op, right, answers);
                                match r {
                                    Ok(v) => {
                                        let (rr, m) = spec_tier_pairs(
                                            v,
                                            emitted,
                                            rest.skip(2),
                                            tier,
                                            answers.skip(n as int),
                                        );
                                        (rr, (n + m) as nat)
                                    },
                                    Err(stop) => (Err(stop), n),
                                }
                            } else {
                                let (rr, m) = spec_tier_pairs(
                                    right,
                                    emitted.push(EvalToken::Number(acc)).push(
                                        EvalToken::Operation(op),
                                    ),
                                    rest.skip(2),
                                    tier,
                                    answers,
                                );
                                (rr, m)
                            }
                        },
                    }
                }
            },
        }
    }
}

/// One tier pass over a flat sequence: the first token must be an
/// operand — it seeds the accumulator — and the rest is walked in pairs.
pub open spec fn spec_tier_pass(tokens: Seq<EvalToken>, tier: int, answers: Seq<u32>) -> (
    Result<Seq<EvalToken>, OutcomeView>,
    nat,
)
{
    if tokens.len() == 0 {
        (Err(OutcomeView::Failed(EvalError::ExpectedOperand)), 0 as nat)
    } else {
        match tokens[0] {
            EvalToken::Operation(_) => (
                Err(OutcomeView::Failed(EvalError::ExpectedOperand)),
                0 as nat,
            ),
            EvalToken::Number(first) => spec_tier_pairs(
                first,
                Seq::<EvalToken>::empty(),
                tokens.drop_first(),
                tier,
                answers,
            ),
        }
    }
}

/// The three tier passes in fixed order — `^`, then `* / %`, then `+ -` —
/// after which exactly one operand must remain: the group's value.
pub open spec fn spec_reduce_tiers(tokens: Seq<EvalToken>, answers: Seq<u32>) -> (
    Result<u32, OutcomeView>,
    nat,
)
{
    let (r1, n1) = spec_tier_pass(tokens, 1, answers);
    match r1 {
        Err(stop) => (Err(stop), n1),
        Ok(t1) => {
            let (r2, n2) = spec_tier_pass(t1, 2, answers.skip(n1 as int));
            match r2 {
                Err(stop) => (Err(stop), (n1 + n2) as nat),
                Ok(t2) => {
                    let (r3, n3) = spec_tier_pass(t2, 3, answers.skip(n1 + n2 as int));
                    match r3 {
                        Err(stop) => (Err(stop), (n1 + n2 + n3) as nat),
                        Ok(t3) => {
                            if t3.len() == 1 && t3[0] is Number {
                                (Ok(t3[0]->Number_0), (n1 + n2 + n3) as nat)
                            } else if t3.len() == 0 {
                                (
                                    Err(OutcomeView::Failed(EvalError::ExpectedOperand)),
                                    (n1 + n2 + n3) as nat,
                                )
                            } else {
                                (
                                    Err(OutcomeView::Failed(EvalError::ExpectedOperator)),
                                    (n1 + n2 + n3) as nat,
                                )
                            }
                        },
                    }
                },
            }
        },
    }
}

/// What evaluating an item yields, given the answers supplied so far.
pub open spec fn spec_eval(item: ItemView, answers: Seq<u32>) -> OutcomeView {
    match spec_eval_item(item, answers) {
        (Ok(v), _) => OutcomeView::Value(v),
        (Err(stop), _) => stop,
    }
}

/// What evaluating a source text yields: it is parsed, the collected
/// top-level items form the implicit outermost group, and that group is
/// evaluated. A parse failure is wrapped and surfaced unchanged.
pub open spec fn spec_eval_str(cs: Seq<char>, answers: Seq<u32>) -> OutcomeView {
    match spec_get_expression(cs) {
        Err(e) => OutcomeView::Failed(eval_error_of_builder(e)),
        Ok(items) => spec_eval(ItemView::Parentheses(items), answers),
    }
}

} // verus!

verus! {

fn eval_item_helper(item: &ExpressionItem, answers: &Vec<u32>, k: usize) -> (r: (
    Result<u32, EvalOutcome>,
    usize,
))
    requires
        k <= answers@.len(),
    ensures
        ({
            let (sr, n) = spec_eval_item(item@, answers@.skip(k as int));
            &&& r.1 == k + n
            &&& r.1 <= answers@.len()
            &&& match (r.0, sr) {
                (Ok(v), Ok(sv)) => v == sv,
                (Err(stop), Err(s)) => stop@ == s,
                _ => false,
            }
        }),
    decreases *item, 0int,
{
    match item {
        ExpressionItem::Operand(lit) => {
            if k == answers.len() {
                (Err(EvalOutcome::Need(EvalRequest::Number(copy_chars(lit)))), k)
            } else {
                let v = answers[k];
                proof {
                    assert(answers@.skip(k as int)[0] == answers@[k as int]);
                }
                (Ok(v), k + 1)
            }
        },
        ExpressionItem::Operator(_) => (
            Err(EvalOutcome::Failed(EvalError::ExpectedOperand)),
            k,
        ),
        ExpressionItem::Parentheses(children) => eval_group_helper(children, answers, k),
    }
}

fn eval_group_helper(children: &Vec<ExpressionItem>, answers: &Vec<u32>, k: usize) -> (r: (
    Result<u32, EvalOutcome>,
    usize,
))
    requires
        k <= answers@.len(),
    ensures
        ({
            let (sr, n) = spec_eval_group(items_view(children@), answers@.skip(k as int));
            &&& r.1 == k + n
            &&& r.1 <= answers@.len()
            &&& match (r.0, sr) {
                (Ok(v), Ok(sv)) => v == sv,
                (Err(stop), Err(s)) => stop@ == s,
                _ => false,
            }
        }),
    decreases children@, (children@.len() + 1) as int,
{
    proof {
        assert(children@.skip(0) =~= children@);
    }
    let (rr, k1) = eval_resolve(children, 0, answers, k);
    match rr {
        Err(stop) => (Err(stop), k1),
        Ok(tokens) => {
            proof {
                assert(answers@.skip(k as int).skip((k1 - k) as int) =~= answers@.skip(k1 as int));
            }
            eval_reduce_tiers(&tokens, answers, k1)
        },
    }
}

fn eval_resolve(children: &Vec<ExpressionItem>, j: usize, answers: &Vec<u32>, k: usize) -> (r: (
    Result<Vec<EvalToken>, EvalOutcome>,
    usize,
))
    requires
        j <= children@.len(),
        k <= answers@.len(),
    ensures
        ({
            let (sr, n) = spec_resolve(
                items_view(children@.skip(j as int)),
                answers@.skip(k as int),
            );
            &&& r.1 == k + n
            &&& r.1 <= answers@.len()
            &&& match (r.0, sr) {
                (Ok(v), Ok(tokens)) => v@ == tokens,
                (Err(stop), Err(s)) => stop@ == s,
                _ => false,
            }
        }),
    decreases children@, (children@.len() - j) as int,
{
    let ghost rem = children@.skip(j as int);
    proof {
        lemma_items_view(rem);
        if j < children@.len() {
            assert(rem[0] == children@[j as int]);
            assert(items_view(rem)[0] == children@[j as int]@);
            assert(items_view(rem).drop_first() =~= items_view(rem.drop_first()));
            assert(rem.drop_first() =~= children@.skip(j + 1));
        }
    }
    if j == children.len() {
        let out: Vec<EvalToken> = Vec::new();
        proof {
            assert(out@ =~= Seq::<EvalToken>::empty());
        }
        (Ok(out), k)
    } else {
        match &children[j] {
            ExpressionItem::Operator(op) => {
                let (rr, k1) = eval_resolve(children, j + 1, answers, k);
                match rr {
                    Ok(tokens) => {
                        let mut out: Vec<EvalToken> = Vec::new();
                        out.push(EvalToken::Operation(*op));
                        let mut rest = tokens;
                        out.append(&mut rest);
                        (Ok(out), k1)
                    },
                    Err(stop) => (Err(stop), k1),
                }
            },
            _ => {
                let (rv, k1) = eval_item_helper(&children[j], answers, k);
                match rv {
                    Ok(v) => {
                        proof {
                            assert(answers@.skip(k as int).skip((k1 - k) as int) =~= answers@.skip(
                                k1 as int,
                            ));
                        }
                        let (rr, k2) = eval_resolve(children, j + 1, answers, k1);
                        match rr {
                            Ok(tokens) => {
                                let mut out: Vec<EvalToken> = Vec::new();
                                out.push(EvalToken::Number(v));
                                let mut rest = tokens;
                                out.append(&mut rest);
                                (Ok(out), k2)
                            },
                            Err(stop) => (Err(stop), k2),
                        }
                    },
                    Err(stop) => (Err(stop), k1),
                }
            },
        }
    }
}

fn eval_tier_pairs(
    acc: u32,
    emitted: Vec<EvalToken>,
    tokens: &Vec<EvalToken>,
    i: usize,
    tier: u8,
    answers: &Vec<u32>,
    k: usize,
) -> (r: (Result<Vec<EvalToken>, EvalOutcome>, usize))
    requires
        i <= tokens@.len(),
        k <= answers@.len(),
    ensures
        ({
            let (sr, n) = spec_tier_pairs(
                acc,
                emitted@,
                tokens@.skip(i as int),
                tier as int,
                answers@.skip(k as int),
            );
            &&& r.1 == k + n
            &&& r.1 <= answers@.len()
            &&& match (r.0, sr) {
                (Ok(v), Ok(t)) => v@ == t,
                (Err(stop), Err(s)) => stop@ == s,
                _ => false,
            }
        }),
    decreases tokens@.len() - i,
{
    let ghost rest = tokens@.skip(i as int);
    proof {
        if i < tokens@.len() {
            assert(rest[0] == tokens@[i as int]);
        }
        if i + 1 < tokens@.len() {
            assert(rest[1] == tokens@[i + 1]);
            assert(rest.skip(2) =~= tokens@.skip(i + 2));
        }
    }
    if i == tokens.len() {
        let mut out = emitted;
        out.push(EvalToken::Number(acc));
        (Ok(out), k)
    } else {
        match tokens[i] {
            EvalToken::Number(_) => (Err(EvalOutcome::Failed(EvalError::ExpectedOperator)), k),
            EvalToken::Operation(op) => {
                if i + 1 == tokens.len() {
                    (Err(EvalOutcome::Failed(EvalError::ExpectedOperand)), k)
                } else {
                    match tokens[i + 1] {
                        EvalToken::Operation(_) => (
                            Err(EvalOutcome::Failed(EvalError::ExpectedOperand)),
                            k,
                        ),
                        EvalToken::Number(right) => {
                            if op.in_tier(tier) {
                                if op == Operator::Divide && is_zero(right) {
                                    (
                                        Err(
                                            EvalOutcome::Failed(
                                                EvalError::MathError(MathError::DivisionBy0),
                                            ),
                                        ),
                                        k,
                                    )
                                } else if k == answers.len() {
                                    (
                                        Err(
                                            EvalOutcome::Need(
                                                EvalRequest::Operation(acc, op, right),
                                            ),
                                        ),
                                        k,
                                    )
                                } else {
                                    let raw = answers[k];
                                    proof {
                                        assert(answers@.skip(k as int)[0] == answers@[k as int]);
                                        assert(answers@.skip(k as int).skip(1) =~= answers@.skip(
                                            k + 1,
                                        ));
                                    }
                                    match classify(raw) {
                                        Ok(v) => eval_tier_pairs(
                                            v,
                                            emitted,
                                            tokens,
                                            i + 2,
                                            tier,
                                            answers,
                                            k + 1,
                                        ),
                                        Err(m) => (
                                            Err(EvalOutcome::Failed(EvalError::MathError(m))),
                                            k + 1,
                                        ),
                                    }
                                }
                            } else {
                                let mut em = emitted;
                                em.push(EvalToken::Number(acc));
                                em.push(EvalToken::Operation(op));
                                eval_tier_pairs(right, em, tokens, i + 2, tier, answers, k)
                            }
                        },
                    }
                }
            },
        }
    }
}

fn eval_tier_pass(tokens: &Vec<EvalToken>, tier: u8, answers: &Vec<u32>, k: usize) -> (r: (
    Result<Vec<EvalToken>, EvalOutcome>,
    usize,
))
    requires
        k <= answers@.len(),
    ensures
        ({
            let (sr, n) = spec_tier_pass(tokens@, tier as int, answers@.skip(k as int));
            &&& r.1 == k + n
            &&& r.1 <= answers@.len()
            &&& match (r.0, sr) {
                (Ok(v), Ok(t)) => v@ == t,
                (Err(stop), Err(s)) => stop@ == s,
                _ => false,
            }
        }),
{
    if tokens.len() == 0 {
        (Err(EvalOutcome::Failed(EvalError::ExpectedOperand)), k)
    } else {
        match tokens[0] {
            EvalToken::Operation(_) => (Err(EvalOutcome::Failed(EvalError::ExpectedOperand)), k),
            EvalToken::Number(first) => {
                let emitted: Vec<EvalToken> = Vec::new();
                proof {
                    assert(emitted@ =~= Seq::<EvalToken>::empty());
                    assert(tokens@.skip(1) =~= tokens@.drop_first());
                }
                eval_tier_pairs(first, emitted, tokens, 1, tier, answers, k)
            },
        }
    }
}

fn eval_reduce_tiers(tokens: &Vec<EvalToken>, answers: &Vec<u32>, k: usize) -> (r: (
    Result<u32, EvalOutcome>,
    usize,
))
    requires
        k <= answers@.len(),
    ensures
        ({
            let (sr, n) = spec_reduce_tiers(tokens@, answers@.skip(k as int));
            &&& r.1 == k + n
            &&& r.1 <= answers@.len()
            &&& match (r.0, sr) {
                (Ok(v), Ok(sv)) => v == sv,
                (Err(stop), Err(s)) => stop@ == s,
                _ => false,
            }
        }),
{
    let (r1, k1) = eval_tier_pass(tokens, 1, answers, k);
    match r1 {
        Err(stop) => (Err(stop), k1),
        Ok(t1) => {
            proof {
                assert(answers@.skip(k as int).skip((k1 - k) as int) =~= answers@.skip(k1 as int));
            }
            let (r2, k2) = eval_tier_pass(&t1, 2, answers, k1);
            match r2 {
                Err(stop) => (Err(stop), k2),
                Ok(t2) => {
                    proof {
                        assert(answers@.skip(k as int).skip((k2 - k) as int) =~= answers@.skip(
                            k2 as int,
                        ));
                    }
                    let (r3, k3) = eval_tier_pass(&t2, 3, answers, k2);
                    match r3 {
                        Err(stop) => (Err(stop), k3),
                        Ok(t3) => {
                            if t3.len() == 1 {
                                match t3[0] {
                                    EvalToken::Number(v) => (Ok(v), k3),
                                    EvalToken::Operation(_) => (
                                        Err(EvalOutcome::Failed(EvalError::ExpectedOperator)),
                                        k3,
                                    ),
                                }
                            } else if t3.len() == 0 {
                                (Err(EvalOutcome::Failed(EvalError::ExpectedOperand)), k3)
                            } else {
                                (Err(EvalOutcome::Failed(EvalError::ExpectedOperator)), k3)
                            }
                        },
                    }
                },
            }
        },
    }
}

impl ExpressionItem {
    /// Evaluates this tree node. `answers` is the transcript of answers
    /// supplied so far: the value of each number literal and the raw
    /// result of each primitive operation, in the order the library asks
    /// for them. When the transcript runs short the outcome names the
    /// next request; answer it, extend the transcript, and evaluate
    /// again.
    pub fn eval(&self, answers: &Vec<u32>) -> (r: EvalOutcome)
        ensures
            r@ == spec_eval(self@, answers@),
    {
        proof {
            assert(answers@.skip(0) =~= answers@);
        }
        let (res, _) = eval_item_helper(self, answers, 0);
        match res {
            Ok(v) => EvalOutcome::Value(v),
            Err(stop) => stop,
        }
    }
}

/// Parses a source text and evaluates the resulting tree, the collected
/// top-level items forming the implicit outermost group. `answers` is the
/// transcript of answers supplied so far, as for evaluating a tree.
pub fn eval_str(expression: &str, answers: &Vec<u32>) -> (r: EvalOutcome)
    ensures
        r@ == spec_eval_str(expression@, answers@),
{
    let mut builder = ExpressionBuilder::new(expression);
    match builder.get_expression() {
        Ok(items) => {
            let group = ExpressionItem::Parentheses(items);
            group.eval(answers)
        },
        Err(e) => EvalOutcome::Failed(EvalError::from(e)),
    }
}

} // verus!

verus! {

/// Wrapping an expression in one more pair of parentheses changes
/// neither its outcome nor the answers it consumes: group nesting of any
/// depth evaluates to the value of what it wraps.
pub proof fn lemma_group_wrapping_transparent(item: ItemView, answers: Seq<u32>)
    ensures
        spec_eval_item(ItemView::Parentheses(seq![item]), answers) == spec_eval_item(
            item,
            answers,
        ),
        spec_eval(ItemView::Parentheses(seq![item]), answers) == spec_eval(item, answers),
{
    let children = seq![item];
    assert(children[0] == item);
    assert(children.drop_first() =~= Seq::<ItemView>::empty());
    let (r, n) = spec_eval_item(item, answers);
    match children[0] {
        ItemView::Operator(op) => {
            let tokens = seq![EvalToken::Operation(op)] + Seq::<EvalToken>::empty();
            assert(spec_resolve(Seq::<ItemView>::empty(), answers) == (
                Ok::<Seq<EvalToken>, OutcomeView>(Seq::<EvalToken>::empty()),
                0 as nat,
            ));
            assert(spec_resolve(children, answers) == (
                Ok::<Seq<EvalToken>, OutcomeView>(tokens),
                0 as nat,
            ));
            assert(tokens[0] == EvalToken::Operation(op));
            assert(answers.skip(0) =~= answers);
            assert(spec_reduce_tiers(tokens, answers) == (
                Err::<u32, OutcomeView>(OutcomeView::Failed(EvalError::ExpectedOperand)),
                0 as nat,
            ));
        },
        _ => {
            match r {
                Ok(v) => {
                    assert(spec_resolve(Seq::<ItemView>::empty(), answers.skip(n as int)) == (
                        Ok::<Seq<EvalToken>, OutcomeView>(Seq::<EvalToken>::empty()),
                        0 as nat,
                    ));
                    assert(spec_resolve(children, answers) == (
                        Ok::<Seq<EvalToken>, OutcomeView>(
                            seq![EvalToken::Number(v)] + Seq::<EvalToken>::empty(),
                        ),
                        n,
                    ));
                    let tokens = seq![EvalToken::Number(v)] + Seq::<EvalToken>::empty();
                    assert(tokens =~= seq![EvalToken::Number(v)]);
                    assert(tokens.drop_first() =~= Seq::<EvalToken>::empty());
                    let rem = answers.skip(n as int);
                    assert(spec_tier_pairs(v, Seq::<EvalToken>::empty(), tokens.drop_first(), 1, rem)
                        == (
                        Ok::<Seq<EvalToken>, OutcomeView>(
                            Seq::<EvalToken>::empty().push(EvalToken::Number(v)),
                        ),
                        0 as nat,
                    ));
                    assert(Seq::<EvalToken>::empty().push(EvalToken::Number(v)) =~= tokens);
                    assert(spec_tier_pass(tokens, 1, rem) == (
                        Ok::<Seq<EvalToken>, OutcomeView>(tokens),
                        0 as nat,
                    ));
                    assert(rem.skip(0) =~= rem);
                    assert(spec_tier_pass(tokens, 2, rem) == (
                        Ok::<Seq<EvalToken>, OutcomeView>(tokens),
                        0 as nat,
                    ));
                    assert(spec_tier_pass(tokens, 3, rem) == (
                        Ok::<Seq<EvalToken>, OutcomeView>(tokens),
                        0 as nat,
                    ));
                    assert(spec_reduce_tiers(tokens, rem) == (Ok::<u32, OutcomeView>(v), 0 as nat));
                },
                Err(stop) => {
                    assert(spec_resolve(children, answers) == (
                        Err::<Seq<EvalToken>, OutcomeView>(stop),
                        n,
                    ));
                },
            }
        },
    }
}

} // verus!
