use vstd::prelude::*;

use crate::expression_item::{
    has_digit, is_digit, is_operator_item, is_sign_char, items_view, lemma_items_view,
    lemma_items_view_push, ExpressionItem, ItemView,
};
use crate::operator::{is_operator_char, operator_of_char, Operator};

verus! {

/// The ways parsing can fail: a missing operand, a missing operator, or an
/// unterminated group.
#[derive(Debug, PartialEq, Eq, Structural, Clone, Copy)]
pub enum ExpressionBuilderError {
    ExpectedClosingParentheses,
    ExpectedOperand,
    ExpectedOperator,
}

/// The whitespace characters that may stand between tokens.
pub open spec fn is_space(c: char) -> bool {
    c == ' ' || c == '\t' || c == '\n' || c == '\r' || c == '\u{c}'
}

/// The input without its first `n` characters. When `n` overshoots the
/// input the whole input counts as consumed; on the arguments that
/// actually arise `n` never overshoots.
pub open spec fn advance(cs: Seq<char>, n: nat) -> Seq<char> {
    if n <= cs.len() {
        cs.skip(n as int)
    } else {
        Seq::empty()
    }
}

/// How many whitespace characters stand at the head of the input.
pub open spec fn spec_whitespace_len(cs: Seq<char>) -> nat
    decreases cs,
{
    if cs.len() > 0 && is_space(cs[0]) {
        (1 + spec_whitespace_len(cs.drop_first())) as nat
    } else {
        0
    }
}

/// The length of the run of digits — with at most one decimal point — at
/// the head of the input, given whether a point was already consumed.
pub open spec fn spec_number_body_len(cs: Seq<char>, seen_dot: bool) -> nat
    decreases cs,
{
    if cs.len() > 0 && (is_digit(cs[0]) || (cs[0] == '.' && !seen_dot)) {
        (1 + spec_number_body_len(cs.drop_first(), seen_dot || cs[0] == '.')) as nat
    } else {
        0
    }
}

/// How many characters an operand attempt consumes: an optional sign, then
/// the digit run.
pub open spec fn spec_literal_len(cs: Seq<char>) -> nat {
    if cs.len() > 0 && is_sign_char(cs[0]) {
        (1 + spec_number_body_len(cs.drop_first(), false)) as nat
    } else {
        spec_number_body_len(cs, false)
    }
}

/// What an operand attempt yields: the consumed characters count as a
/// number literal exactly when they contain a digit.
pub open spec fn spec_get_operand(cs: Seq<char>) -> (Option<Seq<char>>, nat) {
    let n = spec_literal_len(cs);
    if has_digit(cs.take(n as int)) {
        (Some(cs.take(n as int)), n)
    } else {
        (None::<Seq<char>>, n)
    }
}

/// What an operator attempt yields: one of the six operator characters, or
/// nothing consumed.
pub open spec fn spec_get_operator(cs: Seq<char>) -> (Option<Operator>, nat) {
    if cs.len() > 0 && is_operator_char(cs[0]) {
        (Some(operator_of_char(cs[0])), 1 as nat)
    } else {
        (None::<Operator>, 0 as nat)
    }
}

/// Whether the next item is parsed in operand position, given the items
/// collected so far: at the start of a sequence and after an operator the
/// parser expects an operand, otherwise an operator.
pub open spec fn operand_position(acc: Seq<ItemView>) -> bool {
    acc.len() == 0 || is_operator_item(acc.last())
}

/// One parsing step. In operand position it attempts a number literal,
/// then a parenthesized group, and fails with `ExpectedOperand` when
/// neither is present; in operator position it demands one of the six
/// operator characters and fails with `ExpectedOperator` otherwise.
pub open spec fn spec_get_next(cs: Seq<char>, operand_pos: bool) -> (
    Result<ItemView, ExpressionBuilderError>,
    nat,
)
    decreases cs.len(), 2int,
{
    if operand_pos {
        let (lit, n) = spec_get_operand(cs);
        match lit {
            Some(l) => (Ok(ItemView::Operand(l)), n),
            None => {
                let (g, m) = spec_get_parentheses(advance(cs, n));
                match g {
                    Ok(Some(item)) => (Ok(item), (n + m) as nat),
                    Ok(None) => (Err(ExpressionBuilderError::ExpectedOperand), (n + m) as nat),
                    Err(e) => (Err(e), (n + m) as nat),
                }
            },
        }
    } else {
        let (op, n) = spec_get_operator(cs);
        match op {
            Some(o) => (Ok(ItemView::Operator(o)), n),
            None => (Err(ExpressionBuilderError::ExpectedOperator), 0 as nat),
        }
    }
}

/// Group parsing: consumes a leading `(`, the group's items and the
/// matching `)`; consumes nothing and yields `None` when no `(` is present.
pub open spec fn spec_get_parentheses(cs: Seq<char>) -> (
    Result<Option<ItemView>, ExpressionBuilderError>,
    nat,
)
    decreases cs.len(), 1int,
{
    if cs.len() > 0 && cs[0] == '(' {
        let (r, n) = spec_parse_siblings(advance(cs, 1), Seq::empty());
        match r {
            Ok(items) => (Ok(Some(ItemView::Parentheses(items))), (1 + n) as nat),
            Err(e) => (Err(e), (1 + n) as nat),
        }
    } else {
        (Ok(None::<ItemView>), 0 as nat)
    }
}

/// The body of a group: whitespace is skipped, a `)` closes the group, the
/// end of the input before a `)` is the unterminated-group failure, and
/// otherwise the next item is parsed and collected.
pub open spec fn spec_parse_siblings(cs: Seq<char>, acc: Seq<ItemView>) -> (
    Result<Seq<ItemView>, ExpressionBuilderError>,
    nat,
)
    decreases cs.len(), 3int,
{
    let w = spec_whitespace_len(cs);
    let rest = advance(cs, w);
    if rest.len() == 0 {
        (Err(ExpressionBuilderError::ExpectedClosingParentheses), w)
    } else if rest[0] == ')' {
        (Ok(acc), (w + 1) as nat)
    } else {
        let (r, n) = spec_get_next(rest, operand_position(acc));
        match r {
            Ok(item) => {
                // a successful step consumes at least one character, so the
                // clamp below never takes effect; it makes the descent plain
                let step: nat = if n == 0 { 1 } else { n };
                let (rr, m) = spec_parse_siblings(advance(rest, step), acc.push(item));
                (rr, (w + step + m) as nat)
            },
            Err(e) => (Err(e), (w + n) as nat),
        }
    }
}

/// The top level of parsing: like a group body, but the sequence ends at
/// the end of the input, and an empty result or one ending on an operator
/// is the `ExpectedOperand` failure.
pub open spec fn spec_parse_expression(cs: Seq<char>, acc: Seq<ItemView>) -> (
    Result<Seq<ItemView>, ExpressionBuilderError>,
    nat,
)
    decreases cs.len(), 3int,
{
    let w = spec_whitespace_len(cs);
    let rest = advance(cs, w);
    if rest.len() == 0 {
        if operand_position(acc) {
            (Err(ExpressionBuilderError::ExpectedOperand), w)
        } else {
            (Ok(acc), w)
        }
    } else {
        let (r, n) = spec_get_next(rest, operand_position(acc));
        match r {
            Ok(item) => {
                // a successful step consumes at least one character, so the
                // clamp below never takes effect; it makes the descent plain
                let step: nat = if n == 0 { 1 } else { n };
                let (rr, m) = spec_parse_expression(advance(rest, step), acc.push(item));
                (rr, (w + step + m) as nat)
            },
            Err(e) => (Err(e), (w + n) as nat),
        }
    }
}

/// What parsing a whole source text yields.
pub open spec fn spec_get_expression(cs: Seq<char>) -> Result<
    Seq<ItemView>,
    ExpressionBuilderError,
> {
    spec_parse_expression(cs, Seq::empty()).0
}

/// The number of whitespace characters at the head is no more than the
/// input's length.
pub proof fn lemma_whitespace_len_bound(cs: Seq<char>)
    ensures
        spec_whitespace_len(cs) <= cs.len(),
    decreases cs,
{
    if cs.len() > 0 && is_space(cs[0]) {
        lemma_whitespace_len_bound(cs.drop_first());
    }
}

/// The digit run at the head is no longer than the input.
pub proof fn lemma_number_body_len_bound(cs: Seq<char>, seen_dot: bool)
    ensures
        spec_number_body_len(cs, seen_dot) <= cs.len(),
    decreases cs,
{
    if cs.len() > 0 && (is_digit(cs[0]) || (cs[0] == '.' && !seen_dot)) {
        lemma_number_body_len_bound(cs.drop_first(), seen_dot || cs[0] == '.');
    }
}

/// An operand attempt never consumes more than the input.
pub proof fn lemma_literal_len_bound(cs: Seq<char>)
    ensures
        spec_literal_len(cs) <= cs.len(),
{
    if cs.len() > 0 && is_sign_char(cs[0]) {
        lemma_number_body_len_bound(cs.drop_first(), false);
    } else {
        lemma_number_body_len_bound(cs, false);
    }
}

/// A parsing step consumes no more than the input holds, and at least one
/// character when it succeeds.
pub proof fn lemma_get_next_consumed(cs: Seq<char>, operand_pos: bool)
    ensures
        spec_get_next(cs, operand_pos).1 <= cs.len(),
        spec_get_next(cs, operand_pos).0.is_ok() ==> spec_get_next(cs, operand_pos).1 >= 1,
    decreases cs.len(), 2int,
{
    if operand_pos {
        let n = spec_literal_len(cs);
        lemma_literal_len_bound(cs);
        if has_digit(cs.take(n as int)) {
            if n == 0 {
                assert(cs.take(0).len() == 0);
                assert(!has_digit(cs.take(0)));
            }
        } else {
            lemma_get_parentheses_consumed(advance(cs, n));
        }
    }
}

/// Group parsing consumes no more than the input holds, and at least one
/// character when a group is present.
pub proof fn lemma_get_parentheses_consumed(cs: Seq<char>)
    ensures
        spec_get_parentheses(cs).1 <= cs.len(),
        spec_get_parentheses(cs).0 matches Ok(Some(_)) ==> spec_get_parentheses(cs).1 >= 1,
    decreases cs.len(), 1int,
{
    if cs.len() > 0 && cs[0] == '(' {
        lemma_parse_siblings_consumed(advance(cs, 1), Seq::empty());
    }
}

/// A group body consumes no more than the input holds.
pub proof fn lemma_parse_siblings_consumed(cs: Seq<char>, acc: Seq<ItemView>)
    ensures
        spec_parse_siblings(cs, acc).1 <= cs.len(),
    decreases cs.len(), 3int,
{
    let w = spec_whitespace_len(cs);
    lemma_whitespace_len_bound(cs);
    let rest = advance(cs, w);
    if rest.len() == 0 {
    } else if rest[0] == ')' {
    } else {
        let (r, n) = spec_get_next(rest, operand_position(acc));
        lemma_get_next_consumed(rest, operand_position(acc));
        match r {
            Ok(item) => {
                lemma_parse_siblings_consumed(advance(rest, n), acc.push(item));
            },
            Err(_) => {},
        }
    }
}

} // verus!

verus! {

/// Whether an executable single-item result models a specification one.
pub open spec fn models_item(
    r: Result<ExpressionItem, ExpressionBuilderError>,
    s: Result<ItemView, ExpressionBuilderError>,
) -> bool {
    match (r, s) {
        (Ok(item), Ok(iv)) => item@ == iv,
        (Err(a), Err(b)) => a == b,
        _ => false,
    }
}

/// Whether an executable item-sequence result models a specification one.
pub open spec fn models_items(
    r: Result<Vec<ExpressionItem>, ExpressionBuilderError>,
    s: Result<Seq<ItemView>, ExpressionBuilderError>,
) -> bool {
    match (r, s) {
        (Ok(v), Ok(vs)) => items_view(v@) == vs,
        (Err(a), Err(b)) => a == b,
        _ => false,
    }
}

fn is_space_char(c: char) -> (r: bool)
    ensures
        r == is_space(c),
{
    c == ' ' || c == '\t' || c == '\n' || c == '\r' || c == '\u{c}'
}

fn is_digit_char(c: char) -> (r: bool)
    ensures
        r == is_digit(c),
{
    let u = c as u32;
    48 <= u && u <= 57
}

fn skip_ws(chars: &Vec<char>, pos: usize) -> (r: usize)
    requires
        pos <= chars@.len(),
    ensures
        pos <= r <= chars@.len(),
        r == pos + spec_whitespace_len(chars@.skip(pos as int)),
    decreases chars@.len() - pos,
{
    if pos < chars.len() {
        let c = chars[pos];
        proof {
            assert(chars@.skip(pos as int)[0] == chars@[pos as int]);
        }
        if is_space_char(c) {
            proof {
                assert(chars@.skip(pos as int).drop_first() =~= chars@.skip(pos as int + 1));
            }
            return skip_ws(chars, pos + 1);
        }
    }
    pos
}

fn scan_body(chars: &Vec<char>, pos: usize, seen_dot: bool) -> (r: usize)
    requires
        pos <= chars@.len(),
    ensures
        pos <= r <= chars@.len(),
        r == pos + spec_number_body_len(chars@.skip(pos as int), seen_dot),
    decreases chars@.len() - pos,
{
    if pos < chars.len() {
        let c = chars[pos];
        proof {
            assert(chars@.skip(pos as int)[0] == chars@[pos as int]);
        }
        if is_digit_char(c) || (c == '.' && !seen_dot) {
            proof {
                assert(chars@.skip(pos as int).drop_first() =~= chars@.skip(pos as int + 1));
            }
            return scan_body(chars, pos + 1, seen_dot || c == '.');
        }
    }
    pos
}

fn literal_has_digit(lit: &Vec<char>) -> (r: bool)
    ensures
        r == has_digit(lit@),
{
    let mut i: usize = 0;
    while i < lit.len()
        invariant
            i <= lit@.len(),
            forall|j: int| 0 <= j < i ==> !is_digit(#[trigger] lit@[j]),
        decreases lit@.len() - i,
    {
        if is_digit_char(lit[i]) {
            return true;
        }
        i += 1;
    }
    false
}

fn operand_helper(chars: &Vec<char>, pos: usize) -> (r: (usize, Option<Vec<char>>))
    requires
        pos <= chars@.len(),
    ensures
        ({
            let (lit, n) = spec_get_operand(chars@.skip(pos as int));
            &&& r.0 == pos + n
            &&& r.0 <= chars@.len()
            &&& match (r.1, lit) {
                (Some(v), Some(l)) => v@ == l,
                (None, None) => true,
                _ => false,
            }
        }),
{
    let ghost rem = chars@.skip(pos as int);
    let mut p = pos;
    if p < chars.len() {
        let c = chars[p];
        proof {
            assert(rem[0] == chars@[pos as int]);
        }
        if c == '+' || c == '-' {
            p = p + 1;
            proof {
                assert(rem.drop_first() =~= chars@.skip(p as int));
            }
        }
    }
    let end = scan_body(chars, p, false);
    proof {
        assert(end - pos == spec_literal_len(rem));
    }
    let mut lit: Vec<char> = Vec::new();
    let mut i: usize = pos;
    while i < end
        invariant
            pos <= i <= end,
            end <= chars@.len(),
            lit@ == chars@.subrange(pos as int, i as int),
        decreases end - i,
    {
        lit.push(chars[i]);
        i += 1;
        proof {
            assert(chars@.subrange(pos as int, i as int) =~= chars@.subrange(
                pos as int,
                i - 1,
            ).push(chars@[i - 1]));
        }
    }
    proof {
        assert(lit@ =~= rem.take(end - pos));
    }
    if literal_has_digit(&lit) {
        (end, Some(lit))
    } else {
        (end, None)
    }
}

fn operator_helper(chars: &Vec<char>, pos: usize) -> (r: (usize, Option<Operator>))
    requires
        pos <= chars@.len(),
    ensures
        ({
            let (op, n) = spec_get_operator(chars@.skip(pos as int));
            r.0 == pos + n && r.0 <= chars@.len() && r.1 == op
        }),
{
    if pos < chars.len() {
        let c = chars[pos];
        proof {
            assert(chars@.skip(pos as int)[0] == chars@[pos as int]);
        }
        match Operator::new(&c) {
            Ok(op) => (pos + 1, Some(op)),
            Err(_) => (pos, None),
        }
    } else {
        (pos, None)
    }
}

fn next_helper(chars: &Vec<char>, pos: usize, expects_operand: bool) -> (r: (
    usize,
    Result<ExpressionItem, ExpressionBuilderError>,
))
    requires
        pos <= chars@.len(),
    ensures
        ({
            let (sr, n) = spec_get_next(chars@.skip(pos as int), expects_operand);
            r.0 == pos + n && r.0 <= chars@.len() && models_item(r.1, sr)
        }),
    decreases chars@.len() - pos, 2int,
{
    let ghost rem = chars@.skip(pos as int);
    if expects_operand {
        let (p1, lit) = operand_helper(chars, pos);
        match lit {
            Some(l) => (p1, Ok(ExpressionItem::Operand(l))),
            None => {
                proof {
                    lemma_literal_len_bound(rem);
                    assert(advance(rem, (p1 - pos) as nat) =~= chars@.skip(p1 as int));
                }
                let (p2, g) = parens_helper(chars, p1);
                match g {
                    Ok(Some(item)) => (p2, Ok(item)),
                    Ok(None) => (p2, Err(ExpressionBuilderError::ExpectedOperand)),
                    Err(e) => (p2, Err(e)),
                }
            },
        }
    } else {
        let (p1, op) = operator_helper(chars, pos);
        match op {
            Some(o) => (p1, Ok(ExpressionItem::Operator(o))),
            None => (p1, Err(ExpressionBuilderError::ExpectedOperator)),
        }
    }
}

fn parens_helper(chars: &Vec<char>, pos: usize) -> (r: (
    usize,
    Result<Option<ExpressionItem>, ExpressionBuilderError>,
))
    requires
        pos <= chars@.len(),
    ensures
        ({
            let (sr, n) = spec_get_parentheses(chars@.skip(pos as int));
            &&& r.0 == pos + n
            &&& r.0 <= chars@.len()
            &&& match (r.1, sr) {
                (Ok(Some(item)), Ok(Some(iv))) => item@ == iv,
                (Ok(None), Ok(None)) => true,
                (Err(a), Err(b)) => a == b,
                _ => false,
            }
        }),
    decreases chars@.len() - pos, 1int,
{
    let ghost rem = chars@.skip(pos as int);
    if pos < chars.len() {
        let c = chars[pos];
        proof {
            assert(rem[0] == chars@[pos as int]);
        }
        if c == '(' {
            proof {
                assert(advance(rem, 1) =~= chars@.skip(pos as int + 1));
            }
            let acc: Vec<ExpressionItem> = Vec::new();
            proof {
                assert(items_view(acc@) =~= Seq::<ItemView>::empty());
            }
            let (p1, body) = siblings_helper(chars, pos + 1, acc);
            match body {
                Ok(items) => (p1, Ok(Some(ExpressionItem::Parentheses(items)))),
                Err(e) => (p1, Err(e)),
            }
        } else {
            (pos, Ok(None))
        }
    } else {
        (pos, Ok(None))
    }
}

fn siblings_helper(chars: &Vec<char>, pos: usize, acc: Vec<ExpressionItem>) -> (r: (
    usize,
    Result<Vec<ExpressionItem>, ExpressionBuilderError>,
))
    requires
        pos <= chars@.len(),
    ensures
        ({
            let (sr, n) = spec_parse_siblings(chars@.skip(pos as int), items_view(acc@));
            r.0 == pos + n && r.0 <= chars@.len() && models_items(r.1, sr)
        }),
    decreases chars@.len() - pos, 3int,
{
    let ghost rem = chars@.skip(pos as int);
    let ghost accv = items_view(acc@);
    let p1 = skip_ws(chars, pos);
    proof {
        assert(advance(rem, (p1 - pos) as nat) =~= chars@.skip(p1 as int));
    }
    if p1 == chars.len() {
        (p1, Err(ExpressionBuilderError::ExpectedClosingParentheses))
    } else {
        let c = chars[p1];
        proof {
            assert(chars@.skip(p1 as int)[0] == chars@[p1 as int]);
        }
        if c == ')' {
            (p1 + 1, Ok(acc))
        } else {
            let expects_operand = match acc.last() {
                None => true,
                Some(item) => matches!(item, ExpressionItem::Operator(_)),
            };
            proof {
                lemma_items_view(acc@);
                if acc@.len() > 0 {
                    assert(accv.last() == acc@.last()@);
                }
                assert(expects_operand == operand_position(accv));
            }
            let (p2, next) = next_helper(chars, p1, expects_operand);
            match next {
                Ok(item) => {
                    proof {
                        lemma_get_next_consumed(chars@.skip(p1 as int), expects_operand);
                        assert(p2 - p1 >= 1);
                        assert(advance(chars@.skip(p1 as int), (p2 - p1) as nat) =~= chars@.skip(
                            p2 as int,
                        ));
                        lemma_items_view_push(acc@, item);
                    }
                    let mut acc2 = acc;
                    let ghost itemv = item@;
                    acc2.push(item);
                    let (p3, body) = siblings_helper(chars, p2, acc2);
                    (p3, body)
                },
                Err(e) => (p2, Err(e)),
            }
        }
    }
}

fn expression_helper(chars: &Vec<char>, pos: usize, acc: Vec<ExpressionItem>) -> (r: (
    usize,
    Result<Vec<ExpressionItem>, ExpressionBuilderError>,
))
    requires
        pos <= chars@.len(),
    ensures
        ({
            let (sr, n) = spec_parse_expression(chars@.skip(pos as int), items_view(acc@));
            r.0 == pos + n && r.0 <= chars@.len() && models_items(r.1, sr)
        }),
    decreases chars@.len() - pos, 3int,
{
    let ghost rem = chars@.skip(pos as int);
    let ghost accv = items_view(acc@);
    let p1 = skip_ws(chars, pos);
    proof {
        assert(advance(rem, (p1 - pos) as nat) =~= chars@.skip(p1 as int));
    }
    let expects_operand = match acc.last() {
        None => true,
        Some(item) => matches!(item, ExpressionItem::Operator(_)),
    };
    proof {
        lemma_items_view(acc@);
        if acc@.len() > 0 {
            assert(accv.last() == acc@.last()@);
        }
        assert(expects_operand == operand_position(accv));
    }
    if p1 == chars.len() {
        if expects_operand {
            (p1, Err(ExpressionBuilderError::ExpectedOperand))
        } else {
            (p1, Ok(acc))
        }
    } else {
        let (p2, next) = next_helper(chars, p1, expects_operand);
        match next {
            Ok(item) => {
                proof {
                    lemma_get_next_consumed(chars@.skip(p1 as int), expects_operand);
                    assert(p2 - p1 >= 1);
                    assert(advance(chars@.skip(p1 as int), (p2 - p1) as nat) =~= chars@.skip(
                        p2 as int,
                    ));
                    lemma_items_view_push(acc@, item);
                }
                let mut acc2 = acc;
                acc2.push(item);
                let (p3, body) = expression_helper(chars, p2, acc2);
                (p3, body)
            },
            Err(e) => (p2, Err(e)),
        }
    }
}

/// The recursive-descent parser: the source characters, and the position
/// of the next character to consume.
#[derive(Debug)]
pub struct ExpressionBuilder {
    chars: Vec<char>,
    pos: usize,
}

impl ExpressionBuilder {
    /// The parser never stands past the end of its input.
    pub closed spec fn wf(&self) -> bool {
        self.pos <= self.chars@.len()
    }

    /// The characters not yet consumed.
    pub closed spec fn remaining(&self) -> Seq<char> {
        self.chars@.skip(self.pos as int)
    }

    /// A parser over the characters of `expression`, standing at its
    /// first character.
    pub fn new(expression: &str) -> (b: Self)
        ensures
            b.wf(),
            b.remaining() == expression@,
    {
        let n = expression.unicode_len();
        let mut chars: Vec<char> = Vec::new();
        let mut i: usize = 0;
        while i < n
            invariant
                i <= n,
                n == expression@.len(),
                chars@ == expression@.take(i as int),
            decreases n - i,
        {
            let c = expression.get_char(i);
            chars.push(c);
            i += 1;
            proof {
                assert(expression@.take(i as int) =~= expression@.take(i - 1).push(
                    expression@[i - 1],
                ));
            }
        }
        proof {
            assert(expression@.take(n as int) =~= expression@);
        }
        let b = ExpressionBuilder { chars, pos: 0 };
        proof {
            assert(b.remaining() =~= expression@);
        }
        b
    }

    /// Consumes the whitespace standing at the head of the input.
    pub fn skip_whitespace(&mut self)
        requires
            old(self).wf(),
        ensures
            final(self).wf(),
            final(self).remaining() == advance(
                old(self).remaining(),
                spec_whitespace_len(old(self).remaining()),
            ),
    {
        let p = skip_ws(&self.chars, self.pos);
        proof {
            assert(advance(self.remaining(), spec_whitespace_len(self.remaining())) =~= self.chars@.skip(
                p as int,
            ));
        }
        self.pos = p;
    }

    /// Attempts a number literal: an optional sign, then digits with at
    /// most one decimal point. The characters looked at are consumed
    /// either way; they count as a literal exactly when a digit is among
    /// them.
    pub fn get_operand(&mut self) -> (r: Option<Vec<char>>)
        requires
            old(self).wf(),
        ensures
            final(self).wf(),
            ({
                let (lit, n) = spec_get_operand(old(self).remaining());
                &&& final(self).remaining() == advance(old(self).remaining(), n)
                &&& match (r, lit) {
                    (Some(v), Some(l)) => v@ == l,
                    (None, None) => true,
                    _ => false,
                }
            }),
    {
        let (p, lit) = operand_helper(&self.chars, self.pos);
        proof {
            lemma_literal_len_bound(self.remaining());
            assert(advance(self.remaining(), (p - self.pos) as nat) =~= self.chars@.skip(p as int));
        }
        self.pos = p;
        lit
    }

    /// Attempts one of the six operator characters, consuming it if it
    /// stands at the head of the input.
    pub fn get_operator(&mut self) -> (r: Option<Operator>)
        requires
            old(self).wf(),
        ensures
            final(self).wf(),
            ({
                let (op, n) = spec_get_operator(old(self).remaining());
                final(self).remaining() == advance(old(self).remaining(), n) && r == op
            }),
    {
        let (p, op) = operator_helper(&self.chars, self.pos);
        proof {
            assert(advance(self.remaining(), (p - self.pos) as nat) =~= self.chars@.skip(p as int));
        }
        self.pos = p;
        op
    }

    /// One parsing step, in the position that follows the last collected
    /// item: an operand or group is expected at the start and after an
    /// operator, an operator after an operand or group.
    pub fn get_next(&mut self, vec_last: Option<&ExpressionItem>) -> (r: Result<
        ExpressionItem,
        ExpressionBuilderError,
    >)
        requires
            old(self).wf(),
        ensures
            final(self).wf(),
            ({
                let expects_operand = match vec_last {
                    None => true,
                    Some(item) => is_operator_item(item@),
                };
                let (sr, n) = spec_get_next(old(self).remaining(), expects_operand);
                final(self).remaining() == advance(old(self).remaining(), n) && models_item(r, sr)
            }),
    {
        let expects_operand = match vec_last {
            None => true,
            Some(item) => matches!(item, ExpressionItem::Operator(_)),
        };
        let (p, r) = next_helper(&self.chars, self.pos, expects_operand);
        proof {
            lemma_get_next_consumed(self.remaining(), expects_operand);
            assert(advance(self.remaining(), (p - self.pos) as nat) =~= self.chars@.skip(p as int));
        }
        self.pos = p;
        r
    }

    /// Attempts a parenthesized group: `None` when no `(` stands at the
    /// head, the group when it is closed by `)`, and the
    /// unterminated-group failure when the input ends first.
    pub fn get_parentheses(&mut self) -> (r: Result<
        Option<ExpressionItem>,
        ExpressionBuilderError,
    >)
        requires
            old(self).wf(),
        ensures
            final(self).wf(),
            ({
                let (sr, n) = spec_get_parentheses(old(self).remaining());
                &&& final(self).remaining() == advance(old(self).remaining(), n)
                &&& match (r, sr) {
                    (Ok(Some(item)), Ok(Some(iv))) => item@ == iv,
                    (Ok(None), Ok(None)) => true,
                    (Err(a), Err(b)) => a == b,
                    _ => false,
                }
            }),
    {
        let (p, r) = parens_helper(&self.chars, self.pos);
        proof {
            lemma_get_parentheses_consumed(self.remaining());
            assert(advance(self.remaining(), (p - self.pos) as nat) =~= self.chars@.skip(p as int));
        }
        self.pos = p;
        r
    }

    /// Parses the whole remaining input into the top-level sibling
    /// sequence. An input whose items end on an operator, and an empty
    /// input, fail with `ExpectedOperand`.
    pub fn get_expression(&mut self) -> (r: Result<Vec<ExpressionItem>, ExpressionBuilderError>)
        requires
            old(self).wf(),
        ensures
            final(self).wf(),
            models_items(r, spec_parse_expression(old(self).remaining(), Seq::empty()).0),
    {
        let acc: Vec<ExpressionItem> = Vec::new();
        proof {
            assert(items_view(acc@) =~= Seq::<ItemView>::empty());
        }
        let (p, r) = expression_helper(&self.chars, self.pos, acc);
        self.pos = p;
        r
    }
}

} // verus!
