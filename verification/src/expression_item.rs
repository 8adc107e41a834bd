use vstd::prelude::*;

use crate::operator::{char_of_operator, Operator};

verus! {

/// A node of the expression tree produced by parsing.
///
/// An operand carries the characters of its numeric literal exactly as they
/// stood in the source (an optional sign, digits, at most one decimal
/// point). The numeric value those characters denote is single-precision
/// floating point, which the library does not compute itself: evaluation
/// asks its caller to convert each literal (see the evaluation module).
#[derive(Debug, PartialEq)]
pub enum ExpressionItem {
    Operand(Vec<char>),
    Operator(Operator),
    Parentheses(Vec<ExpressionItem>),
}

/// The mathematical model of an expression tree node: literals are
/// character sequences, groups are sequences of child models.
pub enum ItemView {
    Operand(Seq<char>),
    Operator(Operator),
    Parentheses(Seq<ItemView>),
}

impl View for ExpressionItem {
    type V = ItemView;

    open spec fn view(&self) -> ItemView
        decreases self,
    {
        match self {
            ExpressionItem::Operand(lit) => ItemView::Operand(lit@),
            ExpressionItem::Operator(op) => ItemView::Operator(*op),
            ExpressionItem::Parentheses(children) => ItemView::Parentheses(items_view(children@)),
        }
    }
}

/// The models of a sequence of tree nodes.
pub open spec fn items_view(s: Seq<ExpressionItem>) -> Seq<ItemView>
    decreases s,
{
    if s.len() == 0 {
        Seq::empty()
    } else {
        seq![s[0]@] + items_view(s.drop_first())
    }
}

/// `items_view` is an index-wise map.
pub proof fn lemma_items_view(s: Seq<ExpressionItem>)
    ensures
        items_view(s).len() == s.len(),
        forall|i: int| 0 <= i < s.len() ==> items_view(s)[i] == #[trigger] s[i]@,
    decreases s,
{
    if s.len() > 0 {
        lemma_items_view(s.drop_first());
        assert(items_view(s) == seq![s[0]@] + items_view(s.drop_first()));
        assert forall|i: int| 0 <= i < s.len() implies items_view(s)[i] == #[trigger] s[i]@ by {
            if i > 0 {
                assert((seq![s[0]@] + items_view(s.drop_first()))[i] == items_view(
                    s.drop_first(),
                )[i - 1]);
                assert(s.drop_first()[i - 1] == s[i]);
            }
        }
    }
}

/// Appending an item appends its model.
pub proof fn lemma_items_view_push(s: Seq<ExpressionItem>, item: ExpressionItem)
    ensures
        items_view(s.push(item)) == items_view(s).push(item@),
{
    lemma_items_view(s.push(item));
    lemma_items_view(s);
    assert forall|i: int| 0 <= i < items_view(s.push(item)).len() implies items_view(
        s.push(item),
    )[i] == items_view(s).push(item@)[i] by {
        assert(items_view(s.push(item))[i] == s.push(item)[i]@);
        if i < s.len() {
            assert(s.push(item)[i] == s[i]);
            assert(items_view(s)[i] == s[i]@);
        }
    }
    assert(items_view(s.push(item)) =~= items_view(s).push(item@));
}

/// Whether `c` is a decimal digit.
pub open spec fn is_digit(c: char) -> bool {
    48 <= c as u32 && c as u32 <= 57
}

/// Whether `c` is a numeric sign.
pub open spec fn is_sign_char(c: char) -> bool {
    c == '+' || c == '-'
}

/// The characters a number literal may contain after its optional sign.
pub open spec fn is_literal_body_char(c: char) -> bool {
    is_digit(c) || c == '.'
}

/// Whether some character of `lit` is a digit.
pub open spec fn has_digit(lit: Seq<char>) -> bool {
    exists|i: int| 0 <= i < lit.len() && is_digit(#[trigger] lit[i])
}

/// The characters of a literal after its optional sign.
pub open spec fn literal_body(lit: Seq<char>) -> Seq<char> {
    if lit.len() > 0 && is_sign_char(lit[0]) {
        lit.drop_first()
    } else {
        lit
    }
}

/// A well-formed number literal: an optional sign, then digits and at most
/// one decimal point, with at least one digit present overall.
pub open spec fn wf_literal(lit: Seq<char>) -> bool {
    &&& lit.len() > 0
    &&& forall|i: int|
        0 <= i < literal_body(lit).len() ==> is_literal_body_char(#[trigger] literal_body(lit)[i])
    &&& forall|i: int, j: int|
        0 <= i < j < literal_body(lit).len() ==> !(#[trigger] literal_body(lit)[i] == '.'
            && #[trigger] literal_body(lit)[j] == '.')
    &&& has_digit(literal_body(lit))
}

/// Whether an item stands in an operand position: a literal or a group.
pub open spec fn is_operand_like(item: ItemView) -> bool {
    match item {
        ItemView::Operand(_) => true,
        ItemView::Operator(_) => false,
        ItemView::Parentheses(_) => true,
    }
}

/// Whether an item is an operator token.
pub open spec fn is_operator_item(item: ItemView) -> bool {
    match item {
        ItemView::Operator(_) => true,
        _ => false,
    }
}

/// Sibling items strictly alternate between operand positions (even
/// indices) and operator positions (odd indices).
pub open spec fn alternating(s: Seq<ItemView>) -> bool {
    forall|i: int|
        0 <= i < s.len() ==> if i % 2 == 0 {
            is_operand_like(#[trigger] s[i])
        } else {
            is_operator_item(#[trigger] s[i])
        }
}

/// A completed sibling sequence: alternating, and not ending on an
/// operator. The empty sequence is allowed; it arises from an empty group.
pub open spec fn complete(s: Seq<ItemView>) -> bool {
    alternating(s) && (s.len() == 0 || s.len() % 2 == 1)
}

/// A well-formed tree node: its number literals are well formed and
/// every group body alternates between operand and operator positions.
/// A group body may still end on an operator — the parser closes a group
/// wherever its `)` stands — and, like the empty group, that defect
/// surfaces at evaluation time.
pub open spec fn wf_item(item: ItemView) -> bool
    decreases item,
{
    match item {
        ItemView::Operand(lit) => wf_literal(lit),
        ItemView::Operator(_) => true,
        ItemView::Parentheses(children) => alternating(children) && wf_items(children),
    }
}

/// Every item of the sequence is well formed.
pub open spec fn wf_items(s: Seq<ItemView>) -> bool
    decreases s,
{
    s.len() == 0 || (wf_item(s[0]) && wf_items(s.drop_first()))
}

/// The rendering of one item: an operand renders as its literal, an
/// operator as its source character, a group as its children's renderings
/// wrapped in parentheses.
pub open spec fn render_item(item: ItemView) -> Seq<char>
    decreases item,
{
    match item {
        ItemView::Operand(lit) => lit,
        ItemView::Operator(op) => seq![char_of_operator(op)],
        ItemView::Parentheses(children) => seq!['('] + render_items_seq(children) + seq![')'],
    }
}

/// The renderings of sibling items, concatenated.
pub open spec fn render_items_seq(s: Seq<ItemView>) -> Seq<char>
    decreases s,
{
    if s.len() == 0 {
        Seq::empty()
    } else {
        render_item(s[0]) + render_items_seq(s.drop_first())
    }
}

/// A fresh vector holding the same characters.
pub fn copy_chars(lit: &Vec<char>) -> (r: Vec<char>)
    ensures
        r@ == lit@,
{
    let mut r: Vec<char> = Vec::new();
    let mut i: usize = 0;
    while i < lit.len()
        invariant
            i <= lit.len(),
            r@ == lit@.take(i as int),
        decreases lit.len() - i,
    {
        r.push(lit[i]);
        i += 1;
        proof {
            assert(lit@.take(i as int) =~= lit@.take(i - 1).push(lit@[i - 1]));
        }
    }
    proof {
        assert(lit@.take(lit@.len() as int) =~= lit@);
    }
    r
}

impl Clone for ExpressionItem {
    /// A clone models the same tree.
    fn clone(&self) -> (r: Self)
        ensures
            r@ == self@,
        decreases *self,
    {
        match self {
            ExpressionItem::Operand(lit) => ExpressionItem::Operand(copy_chars(lit)),
            ExpressionItem::Operator(op) => ExpressionItem::Operator(*op),
            ExpressionItem::Parentheses(children) => ExpressionItem::Parentheses(
                clone_item_vec(children),
            ),
        }
    }
}

/// A fresh vector whose items model the same trees.
fn clone_item_vec(items: &Vec<ExpressionItem>) -> (r: Vec<ExpressionItem>)
    ensures
        items_view(r@) == items_view(items@),
    decreases items@,
{
    let mut out: Vec<ExpressionItem> = Vec::new();
    let mut i: usize = 0;
    proof {
        assert(items@.take(0).len() == 0);
        assert(items_view(out@) =~= items_view(items@.take(0)));
    }
    while i < items.len()
        invariant
            i <= items@.len(),
            items_view(out@) == items_view(items@.take(i as int)),
        decreases items@.len() - i,
    {
        let ghost out0 = out@;
        let cloned_item = items[i].clone();
        proof {
            lemma_items_view_push(out0, cloned_item);
        }
        out.push(cloned_item);
        i += 1;
        proof {
            assert(items@.take(i as int) =~= items@.take(i - 1).push(items@[i - 1]));
            lemma_items_view_push(items@.take(i - 1), items@[i - 1]);
        }
    }
    proof {
        assert(items@.take(items@.len() as int) =~= items@);
    }
    out
}

impl ExpressionItem {
    /// The literal of an operand, if this item is one.
    pub fn operand(self) -> (r: Option<Vec<char>>)
        ensures
            r == match self {
                ExpressionItem::Operand(lit) => Some(lit),
                _ => None::<Vec<char>>,
            },
    {
        match self {
            ExpressionItem::Operand(operand) => Some(operand),
            ExpressionItem::Operator(_) | ExpressionItem::Parentheses(_) => None,
        }
    }

    /// The operator, if this item is an operator token.
    pub fn operator(self) -> (r: Option<Operator>)
        ensures
            r == match self {
                ExpressionItem::Operator(op) => Some(op),
                _ => None::<Operator>,
            },
    {
        match self {
            ExpressionItem::Operator(operator) => Some(operator),
            ExpressionItem::Operand(_) | ExpressionItem::Parentheses(_) => None,
        }
    }

    /// The children of a group, if this item is one.
    pub fn parentheses(self) -> (r: Option<Vec<ExpressionItem>>)
        ensures
            r == match self {
                ExpressionItem::Parentheses(children) => Some(children),
                _ => None::<Vec<ExpressionItem>>,
            },
    {
        match self {
            ExpressionItem::Parentheses(parentheses) => Some(parentheses),
            ExpressionItem::Operator(_) | ExpressionItem::Operand(_) => None,
        }
    }

    /// Renders this item back to source characters.
    pub fn render(&self) -> (r: Vec<char>)
        ensures
            r@ == render_item(self@),
        decreases *self,
    {
        match self {
            ExpressionItem::Operand(lit) => copy_chars(lit),
            ExpressionItem::Operator(op) => {
                let mut r: Vec<char> = Vec::new();
                r.push(op.to_char());
                proof {
                    assert(r@ =~= seq![char_of_operator(*op)]);
                }
                r
            },
            ExpressionItem::Parentheses(children) => {
                let mut r: Vec<char> = Vec::new();
                r.push('(');
                let mut inner = render_items(children);
                r.append(&mut inner);
                r.push(')');
                proof {
                    assert(r@ =~= seq!['('] + render_items_seq(items_view(children@)) + seq![')']);
                }
                r
            },
        }
    }
}

/// Appending an item appends its rendering.
pub proof fn lemma_render_items_seq_push(s: Seq<ItemView>, item: ItemView)
    ensures
        render_items_seq(s.push(item)) == render_items_seq(s) + render_item(item),
    decreases s,
{
    if s.len() == 0 {
        assert(s.push(item)[0] == item);
        assert(s.push(item).drop_first() =~= s);
        assert(render_items_seq(s.push(item)) == render_item(item) + render_items_seq(s));
        assert(render_items_seq(s).len() == 0);
        assert(render_item(item) + render_items_seq(s) =~= render_items_seq(s) + render_item(
            item,
        ));
    } else {
        assert(s.push(item)[0] == s[0]);
        assert(s.push(item).drop_first() =~= s.drop_first().push(item));
        assert(s.push(item).len() > 0);
        assert(render_items_seq(s.push(item)) == render_item(s[0]) + render_items_seq(
            s.drop_first().push(item),
        ));
        lemma_render_items_seq_push(s.drop_first(), item);
        assert(render_items_seq(s.push(item)) == render_item(s[0]) + (render_items_seq(
            s.drop_first(),
        ) + render_item(item)));
        assert(render_items_seq(s) == render_item(s[0]) + render_items_seq(s.drop_first()));
        assert((render_item(s[0]) + render_items_seq(s.drop_first())) + render_item(item)
            =~= render_item(s[0]) + (render_items_seq(s.drop_first()) + render_item(item)));
        assert(render_items_seq(s.push(item)) == render_items_seq(s) + render_item(item));
    }
}

/// Renders a sibling sequence back to source characters, with no
/// surrounding parentheses: the rendering of a whole parsed expression.
pub fn render_items(items: &Vec<ExpressionItem>) -> (r: Vec<char>)
    ensures
        r@ == render_items_seq(items_view(items@)),
    decreases items@,
{
    let mut out: Vec<char> = Vec::new();
    let mut i: usize = 0;
    proof {
        assert(items@.take(0).len() == 0);
        assert(items_view(items@.take(0)).len() == 0);
        assert(out@ =~= render_items_seq(items_view(items@.take(0))));
    }
    while i < items.len()
        invariant
            i <= items@.len(),
            out@ == render_items_seq(items_view(items@.take(i as int))),
        decreases items@.len() - i,
    {
        let mut piece = items[i].render();
        out.append(&mut piece);
        i += 1;
        proof {
            assert(items@.take(i as int) =~= items@.take(i - 1).push(items@[i - 1]));
            lemma_items_view_push(items@.take(i - 1), items@[i - 1]);
            lemma_render_items_seq_push(items_view(items@.take(i - 1)), items@[i - 1]@);
        }
    }
    proof {
        assert(items@.take(items@.len() as int) =~= items@);
    }
    out
}

} // verus!
