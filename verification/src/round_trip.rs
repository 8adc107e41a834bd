use vstd::prelude::*;

use crate::expression_builder::{
    advance, is_space, lemma_get_next_consumed, lemma_literal_len_bound,
    lemma_number_body_len_bound, operand_position, spec_get_expression,
    spec_get_next, spec_get_operand, spec_get_parentheses, spec_literal_len,
    spec_number_body_len, spec_parse_expression, spec_parse_siblings, spec_whitespace_len,
    ExpressionBuilderError,
};
use crate::expression_item::{
    alternating, complete, has_digit, is_digit, is_literal_body_char, is_operand_like,
    is_operator_item, is_sign_char, literal_body, render_item, render_items_seq, wf_item, wf_items,
    wf_literal, ItemView,
};
use crate::operator::{char_of_operator, is_operator_char, lemma_operator_char_bijection, operator_of_char};

verus! {

/// The digit run consumes exactly a run of literal body characters with
/// at most one decimal point, and stops at whatever follows it.
proof fn lemma_body_scan(body: Seq<char>, rest: Seq<char>, seen_dot: bool)
    requires
        forall|i: int| 0 <= i < body.len() ==> is_literal_body_char(#[trigger] body[i]),
        forall|i: int, j: int|
            0 <= i < j < body.len() ==> !(#[trigger] body[i] == '.' && #[trigger] body[j] == '.'),
        seen_dot ==> forall|i: int| 0 <= i < body.len() ==> #[trigger] body[i] != '.',
        rest.len() > 0 ==> !is_digit(rest[0]) && rest[0] != '.',
    ensures
        spec_number_body_len(body + rest, seen_dot) == body.len(),
    decreases body.len(),
{
    if body.len() == 0 {
        assert(body + rest =~= rest);
        if rest.len() > 0 {
            assert(!(is_digit((body + rest)[0]) || ((body + rest)[0] == '.' && !seen_dot)));
        }
    } else {
        let cs = body + rest;
        assert(cs[0] == body[0]);
        assert(is_literal_body_char(body[0]));
        assert(cs.len() > 0 && (is_digit(cs[0]) || (cs[0] == '.' && !seen_dot)));
        assert(cs.drop_first() =~= body.drop_first() + rest);
        if body[0] == '.' {
            assert forall|i: int| 0 <= i < body.drop_first().len() implies #[trigger] body.drop_first()[i]
                != '.' by {
                assert(body.drop_first()[i] == body[i + 1]);
            }
        }
        lemma_body_scan(body.drop_first(), rest, seen_dot || body[0] == '.');
    }
}

/// An operand attempt on a well-formed literal followed by anything that
/// cannot extend it consumes exactly the literal and accepts it.
proof fn lemma_operand_scan(lit: Seq<char>, rest: Seq<char>)
    requires
        wf_literal(lit),
        rest.len() > 0 ==> !is_digit(rest[0]) && rest[0] != '.',
    ensures
        spec_get_operand(lit + rest) == (Some(lit), lit.len() as nat),
{
    let cs = lit + rest;
    let body = literal_body(lit);
    assert(cs[0] == lit[0]);
    if is_sign_char(lit[0]) {
        assert(body =~= lit.drop_first());
        assert(cs.drop_first() =~= body + rest);
        lemma_body_scan(body, rest, false);
        assert(spec_literal_len(cs) == lit.len());
    } else {
        assert(body =~= lit);
        lemma_body_scan(body, rest, false);
        assert(spec_literal_len(cs) == lit.len());
    }
    assert(cs.take(lit.len() as int) =~= lit);
    assert(has_digit(body));
    let w = choose|i: int| 0 <= i < body.len() && is_digit(#[trigger] body[i]);
    if is_sign_char(lit[0]) {
        assert(lit[w + 1] == body[w]);
        assert(has_digit(lit));
    } else {
        assert(lit[w] == body[w]);
        assert(has_digit(lit));
    }
}

/// A rendering never starts with a whitespace character, a digit, a
/// decimal point, or a closing parenthesis.
proof fn lemma_render_item_head(item: ItemView)
    requires
        wf_item(item),
    ensures
        render_item(item).len() >= 1,
        !is_space(render_item(item)[0]),
        render_item(item)[0] != ')',
        is_operator_item(item) ==> is_operator_char(render_item(item)[0]),
        is_operand_like(item) ==> !is_operator_char(render_item(item)[0]) || is_sign_char(
            render_item(item)[0],
        ),
{
    match item {
        ItemView::Operand(lit) => {
            let body = literal_body(lit);
            let w = choose|i: int| 0 <= i < body.len() && is_digit(#[trigger] body[i]);
            if !is_sign_char(lit[0]) {
                assert(body =~= lit);
                assert(is_literal_body_char(body[0]));
                assert(lit[0] == body[0]);
            }
        },
        ItemView::Operator(op) => {
            assert(render_item(item)[0] == char_of_operator(op));
            lemma_operator_char_bijection();
        },
        ItemView::Parentheses(children) => {
            assert(render_item(item)[0] == '(');
        },
    }
}

} // verus!

verus! {

/// Being in an operand position and being an operand-like item are the
/// two sides of one alternation: parsing a rendered item steps through
/// the same positions the items themselves alternate through.
proof fn lemma_position_of_alternation(acc: Seq<ItemView>, items: Seq<ItemView>)
    requires
        alternating(acc + items),
        items.len() > 0,
    ensures
        operand_position(acc) == is_operand_like(items[0]),
{
    let whole = acc + items;
    if acc.len() == 0 {
        assert(whole[0] == items[0]);
        assert(is_operand_like(whole[0]));
    } else {
        let i = acc.len() - 1;
        assert(whole[i] == acc.last());
        assert(whole[i + 1] == items[0]);
        assert(if i % 2 == 0 {
            is_operand_like(whole[i])
        } else {
            is_operator_item(whole[i])
        });
        assert(if (i + 1) % 2 == 0 {
            is_operand_like(whole[i + 1])
        } else {
            is_operator_item(whole[i + 1])
        });
    }
}

/// One parsing step on the rendering of a well-formed item — followed by
/// anything that cannot extend a number literal — consumes exactly that
/// rendering and yields the item back.
proof fn lemma_get_next_render(item: ItemView, rest: Seq<char>)
    requires
        wf_item(item),
        is_operand_like(item) && rest.len() > 0 ==> !is_digit(rest[0]) && rest[0] != '.',
    ensures
        spec_get_next(render_item(item) + rest, is_operand_like(item)) == (
            Ok::<ItemView, ExpressionBuilderError>(item),
            render_item(item).len() as nat,
        ),
    decreases item, 2int,
{
    let cs = render_item(item) + rest;
    match item {
        ItemView::Operand(lit) => {
            lemma_operand_scan(lit, rest);
            assert(render_item(item) =~= lit);
        },
        ItemView::Operator(op) => {
            assert(cs[0] == char_of_operator(op));
            lemma_operator_char_bijection();
        },
        ItemView::Parentheses(children) => {
            assert(cs[0] == '(');
            assert(spec_number_body_len(cs, false) == 0);
            assert(spec_literal_len(cs) == 0);
            assert(cs.take(0).len() == 0);
            assert(!has_digit(cs.take(0)));
            assert(advance(cs, 0) =~= cs);
            let inner = render_items_seq(children) + seq![')'] + rest;
            assert(advance(cs, 1) =~= inner);
            lemma_parse_siblings_render(children, Seq::empty(), rest);
            assert(Seq::<ItemView>::empty() + children =~= children);
            assert(render_item(item).len() == render_items_seq(children).len() + 2);
        },
    }
}

/// Parsing a group body made of the renderings of well-formed items,
/// closed by `)`, collects exactly those items after the ones already
/// collected.
proof fn lemma_parse_siblings_render(items: Seq<ItemView>, acc: Seq<ItemView>, rest: Seq<char>)
    requires
        wf_items(items),
        alternating(acc + items),
    ensures
        spec_parse_siblings(render_items_seq(items) + seq![')'] + rest, acc) == (
            Ok::<Seq<ItemView>, ExpressionBuilderError>(acc + items),
            (render_items_seq(items).len() + 1) as nat,
        ),
    decreases items, 1int,
{
    let cs = render_items_seq(items) + seq![')'] + rest;
    if items.len() == 0 {
        assert(render_items_seq(items).len() == 0);
        assert(cs =~= seq![')'] + rest);
        assert(cs[0] == ')');
        assert(spec_whitespace_len(cs) == 0);
        assert(advance(cs, 0) =~= cs);
        assert(acc + items =~= acc);
    } else {
        let head = items[0];
        let tail = items.drop_first();
        assert(wf_item(head) && wf_items(tail));
        lemma_render_item_head(head);
        assert(render_items_seq(items) =~= render_item(head) + render_items_seq(tail));
        let rest1 = render_items_seq(tail) + seq![')'] + rest;
        assert(cs =~= render_item(head) + rest1);
        assert(cs[0] == render_item(head)[0]);
        assert(spec_whitespace_len(cs) == 0);
        assert(advance(cs, 0) =~= cs);
        assert(cs.len() > 0 && cs[0] != ')');
        lemma_position_of_alternation(acc, items);
        if is_operand_like(head) && rest1.len() > 0 {
            if tail.len() == 0 {
                assert(rest1[0] == ')');
            } else {
                let whole = acc + items;
                let j = acc.len() as int;
                assert(whole[j] == items[0]);
                assert(whole[j + 1] == items[1]);
                assert(if j % 2 == 0 {
                    is_operand_like(whole[j])
                } else {
                    is_operator_item(whole[j])
                });
                assert(if (j + 1) % 2 == 0 {
                    is_operand_like(whole[j + 1])
                } else {
                    is_operator_item(whole[j + 1])
                });
                assert(is_operator_item(tail[0]));
                assert(wf_item(tail[0]) && wf_items(tail.drop_first()));
                lemma_render_item_head(tail[0]);
                assert(render_items_seq(tail) =~= render_item(tail[0]) + render_items_seq(
                    tail.drop_first(),
                ));
                assert(rest1[0] == render_item(tail[0])[0]);
                assert(is_operator_char(rest1[0]));
            }
        }
        lemma_get_next_render(head, rest1);
        let n = render_item(head).len() as nat;
        assert(n >= 1);
        assert(advance(cs, n) =~= rest1);
        assert(acc.push(head) + tail =~= acc + items);
        lemma_parse_siblings_render(tail, acc.push(head), rest);
    }
}

/// Parsing the renderings of well-formed items at the top level collects
/// exactly those items after the ones already collected.
proof fn lemma_parse_expression_render(items: Seq<ItemView>, acc: Seq<ItemView>)
    requires
        wf_items(items),
        complete(acc + items),
        (acc + items).len() >= 1,
    ensures
        spec_parse_expression(render_items_seq(items), acc) == (
            Ok::<Seq<ItemView>, ExpressionBuilderError>(acc + items),
            render_items_seq(items).len() as nat,
        ),
    decreases items, 2int,
{
    let cs = render_items_seq(items);
    if items.len() == 0 {
        assert(cs.len() == 0);
        assert(spec_whitespace_len(cs) == 0);
        assert(advance(cs, 0) =~= cs);
        let whole = acc + items;
        assert(whole =~= acc);
        let i = whole.len() - 1;
        assert(i % 2 == 0);
        assert(if i % 2 == 0 {
            is_operand_like(whole[i])
        } else {
            is_operator_item(whole[i])
        });
        assert(!is_operator_item(acc.last()));
        assert(!operand_position(acc));
    } else {
        let head = items[0];
        let tail = items.drop_first();
        assert(wf_item(head) && wf_items(tail));
        lemma_render_item_head(head);
        assert(cs =~= render_item(head) + render_items_seq(tail));
        let rest1 = render_items_seq(tail);
        assert(cs[0] == render_item(head)[0]);
        assert(spec_whitespace_len(cs) == 0);
        assert(advance(cs, 0) =~= cs);
        lemma_position_of_alternation(acc, items);
        if is_operand_like(head) && rest1.len() > 0 {
            let whole = acc + items;
            let j = acc.len() as int;
            assert(whole[j] == items[0]);
            assert(whole[j + 1] == items[1]);
            assert(if j % 2 == 0 {
                is_operand_like(whole[j])
            } else {
                is_operator_item(whole[j])
            });
            assert(if (j + 1) % 2 == 0 {
                is_operand_like(whole[j + 1])
            } else {
                is_operator_item(whole[j + 1])
            });
            assert(is_operator_item(tail[0]));
            assert(wf_item(tail[0]));
            lemma_render_item_head(tail[0]);
            assert(render_items_seq(tail) =~= render_item(tail[0]) + render_items_seq(
                tail.drop_first(),
            ));
            assert(rest1[0] == render_item(tail[0])[0]);
            assert(is_operator_char(rest1[0]));
        }
        lemma_get_next_render(head, rest1);
        let n = render_item(head).len() as nat;
        assert(n >= 1);
        assert(advance(cs, n) =~= rest1);
        assert(acc.push(head) + tail =~= acc + items);
        lemma_parse_expression_render(tail, acc.push(head));
    }
}

/// Rendering and reparsing: a nonempty, completed, well-formed sibling
/// sequence — which every tree parsing yields is — parses back from its
/// rendering to itself.
pub proof fn lemma_render_parse_round_trip(items: Seq<ItemView>)
    requires
        wf_items(items),
        complete(items),
        items.len() >= 1,
    ensures
        spec_get_expression(render_items_seq(items)) == Ok::<
            Seq<ItemView>,
            ExpressionBuilderError,
        >(items),
{
    assert(Seq::<ItemView>::empty() + items =~= items);
    lemma_parse_expression_render(items, Seq::empty());
}

/// Round trip: for every expression that parses, parsing the rendering
/// of the parsed tree yields a tree equal to the original.
pub proof fn lemma_parse_render_parse(cs: Seq<char>)
    ensures
        spec_get_expression(cs) matches Ok(items) ==> spec_get_expression(
            render_items_seq(items),
        ) == spec_get_expression(cs),
{
    lemma_parsed_expression_wf(cs);
    if let Ok(items) = spec_get_expression(cs) {
        lemma_render_parse_round_trip(items);
    }
}

} // verus!

verus! {

/// Under alternation, the parsing position is the parity of the length.
proof fn lemma_position_parity(s: Seq<ItemView>)
    requires
        alternating(s),
    ensures
        operand_position(s) == (s.len() % 2 == 0),
{
    if s.len() > 0 {
        let i = s.len() - 1;
        assert(if i % 2 == 0 {
            is_operand_like(s[i])
        } else {
            is_operator_item(s[i])
        });
    }
}

/// Appending an item in its alternation position keeps the alternation.
proof fn lemma_alternating_push(s: Seq<ItemView>, item: ItemView)
    requires
        alternating(s),
        is_operand_like(item) == (s.len() % 2 == 0),
        is_operand_like(item) != is_operator_item(item),
    ensures
        alternating(s.push(item)),
{
    assert forall|i: int| 0 <= i < s.push(item).len() implies (if i % 2 == 0 {
        is_operand_like(#[trigger] s.push(item)[i])
    } else {
        is_operator_item(s.push(item)[i])
    }) by {
        if i < s.len() {
            assert(s.push(item)[i] == s[i]);
            assert(if i % 2 == 0 {
                is_operand_like(s[i])
            } else {
                is_operator_item(s[i])
            });
        } else {
            assert(s.push(item)[i] == item);
        }
    }
}

/// Appending a well-formed item keeps the sequence well formed.
proof fn lemma_wf_items_push(s: Seq<ItemView>, item: ItemView)
    requires
        wf_items(s),
        wf_item(item),
    ensures
        wf_items(s.push(item)),
    decreases s,
{
    if s.len() == 0 {
        assert(s.push(item)[0] == item);
        assert(s.push(item).drop_first() =~= s);
    } else {
        assert(s.push(item)[0] == s[0]);
        assert(s.push(item).drop_first() =~= s.drop_first().push(item));
        lemma_wf_items_push(s.drop_first(), item);
    }
}

/// Every character the digit scan consumes is a digit or a first decimal
/// point.
proof fn lemma_number_chars(cs: Seq<char>, seen_dot: bool)
    ensures
        forall|i: int|
            0 <= i < spec_number_body_len(cs, seen_dot) ==> is_literal_body_char(
                #[trigger] cs[i],
            ),
        forall|i: int, j: int|
            0 <= i < j < spec_number_body_len(cs, seen_dot) ==> !(#[trigger] cs[i] == '.'
                && #[trigger] cs[j] == '.'),
        seen_dot ==> forall|i: int|
            0 <= i < spec_number_body_len(cs, seen_dot) ==> #[trigger] cs[i] != '.',
    decreases cs,
{
    let n = spec_number_body_len(cs, seen_dot);
    lemma_number_body_len_bound(cs, seen_dot);
    if cs.len() > 0 && (is_digit(cs[0]) || (cs[0] == '.' && !seen_dot)) {
        let tail = cs.drop_first();
        lemma_number_body_len_bound(tail, seen_dot || cs[0] == '.');
        lemma_number_chars(tail, seen_dot || cs[0] == '.');
        assert forall|i: int| 0 <= i < n implies is_literal_body_char(#[trigger] cs[i]) by {
            if i > 0 {
                assert(tail[i - 1] == cs[i]);
            }
        }
        assert forall|i: int, j: int|
            0 <= i < j < n implies !(#[trigger] cs[i] == '.' && #[trigger] cs[j] == '.') by {
            if i == 0 {
                if cs[0] == '.' {
                    assert(tail[j - 1] == cs[j]);
                    assert(cs[j] != '.');
                }
            } else {
                assert(tail[i - 1] == cs[i]);
                assert(tail[j - 1] == cs[j]);
            }
        }
        if seen_dot {
            assert forall|i: int| 0 <= i < n implies #[trigger] cs[i] != '.' by {
                if i > 0 {
                    assert(tail[i - 1] == cs[i]);
                }
            }
        }
    }
}

/// Every literal an operand attempt accepts is well formed.
proof fn lemma_get_operand_wf(cs: Seq<char>)
    ensures
        spec_get_operand(cs).0 matches Some(lit) ==> wf_literal(lit),
{
    let n = spec_literal_len(cs);
    lemma_literal_len_bound(cs);
    let lit = cs.take(n as int);
    if has_digit(lit) {
        assert(n >= 1) by {
            if n == 0 {
                assert(!has_digit(cs.take(0)));
            }
        }
        if cs.len() > 0 && is_sign_char(cs[0]) {
            let m = spec_number_body_len(cs.drop_first(), false);
            lemma_number_chars(cs.drop_first(), false);
            assert(lit[0] == cs[0]);
            assert(literal_body(lit) =~= cs.drop_first().take(m as int));
            assert forall|i: int|
                0 <= i < literal_body(lit).len() implies is_literal_body_char(
                #[trigger] literal_body(lit)[i],
            ) by {
                assert(literal_body(lit)[i] == cs.drop_first()[i]);
            }
            assert forall|i: int, j: int|
                0 <= i < j < literal_body(lit).len() implies !(#[trigger] literal_body(lit)[i]
                == '.' && #[trigger] literal_body(lit)[j] == '.') by {
                assert(literal_body(lit)[i] == cs.drop_first()[i]);
                assert(literal_body(lit)[j] == cs.drop_first()[j]);
            }
            let w = choose|i: int| 0 <= i < lit.len() && is_digit(#[trigger] lit[i]);
            assert(!is_digit(lit[0]));
            assert(literal_body(lit)[w - 1] == lit[w]);
            assert(has_digit(literal_body(lit)));
        } else {
            lemma_number_chars(cs, false);
            assert(literal_body(lit) =~= lit);
            assert forall|i: int|
                0 <= i < literal_body(lit).len() implies is_literal_body_char(
                #[trigger] literal_body(lit)[i],
            ) by {
                assert(literal_body(lit)[i] == cs[i]);
            }
            assert forall|i: int, j: int|
                0 <= i < j < literal_body(lit).len() implies !(#[trigger] literal_body(lit)[i]
                == '.' && #[trigger] literal_body(lit)[j] == '.') by {
                assert(literal_body(lit)[i] == cs[i]);
                assert(literal_body(lit)[j] == cs[j]);
            }
        }
    }
}

/// Every item one parsing step yields is well formed, and stands in the
/// position the step parsed it in.
proof fn lemma_get_next_wf(cs: Seq<char>, operand_pos: bool)
    ensures
        spec_get_next(cs, operand_pos).0 matches Ok(item) ==> wf_item(item)
            && is_operand_like(item) == operand_pos && is_operator_item(item) == !operand_pos,
    decreases cs.len(), 2int,
{
    if operand_pos {
        let (lit, n) = spec_get_operand(cs);
        lemma_get_operand_wf(cs);
        if lit is None {
            lemma_get_parentheses_wf(advance(cs, n));
        }
    }
}

/// Every group parsing yields is well formed.
proof fn lemma_get_parentheses_wf(cs: Seq<char>)
    ensures
        spec_get_parentheses(cs).0 matches Ok(Some(item)) ==> wf_item(item)
            && is_operand_like(item) && !is_operator_item(item),
    decreases cs.len(), 1int,
{
    if cs.len() > 0 && cs[0] == '(' {
        assert(alternating(Seq::<ItemView>::empty()));
        assert(wf_items(Seq::<ItemView>::empty()));
        lemma_parse_siblings_wf(advance(cs, 1), Seq::empty());
    }
}

/// A group body grown from well-formed items stays well formed and
/// alternating.
proof fn lemma_parse_siblings_wf(cs: Seq<char>, acc: Seq<ItemView>)
    requires
        alternating(acc),
        wf_items(acc),
    ensures
        spec_parse_siblings(cs, acc).0 matches Ok(items) ==> alternating(items)
            && wf_items(items),
    decreases cs.len(), 3int,
{
    let w = spec_whitespace_len(cs);
    let rest = advance(cs, w);
    if rest.len() == 0 {
    } else if rest[0] == ')' {
    } else {
        let (r, n) = spec_get_next(rest, operand_position(acc));
        match r {
            Ok(item) => {
                lemma_get_next_wf(rest, operand_position(acc));
                lemma_get_next_consumed(rest, operand_position(acc));
                lemma_position_parity(acc);
                lemma_alternating_push(acc, item);
                lemma_wf_items_push(acc, item);
                let step: nat = if n == 0 {
                    1
                } else {
                    n
                };
                lemma_parse_siblings_wf(advance(rest, step), acc.push(item));
            },
            Err(_) => {},
        }
    }
}

/// The top level grown from well-formed items stays well formed and
/// alternating.
proof fn lemma_parse_expression_wf(cs: Seq<char>, acc: Seq<ItemView>)
    requires
        alternating(acc),
        wf_items(acc),
    ensures
        spec_parse_expression(cs, acc).0 matches Ok(items) ==> complete(items) && items.len() >= 1
            && wf_items(items),
    decreases cs.len(), 3int,
{
    let w = spec_whitespace_len(cs);
    let rest = advance(cs, w);
    if rest.len() == 0 {
        if !operand_position(acc) {
            lemma_position_parity(acc);
        }
    } else {
        let (r, n) = spec_get_next(rest, operand_position(acc));
        match r {
            Ok(item) => {
                lemma_get_next_wf(rest, operand_position(acc));
                lemma_get_next_consumed(rest, operand_position(acc));
                lemma_position_parity(acc);
                lemma_alternating_push(acc, item);
                lemma_wf_items_push(acc, item);
                let step: nat = if n == 0 {
                    1
                } else {
                    n
                };
                lemma_parse_expression_wf(advance(rest, step), acc.push(item));
            },
            Err(_) => {},
        }
    }
}

/// Every tree parsing yields is a completed, nonempty alternation of
/// well-formed items.
pub proof fn lemma_parsed_expression_wf(cs: Seq<char>)
    ensures
        spec_get_expression(cs) matches Ok(items) ==> complete(items) && items.len() >= 1
            && wf_items(items),
{
    assert(alternating(Seq::<ItemView>::empty()));
    assert(wf_items(Seq::<ItemView>::empty()));
    lemma_parse_expression_wf(cs, Seq::empty());
}

} // verus!
