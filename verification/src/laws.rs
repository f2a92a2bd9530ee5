//! What holds between the classifier, the reader and the printer.
use vstd::prelude::*;
use crate::model::{is_nested_value, well_nested, Form, Item};
use crate::print::{render_form, render_item};
use crate::read::{
    classify, classify_all, lemma_parse_form_bounds, parse_form, parse_rest, read_items,
    read_texts, Fault,
};
use crate::text::{all_digits, decimal_digits, decimal_value, digit_char, digit_value, is_digit};

verus! {

/// The numeral of a number is made of digits, at least one.
pub proof fn lemma_decimal_digits_are_digits(n: nat)
    ensures
        decimal_digits(n).len() > 0,
        all_digits(decimal_digits(n)),
    decreases n,
{
    if n >= 10 {
        lemma_decimal_digits_are_digits(n / 10);
        assert(is_digit(digit_char(n % 10)));
    }
}

/// Reading the numeral of a number gives the number back.
pub proof fn lemma_decimal_round_trip(n: nat)
    ensures
        decimal_value(decimal_digits(n)) == n,
    decreases n,
{
    let s = decimal_digits(n);
    if n < 10 {
        assert(s.drop_last() =~= Seq::<char>::empty());
        assert(decimal_value(s.drop_last()) == 0);
        assert(digit_value(digit_char(n)) == n);
    } else {
        lemma_decimal_round_trip(n / 10);
        assert(s.drop_last() =~= decimal_digits(n / 10));
        assert(digit_value(digit_char(n % 10)) == n % 10);
    }
}

/// A lexeme's token, printed, is classified as that same token again: the
/// printer's text of a bracket or an atom stands for what was printed.
pub proof fn lemma_print_then_classify(s: Seq<char>, t: Item)
    requires
        classify(s) == Ok::<Item, Fault>(t),
    ensures
        classify(render_item(t)) == Ok::<Item, Fault>(t),
{
    reveal_strlit("(");
    reveal_strlit(")");
    reveal_strlit("[");
    reveal_strlit("]");
    reveal_strlit("nil");
    reveal_strlit("true");
    reveal_strlit("false");
    reveal_strlit(":");
    let r = render_item(t);
    match t {
        Item::Data(Form::Int(n)) => {
            lemma_decimal_digits_are_digits(n);
            lemma_decimal_round_trip(n);
            assert(is_digit(r[0]));
        },
        Item::Data(Form::Keyword(k)) => {
            assert(k == s);
            assert(r =~= s);
        },
        _ => {},
    }
}

/// The tokens that a value is written with: an atom is one token, a
/// container is its opener, the tokens of its children and its closer.
pub open spec fn tokens_of_form(f: Form) -> Seq<Item>
    decreases f, 0nat,
{
    match f {
        Form::List(items) => seq![Item::OpenParen] + tokens_upto(items, items.len()) + seq![
            Item::CloseParen,
        ],
        Form::Vector(items) => seq![Item::OpenBracket] + tokens_upto(items, items.len()) + seq![
            Item::CloseBracket,
        ],
        _ => seq![Item::Data(f)],
    }
}

/// The tokens that an item is written with: a bracket is itself.
pub open spec fn tokens_of_item(i: Item) -> Seq<Item>
    decreases i, 0nat,
{
    match i {
        Item::Data(f) => tokens_of_form(f),
        _ => seq![i],
    }
}

/// The tokens that the first `n` items are written with.
pub open spec fn tokens_upto(items: Seq<Item>, n: nat) -> Seq<Item>
    decreases items, n,
{
    if n == 0 || n > items.len() {
        Seq::empty()
    } else {
        tokens_upto(items, (n - 1) as nat) + tokens_of_item(items[n - 1])
    }
}

/// Whether the tokens `w` stand in `ts` from `pos` on.
pub open spec fn occurs_at(ts: Seq<Item>, pos: nat, w: Seq<Item>) -> bool {
    &&& pos + w.len() <= ts.len()
    &&& forall|j: int| 0 <= j < w.len() ==> ts[pos as int + j] == #[trigger] w[j]
}

/// The tokens of the first `k` items start the tokens of the first `n`.
pub proof fn lemma_tokens_upto_prefix(items: Seq<Item>, k: nat, n: nat)
    requires
        k <= n <= items.len(),
    ensures
        tokens_upto(items, k).len() <= tokens_upto(items, n).len(),
        tokens_upto(items, n).take(tokens_upto(items, k).len() as int) == tokens_upto(items, k),
    decreases n,
{
    if k == n {
        assert(tokens_upto(items, n).take(tokens_upto(items, n).len() as int) =~= tokens_upto(
            items,
            n,
        ));
    } else {
        lemma_tokens_upto_prefix(items, k, (n - 1) as nat);
        let shorter = tokens_upto(items, (n - 1) as nat);
        let len_k = tokens_upto(items, k).len() as int;
        assert(tokens_upto(items, n).take(len_k) =~= shorter.take(len_k));
    }
}

/// Every value is written with at least one token.
pub proof fn lemma_tokens_of_form_nonempty(f: Form)
    ensures
        tokens_of_form(f).len() > 0,
{
}

/// Reading at the place where a well-nested value is written gives the
/// value, with the cursor on its last token.
pub proof fn lemma_read_written_form(ts: Seq<Item>, pos: nat, f: Form)
    requires
        well_nested(f),
        occurs_at(ts, pos, tokens_of_form(f)),
    ensures
        parse_form(ts, pos) == (
            Ok::<Item, Fault>(Item::Data(f)),
            (pos + tokens_of_form(f).len() - 1) as nat,
        ),
    decreases f, 0nat,
{
    let w = tokens_of_form(f);
    assert(ts[pos as int + 0] == w[0]);
    match f {
        Form::List(items) => {
            let body = tokens_upto(items, items.len());
            assert(w.len() == body.len() + 2);
            assert(ts[pos as int + (body.len() as int + 1)] == w[body.len() as int + 1]);
            assert forall|j: int| 0 <= j < body.len() implies ts[pos + 1 + j] == #[trigger] body[j] by {
                assert(ts[pos + (j + 1)] == w[j + 1]);
            }
            assert(items.take(0) =~= Seq::<Item>::empty());
            lemma_read_written_rest(ts, pos + 1, items, 0, Item::CloseParen);
        },
        Form::Vector(items) => {
            let body = tokens_upto(items, items.len());
            assert(w.len() == body.len() + 2);
            assert(ts[pos as int + (body.len() as int + 1)] == w[body.len() as int + 1]);
            assert forall|j: int| 0 <= j < body.len() implies ts[pos + 1 + j] == #[trigger] body[j] by {
                assert(ts[pos + (j + 1)] == w[j + 1]);
            }
            assert(items.take(0) =~= Seq::<Item>::empty());
            lemma_read_written_rest(ts, pos + 1, items, 0, Item::CloseBracket);
        },
        _ => {},
    }
}

/// Reading on inside a container, after its first `k` children, gives all
/// its children, with the cursor on its closer.
pub proof fn lemma_read_written_rest(
    ts: Seq<Item>,
    base: nat,
    items: Seq<Item>,
    k: nat,
    closer: Item,
)
    requires
        k <= items.len(),
        closer == Item::CloseParen || closer == Item::CloseBracket,
        forall|i: int| 0 <= i < items.len() ==> is_nested_value(#[trigger] items[i]),
        occurs_at(ts, base, tokens_upto(items, items.len())),
        base + tokens_upto(items, items.len()).len() < ts.len(),
        ts[base as int + tokens_upto(items, items.len()).len() as int] == closer,
    ensures
        parse_rest(ts, base + tokens_upto(items, k).len(), closer, items.take(k as int)) == (
            Ok::<Seq<Item>, Fault>(items),
            base + tokens_upto(items, items.len()).len(),
        ),
    decreases items, items.len() - k,
{
    let n = items.len();
    let all = tokens_upto(items, n);
    let here = base + tokens_upto(items, k).len();
    lemma_tokens_upto_prefix(items, k, n);
    if k == n {
        assert(items.take(k as int) =~= items);
        assert(parse_form(ts, here) == (Ok::<Item, Fault>(closer), here));
    } else {
        let c = items[k as int];
        let w = tokens_of_item(c);
        let next = tokens_upto(items, k + 1);
        lemma_tokens_upto_prefix(items, k + 1, n);
        assert(next == tokens_upto(items, k) + w);
        assert(is_nested_value(c));
        assert forall|j: int| 0 <= j < w.len() implies ts[here + j] == #[trigger] w[j] by {
            let at = tokens_upto(items, k).len() + j;
            assert(all.take(next.len() as int)[at] == next[at]);
            assert(ts[base + at] == all[at]);
        }
        assert(occurs_at(ts, here, w));
        match c {
            Item::Data(g) => {
                lemma_tokens_of_form_nonempty(g);
                lemma_read_written_form(ts, here, g);
            },
            _ => {},
        }
        assert(parse_form(ts, here) == (Ok::<Item, Fault>(c), (here + w.len() - 1) as nat));
        let after = (here + w.len() - 1) as nat;
        assert(c != closer && c != Item::CloseParen && c != Item::CloseBracket);
        assert(after + 1 == base + next.len());
        assert(items.take(k as int).push(c) =~= items.take(k as int + 1));
        lemma_read_written_rest(ts, base, items, k + 1, closer);
    }
}

/// Reading the tokens that a well-nested value is written with gives the
/// value back.
pub proof fn lemma_read_written(f: Form)
    requires
        well_nested(f),
    ensures
        read_items(tokens_of_form(f)) == Ok::<Form, Fault>(f),
{
    lemma_read_written_form(tokens_of_form(f), 0, f);
}

/// Whether a token's text is classified as that token.
pub open spec fn token_prints(t: Item) -> bool {
    classify(render_item(t)) == Ok::<Item, Fault>(t)
}

/// Whether a value is well nested and each atom in it is classified, from
/// its own text, as itself.
pub open spec fn readable(f: Form) -> bool
    decreases f, 0nat,
{
    match f {
        Form::List(items) => forall|i: int|
            0 <= i < items.len() ==> readable_item(#[trigger] items[i]),
        Form::Vector(items) => forall|i: int|
            0 <= i < items.len() ==> readable_item(#[trigger] items[i]),
        _ => token_prints(Item::Data(f)),
    }
}

/// Whether an item is a readable value.
pub open spec fn readable_item(i: Item) -> bool
    decreases i, 1nat,
{
    match i {
        Item::Data(f) => readable(f),
        _ => false,
    }
}

/// Whether an item is one of the four brackets.
pub open spec fn is_bracket(i: Item) -> bool {
    i == Item::OpenParen || i == Item::CloseParen || i == Item::OpenBracket || i
        == Item::CloseBracket
}

/// Whether each token is a bracket or a readable value.
pub open spec fn plain(ts: Seq<Item>) -> bool {
    forall|i: int| 0 <= i < ts.len() ==> is_bracket(#[trigger] ts[i]) || readable_item(ts[i])
}

/// A readable value is well nested.
pub proof fn lemma_readable_is_well_nested(f: Form)
    requires
        readable(f),
    ensures
        well_nested(f),
    decreases f,
{
    match f {
        Form::List(items) => {
            assert forall|i: int| 0 <= i < items.len() implies is_nested_value(
                #[trigger] items[i],
            ) by {
                assert(readable_item(items[i]));
                match items[i] {
                    Item::Data(g) => lemma_readable_is_well_nested(g),
                    _ => {},
                }
            }
        },
        Form::Vector(items) => {
            assert forall|i: int| 0 <= i < items.len() implies is_nested_value(
                #[trigger] items[i],
            ) by {
                assert(readable_item(items[i]));
                match items[i] {
                    Item::Data(g) => lemma_readable_is_well_nested(g),
                    _ => {},
                }
            }
        },
        _ => {},
    }
}

/// From plain tokens the reader hands out a closer or a readable value.
pub proof fn lemma_parse_form_readable(ts: Seq<Item>, pos: nat)
    requires
        plain(ts),
    ensures
        parse_form(ts, pos).0 matches Ok(t) ==> t == Item::CloseParen || t == Item::CloseBracket
            || readable_item(t),
    decreases ts.len() - pos, 0nat,
{
    if pos < ts.len() {
        assert(is_bracket(ts[pos as int]) || readable_item(ts[pos as int]));
        if ts[pos as int] == Item::OpenParen {
            lemma_parse_rest_readable(ts, pos + 1, Item::CloseParen, Seq::empty());
        } else if ts[pos as int] == Item::OpenBracket {
            lemma_parse_rest_readable(ts, pos + 1, Item::CloseBracket, Seq::empty());
        }
    }
}

/// From plain tokens the reader collects readable children only.
pub proof fn lemma_parse_rest_readable(ts: Seq<Item>, pos: nat, closer: Item, acc: Seq<Item>)
    requires
        plain(ts),
        forall|i: int| 0 <= i < acc.len() ==> readable_item(#[trigger] acc[i]),
    ensures
        parse_rest(ts, pos, closer, acc).0 matches Ok(items) ==> forall|i: int|
            0 <= i < items.len() ==> readable_item(#[trigger] items[i]),
    decreases ts.len() - pos, 1nat,
{
    lemma_parse_form_readable(ts, pos);
    lemma_parse_form_bounds(ts, pos);
    match parse_form(ts, pos) {
        (Ok(t), p) => {
            if t != closer && t != Item::CloseParen && t != Item::CloseBracket {
                lemma_parse_rest_readable(ts, p + 1, closer, acc.push(t));
            }
        },
        _ => {},
    }
}

/// The tokens that lexemes are classified as are plain.
pub proof fn lemma_classify_all_plain(lexemes: Seq<Seq<char>>, items: Seq<Item>)
    requires
        classify_all(lexemes) == Ok::<Seq<Item>, Fault>(items),
    ensures
        plain(items),
    decreases lexemes.len(),
{
    if lexemes.len() > 0 {
        match classify_all(lexemes.drop_last()) {
            Ok(head) => {
                lemma_classify_all_plain(lexemes.drop_last(), head);
                match classify(lexemes.last()) {
                    Ok(t) => {
                        lemma_print_then_classify(lexemes.last(), t);
                        assert(is_bracket(t) || readable_item(t));
                        assert(items == head.push(t));
                    },
                    Err(_) => {},
                }
            },
            Err(_) => {},
        }
    }
}

/// A value that is read from lexemes is readable, and so well nested: no
/// bracket is ever kept as a child.
pub proof fn lemma_read_is_readable(lexemes: Seq<Seq<char>>, f: Form)
    requires
        read_texts(lexemes) == Ok::<Form, Fault>(f),
    ensures
        readable(f),
        well_nested(f),
{
    match classify_all(lexemes) {
        Ok(items) => {
            lemma_classify_all_plain(lexemes, items);
            lemma_parse_form_readable(items, 0);
            lemma_readable_is_well_nested(f);
        },
        Err(_) => {},
    }
}

/// The texts of tokens, in order.
pub open spec fn printed(ws: Seq<Item>) -> Seq<Seq<char>> {
    Seq::new(ws.len(), |i: int| render_item(ws[i]))
}

/// Tokens that print are classified, from their texts, as themselves.
pub proof fn lemma_classify_printed(ws: Seq<Item>)
    requires
        forall|i: int| 0 <= i < ws.len() ==> token_prints(#[trigger] ws[i]),
    ensures
        classify_all(printed(ws)) == Ok::<Seq<Item>, Fault>(ws),
    decreases ws.len(),
{
    if ws.len() > 0 {
        lemma_classify_printed(ws.drop_last());
        assert(printed(ws).drop_last() =~= printed(ws.drop_last()));
        assert(printed(ws).last() == render_item(ws.last()));
        assert(token_prints(ws.last()));
        assert(ws.drop_last().push(ws.last()) =~= ws);
    } else {
        assert(ws =~= Seq::<Item>::empty());
    }
}

/// Every token that a readable value is written with prints.
pub proof fn lemma_written_tokens_print(f: Form)
    requires
        readable(f),
    ensures
        forall|j: int|
            0 <= j < tokens_of_form(f).len() ==> token_prints(#[trigger] tokens_of_form(f)[j]),
    decreases f, 0nat,
{
    reveal_strlit("(");
    reveal_strlit(")");
    reveal_strlit("[");
    reveal_strlit("]");
    assert(token_prints(Item::OpenParen));
    assert(token_prints(Item::CloseParen));
    assert(token_prints(Item::OpenBracket));
    assert(token_prints(Item::CloseBracket));
    let w = tokens_of_form(f);
    match f {
        Form::List(items) => {
            lemma_written_upto_print(items, items.len());
            let body = tokens_upto(items, items.len());
            assert forall|j: int| 0 <= j < w.len() implies token_prints(#[trigger] w[j]) by {
                if 0 < j <= body.len() {
                    assert(w[j] == body[j - 1]);
                }
            }
        },
        Form::Vector(items) => {
            lemma_written_upto_print(items, items.len());
            let body = tokens_upto(items, items.len());
            assert forall|j: int| 0 <= j < w.len() implies token_prints(#[trigger] w[j]) by {
                if 0 < j <= body.len() {
                    assert(w[j] == body[j - 1]);
                }
            }
        },
        _ => {},
    }
}

/// Every token that the first `n` of readable items are written with prints.
pub proof fn lemma_written_upto_print(items: Seq<Item>, n: nat)
    requires
        n <= items.len(),
        forall|i: int| 0 <= i < items.len() ==> readable_item(#[trigger] items[i]),
    ensures
        forall|j: int|
            0 <= j < tokens_upto(items, n).len() ==> token_prints(
                #[trigger] tokens_upto(items, n)[j],
            ),
    decreases items, n,
{
    if n > 0 {
        lemma_written_upto_print(items, (n - 1) as nat);
        assert(readable_item(items[n - 1]));
        let head = tokens_upto(items, (n - 1) as nat);
        let last = tokens_of_item(items[n - 1]);
        let w = tokens_upto(items, n);
        match items[n - 1] {
            Item::Data(g) => {
                lemma_written_tokens_print(g);
                assert(last == tokens_of_form(g));
            },
            _ => {},
        }
        assert(w == head + last);
        assert forall|j: int| 0 <= j < w.len() implies token_prints(#[trigger] w[j]) by {
            if j < head.len() {
                assert(w[j] == head[j]);
            } else {
                assert(w[j] == last[j - head.len()]);
                assert(token_prints(last[j - head.len()]));
            }
        }
    }
}

/// A value that is read from lexemes is read again from the texts of the
/// tokens it is written with: the printer's pieces, taken one by one, stand
/// for the value that was printed.
pub proof fn lemma_read_printed_tokens(lexemes: Seq<Seq<char>>, f: Form)
    requires
        read_texts(lexemes) == Ok::<Form, Fault>(f),
    ensures
        read_texts(printed(tokens_of_form(f))) == Ok::<Form, Fault>(f),
{
    lemma_read_is_readable(lexemes, f);
    lemma_written_tokens_print(f);
    lemma_classify_printed(tokens_of_form(f));
    lemma_read_written(f);
}

} // verus!
