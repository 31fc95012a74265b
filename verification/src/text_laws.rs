//! What the texts of symbols and numbers look like.
use vstd::prelude::*;

use crate::canonical::listing;
use crate::error::decimal;
use crate::parse_tree::{KindView, RepeatOp, SymbolView};
use crate::shape::{label, parts, Label};

verus! {

/// How a symbol is written, given how its parts are: a terminal in double quotes, a nonterminal
/// as its name, a choice behind `~`, a name between `~` and `:`, a repetition before its sign,
/// a group in parentheses with single spaces between its parts, and a use of a macro as the
/// macro's name with the arguments in angle brackets, a comma and a space between each two.
pub proof fn texts_go_by_labels(symbol: SymbolView)
    ensures
        match label(symbol) {
            Label::Terminal(name) => symbol.text() == seq!['"'] + name + seq!['"'],
            Label::Nonterminal(name) => symbol.text() == name,
            Label::Chosen => symbol.text() == seq!['~'] + parts(symbol)[0].text(),
            Label::Named(name) => symbol.text() == seq!['~'] + name + seq![':'] + parts(
                symbol,
            )[0].text(),
            Label::Repetition(RepeatOp::Star) => symbol.text() == parts(symbol)[0].text().push('*'),
            Label::Repetition(RepeatOp::Plus) => symbol.text() == parts(symbol)[0].text().push('+'),
            Label::Repetition(RepeatOp::Question) => symbol.text() == parts(symbol)[0].text().push(
                '?',
            ),
            Label::Group => symbol.text() == seq!['('] + listing(parts(symbol), seq![' ']) + seq![
                ')',
            ],
            Label::Use(name) => symbol.text() == name + seq!['<'] + listing(
                parts(symbol),
                seq![',', ' '],
            ) + seq!['>'],
        },
{
    reveal_strlit("\"");
    reveal_strlit("~");
    reveal_strlit(":");
    reveal_strlit("*");
    reveal_strlit("+");
    reveal_strlit("?");
    reveal_strlit("(");
    reveal_strlit(")");
    reveal_strlit("<");
    reveal_strlit(">");
    reveal_strlit(" ");
    reveal_strlit(", ");
    assert("\""@ =~= seq!['"']);
    assert("~"@ =~= seq!['~']);
    assert(":"@ =~= seq![':']);
    assert("("@ =~= seq!['(']);
    assert(")"@ =~= seq![')']);
    assert("<"@ =~= seq!['<']);
    assert(">"@ =~= seq!['>']);
    assert(" "@ =~= seq![' ']);
    assert(", "@ =~= seq![',', ' ']);
    assert("*"@ =~= seq!['*']);
    assert("+"@ =~= seq!['+']);
    assert("?"@ =~= seq!['?']);
    if let KindView::Repeat(_, inner) = symbol.kind {
        assert(inner.text() + seq!['*'] =~= inner.text().push('*'));
        assert(inner.text() + seq!['+'] =~= inner.text().push('+'));
        assert(inner.text() + seq!['?'] =~= inner.text().push('?'));
    }
}

/// The text of two lists in a row is the text of the first, the separator, and the text of the
/// second. A list of one symbol has no separator, and a list of none has no text.
pub proof fn lists_are_written_in_order(
    first: Seq<SymbolView>,
    second: Seq<SymbolView>,
    separator: Seq<char>,
)
    requires
        first.len() > 0,
        second.len() > 0,
    ensures
        listing(first + second, separator) == listing(first, separator) + separator + listing(
            second,
            separator,
        ),
        first.len() == 1 ==> listing(first, separator) == first[0].text(),
        listing(Seq::empty(), separator).len() == 0,
    decreases second.len(),
{
    let joined = first + second;
    let last = second[second.len() - 1];
    assert(joined[joined.len() - 1] == last);
    if second.len() == 1 {
        assert(joined.drop_last() =~= first);
    } else {
        lists_are_written_in_order(first, second.drop_last(), separator);
        assert(joined.drop_last() =~= first + second.drop_last());
        assert(listing(joined, separator) =~= listing(first, separator) + separator + listing(
            second,
            separator,
        ));
    }
}

/// Symbols with the same label whose parts have the same texts, one by one, have the same text.
pub proof fn texts_depend_on_texts(first: SymbolView, second: SymbolView)
    requires
        label(first) == label(second),
        parts(first).len() == parts(second).len(),
        forall|k: int|
            0 <= k < parts(first).len() ==> (#[trigger] parts(first)[k]).text() == parts(
                second,
            )[k].text(),
    ensures
        first.text() == second.text(),
{
    match first.kind {
        KindView::Expr(symbols) => listings_depend_on_texts(symbols, parts(second), " "@),
        KindView::Macro(_, args) => listings_depend_on_texts(args, parts(second), ", "@),
        KindView::Repeat(_, _) | KindView::Choose(_) | KindView::Name(_, _) => {
            assert(parts(first)[0].text() == parts(second)[0].text());
        },
        _ => {},
    }
}

/// Lists whose symbols have the same texts, one by one, have the same text.
proof fn listings_depend_on_texts(
    first: Seq<SymbolView>,
    second: Seq<SymbolView>,
    separator: Seq<char>,
)
    requires
        first.len() == second.len(),
        forall|k: int|
            0 <= k < first.len() ==> (#[trigger] first[k]).text() == second[k].text(),
    ensures
        listing(first, separator) == listing(second, separator),
    decreases first.len(),
{
    if first.len() > 0 {
        let shorter = first.drop_last();
        let other = second.drop_last();
        assert forall|k: int| 0 <= k < shorter.len() implies (#[trigger] shorter[k]).text()
            == other[k].text() by {
            assert(first[k].text() == second[k].text());
        }
        listings_depend_on_texts(shorter, other, separator);
        assert(first[first.len() - 1].text() == second[second.len() - 1].text());
    }
}

/// The number that a text of decimal digits stands for.
pub open spec fn value(digits: Seq<char>) -> int
    decreases digits.len(),
{
    if digits.len() == 0 {
        0
    } else {
        value(digits.drop_last()) * 10 + (digits.last() as int - '0' as int)
    }
}

/// The text of a number is made of decimal digits, without a leading zero if there are two or
/// more of them, and it stands for the number.
pub proof fn numbers_are_read_back(n: nat)
    ensures
        value(decimal(n)) == n,
        decimal(n).len() > 0,
        decimal(n)[0] == '0' ==> n == 0,
        decimal(n).len() > 1 ==> decimal(n)[0] != '0',
        forall|i: int| 0 <= i < decimal(n).len() ==> '0' <= #[trigger] decimal(n)[i] <= '9',
    decreases n,
{
    reveal_strlit("0");
    reveal_strlit("1");
    reveal_strlit("2");
    reveal_strlit("3");
    reveal_strlit("4");
    reveal_strlit("5");
    reveal_strlit("6");
    reveal_strlit("7");
    reveal_strlit("8");
    reveal_strlit("9");
    let text = decimal(n);
    if n < 10 {
        assert(text.len() == 1);
        assert(value(text.drop_last()) == 0);
    } else {
        numbers_are_read_back(n / 10);
        assert(text.drop_last() =~= decimal(n / 10));
    }
}

} // verus!
