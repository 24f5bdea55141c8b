//! The shape of the trees that the parser builds, and what follows from it:
//! such a tree always folds, and into a well-formed symbol that has a
//! mangled name.

use vstd::prelude::*;
use crate::error::MangleError;
use crate::fold::{fold, fold_each, fold_qualifiers, parsed_symbol, qualifier};
use crate::grammar::{
    generic_items, keyword_at, leaf, looking_at, node, parameter_items, parse_element,
    parse_function, parse_segment, parse_ty_element, parse_type, path_segments, peek,
    qualifiers, skip_spaces, type_words, word_end, PairView, Parsed, Rule,
};
use crate::mangler::{all_supported, supported};
use crate::symbol::SymbolView;

verus! {

/// Whether a tree has the shape of a tree of the grammar: its nodes are of
/// the kinds, and hold the nodes, that the fold asks for, and each of its
/// qualified names has a segment.
pub open spec fn grammatical(pair: PairView) -> bool
    decreases pair,
{
    match pair.rule {
        Rule::Type => true,
        Rule::Namespace => pair.inner.len() >= 1 && forall|i: int|
            0 <= i < pair.inner.len() ==> grammatical(#[trigger] pair.inner[i]),
        Rule::Generic => forall|i: int|
            0 <= i < pair.inner.len() ==> grammatical(#[trigger] pair.inner[i]),
        Rule::Element => pair.inner.len() >= 1 && grammatical(pair.inner[0]),
        Rule::TyElement => {
            &&& pair.inner.len() >= 1
            &&& grammatical(pair.inner[0])
            &&& forall|i: int|
                1 <= i < pair.inner.len() ==> qualifier((#[trigger] pair.inner[i]).rule) is Ok
        },
        Rule::Function => {
            &&& pair.inner.len() >= 1
            &&& grammatical(pair.inner[0])
            &&& forall|i: int|
                1 <= i < pair.inner.len() ==> grammatical(#[trigger] pair.inner[i]) || (i
                    == pair.inner.len() - 1 && pair.inner[i].rule == Rule::Const)
        },
        _ => false,
    }
}

/// Whether every tree of a list has the shape of a tree of the grammar.
pub open spec fn all_grammatical(list: Seq<PairView>) -> bool {
    forall|i: int| 0 <= i < list.len() ==> grammatical(#[trigger] list[i])
}

/// A tree of the grammar folds, and into a supported, well-formed symbol.
pub proof fn lemma_grammatical_folds(pair: PairView)
    requires
        grammatical(pair),
    ensures
        fold(pair) matches Ok(symbol) && supported(symbol) && symbol.well_formed(),
    decreases pair, 0nat,
{
    match pair.rule {
        Rule::Namespace => {
            lemma_grammatical_fold_each(pair.inner, 0, pair.inner.len() as int);
        },
        Rule::Generic => {
            lemma_grammatical_fold_each(pair.inner, 0, pair.inner.len() as int);
        },
        Rule::Element => {
            lemma_grammatical_folds(pair.inner[0]);
        },
        Rule::TyElement => {
            lemma_grammatical_folds(pair.inner[0]);
            lemma_qualifiers_fold(pair.inner, 1);
        },
        Rule::Function => {
            lemma_grammatical_folds(pair.inner[0]);
            let last = pair.inner.len() - 1;
            let marked = pair.inner.len() > 1 && pair.inner.last().rule == Rule::Const;
            let stop = if marked {
                last
            } else {
                pair.inner.len() as int
            };
            assert forall|i: int| 1 <= i < stop implies grammatical(#[trigger] pair.inner[i]) by {}
            lemma_grammatical_fold_each(pair.inner, 1, stop);
            let function = SymbolView::Function(
                Box::new(fold(pair.inner[0])->Ok_0),
                fold_each(pair.inner, 1, stop)->Ok_0,
            );
            assert(supported(function));
            assert(function.well_formed());
        },
        _ => {},
    }
}

/// [`lemma_grammatical_folds`], for the trees `list[from..to]`.
pub proof fn lemma_grammatical_fold_each(list: Seq<PairView>, from: int, to: int)
    requires
        0 <= from <= to <= list.len(),
        forall|i: int| from <= i < to ==> grammatical(#[trigger] list[i]),
    ensures
        fold_each(list, from, to) matches Ok(symbols) && all_supported(symbols) && symbols.len()
            == to - from && forall|i: int|
            0 <= i < symbols.len() ==> (#[trigger] symbols[i]).well_formed(),
    decreases list, to - from,
{
    if from < to {
        lemma_grammatical_folds(list[from]);
        lemma_grammatical_fold_each(list, from + 1, to);
    }
}

/// Nodes that are qualifiers fold into qualifiers.
pub proof fn lemma_qualifiers_fold(list: Seq<PairView>, from: int)
    requires
        0 <= from <= list.len(),
        forall|i: int| from <= i < list.len() ==> qualifier((#[trigger] list[i]).rule) is Ok,
    ensures
        fold_qualifiers(list, from) is Ok,
    decreases list.len() - from,
{
    if from < list.len() {
        assert(qualifier(list[from].rule) is Ok);
        lemma_qualifiers_fold(list, from + 1);
    }
}

/// The words of a type name make a grammatical tree.
pub proof fn lemma_type_is_grammatical(s: Seq<char>, pos: int)
    ensures
        parse_type(s, pos) matches Parsed::Done { value, .. } ==> value.rule == Rule::Type,
{
    match word_end(s, pos) {
        Some(end) => {
            lemma_type_words_is_type(s, end, seq![leaf(Rule::Word, s.subrange(pos, end))]);
        },
        None => {},
    }
}

proof fn lemma_type_words_is_type(s: Seq<char>, pos: int, words: Seq<PairView>)
    ensures
        type_words(s, pos, words) matches Parsed::Done { value, .. } ==> value.rule == Rule::Type,
    decreases s.len() - pos,
{
    let next = skip_spaces(s, pos);
    match word_end(s, next) {
        Some(end) => {
            if pos < end <= s.len() {
                lemma_type_words_is_type(
                    s,
                    end,
                    words.push(leaf(Rule::Word, s.subrange(next, end))),
                );
            }
        },
        None => {},
    }
}

/// A segment that the parser builds is grammatical.
pub proof fn lemma_segment_is_grammatical(s: Seq<char>, pos: int)
    ensures
        parse_segment(s, pos) matches Parsed::Done { value, .. } ==> grammatical(value),
    decreases s.len() - pos, 1nat,
{
    lemma_type_is_grammatical(s, pos);
    match parse_type(s, pos) {
        Parsed::Done { value: name, end } => {
            let open = skip_spaces(s, end);
            assert(grammatical(name));
            assert(all_grammatical(seq![name]));
            if peek(s, open) == Some('<') {
                let first = skip_spaces(s, open + 1);
                if peek(s, first) == Some('>') {
                    assert(grammatical(node(Rule::Generic, seq![name])));
                } else if pos < first <= s.len() {
                    lemma_generic_is_grammatical(s, first, seq![name]);
                }
            }
        },
        Parsed::Failed { .. } => {},
    }
}

/// A template instantiation that the parser builds from grammatical items is
/// grammatical.
pub proof fn lemma_generic_is_grammatical(s: Seq<char>, pos: int, items: Seq<PairView>)
    requires
        all_grammatical(items),
    ensures
        generic_items(s, pos, items) matches Parsed::Done { value, .. } ==> grammatical(value),
    decreases s.len() - pos, 4nat,
{
    lemma_element_is_grammatical(s, pos);
    match parse_element(s, pos) {
        Parsed::Done { value: element, end } => {
            let sep = skip_spaces(s, end);
            if peek(s, sep) == Some(',') {
                let next = skip_spaces(s, sep + 1);
                if pos < next <= s.len() {
                    lemma_generic_is_grammatical(s, next, items.push(element));
                }
            }
        },
        Parsed::Failed { .. } => {},
    }
}

/// An element that the parser builds is grammatical.
pub proof fn lemma_element_is_grammatical(s: Seq<char>, pos: int)
    ensures
        parse_element(s, pos) matches Parsed::Done { value, .. } ==> grammatical(value),
    decreases s.len() - pos, 3nat,
{
    lemma_path_is_grammatical(s, pos, Seq::empty());
    match path_segments(s, pos, Seq::empty()) {
        Parsed::Done { value: segments, end } => {
            let inner = if segments.len() == 1 {
                segments[0]
            } else {
                node(Rule::Namespace, segments)
            };
            assert(grammatical(inner));
            assert(seq![inner][0] == inner);
        },
        Parsed::Failed { .. } => {},
    }
}

/// The segments that the parser adds to grammatical segments are
/// grammatical, and there is at least one.
pub proof fn lemma_path_is_grammatical(s: Seq<char>, pos: int, segments: Seq<PairView>)
    requires
        all_grammatical(segments),
    ensures
        path_segments(s, pos, segments) matches Parsed::Done { value, .. } ==> all_grammatical(
            value,
        ) && value.len() >= 1,
    decreases s.len() - pos, 2nat,
{
    lemma_segment_is_grammatical(s, pos);
    match parse_segment(s, pos) {
        Parsed::Done { value: segment, end } => {
            let sep = skip_spaces(s, end);
            if looking_at(s, sep, "::"@) {
                let next = skip_spaces(s, sep + "::"@.len());
                if pos < next <= s.len() {
                    lemma_path_is_grammatical(s, next, segments.push(segment));
                }
            }
        },
        Parsed::Failed { .. } => {},
    }
}

/// A qualified element that the parser builds is grammatical.
pub proof fn lemma_ty_element_is_grammatical(s: Seq<char>, pos: int)
    ensures
        parse_ty_element(s, pos) matches Parsed::Done { value, .. } ==> grammatical(value),
{
    lemma_element_is_grammatical(s, pos);
    match parse_element(s, pos) {
        Parsed::Done { value: element, end } => {
            lemma_qualifiers_are_grammatical(s, end, seq![element]);
        },
        Parsed::Failed { .. } => {},
    }
}

proof fn lemma_qualifiers_are_grammatical(s: Seq<char>, pos: int, items: Seq<PairView>)
    requires
        items.len() >= 1,
        grammatical(items[0]),
        forall|i: int| 1 <= i < items.len() ==> qualifier((#[trigger] items[i]).rule) is Ok,
    ensures
        qualifiers(s, pos, items) matches Parsed::Done { value, .. } ==> grammatical(value),
    decreases s.len() - pos,
{
    let next = skip_spaces(s, pos);
    if pos <= next < s.len() && s[next] == '*' {
        lemma_qualifiers_are_grammatical(s, next + 1, items.push(leaf(Rule::Ptr, "*"@)));
    } else if pos <= next < s.len() && s[next] == '&' {
        lemma_qualifiers_are_grammatical(s, next + 1, items.push(leaf(Rule::Ref, "&"@)));
    } else if pos <= next && keyword_at(s, next, "const"@) {
        reveal_strlit("const");
        lemma_qualifiers_are_grammatical(
            s,
            next + "const"@.len(),
            items.push(leaf(Rule::Const, "const"@)),
        );
    }
}

proof fn lemma_parameters_are_grammatical(s: Seq<char>, pos: int, items: Seq<PairView>)
    requires
        items.len() >= 1,
        all_grammatical(items),
    ensures
        parameter_items(s, pos, items) matches Parsed::Done { value, .. } ==> all_grammatical(
            value,
        ) && value.len() >= 1,
    decreases s.len() - pos,
{
    lemma_ty_element_is_grammatical(s, pos);
    match parse_ty_element(s, pos) {
        Parsed::Done { value: parameter, end } => {
            let sep = skip_spaces(s, end);
            if peek(s, sep) == Some(',') {
                let next = skip_spaces(s, sep + 1);
                if pos < next <= s.len() {
                    lemma_parameters_are_grammatical(s, next, items.push(parameter));
                }
            }
        },
        Parsed::Failed { .. } => {},
    }
}

/// The tree that the parser builds of a whole text is grammatical.
pub proof fn lemma_function_is_grammatical(s: Seq<char>)
    ensures
        parse_function(s) matches Parsed::Done { value, .. } ==> grammatical(value),
{
    let pos = skip_spaces(s, 0);
    lemma_path_is_grammatical(s, pos, Seq::empty());
    match path_segments(s, pos, Seq::empty()) {
        Parsed::Done { value: segments, end } => {
            let open = skip_spaces(s, end);
            if peek(s, open) == Some('(') {
                let first = skip_spaces(s, open + 1);
                let name = node(Rule::Namespace, segments);
                assert(grammatical(name));
                if peek(s, first) != Some(')') {
                    lemma_parameters_are_grammatical(s, first, seq![name]);
                }
            }
        },
        Parsed::Failed { .. } => {},
    }
}

/// The tree that the parser builds of a text always folds, and into a
/// supported, well-formed symbol. So parsing a text fails with the parser's
/// error or not at all, and what it gives has a mangled name.
pub proof fn lemma_parsed_symbol_is_supported(text: Seq<char>)
    ensures
        match parse_function(text) {
            Parsed::Done { value, .. } => {
                &&& parsed_symbol(text) == fold(value)
                &&& fold(value) matches Ok(symbol)
                &&& supported(symbol)
                &&& symbol.well_formed()
            },
            Parsed::Failed { position, expected } => parsed_symbol(text) == Err::<
                SymbolView,
                MangleError,
            >(MangleError::ParseError { position: position as usize, expected }),
        },
{
    lemma_function_is_grammatical(text);
    match parse_function(text) {
        Parsed::Done { value, .. } => {
            lemma_grammatical_folds(value);
        },
        Parsed::Failed { .. } => {},
    }
}

} // verus!
