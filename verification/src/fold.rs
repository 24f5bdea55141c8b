//! From a concrete syntax tree to a symbol tree.

use vstd::prelude::*;
use vstd::string::*;
use crate::error::MangleError;
use crate::grammar::{pair_views, parse, parse_function, Pair, PairView, Parsed, Rule};
use crate::mangler::supported;
use crate::shape::lemma_parsed_symbol_is_supported;
use crate::symbol::{lemma_symbol_views_push, symbol_views, Symbol, SymbolView, TypedElement};

verus! {

/// The symbol that a node of a concrete syntax tree stands for.
///
/// A namespace or a generic folds each node inside it. A function folds its
/// first node into what is called and the others into the parameters; a
/// `const` in the last place is no parameter: it wraps the function. A type
/// is named by the words inside it, joined by single spaces. An element is
/// what its first node is. A qualified element folds its first node and
/// takes each other node as a qualifier. Any other node, and a function, an
/// element or a qualified element with nothing inside, is an internal error.
pub open spec fn fold(pair: PairView) -> Result<SymbolView, MangleError>
    decreases pair, 0nat,
{
    match pair.rule {
        Rule::Namespace => match fold_each(pair.inner, 0, pair.inner.len() as int) {
            Ok(path) => Ok(SymbolView::Namespace(path)),
            Err(e) => Err(e),
        },
        Rule::Function => {
            if pair.inner.len() == 0 {
                Err(MangleError::InternalError(Rule::Function))
            } else {
                match fold(pair.inner[0]) {
                    Ok(callee) => {
                        let marked = pair.inner.len() > 1 && pair.inner.last().rule == Rule::Const;
                        let stop = if marked {
                            pair.inner.len() - 1
                        } else {
                            pair.inner.len() as int
                        };
                        match fold_each(pair.inner, 1, stop) {
                            Ok(args) => {
                                let function = SymbolView::Function(Box::new(callee), args);
                                if marked {
                                    Ok(
                                        SymbolView::Typed(
                                            Box::new(function),
                                            seq![TypedElement::Const],
                                        ),
                                    )
                                } else {
                                    Ok(function)
                                }
                            },
                            Err(e) => Err(e),
                        }
                    },
                    Err(e) => Err(e),
                }
            }
        },
        Rule::Generic => match fold_each(pair.inner, 0, pair.inner.len() as int) {
            Ok(args) => Ok(SymbolView::Generic(args)),
            Err(e) => Err(e),
        },
        Rule::Type => Ok(SymbolView::Type(joined(pair.inner, pair.inner.len() as int))),
        Rule::Element => {
            if pair.inner.len() == 0 {
                Err(MangleError::InternalError(Rule::Element))
            } else {
                fold(pair.inner[0])
            }
        },
        Rule::TyElement => {
            if pair.inner.len() == 0 {
                Err(MangleError::InternalError(Rule::TyElement))
            } else {
                match fold(pair.inner[0]) {
                    Ok(element) => match fold_qualifiers(pair.inner, 1) {
                        Ok(qualifiers) => Ok(SymbolView::Typed(Box::new(element), qualifiers)),
                        Err(e) => Err(e),
                    },
                    Err(e) => Err(e),
                }
            }
        },
        rule => Err(MangleError::InternalError(rule)),
    }
}

/// The symbols of the nodes `list[from..to]`, or the first error among them.
pub open spec fn fold_each(list: Seq<PairView>, from: int, to: int) -> Result<
    Seq<SymbolView>,
    MangleError,
>
    decreases list, to - from,
{
    if 0 <= from < to <= list.len() {
        match fold(list[from]) {
            Ok(first) => glue(seq![first], fold_each(list, from + 1, to)),
            Err(e) => Err(e),
        }
    } else {
        Ok(Seq::empty())
    }
}

/// A folded list after the symbols that were folded before it.
pub open spec fn glue(front: Seq<SymbolView>, rest: Result<Seq<SymbolView>, MangleError>)
    -> Result<Seq<SymbolView>, MangleError> {
    match rest {
        Ok(list) => Ok(front + list),
        Err(e) => Err(e),
    }
}

/// The qualifier that a node stands for.
pub open spec fn qualifier(rule: Rule) -> Result<TypedElement, MangleError> {
    match rule {
        Rule::Const => Ok(TypedElement::Const),
        Rule::Ptr => Ok(TypedElement::Ptr),
        Rule::Ref => Ok(TypedElement::Ref),
        other => Err(MangleError::InternalError(other)),
    }
}

/// The qualifiers that the nodes `list[from..]` stand for, or the first
/// error among them.
pub open spec fn fold_qualifiers(list: Seq<PairView>, from: int) -> Result<
    Seq<TypedElement>,
    MangleError,
>
    decreases list.len() - from,
{
    if 0 <= from < list.len() {
        match qualifier(list[from].rule) {
            Ok(first) => match fold_qualifiers(list, from + 1) {
                Ok(rest) => Ok(seq![first] + rest),
                Err(e) => Err(e),
            },
            Err(e) => Err(e),
        }
    } else {
        Ok(Seq::empty())
    }
}

/// The texts of the first `count` nodes of a list, with one space between
/// each two.
pub open spec fn joined(words: Seq<PairView>, count: int) -> Seq<char>
    decreases count,
{
    if count <= 0 {
        Seq::empty()
    } else if count == 1 {
        words[0].text
    } else {
        joined(words, count - 1) + seq![' '] + words[count - 1].text
    }
}

/// The symbol tree that a text stands for: the fold of its concrete syntax
/// tree.
pub open spec fn parsed_symbol(text: Seq<char>) -> Result<SymbolView, MangleError> {
    match parse_function(text) {
        Parsed::Done { value, .. } => fold(value),
        Parsed::Failed { position, expected } => Err(
            MangleError::ParseError { position: position as usize, expected },
        ),
    }
}

fn fold_list(list: &Vec<Pair>, from: usize, to: usize) -> (r: Result<Vec<Symbol>, MangleError>)
    requires
        from <= to <= list.len(),
    ensures
        match r {
            Ok(symbols) => fold_each(pair_views(list@), from as int, to as int) == Ok::<
                Seq<SymbolView>,
                MangleError,
            >(symbol_views(symbols@)),
            Err(e) => fold_each(pair_views(list@), from as int, to as int) == Err::<
                Seq<SymbolView>,
                MangleError,
            >(e),
        },
    decreases pair_views(list@), 1nat,
{
    let ghost nodes = pair_views(list@);
    let ghost goal = fold_each(nodes, from as int, to as int);
    let mut done: Vec<Symbol> = Vec::new();
    let mut i = from;
    assert(symbol_views(done@) =~= Seq::empty());
    while i < to
        invariant
            from <= i <= to <= list.len(),
            nodes == pair_views(list@),
            goal == fold_each(nodes, from as int, to as int),
            goal == glue(symbol_views(done@), fold_each(nodes, i as int, to as int)),
        decreases to - i,
    {
        let ghost before = symbol_views(done@);
        match Symbol::parse_pair(&list[i]) {
            Ok(symbol) => {
                proof {
                    lemma_symbol_views_push(done@, symbol);
                    match fold_each(nodes, i + 1, to as int) {
                        Ok(rest) => {
                            assert(before + (seq![symbol@] + rest) =~= before.push(symbol@)
                                + rest);
                        },
                        Err(_) => {},
                    }
                }
                done.push(symbol);
            },
            Err(e) => {
                return Err(e);
            },
        }
        i += 1;
    }
    proof {
        assert(symbol_views(done@) + Seq::<SymbolView>::empty() =~= symbol_views(done@));
    }
    Ok(done)
}

fn qualifiers_of(list: &Vec<Pair>) -> (r: Result<Vec<TypedElement>, MangleError>)
    requires
        list.len() >= 1,
    ensures
        match r {
            Ok(qualifiers) => fold_qualifiers(pair_views(list@), 1) == Ok::<
                Seq<TypedElement>,
                MangleError,
            >(qualifiers@),
            Err(e) => fold_qualifiers(pair_views(list@), 1) == Err::<
                Seq<TypedElement>,
                MangleError,
            >(e),
        },
{
    let ghost nodes = pair_views(list@);
    let ghost goal = fold_qualifiers(nodes, 1);
    let mut done: Vec<TypedElement> = Vec::new();
    let mut i: usize = 1;
    while i < list.len()
        invariant
            1 <= i <= list.len(),
            nodes == pair_views(list@),
            goal == fold_qualifiers(nodes, 1),
            goal == match fold_qualifiers(nodes, i as int) {
                Ok(rest) => Ok::<Seq<TypedElement>, MangleError>(done@ + rest),
                Err(e) => Err(e),
            },
        decreases list.len() - i,
    {
        let ghost before = done@;
        let q = match list[i].rule {
            Rule::Const => TypedElement::Const,
            Rule::Ptr => TypedElement::Ptr,
            Rule::Ref => TypedElement::Ref,
            other => {
                return Err(MangleError::InternalError(other));
            },
        };
        done.push(q);
        proof {
            match fold_qualifiers(nodes, i + 1) {
                Ok(rest) => {
                    assert(before + (seq![q] + rest) =~= before.push(q) + rest);
                },
                Err(_) => {},
            }
        }
        i += 1;
    }
    proof {
        assert(done@ + Seq::<TypedElement>::empty() =~= done@);
    }
    Ok(done)
}

fn join_words(words: &Vec<Pair>) -> (name: String)
    ensures
        name@ == joined(pair_views(words@), words.len() as int),
{
    let mut name = String::new();
    let mut i: usize = 0;
    proof {
        reveal_strlit(" ");
    }
    while i < words.len()
        invariant
            i <= words.len(),
            " "@ == seq![' '],
            name@ == joined(pair_views(words@), i as int),
        decreases words.len() - i,
    {
        if i > 0 {
            name.append(" ");
        }
        name.append(words[i].text.as_str());
        proof {
            let nodes = pair_views(words@);
            assert(nodes[i as int].text == words@[i as int].text@);
            if i == 0 {
                assert(name@ =~= nodes[0].text);
            }
        }
        i += 1;
    }
    name
}

impl Symbol {
    /// Folds a concrete syntax tree into the symbol that it stands for.
    pub fn parse_pair(pair: &Pair) -> (r: Result<Symbol, MangleError>)
        ensures
            match r {
                Ok(symbol) => fold(pair@) == Ok::<SymbolView, MangleError>(symbol@),
                Err(e) => fold(pair@) == Err::<SymbolView, MangleError>(e),
            },
        decreases pair@, 0nat,
    {
        match pair.rule {
            Rule::Namespace => {
                let namespace = fold_list(&pair.inner, 0, pair.inner.len())?;
                Ok(Symbol::Namespace(namespace))
            },
            Rule::Function => {
                let count = pair.inner.len();
                if count == 0 {
                    return Err(MangleError::InternalError(Rule::Function));
                }
                let func = Symbol::parse_pair(&pair.inner[0])?;
                let is_const = count > 1 && match pair.inner[count - 1].rule {
                    Rule::Const => true,
                    _ => false,
                };
                let args = fold_list(
                    &pair.inner,
                    1,
                    if is_const {
                        count - 1
                    } else {
                        count
                    },
                )?;
                let ghost callee = func@;
                let ghost parameters = symbol_views(args@);
                let func = Symbol::Function(Box::new(func), args);
                assert(func@ == SymbolView::Function(Box::new(callee), parameters));
                if is_const {
                    let mut qualifiers: Vec<TypedElement> = Vec::new();
                    qualifiers.push(TypedElement::Const);
                    assert(qualifiers@ =~= seq![TypedElement::Const]);
                    return Ok(Symbol::Typed(Box::new(func), qualifiers));
                }
                Ok(func)
            },
            Rule::Generic => {
                let generic = fold_list(&pair.inner, 0, pair.inner.len())?;
                Ok(Symbol::Generic(generic))
            },
            Rule::Type => Ok(Symbol::Type(join_words(&pair.inner))),
            Rule::Element => {
                if pair.inner.len() == 0 {
                    return Err(MangleError::InternalError(Rule::Element));
                }
                Symbol::parse_pair(&pair.inner[0])
            },
            Rule::TyElement => {
                if pair.inner.len() == 0 {
                    return Err(MangleError::InternalError(Rule::TyElement));
                }
                let element = Symbol::parse_pair(&pair.inner[0])?;
                let typed_element = qualifiers_of(&pair.inner)?;
                Ok(Symbol::Typed(Box::new(element), typed_element))
            },
            rule => Err(MangleError::InternalError(rule)),
        }
    }

    /// Parses a signature into its symbol tree.
    ///
    /// It fails on a text that is no signature of the grammar, with the
    /// parse error of that text, and on no other.
    pub fn parse(s: &str) -> (r: Result<Symbol, MangleError>)
        ensures
            match r {
                Ok(symbol) => parsed_symbol(s@) == Ok::<SymbolView, MangleError>(symbol@)
                    && supported(symbol@) && symbol@.well_formed(),
                Err(e) => {
                    &&& parsed_symbol(s@) == Err::<SymbolView, MangleError>(e)
                    &&& e matches MangleError::ParseError { position, .. }
                    &&& position <= s@.len()
                },
            },
    {
        proof {
            lemma_parsed_symbol_is_supported(s@);
        }
        let pair = parse(s)?;
        Symbol::parse_pair(&pair)
    }
}

} // verus!
