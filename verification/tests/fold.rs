use cxx_mangler::grammar::{Pair, Rule};
use cxx_mangler::{MangleError, Symbol, TypedElement};

fn token(rule: Rule, text: &str) -> Pair {
    Pair { rule, text: text.to_string(), inner: vec![] }
}

fn node(rule: Rule, inner: Vec<Pair>) -> Pair {
    Pair { rule, text: String::new(), inner }
}

fn type_of(words: &[&str]) -> Pair {
    node(Rule::Type, words.iter().map(|w| token(Rule::Word, w)).collect())
}

fn ty(name: &str) -> Symbol {
    Symbol::Type(name.to_string())
}

#[test]
fn type_joins_its_words() {
    assert_eq!(Symbol::parse_pair(&type_of(&["unsigned", "int"])), Ok(ty("unsigned int")));
    assert_eq!(Symbol::parse_pair(&type_of(&["a", "b", "c"])), Ok(ty("a b c")));
    assert_eq!(Symbol::parse_pair(&type_of(&["Widget"])), Ok(ty("Widget")));
    assert_eq!(Symbol::parse_pair(&type_of(&[])), Ok(ty("")));
}

#[test]
fn namespace_and_generic_fold_each_node() {
    let name = node(Rule::Namespace, vec![type_of(&["a"]), type_of(&["b"])]);
    assert_eq!(Symbol::parse_pair(&name), Ok(Symbol::Namespace(vec![ty("a"), ty("b")])));
    let generic = node(Rule::Generic, vec![type_of(&["v"]), type_of(&["int"])]);
    assert_eq!(Symbol::parse_pair(&generic), Ok(Symbol::Generic(vec![ty("v"), ty("int")])));
    assert_eq!(Symbol::parse_pair(&node(Rule::Namespace, vec![])), Ok(Symbol::Namespace(vec![])));
}

#[test]
fn element_is_its_first_node() {
    let element = node(Rule::Element, vec![type_of(&["a"]), type_of(&["b"])]);
    assert_eq!(Symbol::parse_pair(&element), Ok(ty("a")));
}

#[test]
fn qualified_element_takes_the_other_nodes_as_qualifiers() {
    let pair = node(
        Rule::TyElement,
        vec![type_of(&["int"]), token(Rule::Ref, "&"), token(Rule::Const, "const"), token(Rule::Ptr, "*")],
    );
    let expected = Symbol::Typed(
        Box::new(ty("int")),
        vec![TypedElement::Ref, TypedElement::Const, TypedElement::Ptr],
    );
    assert_eq!(Symbol::parse_pair(&pair), Ok(expected));
}

#[test]
fn function_with_const_in_the_last_place() {
    let pair = node(
        Rule::Function,
        vec![type_of(&["f"]), type_of(&["int"]), token(Rule::Const, "const")],
    );
    let expected = Symbol::Typed(
        Box::new(Symbol::Function(Box::new(ty("f")), vec![ty("int")])),
        vec![TypedElement::Const],
    );
    assert_eq!(Symbol::parse_pair(&pair), Ok(expected));

    let pair = node(Rule::Function, vec![type_of(&["f"]), token(Rule::Const, "const")]);
    let expected = Symbol::Typed(
        Box::new(Symbol::Function(Box::new(ty("f")), vec![])),
        vec![TypedElement::Const],
    );
    assert_eq!(Symbol::parse_pair(&pair), Ok(expected));

    let pair = node(Rule::Function, vec![type_of(&["f"]), type_of(&["int"])]);
    assert_eq!(
        Symbol::parse_pair(&pair),
        Ok(Symbol::Function(Box::new(ty("f")), vec![ty("int")]))
    );
    let pair = node(Rule::Function, vec![type_of(&["f"])]);
    assert_eq!(Symbol::parse_pair(&pair), Ok(Symbol::Function(Box::new(ty("f")), vec![])));
}

#[test]
fn internal_error_on_stray_token() {
    for rule in [Rule::Const, Rule::Ptr, Rule::Ref, Rule::Word] {
        assert_eq!(
            Symbol::parse_pair(&token(rule, "x")),
            Err(MangleError::InternalError(rule))
        );
    }
}

#[test]
fn internal_error_on_missing_nodes() {
    for rule in [Rule::Function, Rule::Element, Rule::TyElement] {
        assert_eq!(
            Symbol::parse_pair(&node(rule, vec![])),
            Err(MangleError::InternalError(rule))
        );
    }
}

#[test]
fn internal_error_on_misplaced_nodes() {
    let pair = node(
        Rule::Function,
        vec![type_of(&["f"]), token(Rule::Const, "const"), type_of(&["int"])],
    );
    assert_eq!(Symbol::parse_pair(&pair), Err(MangleError::InternalError(Rule::Const)));

    let pair = node(Rule::Function, vec![token(Rule::Const, "const")]);
    assert_eq!(Symbol::parse_pair(&pair), Err(MangleError::InternalError(Rule::Const)));

    let pair = node(Rule::TyElement, vec![type_of(&["int"]), type_of(&["int"])]);
    assert_eq!(Symbol::parse_pair(&pair), Err(MangleError::InternalError(Rule::Type)));

    let pair = node(Rule::Generic, vec![type_of(&["v"]), token(Rule::Ptr, "*")]);
    assert_eq!(Symbol::parse_pair(&pair), Err(MangleError::InternalError(Rule::Ptr)));
}

#[test]
fn first_error_in_reading_order_wins() {
    let pair = node(
        Rule::TyElement,
        vec![token(Rule::Ref, "&"), token(Rule::Word, "w")],
    );
    assert_eq!(Symbol::parse_pair(&pair), Err(MangleError::InternalError(Rule::Ref)));
    let pair = node(
        Rule::Namespace,
        vec![type_of(&["a"]), token(Rule::Word, "w"), token(Rule::Ptr, "*")],
    );
    assert_eq!(Symbol::parse_pair(&pair), Err(MangleError::InternalError(Rule::Word)));
    let pair = node(
        Rule::TyElement,
        vec![type_of(&["a"]), token(Rule::Word, "w"), token(Rule::Function, "")],
    );
    assert_eq!(Symbol::parse_pair(&pair), Err(MangleError::InternalError(Rule::Word)));
}
