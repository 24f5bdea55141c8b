use cxx_mangler::grammar::{parse, Expected, Rule};
use cxx_mangler::{mangle, MangleError, Symbol, TypedElement};

fn ty(name: &str) -> Symbol {
    Symbol::Type(name.to_string())
}

fn ns(names: &[&str]) -> Symbol {
    Symbol::Namespace(names.iter().map(|n| ty(n)).collect())
}

fn plain(sym: Symbol) -> Symbol {
    Symbol::Typed(Box::new(sym), vec![])
}

fn function(callee: &[&str], args: Vec<Symbol>) -> Symbol {
    Symbol::Function(Box::new(ns(callee)), args)
}

fn parse_error(position: usize, expected: Expected) -> MangleError {
    MangleError::ParseError { position, expected }
}

#[test]
fn end_to_end_example() {
    let name = mangle("ns::foo(int, std::string)".to_string()).unwrap();
    assert!(name.starts_with("_ZN2ns3fooEiSs"));
    assert_eq!(name, "_ZN2ns3fooEiSs");
}

#[test]
fn parses_qualified_callee_and_arguments() {
    let sym = Symbol::parse("ns::foo(int, std::string)").unwrap();
    let expected = function(&["ns", "foo"], vec![plain(ty("int")), plain(ty("std::string"))]);
    assert_eq!(sym, expected);
}

#[test]
fn operator_signature_is_a_parse_error() {
    assert_eq!(
        mangle("ns::operator+(int)".to_string()),
        Err(parse_error(12, Expected::OpenParen))
    );
    assert_eq!(
        mangle("ns::operator()(int)".to_string()),
        Err(parse_error(14, Expected::EndOfInput))
    );
    assert_eq!(mangle("operator==(a, b)".to_string()), Err(parse_error(8, Expected::OpenParen)));
}

#[test]
fn trailing_const_wraps_the_function() {
    let sym = Symbol::parse("Foo::bar() const").unwrap();
    let expected = Symbol::Typed(
        Box::new(function(&["Foo", "bar"], vec![])),
        vec![TypedElement::Const],
    );
    assert_eq!(sym, expected);
    assert_eq!(mangle("Foo::bar() const".to_string()), Ok("_ZNK3Foo3barE".to_string()));
    assert_eq!(mangle("Foo::bar(int)const".to_string()), Ok("_ZNK3Foo3barEi".to_string()));
}

#[test]
fn unqualified_callee_is_a_one_segment_name() {
    assert_eq!(Symbol::parse("f()"), Ok(function(&["f"], vec![])));
    assert_eq!(mangle("f()".to_string()), Ok("_ZN1fE".to_string()));
}

#[test]
fn multi_word_type_is_joined_by_single_spaces() {
    let sym = Symbol::parse("f(unsigned    long \t long)").unwrap();
    assert_eq!(sym, function(&["f"], vec![plain(ty("unsigned long long"))]));
    assert_eq!(mangle("f(unsigned    long \t long)".to_string()), Ok("_ZN1fEy".to_string()));
    assert_eq!(mangle("f(long double, unsigned char)".to_string()), Ok("_ZN1fEeh".to_string()));
}

#[test]
fn white_space_between_tokens_is_skipped() {
    let spaced = Symbol::parse(" \n ns :: foo ( int , char * const ) \t const \r\n").unwrap();
    let compact = Symbol::parse("ns::foo(int,char*const)const").unwrap();
    assert_eq!(spaced, compact);
    let expected = Symbol::Typed(
        Box::new(function(
            &["ns", "foo"],
            vec![
                plain(ty("int")),
                Symbol::Typed(Box::new(ty("char")), vec![TypedElement::Ptr, TypedElement::Const]),
            ],
        )),
        vec![TypedElement::Const],
    );
    assert_eq!(compact, expected);
}

#[test]
fn qualifiers_are_kept_in_written_order() {
    let sym = Symbol::parse("f(int const * &)").unwrap();
    let expected = function(
        &["f"],
        vec![Symbol::Typed(
            Box::new(ty("int")),
            vec![TypedElement::Const, TypedElement::Ptr, TypedElement::Ref],
        )],
    );
    assert_eq!(sym, expected);
    assert_eq!(mangle("f(int const * &)".to_string()), Ok("_ZN1fEKPRi".to_string()));
    assert_eq!(mangle("f(int&&, int const const)".to_string()), Ok("_ZN1fERRiKKi".to_string()));
}

#[test]
fn const_is_a_word_of_its_own_only() {
    assert_eq!(Symbol::parse("f(constant)"), Ok(function(&["f"], vec![plain(ty("constant"))])));
    assert_eq!(Symbol::parse("f(_const)"), Ok(function(&["f"], vec![plain(ty("_const"))])));
    assert_eq!(Symbol::parse("f(const)"), Err(parse_error(2, Expected::Name)));
    assert_eq!(Symbol::parse("f(const int)"), Err(parse_error(2, Expected::Name)));
    assert_eq!(Symbol::parse("const()"), Err(parse_error(0, Expected::Name)));
    assert_eq!(Symbol::parse("f() constx"), Err(parse_error(4, Expected::EndOfInput)));
}

#[test]
fn standard_library_names_are_single_words() {
    let sym = Symbol::parse("std::string::size() const").unwrap();
    let expected = Symbol::Typed(
        Box::new(function(&["std::string", "size"], vec![])),
        vec![TypedElement::Const],
    );
    assert_eq!(sym, expected);
    assert_eq!(mangle("std::string::size() const".to_string()), Ok("_ZNKSs4sizeE".to_string()));
    assert_eq!(
        mangle("f(std::allocator, std::basic_string, std::vector)".to_string()),
        Ok("_ZN1fESaSbNSt6vectorE".to_string())
    );
    assert_eq!(
        Symbol::parse("f(std::stringy)"),
        Ok(function(&["f"], vec![plain(ns(&["std", "stringy"]))]))
    );
    assert_eq!(
        Symbol::parse("f(std :: string)"),
        Ok(function(&["f"], vec![plain(ns(&["std", "string"]))]))
    );
}

#[test]
fn argument_with_two_segments_is_a_namespace() {
    assert_eq!(
        Symbol::parse("f(a::b*)"),
        Ok(function(
            &["f"],
            vec![Symbol::Typed(Box::new(ns(&["a", "b"])), vec![TypedElement::Ptr])]
        ))
    );
    assert_eq!(mangle("f(a::b*)".to_string()), Ok("_ZN1fEPN1a1bE".to_string()));
    assert_eq!(mangle("a::b(a::c)".to_string()), Ok("_ZN1a1bENS_1cE".to_string()));
}

#[test]
fn generic_segment_and_argument() {
    let sym = Symbol::parse("ns::vec<int, a::b>::push(ns::vec<int, a::b>)").unwrap();
    let vec_of = || Symbol::Generic(vec![ty("vec"), ty("int"), ns(&["a", "b"])]);
    let expected = Symbol::Function(
        Box::new(Symbol::Namespace(vec![ty("ns"), vec_of(), ty("push")])),
        vec![plain(Symbol::Namespace(vec![ty("ns"), vec_of()]))],
    );
    assert_eq!(sym, expected);
    assert_eq!(
        mangle("ns::vec<int, a::b>::push(ns::vec<int, a::b>)".to_string()),
        Ok("_ZN2nsI3veciN1a1bEE4pushENS_S_E".to_string())
    );
}

#[test]
fn generic_argument_alone_is_not_wrapped() {
    let sym = Symbol::parse("f(a<b<c>>, d < >)").unwrap();
    let expected = function(
        &["f"],
        vec![
            plain(Symbol::Generic(vec![ty("a"), Symbol::Generic(vec![ty("b"), ty("c")])])),
            plain(Symbol::Generic(vec![ty("d")])),
        ],
    );
    assert_eq!(sym, expected);
    assert_eq!(mangle("f(a<b<c>>, d < >)".to_string()), Ok("_ZN1fEI1aI1b1cEEI1dE".to_string()));
}

#[test]
fn identifiers() {
    assert_eq!(mangle("f2(int32_t, _x9)".to_string()), Ok("_ZN2f2E7int32_t3_x9".to_string()));
    assert_eq!(Symbol::parse("2f()"), Err(parse_error(0, Expected::Name)));
    assert_eq!(Symbol::parse("f(é)"), Err(parse_error(2, Expected::Name)));
    assert_eq!(Symbol::parse("f(int, é)"), Err(parse_error(7, Expected::Name)));
}

#[test]
fn what_was_expected_where() {
    assert_eq!(Symbol::parse(""), Err(parse_error(0, Expected::Name)));
    assert_eq!(Symbol::parse("   "), Err(parse_error(3, Expected::Name)));
    assert_eq!(Symbol::parse("(int)"), Err(parse_error(0, Expected::Name)));
    assert_eq!(Symbol::parse("foo::(int)"), Err(parse_error(5, Expected::Name)));
    assert_eq!(Symbol::parse("f(int,)"), Err(parse_error(6, Expected::Name)));
    assert_eq!(Symbol::parse("f(a<int,>)"), Err(parse_error(8, Expected::Name)));
    assert_eq!(Symbol::parse("foo"), Err(parse_error(3, Expected::OpenParen)));
    assert_eq!(Symbol::parse("foo  ;"), Err(parse_error(5, Expected::OpenParen)));
    assert_eq!(Symbol::parse("foo(int"), Err(parse_error(7, Expected::CommaOrCloseParen)));
    assert_eq!(Symbol::parse("foo(int;)"), Err(parse_error(7, Expected::CommaOrCloseParen)));
    assert_eq!(Symbol::parse("foo(a<int"), Err(parse_error(9, Expected::CommaOrCloseAngle)));
    assert_eq!(Symbol::parse("foo(a<int*>)"), Err(parse_error(9, Expected::CommaOrCloseAngle)));
    assert_eq!(Symbol::parse("foo(int) x"), Err(parse_error(9, Expected::EndOfInput)));
    assert_eq!(Symbol::parse("foo() const x"), Err(parse_error(12, Expected::EndOfInput)));
    assert_eq!(Symbol::parse("foo()()"), Err(parse_error(5, Expected::EndOfInput)));
}

#[test]
fn parse_never_fails_otherwise_than_with_a_parse_error() {
    let texts = ["", "f", "f(", "f()", "f(a", "f(a<", "f(a<b", "f(a<b>", "f(a<b>)", "::", "a::", "a::b"];
    for text in texts {
        match Symbol::parse(text) {
            Ok(_) => {}
            Err(MangleError::ParseError { .. }) => {}
            Err(other) => panic!("unexpected error {:?} on {:?}", other, text),
        }
    }
}

#[test]
fn concrete_syntax_tree_of_a_signature() {
    let tree = parse("a::b<c>(d e *) const").unwrap();
    assert_eq!(tree.rule, Rule::Function);
    assert_eq!(tree.text, "");
    let rules: Vec<Rule> = tree.inner.iter().map(|p| p.rule).collect();
    assert_eq!(rules, vec![Rule::Namespace, Rule::TyElement, Rule::Const]);

    let name = &tree.inner[0];
    let rules: Vec<Rule> = name.inner.iter().map(|p| p.rule).collect();
    assert_eq!(rules, vec![Rule::Type, Rule::Generic]);
    let generic = &name.inner[1];
    let rules: Vec<Rule> = generic.inner.iter().map(|p| p.rule).collect();
    assert_eq!(rules, vec![Rule::Type, Rule::Element]);
    assert_eq!(generic.inner[1].inner[0].rule, Rule::Type);

    let parameter = &tree.inner[1];
    let rules: Vec<Rule> = parameter.inner.iter().map(|p| p.rule).collect();
    assert_eq!(rules, vec![Rule::Element, Rule::Ptr]);
    assert_eq!(parameter.inner[1].text, "*");
    let words = &parameter.inner[0].inner[0];
    assert_eq!(words.rule, Rule::Type);
    let texts: Vec<&str> = words.inner.iter().map(|p| p.text.as_str()).collect();
    assert_eq!(texts, vec!["d", "e"]);
    assert!(words.inner.iter().all(|p| p.rule == Rule::Word && p.inner.is_empty()));

    assert_eq!(tree.inner[2].text, "const");
    assert_eq!(parse("a b").err(), Some(parse_error(3, Expected::OpenParen)));
}
