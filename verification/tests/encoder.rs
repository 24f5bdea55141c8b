use cxx_mangler::{mangle_symbol, MangleError, Mangler, Symbol, TypedElement};

fn ty(name: &str) -> Symbol {
    Symbol::Type(name.to_string())
}

fn ns(names: &[&str]) -> Symbol {
    Symbol::Namespace(names.iter().map(|n| ty(n)).collect())
}

fn encode(sym: &Symbol) -> Result<String, MangleError> {
    Mangler::new().mangle(sym)
}

#[test]
fn builtin_types_have_their_codes() {
    assert_eq!(encode(&ty("int")), Ok("i".to_string()));
    assert_eq!(encode(&ty("unsigned long long")), Ok("y".to_string()));
    assert_eq!(encode(&ty("std::string")), Ok("Ss".to_string()));
}

#[test]
fn every_entry_of_the_code_table() {
    let table = [
        ("std::string", "Ss"),
        ("schar", "a"),
        ("bool", "b"),
        ("char", "c"),
        ("double", "d"),
        ("long double", "e"),
        ("float", "f"),
        ("__float128", "g"),
        ("unsigned char", "h"),
        ("int", "i"),
        ("unsigned int", "j"),
        ("long", "l"),
        ("unsigned long", "m"),
        ("__int128", "n"),
        ("unsigned __int128", "o"),
        ("short", "s"),
        ("std::allocator", "Sa"),
        ("std::basic_string", "Sb"),
        ("std::basic_iostream<char, std::char_traits<char>>", "Sd"),
        ("std::basic_istream<char, std::char_traits<char>>", "Si"),
        ("std::basic_ostream<char, std::char_traits<char>>", "So"),
        ("std::basic_string<char, std::char_traits<char>, std::allocator<char>>", "Ss"),
        ("std", "St"),
        ("unsigned short", "t"),
        ("void", "v"),
        ("volatile", "V"),
        ("wchar_t", "w"),
        ("long long", "x"),
        ("unsigned long long", "y"),
        ("ellipsis", "z"),
    ];
    for (name, code) in table {
        assert_eq!(encode(&ty(name)), Ok(code.to_string()));
        assert_eq!(Mangler::new().mangle_type(name), code);
    }
}

#[test]
fn user_defined_type_is_length_prefixed() {
    assert_eq!(encode(&ty("Widget")), Ok("6Widget".to_string()));
    assert_eq!(encode(&ty("Foo")), Ok("3Foo".to_string()));
}

#[test]
fn length_prefix_is_decimal() {
    assert_eq!(encode(&ty("abcdefghij")), Ok("10abcdefghij".to_string()));
    let long = "a".repeat(123);
    assert_eq!(encode(&ty(&long)), Ok(format!("123{}", long)));
    assert_eq!(encode(&ty("")), Ok("0".to_string()));
}

#[test]
fn length_prefix_counts_bytes() {
    assert_eq!(encode(&ty("é")), Ok("2é".to_string()));
    assert_eq!(encode(&ty("Größe")), Ok("7Größe".to_string()));
}

#[test]
fn names_close_to_builtins_are_user_defined() {
    assert_eq!(encode(&ty("Int")), Ok("3Int".to_string()));
    assert_eq!(encode(&ty("int ")), Ok("4int ".to_string()));
    assert_eq!(encode(&ty("unsigned  int")), Ok("13unsigned  int".to_string()));
}

#[test]
fn qualifiers_come_in_list_order() {
    let sym = Symbol::Typed(Box::new(ty("int")), vec![TypedElement::Ptr, TypedElement::Const]);
    assert_eq!(encode(&sym), Ok("PKi".to_string()));
    let sym = Symbol::Typed(
        Box::new(ty("Widget")),
        vec![TypedElement::Ref, TypedElement::Const, TypedElement::Ptr, TypedElement::Ptr],
    );
    assert_eq!(encode(&sym), Ok("RKPP6Widget".to_string()));
}

#[test]
fn no_qualifier_is_the_bare_symbol() {
    let sym = Symbol::Typed(Box::new(ty("int")), vec![]);
    assert_eq!(encode(&sym), Ok("i".to_string()));
}

#[test]
fn repeated_segment_is_a_back_reference() {
    assert_eq!(encode(&ns(&["Foo", "Bar", "Foo"])), Ok("N3Foo3BarS_E".to_string()));
    assert_eq!(mangle_symbol(ns(&["Foo", "Bar", "Foo"])), Ok("_ZN3Foo3BarS_E".to_string()));
}

#[test]
fn every_later_occurrence_is_a_back_reference() {
    assert_eq!(encode(&ns(&["a", "a", "b", "a", "b"])), Ok("N1aS_1bS_S_E".to_string()));
}

#[test]
fn back_reference_compares_whole_trees() {
    let generic = |arg: &str| Symbol::Generic(vec![ty("vec"), ty(arg)]);
    let sym = Symbol::Namespace(vec![generic("int"), generic("char"), generic("int")]);
    assert_eq!(encode(&sym), Ok("NI3veciEI3veccES_E".to_string()));
}

#[test]
fn table_is_shared_by_the_whole_tree() {
    let sym = Symbol::Function(Box::new(ns(&["ns", "foo"])), vec![ns(&["ns", "Bar"])]);
    assert_eq!(encode(&sym), Ok("N2ns3fooENS_3BarE".to_string()));
}

#[test]
fn segment_enters_the_table_after_its_own_segments() {
    let sym = Symbol::Namespace(vec![ns(&["a", "b"]), ty("a"), ns(&["a", "b"])]);
    assert_eq!(encode(&sym), Ok("NN1a1bES_S_E".to_string()));
}

#[test]
fn generic_is_bracketed() {
    let sym = Symbol::Generic(vec![ty("int"), ty("Widget")]);
    assert_eq!(encode(&sym), Ok("Ii6WidgetE".to_string()));
    assert_eq!(encode(&Symbol::Generic(vec![])), Ok("IE".to_string()));
}

#[test]
fn function_is_callee_then_arguments() {
    let sym = Symbol::Function(Box::new(ns(&["ns", "foo"])), vec![ty("int"), ty("std::string")]);
    assert_eq!(encode(&sym), Ok("N2ns3fooEiSs".to_string()));
    assert_eq!(mangle_symbol(sym), Ok("_ZN2ns3fooEiSs".to_string()));
    let sym = Symbol::Function(Box::new(ty("f")), vec![]);
    assert_eq!(encode(&sym), Ok("1f".to_string()));
}

#[test]
fn empty_namespace_is_just_brackets() {
    assert_eq!(encode(&Symbol::Namespace(vec![])), Ok("NE".to_string()));
}

#[test]
fn const_follows_the_opening_of_the_name() {
    let function = || Symbol::Function(Box::new(ns(&["Foo", "bar"])), vec![ty("int")]);
    let marked = Symbol::Typed(Box::new(function()), vec![TypedElement::Const]);
    assert_eq!(encode(&function()), Ok("N3Foo3barEi".to_string()));
    assert_eq!(encode(&marked), Ok("NK3Foo3barEi".to_string()));
    assert_eq!(mangle_symbol(marked), Ok("_ZNK3Foo3barEi".to_string()));
}

#[test]
fn qualifiers_of_a_function_are_not_written_as_letters() {
    let function = || Symbol::Function(Box::new(ns(&["Foo", "bar"])), vec![]);
    let sym = Symbol::Typed(Box::new(function()), vec![TypedElement::Ptr, TypedElement::Ref]);
    assert_eq!(encode(&sym), Ok("NK3Foo3barE".to_string()));
    let sym = Symbol::Typed(Box::new(function()), vec![]);
    assert_eq!(encode(&sym), Ok("NK3Foo3barE".to_string()));
}

#[test]
fn const_waits_for_the_next_qualified_name() {
    let sym = Symbol::Typed(
        Box::new(Symbol::Function(Box::new(ty("f")), vec![ty("int"), ns(&["a"]), ns(&["b"])])),
        vec![TypedElement::Const],
    );
    assert_eq!(encode(&sym), Ok("1fiNK1aEN1bE".to_string()));
}

#[test]
fn qualified_function_inside_qualifiers() {
    let function = Symbol::Function(Box::new(ns(&["f"])), vec![]);
    let marked = Symbol::Typed(Box::new(function), vec![TypedElement::Const]);
    let sym = Symbol::Typed(Box::new(marked), vec![TypedElement::Ptr]);
    assert_eq!(encode(&sym), Ok("PNK1fE".to_string()));
}

#[test]
fn constructor_and_operator_are_unsupported() {
    assert_eq!(encode(&Symbol::Constructor(vec![])), Err(MangleError::UnsupportedSymbol));
    assert_eq!(encode(&Symbol::Operator("+".to_string())), Err(MangleError::UnsupportedSymbol));
    assert_eq!(
        mangle_symbol(Symbol::Constructor(vec![ty("int")])),
        Err(MangleError::UnsupportedSymbol)
    );
}

#[test]
fn unsupported_symbol_anywhere_fails_the_whole() {
    let op = || Symbol::Operator("+".to_string());
    let cases = vec![
        Symbol::Namespace(vec![ty("Foo"), op()]),
        Symbol::Function(Box::new(ns(&["f"])), vec![ty("int"), op()]),
        Symbol::Function(Box::new(op()), vec![]),
        Symbol::Generic(vec![ty("int"), Symbol::Constructor(vec![])]),
        Symbol::Typed(Box::new(op()), vec![TypedElement::Ptr]),
        Symbol::Namespace(vec![Symbol::Generic(vec![Symbol::Typed(Box::new(op()), vec![])])]),
    ];
    for sym in cases {
        assert_eq!(mangle_symbol(sym), Err(MangleError::UnsupportedSymbol));
    }
}

#[test]
fn fresh_encoders_agree() {
    let sym = || {
        Symbol::Typed(
            Box::new(Symbol::Function(
                Box::new(ns(&["ns", "Foo", "ns"])),
                vec![ns(&["ns", "Foo"]), ty("int")],
            )),
            vec![TypedElement::Const],
        )
    };
    let first = mangle_symbol(sym());
    let second = mangle_symbol(sym());
    assert_eq!(first, second);
    assert_eq!(first, Ok("_ZNK2ns3FooS_ENS_S_Ei".to_string()));
}

#[test]
fn one_encoder_remembers_its_segments() {
    let mut m = Mangler::new();
    assert_eq!(m.mangle(&ns(&["A"])), Ok("N1AE".to_string()));
    assert_eq!(m.mangle(&ns(&["A"])), Ok("NS_E".to_string()));
    let mut copy = m.clone();
    assert_eq!(copy.mangle(&ns(&["A", "B"])), Ok("NS_1BE".to_string()));
    assert_eq!(m.mangle(&ns(&["B"])), Ok("N1BE".to_string()));
}

#[test]
fn parts_of_the_encoder() {
    let mut m = Mangler::new();
    assert_eq!(m.mangle_generic(&vec![ty("int")]), Ok("IiE".to_string()));
    assert_eq!(m.mangle_function(&ty("f"), &vec![ty("bool")]), Ok("1fb".to_string()));
    assert_eq!(m.mangle_namespace(&vec![ty("std"), ty("x")]), Ok("NSt1xE".to_string()));
    assert_eq!(m.mangle_namespace(&vec![ty("std"), ty("y")]), Ok("NS_1yE".to_string()));
    assert_eq!(m.mangle_type("Widget"), "6Widget");
}
