//! The ABI's codes for built-in and standard-library type names.

use vstd::prelude::*;
use vstd::string::*;
use vstd::utf8::encode_utf8;
use crate::text::{decimal, push_decimal, str_eq};

verus! {

/// The ABI's code for a built-in or standard-library name, if it has one.
pub open spec fn builtin_code(name: Seq<char>) -> Option<Seq<char>> {
    if name == "std::string"@ {
        Some("Ss"@)
    } else if name == "schar"@ {
        Some("a"@)
    } else if name == "bool"@ {
        Some("b"@)
    } else if name == "char"@ {
        Some("c"@)
    } else if name == "double"@ {
        Some("d"@)
    } else if name == "long double"@ {
        Some("e"@)
    } else if name == "float"@ {
        Some("f"@)
    } else if name == "__float128"@ {
        Some("g"@)
    } else if name == "unsigned char"@ {
        Some("h"@)
    } else if name == "int"@ {
        Some("i"@)
    } else if name == "unsigned int"@ {
        Some("j"@)
    } else if name == "long"@ {
        Some("l"@)
    } else if name == "unsigned long"@ {
        Some("m"@)
    } else if name == "__int128"@ {
        Some("n"@)
    } else if name == "unsigned __int128"@ {
        Some("o"@)
    } else if name == "short"@ {
        Some("s"@)
    } else if name == "std::allocator"@ {
        Some("Sa"@)
    } else if name == "std::basic_string"@ {
        Some("Sb"@)
    } else if name == "std::basic_iostream<char, std::char_traits<char>>"@ {
        Some("Sd"@)
    } else if name == "std::basic_istream<char, std::char_traits<char>>"@ {
        Some("Si"@)
    } else if name == "std::basic_ostream<char, std::char_traits<char>>"@ {
        Some("So"@)
    } else if name == "std::basic_string<char, std::char_traits<char>, std::allocator<char>>"@ {
        Some("Ss"@)
    } else if name == "std"@ {
        Some("St"@)
    } else if name == "unsigned short"@ {
        Some("t"@)
    } else if name == "void"@ {
        Some("v"@)
    } else if name == "volatile"@ {
        Some("V"@)
    } else if name == "wchar_t"@ {
        Some("w"@)
    } else if name == "long long"@ {
        Some("x"@)
    } else if name == "unsigned long long"@ {
        Some("y"@)
    } else if name == "ellipsis"@ {
        Some("z"@)
    } else {
        None
    }
}

/// The encoding of a type name: its code if it has one, else the length of
/// the name in bytes, in decimal, followed by the name.
pub open spec fn type_code(name: Seq<char>) -> Seq<char> {
    match builtin_code(name) {
        Some(code) => code,
        None => decimal(encode_utf8(name).len()) + name,
    }
}

/// Looks a name up among the built-in and standard-library names.
pub fn builtin(name: &str) -> (code: Option<&'static str>)
    ensures
        match code {
            Some(c) => builtin_code(name@) == Some(c@),
            None => builtin_code(name@) is None,
        },
{
    if str_eq(name, "std::string") {
        Some("Ss")
    } else if str_eq(name, "schar") {
        Some("a")
    } else if str_eq(name, "bool") {
        Some("b")
    } else if str_eq(name, "char") {
        Some("c")
    } else if str_eq(name, "double") {
        Some("d")
    } else if str_eq(name, "long double") {
        Some("e")
    } else if str_eq(name, "float") {
        Some("f")
    } else if str_eq(name, "__float128") {
        Some("g")
    } else if str_eq(name, "unsigned char") {
        Some("h")
    } else if str_eq(name, "int") {
        Some("i")
    } else if str_eq(name, "unsigned int") {
        Some("j")
    } else if str_eq(name, "long") {
        Some("l")
    } else if str_eq(name, "unsigned long") {
        Some("m")
    } else if str_eq(name, "__int128") {
        Some("n")
    } else if str_eq(name, "unsigned __int128") {
        Some("o")
    } else if str_eq(name, "short") {
        Some("s")
    } else if str_eq(name, "std::allocator") {
        Some("Sa")
    } else if str_eq(name, "std::basic_string") {
        Some("Sb")
    } else if str_eq(name, "std::basic_iostream<char, std::char_traits<char>>") {
        Some("Sd")
    } else if str_eq(name, "std::basic_istream<char, std::char_traits<char>>") {
        Some("Si")
    } else if str_eq(name, "std::basic_ostream<char, std::char_traits<char>>") {
        Some("So")
    } else if str_eq(name, "std::basic_string<char, std::char_traits<char>, std::allocator<char>>") {
        Some("Ss")
    } else if str_eq(name, "std") {
        Some("St")
    } else if str_eq(name, "unsigned short") {
        Some("t")
    } else if str_eq(name, "void") {
        Some("v")
    } else if str_eq(name, "volatile") {
        Some("V")
    } else if str_eq(name, "wchar_t") {
        Some("w")
    } else if str_eq(name, "long long") {
        Some("x")
    } else if str_eq(name, "unsigned long long") {
        Some("y")
    } else if str_eq(name, "ellipsis") {
        Some("z")
    } else {
        None
    }
}

/// Encodes a type name.
pub fn encode_type_name(name: &str) -> (code: String)
    ensures
        code@ == type_code(name@),
{
    match builtin(name) {
        Some(c) => String::from_str(c),
        None => {
            let mut code = String::new();
            push_decimal(&mut code, name.as_bytes().len());
            code.append(name);
            code
        },
    }
}

} // verus!
