//! The encoder: from a symbol tree to the text of its mangled name.
//!
//! The encoding is defined by [`encode`], a function of the tree and of the
//! encoder's state alone. [`Mangler`] computes it.

use vstd::prelude::*;
use vstd::string::*;
use crate::error::MangleError;
use crate::mnemonic::{encode_type_name, type_code};
use crate::symbol::{
    duplicate_list, lemma_symbol_views_push, symbol_views, Symbol, SymbolView, TypedElement,
};

verus! {

/// The state of an encoder between two steps.
pub struct ManglerView {
    /// The path segments encoded so far, oldest first: the substitution table.
    pub table: Seq<SymbolView>,
    /// Whether the next qualified name is that of a `const` member function.
    pub pending_const: bool,
}

impl ManglerView {
    /// The state in which every encoder starts.
    pub open spec fn fresh() -> ManglerView {
        ManglerView { table: Seq::empty(), pending_const: false }
    }

    /// This state with the `const` flag set as given.
    pub open spec fn with_pending(self, pending: bool) -> ManglerView {
        ManglerView { table: self.table, pending_const: pending }
    }

    /// This state with one more segment in the table.
    pub open spec fn recording(self, segment: SymbolView) -> ManglerView {
        ManglerView { table: self.table.push(segment), pending_const: self.pending_const }
    }
}

/// What encoding a tree gives: the text, or `None` where the walk reached a
/// symbol without an encoding, and the state in which the walk ended.
pub struct Encoding {
    pub text: Option<Seq<char>>,
    pub state: ManglerView,
}

/// An encoding with `prefix` put before its text.
pub open spec fn prepend(prefix: Seq<char>, e: Encoding) -> Encoding {
    match e.text {
        Some(text) => Encoding { text: Some(prefix + text), state: e.state },
        None => e,
    }
}

/// An encoding with `suffix` put after its text.
pub open spec fn append(e: Encoding, suffix: Seq<char>) -> Encoding {
    match e.text {
        Some(text) => Encoding { text: Some(text + suffix), state: e.state },
        None => e,
    }
}

/// The letter of a qualifier.
pub open spec fn qualifier_letter(q: TypedElement) -> char {
    match q {
        TypedElement::Ptr => 'P',
        TypedElement::Const => 'K',
        TypedElement::Ref => 'R',
    }
}

/// The letters of a list of qualifiers, in the order of the list.
pub open spec fn qualifier_letters(qualifiers: Seq<TypedElement>) -> Seq<char> {
    Seq::new(qualifiers.len(), |i: int| qualifier_letter(qualifiers[i]))
}

/// The encoding of a symbol by an encoder in state `st`.
pub open spec fn encode(sym: SymbolView, st: ManglerView) -> Encoding
    decreases sym, 0nat,
{
    match sym {
        SymbolView::Namespace(path) => {
            let head = if st.pending_const {
                seq!['N', 'K']
            } else {
                seq!['N']
            };
            append(prepend(head, encode_path(path, 0, st.with_pending(false))), seq!['E'])
        },
        SymbolView::Type(name) => Encoding { text: Some(type_code(name)), state: st },
        SymbolView::Generic(args) => append(prepend(seq!['I'], encode_each(args, 0, st)), seq!['E']),
        SymbolView::Function(callee, args) => {
            let called = encode(*callee, st);
            match called.text {
                Some(text) => prepend(text, encode_each(args, 0, called.state)),
                None => called,
            }
        },
        SymbolView::Typed(inner, qualifiers) => {
            if *inner is Function {
                encode(*inner, st.with_pending(true))
            } else {
                prepend(qualifier_letters(qualifiers), encode(*inner, st))
            }
        },
        SymbolView::Constructor(_) => Encoding { text: None, state: st },
        SymbolView::Operator(_) => Encoding { text: None, state: st },
    }
}

/// The encodings of `list[from..]`, one after the other.
pub open spec fn encode_each(list: Seq<SymbolView>, from: int, st: ManglerView) -> Encoding
    decreases list, list.len() - from,
{
    if 0 <= from < list.len() {
        let first = encode(list[from], st);
        match first.text {
            Some(text) => prepend(text, encode_each(list, from + 1, first.state)),
            None => first,
        }
    } else {
        Encoding { text: Some(Seq::empty()), state: st }
    }
}

/// The encodings of the segments `path[from..]` of a qualified name. A
/// segment that is in the table is written as the back-reference `S_`; any
/// other is encoded and then enters the table.
pub open spec fn encode_path(path: Seq<SymbolView>, from: int, st: ManglerView) -> Encoding
    decreases path, path.len() - from,
{
    if 0 <= from < path.len() {
        if st.table.contains(path[from]) {
            prepend(seq!['S', '_'], encode_path(path, from + 1, st))
        } else {
            let first = encode(path[from], st);
            match first.text {
                Some(text) => prepend(
                    text,
                    encode_path(path, from + 1, first.state.recording(path[from])),
                ),
                None => first,
            }
        }
    } else {
        Encoding { text: Some(Seq::empty()), state: st }
    }
}

/// Whether every node of a tree has an encoding: none is a constructor or
/// an operator.
pub open spec fn supported(sym: SymbolView) -> bool
    decreases sym,
{
    match sym {
        SymbolView::Namespace(path) => forall|i: int|
            0 <= i < path.len() ==> supported(#[trigger] path[i]),
        SymbolView::Function(callee, args) => supported(*callee) && forall|i: int|
            0 <= i < args.len() ==> supported(#[trigger] args[i]),
        SymbolView::Generic(args) => forall|i: int|
            0 <= i < args.len() ==> supported(#[trigger] args[i]),
        SymbolView::Type(_) => true,
        SymbolView::Typed(inner, _) => supported(*inner),
        SymbolView::Constructor(_) => false,
        SymbolView::Operator(_) => false,
    }
}

/// Whether every tree of a list is supported.
pub open spec fn all_supported(list: Seq<SymbolView>) -> bool {
    forall|i: int| 0 <= i < list.len() ==> supported(#[trigger] list[i])
}

/// The mangled name of a symbol: `_Z`, then the symbol's encoding by a fresh
/// encoder. `None` where the symbol is not supported.
pub open spec fn mangled_name(sym: SymbolView) -> Option<Seq<char>> {
    match encode(sym, ManglerView::fresh()).text {
        Some(text) => Some(seq!['_', 'Z'] + text),
        None => None,
    }
}

/// Whether a result is what an encoder returns for an encoding's text: the
/// text, or the error of an unsupported symbol where there is none.
pub open spec fn returned(r: Result<String, MangleError>, text: Option<Seq<char>>) -> bool {
    match r {
        Ok(s) => text == Some(s@),
        Err(e) => e == MangleError::UnsupportedSymbol && text is None,
    }
}

/// The encoder. It holds the segments it has encoded and the `const` flag of
/// a member function whose name is still to come.
#[derive(Debug)]
pub struct Mangler {
    used_namespace: Vec<Symbol>,
    should_be_const: bool,
}

impl View for Mangler {
    type V = ManglerView;

    closed spec fn view(&self) -> ManglerView {
        ManglerView {
            table: symbol_views(self.used_namespace@),
            pending_const: self.should_be_const,
        }
    }
}

impl Clone for Mangler {
    fn clone(&self) -> (m: Mangler)
        ensures
            m@ == self@,
    {
        Mangler {
            used_namespace: duplicate_list(&self.used_namespace),
            should_be_const: self.should_be_const,
        }
    }
}

fn qualifier_text(q: TypedElement) -> (s: &'static str)
    ensures
        s@ == seq![qualifier_letter(q)],
{
    proof {
        reveal_strlit("P");
        reveal_strlit("K");
        reveal_strlit("R");
    }
    let s = match q {
        TypedElement::Ptr => "P",
        TypedElement::Const => "K",
        TypedElement::Ref => "R",
    };
    assert(s@ =~= seq![qualifier_letter(q)]);
    s
}

impl Mangler {
    /// An encoder that has encoded nothing yet.
    pub fn new() -> (m: Mangler)
        ensures
            m@ == ManglerView::fresh(),
    {
        let m = Mangler { used_namespace: Vec::new(), should_be_const: false };
        assert(m@.table =~= Seq::empty());
        m
    }

    fn has_used(&self, symbol: &Symbol) -> (r: bool)
        ensures
            r == self@.table.contains(symbol@),
    {
        let mut i: usize = 0;
        while i < self.used_namespace.len()
            invariant
                i <= self.used_namespace.len(),
                forall|j: int| 0 <= j < i ==> self@.table[j] != symbol@,
            decreases self.used_namespace.len() - i,
        {
            if self.used_namespace[i].same_as(symbol) {
                assert(self@.table[i as int] == symbol@);
                return true;
            }
            i += 1;
        }
        false
    }

    /// Encodes a symbol.
    pub fn mangle(&mut self, symbol: &Symbol) -> (r: Result<String, MangleError>)
        ensures
            final(self)@ == encode(symbol@, old(self)@).state,
            returned(r, encode(symbol@, old(self)@).text),
        decreases symbol@, 1nat,
    {
        match symbol {
            Symbol::Namespace(n) => self.mangle_namespace(n),
            Symbol::Type(n) => Ok(self.mangle_type(n.as_str())),
            Symbol::Generic(gen) => self.mangle_generic(gen),
            Symbol::Function(c, a) => self.mangle_function(c, a),
            Symbol::Typed(s, te) => {
                match &**s {
                    Symbol::Function(_, _) => {
                        self.should_be_const = true;
                        self.mangle(s)
                    },
                    _ => {
                        let mut string = String::new();
                        let mut i: usize = 0;
                        while i < te.len()
                            invariant
                                i <= te.len(),
                                string@ == qualifier_letters(te@).take(i as int),
                            decreases te.len() - i,
                        {
                            string.append(qualifier_text(te[i]));
                            assert(string@ =~= qualifier_letters(te@).take(i + 1));
                            i += 1;
                        }
                        assert(string@ =~= qualifier_letters(te@));
                        let inner = self.mangle(s)?;
                        string.append(inner.as_str());
                        Ok(string)
                    },
                }
            },
            Symbol::Constructor(_) => Err(MangleError::UnsupportedSymbol),
            Symbol::Operator(_) => Err(MangleError::UnsupportedSymbol),
        }
    }

    /// Encodes a function: what is called, then each parameter type.
    pub fn mangle_function(&mut self, symbol: &Symbol, syms: &Vec<Symbol>) -> (r: Result<
        String,
        MangleError,
    >)
        ensures
            final(self)@ == encode(
                SymbolView::Function(Box::new(symbol@), symbol_views(syms@)),
                old(self)@,
            ).state,
            returned(
                r,
                encode(
                    SymbolView::Function(Box::new(symbol@), symbol_views(syms@)),
                    old(self)@,
                ).text,
            ),
        decreases SymbolView::Function(Box::new(symbol@), symbol_views(syms@)), 0nat,
    {
        let mut s = self.mangle(symbol)?;
        let ghost list = symbol_views(syms@);
        let ghost goal = encode(SymbolView::Function(Box::new(symbol@), list), old(self)@);
        let mut i: usize = 0;
        while i < syms.len()
            invariant
                i <= syms.len(),
                list == symbol_views(syms@),
                goal == encode(SymbolView::Function(Box::new(symbol@), list), old(self)@),
                goal == prepend(s@, encode_each(list, i as int, self@)),
            decreases syms.len() - i,
        {
            let ghost text = s@;
            match self.mangle(&syms[i]) {
                Ok(piece) => {
                    s.append(piece.as_str());
                    proof {
                        let rest = encode_each(list, i + 1, self@);
                        match rest.text {
                            Some(t) => {
                                assert(text + (piece@ + t) =~= (text + piece@) + t);
                            },
                            None => {},
                        }
                    }
                },
                Err(e) => {
                    return Err(e);
                },
            }
            i += 1;
        }
        Ok(s)
    }

    /// Encodes a template argument list: `I`, each argument, `E`.
    pub fn mangle_generic(&mut self, syms: &Vec<Symbol>) -> (r: Result<String, MangleError>)
        ensures
            final(self)@ == encode(SymbolView::Generic(symbol_views(syms@)), old(self)@).state,
            returned(r, encode(SymbolView::Generic(symbol_views(syms@)), old(self)@).text),
        decreases SymbolView::Generic(symbol_views(syms@)), 0nat,
    {
        let mut mangled = String::new();
        mangled.append("I");
        proof {
            reveal_strlit("I");
            reveal_strlit("E");
        }
        let ghost list = symbol_views(syms@);
        let ghost goal = encode(SymbolView::Generic(list), old(self)@);
        assert(mangled@ =~= seq!['I']);
        let mut i: usize = 0;
        while i < syms.len()
            invariant
                i <= syms.len(),
                list == symbol_views(syms@),
                goal == encode(SymbolView::Generic(list), old(self)@),
                goal == append(prepend(mangled@, encode_each(list, i as int, self@)), seq!['E']),
            decreases syms.len() - i,
        {
            let ghost text = mangled@;
            match self.mangle(&syms[i]) {
                Ok(piece) => {
                    mangled.append(piece.as_str());
                    proof {
                        let rest = encode_each(list, i + 1, self@);
                        match rest.text {
                            Some(t) => {
                                assert(text + (piece@ + t) =~= (text + piece@) + t);
                            },
                            None => {},
                        }
                    }
                },
                Err(e) => {
                    return Err(e);
                },
            }
            i += 1;
        }
        proof {
            assert(mangled@ + Seq::<char>::empty() =~= mangled@);
        }
        mangled.append("E");
        assert(goal.text == Some(mangled@));
        Ok(mangled)
    }

    /// Encodes a type name.
    pub fn mangle_type(&self, ty: &str) -> (code: String)
        ensures
            code@ == type_code(ty@),
    {
        encode_type_name(ty)
    }

    /// Encodes a qualified name: `N`, `K` for a `const` member function,
    /// each segment or its back-reference, `E`.
    pub fn mangle_namespace(&mut self, namespace: &Vec<Symbol>) -> (r: Result<String, MangleError>)
        ensures
            final(self)@ == encode(
                SymbolView::Namespace(symbol_views(namespace@)),
                old(self)@,
            ).state,
            returned(
                r,
                encode(SymbolView::Namespace(symbol_views(namespace@)), old(self)@).text,
            ),
        decreases SymbolView::Namespace(symbol_views(namespace@)), 0nat,
    {
        let mut mangled = String::from_str("N");
        proof {
            reveal_strlit("N");
            reveal_strlit("K");
            reveal_strlit("E");
            reveal_strlit("S_");
        }
        if self.should_be_const {
            mangled.append("K");
            self.should_be_const = false;
        }
        let ghost path = symbol_views(namespace@);
        let ghost goal = encode(SymbolView::Namespace(path), old(self)@);
        assert(mangled@ =~= if old(self)@.pending_const {
            seq!['N', 'K']
        } else {
            seq!['N']
        });
        assert(self@ == old(self)@.with_pending(false));
        let mut i: usize = 0;
        while i < namespace.len()
            invariant
                i <= namespace.len(),
                path == symbol_views(namespace@),
                "S_"@ == seq!['S', '_'],
                goal == encode(SymbolView::Namespace(path), old(self)@),
                goal == append(prepend(mangled@, encode_path(path, i as int, self@)), seq!['E']),
            decreases namespace.len() - i,
        {
            let ghost text = mangled@;
            let symbol = &namespace[i];
            if self.has_used(symbol) {
                mangled.append("S_");
                proof {
                    let rest = encode_path(path, i + 1, self@);
                    match rest.text {
                        Some(t) => {
                            assert(text + (seq!['S', '_'] + t) =~= (text + seq!['S', '_']) + t);
                        },
                        None => {},
                    }
                }
            } else {
                let r = self.mangle(symbol);
                let ghost before_call = self@;
                match r {
                    Ok(piece) => {
                        mangled.append(piece.as_str());
                        let copy = symbol.duplicate();
                        proof {
                            lemma_symbol_views_push(self.used_namespace@, copy);
                            let rest = encode_path(
                                path,
                                i + 1,
                                before_call.recording(path[i as int]),
                            );
                            match rest.text {
                                Some(t) => {
                                    assert(text + (piece@ + t) =~= (text + piece@) + t);
                                },
                                None => {},
                            }
                        }
                        self.used_namespace.push(copy);
                    },
                    Err(e) => {
                        return Err(e);
                    },
                }
            }
            i += 1;
        }
        proof {
            assert(mangled@ + Seq::<char>::empty() =~= mangled@);
        }
        mangled.append("E");
        assert(goal.text == Some(mangled@));
        Ok(mangled)
    }
}

} // verus!
