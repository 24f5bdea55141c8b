//! The symbol tree that the parser produces and the encoder walks.

use vstd::prelude::*;
use vstd::std_specs::cmp::PartialEqSpecImpl;

verus! {

/// A qualifier written after a type: `&`, `*` or `const`.
#[derive(Debug, Clone, Copy, PartialEq, Eq, Structural)]
pub enum TypedElement {
    Ref,
    Ptr,
    Const,
}

/// A node of the symbol tree.
#[derive(Debug)]
pub enum Symbol {
    /// A qualified name: the path from the outermost segment to the innermost.
    Namespace(Vec<Symbol>),
    /// A function: what is called, and the parameter types in declaration order.
    Function(Box<Symbol>, Vec<Symbol>),
    /// A constructor with its parameter types. Reserved: it has no encoding.
    Constructor(Vec<Symbol>),
    /// A template argument list. The parser puts the template's name in
    /// front of the arguments.
    Generic(Vec<Symbol>),
    /// A type name; the words of a multi-word name are separated by one space.
    Type(String),
    /// An overloaded operator. Reserved: it has no encoding.
    Operator(String),
    /// A symbol with the qualifiers that were written after it, in that order.
    Typed(Box<Symbol>, Vec<TypedElement>),
}

/// The mathematical value of a [`Symbol`]: the same tree over sequences.
pub enum SymbolView {
    Namespace(Seq<SymbolView>),
    Function(Box<SymbolView>, Seq<SymbolView>),
    Constructor(Seq<SymbolView>),
    Generic(Seq<SymbolView>),
    Type(Seq<char>),
    Operator(Seq<char>),
    Typed(Box<SymbolView>, Seq<TypedElement>),
}

impl SymbolView {
    /// Whether every qualified name in the tree has at least one segment.
    pub open spec fn well_formed(self) -> bool
        decreases self,
    {
        match self {
            SymbolView::Namespace(path) => path.len() >= 1 && forall|i: int|
                0 <= i < path.len() ==> (#[trigger] path[i]).well_formed(),
            SymbolView::Function(callee, args) => callee.well_formed() && forall|i: int|
                0 <= i < args.len() ==> (#[trigger] args[i]).well_formed(),
            SymbolView::Constructor(args) => forall|i: int|
                0 <= i < args.len() ==> (#[trigger] args[i]).well_formed(),
            SymbolView::Generic(args) => forall|i: int|
                0 <= i < args.len() ==> (#[trigger] args[i]).well_formed(),
            SymbolView::Type(_) => true,
            SymbolView::Operator(_) => true,
            SymbolView::Typed(inner, _) => inner.well_formed(),
        }
    }
}

/// The value of one symbol.
pub open spec fn symbol_view(sym: Symbol) -> SymbolView
    decreases sym,
{
    match sym {
        Symbol::Namespace(path) => SymbolView::Namespace(symbol_views(path@)),
        Symbol::Function(callee, args) => SymbolView::Function(
            Box::new(symbol_view(*callee)),
            symbol_views(args@),
        ),
        Symbol::Constructor(args) => SymbolView::Constructor(symbol_views(args@)),
        Symbol::Generic(args) => SymbolView::Generic(symbol_views(args@)),
        Symbol::Type(name) => SymbolView::Type(name@),
        Symbol::Operator(name) => SymbolView::Operator(name@),
        Symbol::Typed(inner, qualifiers) => SymbolView::Typed(
            Box::new(symbol_view(*inner)),
            qualifiers@,
        ),
    }
}

/// The values of a list of symbols, element by element.
pub open spec fn symbol_views(list: Seq<Symbol>) -> Seq<SymbolView>
    decreases list,
{
    Seq::new(
        list.len(),
        |i: int|
            if 0 <= i < list.len() {
                symbol_view(list[i])
            } else {
                arbitrary()
            },
    )
}

impl View for Symbol {
    type V = SymbolView;

    open spec fn view(&self) -> SymbolView {
        symbol_view(*self)
    }
}

/// Pushing a symbol onto a list pushes its value onto the list's values.
pub proof fn lemma_symbol_views_push(list: Seq<Symbol>, sym: Symbol)
    ensures
        symbol_views(list.push(sym)) == symbol_views(list).push(sym@),
{
    assert(symbol_views(list.push(sym)) =~= symbol_views(list).push(sym@));
}

impl Symbol {
    /// Structural equality: the two trees have the same shape and the same
    /// names and qualifiers throughout.
    pub fn same_as(&self, other: &Symbol) -> (r: bool)
        ensures
            r == (self@ == other@),
        decreases self,
    {
        match self {
            Symbol::Namespace(a) => match other {
                Symbol::Namespace(b) => same_list(a, b),
                _ => false,
            },
            Symbol::Function(f, a) => match other {
                Symbol::Function(g, b) => f.same_as(g) && same_list(a, b),
                _ => false,
            },
            Symbol::Constructor(a) => match other {
                Symbol::Constructor(b) => same_list(a, b),
                _ => false,
            },
            Symbol::Generic(a) => match other {
                Symbol::Generic(b) => same_list(a, b),
                _ => false,
            },
            Symbol::Type(a) => match other {
                Symbol::Type(b) => *a == *b,
                _ => false,
            },
            Symbol::Operator(a) => match other {
                Symbol::Operator(b) => *a == *b,
                _ => false,
            },
            Symbol::Typed(s, a) => match other {
                Symbol::Typed(t, b) => s.same_as(t) && same_qualifiers(a, b),
                _ => false,
            },
        }
    }

    /// A copy of the whole tree.
    pub fn duplicate(&self) -> (r: Symbol)
        ensures
            r@ == self@,
        decreases self,
    {
        match self {
            Symbol::Namespace(a) => Symbol::Namespace(duplicate_list(a)),
            Symbol::Function(f, a) => Symbol::Function(Box::new(f.duplicate()), duplicate_list(a)),
            Symbol::Constructor(a) => Symbol::Constructor(duplicate_list(a)),
            Symbol::Generic(a) => Symbol::Generic(duplicate_list(a)),
            Symbol::Type(a) => Symbol::Type(a.clone()),
            Symbol::Operator(a) => Symbol::Operator(a.clone()),
            Symbol::Typed(s, a) => Symbol::Typed(Box::new(s.duplicate()), a.clone()),
        }
    }
}

fn same_list(a: &Vec<Symbol>, b: &Vec<Symbol>) -> (r: bool)
    ensures
        r == (symbol_views(a@) == symbol_views(b@)),
    decreases a,
{
    if a.len() != b.len() {
        assert(symbol_views(a@).len() != symbol_views(b@).len());
        return false;
    }
    let mut i: usize = 0;
    while i < a.len()
        invariant
            a.len() == b.len(),
            i <= a.len(),
            forall|j: int| 0 <= j < i ==> a@[j]@ == b@[j]@,
        decreases a.len() - i,
    {
        if !a[i].same_as(&b[i]) {
            assert(symbol_views(a@)[i as int] != symbol_views(b@)[i as int]);
            return false;
        }
        i += 1;
    }
    assert(symbol_views(a@) =~= symbol_views(b@));
    true
}

fn same_qualifiers(a: &Vec<TypedElement>, b: &Vec<TypedElement>) -> (r: bool)
    ensures
        r == (a@ == b@),
{
    if a.len() != b.len() {
        return false;
    }
    let mut i: usize = 0;
    while i < a.len()
        invariant
            a.len() == b.len(),
            i <= a.len(),
            forall|j: int| 0 <= j < i ==> a@[j] == b@[j],
        decreases a.len() - i,
    {
        if a[i] != b[i] {
            return false;
        }
        i += 1;
    }
    assert(a@ =~= b@);
    true
}

/// A copy of each tree of a list.
pub fn duplicate_list(a: &Vec<Symbol>) -> (r: Vec<Symbol>)
    ensures
        symbol_views(r@) == symbol_views(a@),
    decreases a,
{
    let mut r: Vec<Symbol> = Vec::new();
    let mut i: usize = 0;
    while i < a.len()
        invariant
            i <= a.len(),
            r.len() == i,
            forall|j: int| 0 <= j < i ==> r@[j]@ == a@[j]@,
        decreases a.len() - i,
    {
        r.push(a[i].duplicate());
        i += 1;
    }
    assert(symbol_views(r@) =~= symbol_views(a@));
    r
}

impl Clone for Symbol {
    fn clone(&self) -> (r: Symbol)
        ensures
            r@ == self@,
    {
        self.duplicate()
    }
}

impl PartialEq for Symbol {
    fn eq(&self, other: &Symbol) -> (r: bool) {
        self.same_as(other)
    }
}

impl PartialEqSpecImpl for Symbol {
    open spec fn obeys_eq_spec() -> bool {
        true
    }

    open spec fn eq_spec(&self, other: &Symbol) -> bool {
        self@ == other@
    }
}

} // verus!
