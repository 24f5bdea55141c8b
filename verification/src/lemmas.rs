//! What holds of the encoding, proved from its definition.

use vstd::prelude::*;
use crate::mangler::{
    all_supported, encode, encode_each, encode_path, mangled_name, prepend, qualifier_letters,
    supported, ManglerView,
};
use crate::symbol::{Symbol, SymbolView, TypedElement};

verus! {

/// The mangled name of a symbol depends on the symbol's value alone: equal
/// trees have equal names, whenever and however often they are encoded.
pub proof fn lemma_mangled_name_is_deterministic(a: Symbol, b: Symbol)
    requires
        a@ == b@,
    ensures
        mangled_name(a@) == mangled_name(b@),
{
}

/// An encoder whose table holds supported segments only encodes exactly the
/// supported symbols, and its table still holds supported segments only.
pub proof fn lemma_encode_supported(sym: SymbolView, st: ManglerView)
    requires
        all_supported(st.table),
    ensures
        all_supported(encode(sym, st).state.table),
        encode(sym, st).text is Some <==> supported(sym),
    decreases sym, 0nat,
{
    match sym {
        SymbolView::Namespace(path) => {
            lemma_encode_path_supported(path, 0, st.with_pending(false));
        },
        SymbolView::Type(_) => {},
        SymbolView::Generic(args) => {
            lemma_encode_each_supported(args, 0, st);
        },
        SymbolView::Function(callee, args) => {
            lemma_encode_supported(*callee, st);
            lemma_encode_each_supported(args, 0, encode(*callee, st).state);
        },
        SymbolView::Typed(inner, qualifiers) => {
            if *inner is Function {
                lemma_encode_supported(*inner, st.with_pending(true));
            } else {
                lemma_encode_supported(*inner, st);
            }
        },
        SymbolView::Constructor(_) => {},
        SymbolView::Operator(_) => {},
    }
}

/// [`lemma_encode_supported`], for the symbols `list[from..]`.
pub proof fn lemma_encode_each_supported(list: Seq<SymbolView>, from: int, st: ManglerView)
    requires
        all_supported(st.table),
        0 <= from <= list.len(),
    ensures
        all_supported(encode_each(list, from, st).state.table),
        encode_each(list, from, st).text is Some <==> forall|i: int|
            from <= i < list.len() ==> supported(#[trigger] list[i]),
    decreases list, list.len() - from,
{
    if from < list.len() {
        lemma_encode_supported(list[from], st);
        let first = encode(list[from], st);
        if first.text is Some {
            lemma_encode_each_supported(list, from + 1, first.state);
        }
    }
}

/// [`lemma_encode_supported`], for the segments `path[from..]`.
pub proof fn lemma_encode_path_supported(path: Seq<SymbolView>, from: int, st: ManglerView)
    requires
        all_supported(st.table),
        0 <= from <= path.len(),
    ensures
        all_supported(encode_path(path, from, st).state.table),
        encode_path(path, from, st).text is Some <==> forall|i: int|
            from <= i < path.len() ==> supported(#[trigger] path[i]),
    decreases path, path.len() - from,
{
    if from < path.len() {
        if st.table.contains(path[from]) {
            lemma_encode_path_supported(path, from + 1, st);
        } else {
            lemma_encode_supported(path[from], st);
            let first = encode(path[from], st);
            if first.text is Some {
                lemma_encode_path_supported(path, from + 1, first.state.recording(path[from]));
            }
        }
    }
}

/// A symbol has a mangled name exactly if it is supported.
pub proof fn lemma_mangled_name_iff_supported(sym: SymbolView)
    ensures
        mangled_name(sym) is Some <==> supported(sym),
{
    lemma_encode_supported(sym, ManglerView::fresh());
}

/// Whether `longer` starts with the elements of `shorter`.
pub open spec fn extends(longer: Seq<SymbolView>, shorter: Seq<SymbolView>) -> bool {
    &&& shorter.len() <= longer.len()
    &&& forall|k: int| 0 <= k < shorter.len() ==> longer[k] == #[trigger] shorter[k]
}

/// Encoding only ever adds segments to the end of the table.
pub proof fn lemma_encode_extends_table(sym: SymbolView, st: ManglerView)
    ensures
        extends(encode(sym, st).state.table, st.table),
    decreases sym, 0nat,
{
    match sym {
        SymbolView::Namespace(path) => {
            lemma_encode_path_extends_table(path, 0, st.with_pending(false));
        },
        SymbolView::Type(_) => {},
        SymbolView::Generic(args) => {
            lemma_encode_each_extends_table(args, 0, st);
        },
        SymbolView::Function(callee, args) => {
            lemma_encode_extends_table(*callee, st);
            lemma_encode_each_extends_table(args, 0, encode(*callee, st).state);
        },
        SymbolView::Typed(inner, qualifiers) => {
            if *inner is Function {
                lemma_encode_extends_table(*inner, st.with_pending(true));
            } else {
                lemma_encode_extends_table(*inner, st);
            }
        },
        SymbolView::Constructor(_) => {},
        SymbolView::Operator(_) => {},
    }
}

/// [`lemma_encode_extends_table`], for the symbols `list[from..]`.
pub proof fn lemma_encode_each_extends_table(list: Seq<SymbolView>, from: int, st: ManglerView)
    ensures
        extends(encode_each(list, from, st).state.table, st.table),
    decreases list, list.len() - from,
{
    if 0 <= from < list.len() {
        lemma_encode_extends_table(list[from], st);
        let first = encode(list[from], st);
        if first.text is Some {
            lemma_encode_each_extends_table(list, from + 1, first.state);
        }
    }
}

/// [`lemma_encode_extends_table`], for the segments `path[from..]`.
pub proof fn lemma_encode_path_extends_table(path: Seq<SymbolView>, from: int, st: ManglerView)
    ensures
        extends(encode_path(path, from, st).state.table, st.table),
    decreases path, path.len() - from,
{
    if 0 <= from < path.len() {
        if st.table.contains(path[from]) {
            lemma_encode_path_extends_table(path, from + 1, st);
        } else {
            lemma_encode_extends_table(path[from], st);
            let first = encode(path[from], st);
            if first.text is Some {
                let next = first.state.recording(path[from]);
                lemma_encode_path_extends_table(path, from + 1, next);
                let last = encode_path(path, from + 1, next).state.table;
                assert forall|k: int| 0 <= k < st.table.len() implies last[k]
                    == #[trigger] st.table[k] by {
                    assert(first.state.table[k] == st.table[k]);
                    assert(next.table[k] == first.state.table[k]);
                }
            }
        }
    }
}

/// The encoding of a path is the encoding of its first `upto` segments,
/// followed by the encoding of the others in the state that those left.
pub proof fn lemma_encode_path_split(
    path: Seq<SymbolView>,
    from: int,
    upto: int,
    st: ManglerView,
)
    requires
        0 <= from <= upto <= path.len(),
    ensures
        ({
            let before = encode_path(path.take(upto), from, st);
            encode_path(path, from, st) == match before.text {
                Some(text) => prepend(text, encode_path(path, upto, before.state)),
                None => before,
            }
        }),
    decreases upto - from,
{
    let front = path.take(upto);
    if from < upto {
        assert(front[from] == path[from]);
        if st.table.contains(path[from]) {
            lemma_encode_path_split(path, from + 1, upto, st);
            let before = encode_path(front, from + 1, st);
            match before.text {
                Some(text) => {
                    let rest = encode_path(path, upto, before.state);
                    match rest.text {
                        Some(t) => {
                            assert(seq!['S', '_'] + (text + t) =~= (seq!['S', '_'] + text) + t);
                        },
                        None => {},
                    }
                },
                None => {},
            }
        } else {
            let first = encode(path[from], st);
            match first.text {
                Some(piece) => {
                    let next = first.state.recording(path[from]);
                    lemma_encode_path_split(path, from + 1, upto, next);
                    let before = encode_path(front, from + 1, next);
                    match before.text {
                        Some(text) => {
                            let rest = encode_path(path, upto, before.state);
                            match rest.text {
                                Some(t) => {
                                    assert(piece + (text + t) =~= (piece + text) + t);
                                },
                                None => {},
                            }
                        },
                        None => {},
                    }
                },
                None => {},
            }
        }
    } else {
        let rest = encode_path(path, upto, st);
        match rest.text {
            Some(t) => {
                assert(Seq::<char>::empty() + t =~= t);
            },
            None => {},
        }
    }
}

/// Once the segments `path[from..]` are encoded, each of them is in the table.
pub proof fn lemma_encoded_segments_are_recorded(
    path: Seq<SymbolView>,
    from: int,
    st: ManglerView,
    i: int,
)
    requires
        0 <= from <= i < path.len(),
        encode_path(path, from, st).text is Some,
    ensures
        encode_path(path, from, st).state.table.contains(path[i]),
    decreases path.len() - from,
{
    let next = if st.table.contains(path[from]) {
        st
    } else {
        encode(path[from], st).state.recording(path[from])
    };
    assert(next.table.contains(path[from])) by {
        if !st.table.contains(path[from]) {
            assert(next.table[next.table.len() - 1] == path[from]);
        }
    }
    if i == from {
        lemma_encode_path_extends_table(path, from + 1, next);
        let k = choose|k: int| 0 <= k < next.table.len() && next.table[k] == path[from];
        assert(encode_path(path, from + 1, next).state.table[k] == path[from]);
    } else {
        lemma_encoded_segments_are_recorded(path, from + 1, next, i);
    }
}

/// In a qualified name, a segment that is equal to an earlier segment of
/// the name is written as the back-reference `S_`: the name's encoding is
/// that of the segments before it, then `S_`, then that of the segments
/// after it.
pub proof fn lemma_repeated_segment_is_back_reference(
    path: Seq<SymbolView>,
    earlier: int,
    later: int,
    st: ManglerView,
)
    requires
        0 <= earlier < later < path.len(),
        path[earlier] == path[later],
    ensures
        ({
            let before = encode_path(path.take(later), 0, st);
            encode_path(path, 0, st) == match before.text {
                Some(text) => prepend(
                    text + seq!['S', '_'],
                    encode_path(path, later + 1, before.state),
                ),
                None => before,
            }
        }),
{
    let front = path.take(later);
    let before = encode_path(front, 0, st);
    lemma_encode_path_split(path, 0, later, st);
    match before.text {
        Some(text) => {
            lemma_encoded_segments_are_recorded(front, 0, st, earlier);
            assert(front[earlier] == path[later]);
            let rest = encode_path(path, later + 1, before.state);
            match rest.text {
                Some(t) => {
                    assert(text + (seq!['S', '_'] + t) =~= (text + seq!['S', '_']) + t);
                },
                None => {},
            }
        },
        None => {},
    }
}

/// A symbol with an empty list of qualifiers is encoded as the symbol
/// itself, unless it is a function: a function is marked `const` by the
/// list around it, whatever the list holds.
pub proof fn lemma_no_qualifier_is_bare_symbol(inner: SymbolView, st: ManglerView)
    requires
        !(inner is Function),
    ensures
        encode(SymbolView::Typed(Box::new(inner), Seq::empty()), st) == encode(inner, st),
{
    let bare = encode(inner, st);
    match bare.text {
        Some(text) => {
            assert(qualifier_letters(Seq::empty()) + text =~= text);
        },
        None => {},
    }
}

/// The `const` of a member function is written as `K` right after the `N`
/// that opens the function's qualified name, whatever qualifiers the
/// function carries: but for that `K`, the encoding is that of the function
/// without them.
pub proof fn lemma_const_follows_name_opening(
    path: Seq<SymbolView>,
    args: Seq<SymbolView>,
    qualifiers: Seq<TypedElement>,
    st: ManglerView,
)
    ensures
        ({
            let function = SymbolView::Function(Box::new(SymbolView::Namespace(path)), args);
            let plain = encode(function, st.with_pending(false));
            let marked = encode(SymbolView::Typed(Box::new(function), qualifiers), st);
            &&& marked.state == plain.state
            &&& match plain.text {
                Some(text) => text.len() > 0 && text[0] == 'N' && marked.text == Some(
                    seq!['N', 'K'] + text.skip(1),
                ),
                None => marked.text is None,
            }
        }),
{
    let name = SymbolView::Namespace(path);
    let function = SymbolView::Function(Box::new(name), args);
    let inside = encode_path(path, 0, st.with_pending(false));
    let plain_name = encode(name, st.with_pending(false));
    let marked_name = encode(name, st.with_pending(true));
    let plain = encode(function, st.with_pending(false));
    let marked = encode(function, st.with_pending(true));
    assert(encode(SymbolView::Typed(Box::new(function), qualifiers), st) == marked);
    assert(plain == match plain_name.text {
        Some(text) => prepend(text, encode_each(args, 0, plain_name.state)),
        None => plain_name,
    });
    assert(marked == match marked_name.text {
        Some(text) => prepend(text, encode_each(args, 0, marked_name.state)),
        None => marked_name,
    });
    assert(st.with_pending(true).with_pending(false) == st.with_pending(false));
    assert(st.with_pending(false).with_pending(false) == st.with_pending(false));
    assert(plain_name.state == marked_name.state);
    match inside.text {
        Some(body) => {
            let plain_text = seq!['N'] + body + seq!['E'];
            let marked_text = seq!['N', 'K'] + body + seq!['E'];
            assert(plain_name.text == Some(plain_text));
            assert(marked_name.text == Some(marked_text));
            let rest = encode_each(args, 0, plain_name.state);
            match rest.text {
                Some(t) => {
                    assert((plain_text + t).skip(1) =~= body + seq!['E'] + t);
                    assert(marked_text + t =~= seq!['N', 'K'] + (plain_text + t).skip(1));
                },
                None => {},
            }
        },
        None => {},
    }
}

} // verus!
