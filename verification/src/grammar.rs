//! The grammar of signatures, and the parser that turns a signature's text
//! into a concrete syntax tree.
//!
//! ```text
//! function   := namespace "(" [ ty_element { "," ty_element } ] ")" [ "const" ]
//! namespace  := segment { "::" segment }
//! segment    := generic | type
//! generic    := type "<" [ element { "," element } ] ">"
//! type       := word { word }
//! element    := namespace | generic | type
//! ty_element := element { "const" | "*" | "&" }
//! ```
//!
//! White space may stand between any two tokens. A word is an identifier
//! other than `const`; the standard library names that the ABI abbreviates,
//! `std::string`, `std::allocator` and `std::basic_string`, are words too. An
//! element is a namespace where it has two segments or more, and else the
//! one segment itself. The whole text must be one function.
//!
//! The grammar is defined by [`parse_function`] and the functions under it,
//! on the characters of the text. Each of them reads from a position on and
//! says where it stopped; those that read a list take the items read so far.
//! Where one of them calls itself for the rest of a list, it first asks that
//! the position has moved forward. It always has: the test is there so that
//! the definition is seen to end. [`parse`] computes what they define.

use vstd::prelude::*;
use vstd::string::*;
use crate::error::MangleError;

verus! {

/// The kinds of node in a concrete syntax tree.
#[derive(Debug, Clone, Copy, PartialEq, Eq, Structural)]
pub enum Rule {
    /// A whole signature: a qualified name, a parameter list, perhaps `const`.
    Function,
    /// A qualified name: segments separated by `::`.
    Namespace,
    /// A template instantiation: a type, then its arguments between `<` and `>`.
    Generic,
    /// A type name of one or more words.
    Type,
    /// One word of a type name.
    Word,
    /// A qualified name, a template instantiation or a type name.
    Element,
    /// An element with the qualifiers written after it.
    TyElement,
    /// The qualifier `const`.
    Const,
    /// The qualifier `*`.
    Ptr,
    /// The qualifier `&`.
    Ref,
}

/// What the parser was looking for where it gave up.
#[derive(Debug, Clone, Copy, PartialEq, Eq, Structural)]
pub enum Expected {
    /// A word of a type name.
    Name,
    /// The `(` that opens the parameter list.
    OpenParen,
    /// A `,` before the next parameter, or the `)` that closes the list.
    CommaOrCloseParen,
    /// A `,` before the next template argument, or the `>` that closes the list.
    CommaOrCloseAngle,
    /// The end of the text.
    EndOfInput,
}

/// A node of a concrete syntax tree: what rule matched, the text of a token,
/// and the nodes matched inside it. A node with nodes inside carries no text.
#[derive(Debug)]
pub struct Pair {
    pub rule: Rule,
    pub text: String,
    pub inner: Vec<Pair>,
}

/// The mathematical value of a [`Pair`].
pub struct PairView {
    pub rule: Rule,
    pub text: Seq<char>,
    pub inner: Seq<PairView>,
}

/// The value of one node.
pub open spec fn pair_view(pair: Pair) -> PairView
    decreases pair,
{
    PairView { rule: pair.rule, text: pair.text@, inner: pair_views(pair.inner@) }
}

/// The values of a list of nodes, element by element.
pub open spec fn pair_views(list: Seq<Pair>) -> Seq<PairView>
    decreases list,
{
    Seq::new(
        list.len(),
        |i: int|
            if 0 <= i < list.len() {
                pair_view(list[i])
            } else {
                arbitrary()
            },
    )
}

impl View for Pair {
    type V = PairView;

    open spec fn view(&self) -> PairView {
        pair_view(*self)
    }
}

/// A token: a node that holds text and no other node.
pub open spec fn leaf(rule: Rule, text: Seq<char>) -> PairView {
    PairView { rule, text, inner: Seq::empty() }
}

/// A node that holds other nodes.
pub open spec fn node(rule: Rule, inner: Seq<PairView>) -> PairView {
    PairView { rule, text: Seq::empty(), inner }
}

/// What parsing from some position gives: a value and the position after it,
/// or the position at which the parser gave up and what it expected there.
pub enum Parsed<T> {
    Done { value: T, end: int },
    Failed { position: int, expected: Expected },
}

/// Whether a character is white space: a blank, a tab or a line break.
pub open spec fn is_space(c: char) -> bool {
    c == ' ' || c == '\t' || c == '\n' || c == '\r'
}

/// Whether a character can start an identifier: a letter or `_`.
pub open spec fn is_name_start(c: char) -> bool {
    ('a' <= c && c <= 'z') || ('A' <= c && c <= 'Z') || c == '_'
}

/// Whether a character can stand in an identifier: a letter, `_` or a digit.
pub open spec fn is_name_char(c: char) -> bool {
    is_name_start(c) || ('0' <= c && c <= '9')
}

/// The character at a position, if the text has one there.
pub open spec fn peek(s: Seq<char>, pos: int) -> Option<char> {
    if 0 <= pos < s.len() {
        Some(s[pos])
    } else {
        None
    }
}

/// The first position from `pos` on that holds no white space.
pub open spec fn skip_spaces(s: Seq<char>, pos: int) -> int
    decreases s.len() - pos,
{
    if 0 <= pos < s.len() && is_space(s[pos]) {
        skip_spaces(s, pos + 1)
    } else {
        pos
    }
}

/// The first position from `pos` on that holds no character of a name.
pub open spec fn name_end(s: Seq<char>, pos: int) -> int
    decreases s.len() - pos,
{
    if 0 <= pos < s.len() && is_name_char(s[pos]) {
        name_end(s, pos + 1)
    } else {
        pos
    }
}

/// Whether the characters of `word` stand at `pos`.
pub open spec fn looking_at(s: Seq<char>, pos: int, word: Seq<char>) -> bool {
    0 <= pos && pos + word.len() <= s.len() && s.subrange(pos, pos + word.len()) == word
}

/// Whether `word` stands at `pos` and no character of a name follows it.
pub open spec fn keyword_at(s: Seq<char>, pos: int, word: Seq<char>) -> bool {
    looking_at(s, pos, word) && !(peek(s, pos + word.len()) matches Some(c) && is_name_char(c))
}

/// The end of the word that starts at `pos`, if one does.
pub open spec fn word_end(s: Seq<char>, pos: int) -> Option<int> {
    if keyword_at(s, pos, "std::string"@) {
        Some(pos + "std::string"@.len())
    } else if keyword_at(s, pos, "std::allocator"@) {
        Some(pos + "std::allocator"@.len())
    } else if keyword_at(s, pos, "std::basic_string"@) {
        Some(pos + "std::basic_string"@.len())
    } else if peek(s, pos) matches Some(c) && is_name_start(c) && !keyword_at(s, pos, "const"@) {
        Some(name_end(s, pos))
    } else {
        None
    }
}

/// The type name that starts at `pos`.
pub open spec fn parse_type(s: Seq<char>, pos: int) -> Parsed<PairView> {
    match word_end(s, pos) {
        Some(end) => type_words(s, end, seq![leaf(Rule::Word, s.subrange(pos, end))]),
        None => Parsed::Failed { position: pos, expected: Expected::Name },
    }
}

/// The type name whose first words are `words`, the last of which ends at
/// `pos`.
pub open spec fn type_words(s: Seq<char>, pos: int, words: Seq<PairView>) -> Parsed<PairView>
    decreases s.len() - pos,
{
    let next = skip_spaces(s, pos);
    match word_end(s, next) {
        Some(end) => {
            if pos < end <= s.len() {
                type_words(s, end, words.push(leaf(Rule::Word, s.subrange(next, end))))
            } else {
                Parsed::Done { value: node(Rule::Type, words), end: pos }
            }
        },
        None => Parsed::Done { value: node(Rule::Type, words), end: pos },
    }
}

/// The segment of a qualified name that starts at `pos`: a type name, or a
/// template instantiation where `<` follows the type name.
pub open spec fn parse_segment(s: Seq<char>, pos: int) -> Parsed<PairView>
    decreases s.len() - pos, 1nat,
{
    match parse_type(s, pos) {
        Parsed::Done { value: name, end } => {
            let open = skip_spaces(s, end);
            if peek(s, open) == Some('<') {
                let first = skip_spaces(s, open + 1);
                if peek(s, first) == Some('>') {
                    Parsed::Done { value: node(Rule::Generic, seq![name]), end: first + 1 }
                } else if pos < first <= s.len() {
                    generic_items(s, first, seq![name])
                } else {
                    Parsed::Failed { position: first, expected: Expected::Name }
                }
            } else {
                Parsed::Done { value: name, end }
            }
        },
        Parsed::Failed { position, expected } => Parsed::Failed { position, expected },
    }
}

/// The template instantiation whose name and first arguments are `items`
/// and whose next argument starts at `pos`.
pub open spec fn generic_items(s: Seq<char>, pos: int, items: Seq<PairView>) -> Parsed<PairView>
    decreases s.len() - pos, 4nat,
{
    match parse_element(s, pos) {
        Parsed::Done { value: element, end } => {
            let sep = skip_spaces(s, end);
            if peek(s, sep) == Some(',') {
                let next = skip_spaces(s, sep + 1);
                if pos < next <= s.len() {
                    generic_items(s, next, items.push(element))
                } else {
                    Parsed::Failed { position: next, expected: Expected::Name }
                }
            } else if peek(s, sep) == Some('>') {
                Parsed::Done { value: node(Rule::Generic, items.push(element)), end: sep + 1 }
            } else {
                Parsed::Failed { position: sep, expected: Expected::CommaOrCloseAngle }
            }
        },
        Parsed::Failed { position, expected } => Parsed::Failed { position, expected },
    }
}

/// The element that starts at `pos`.
pub open spec fn parse_element(s: Seq<char>, pos: int) -> Parsed<PairView>
    decreases s.len() - pos, 3nat,
{
    match path_segments(s, pos, Seq::empty()) {
        Parsed::Done { value: segments, end } => {
            let inner = if segments.len() == 1 {
                segments[0]
            } else {
                node(Rule::Namespace, segments)
            };
            Parsed::Done { value: node(Rule::Element, seq![inner]), end }
        },
        Parsed::Failed { position, expected } => Parsed::Failed { position, expected },
    }
}

/// The segments of the qualified name whose first segments are `segments`
/// and whose next segment starts at `pos`.
pub open spec fn path_segments(s: Seq<char>, pos: int, segments: Seq<PairView>) -> Parsed<
    Seq<PairView>,
>
    decreases s.len() - pos, 2nat,
{
    match parse_segment(s, pos) {
        Parsed::Done { value: segment, end } => {
            let sep = skip_spaces(s, end);
            if looking_at(s, sep, "::"@) {
                let next = skip_spaces(s, sep + "::"@.len());
                if pos < next <= s.len() {
                    path_segments(s, next, segments.push(segment))
                } else {
                    Parsed::Failed { position: next, expected: Expected::Name }
                }
            } else {
                Parsed::Done { value: segments.push(segment), end }
            }
        },
        Parsed::Failed { position, expected } => Parsed::Failed { position, expected },
    }
}

/// The element that starts at `pos`, with the qualifiers written after it.
pub open spec fn parse_ty_element(s: Seq<char>, pos: int) -> Parsed<PairView> {
    match parse_element(s, pos) {
        Parsed::Done { value: element, end } => qualifiers(s, end, seq![element]),
        Parsed::Failed { position, expected } => Parsed::Failed { position, expected },
    }
}

/// The qualified element whose element and first qualifiers are `items`,
/// the last of which ends at `pos`.
pub open spec fn qualifiers(s: Seq<char>, pos: int, items: Seq<PairView>) -> Parsed<PairView>
    decreases s.len() - pos,
{
    let next = skip_spaces(s, pos);
    if pos <= next < s.len() && s[next] == '*' {
        qualifiers(s, next + 1, items.push(leaf(Rule::Ptr, "*"@)))
    } else if pos <= next < s.len() && s[next] == '&' {
        qualifiers(s, next + 1, items.push(leaf(Rule::Ref, "&"@)))
    } else if pos <= next && keyword_at(s, next, "const"@) {
        proof {
            reveal_strlit("const");
        }
        qualifiers(s, next + "const"@.len(), items.push(leaf(Rule::Const, "const"@)))
    } else {
        Parsed::Done { value: node(Rule::TyElement, items), end: pos }
    }
}

/// The parameters of the function whose name and first parameters are
/// `items` and whose next parameter starts at `pos`, up to the `)`.
pub open spec fn parameter_items(s: Seq<char>, pos: int, items: Seq<PairView>) -> Parsed<
    Seq<PairView>,
>
    decreases s.len() - pos,
{
    match parse_ty_element(s, pos) {
        Parsed::Done { value: parameter, end } => {
            let sep = skip_spaces(s, end);
            if peek(s, sep) == Some(',') {
                let next = skip_spaces(s, sep + 1);
                if pos < next <= s.len() {
                    parameter_items(s, next, items.push(parameter))
                } else {
                    Parsed::Failed { position: next, expected: Expected::Name }
                }
            } else if peek(s, sep) == Some(')') {
                Parsed::Done { value: items.push(parameter), end: sep + 1 }
            } else {
                Parsed::Failed { position: sep, expected: Expected::CommaOrCloseParen }
            }
        },
        Parsed::Failed { position, expected } => Parsed::Failed { position, expected },
    }
}

/// The function that starts at `pos`, up to the end of its parameter list:
/// its name and its parameters.
pub open spec fn parse_signature(s: Seq<char>, pos: int) -> Parsed<Seq<PairView>> {
    match path_segments(s, pos, Seq::empty()) {
        Parsed::Done { value: segments, end } => {
            let open = skip_spaces(s, end);
            if peek(s, open) == Some('(') {
                let first = skip_spaces(s, open + 1);
                let name = node(Rule::Namespace, segments);
                if peek(s, first) == Some(')') {
                    Parsed::Done { value: seq![name], end: first + 1 }
                } else {
                    parameter_items(s, first, seq![name])
                }
            } else {
                Parsed::Failed { position: open, expected: Expected::OpenParen }
            }
        },
        Parsed::Failed { position, expected } => Parsed::Failed { position, expected },
    }
}

/// The concrete syntax tree of a whole text.
pub open spec fn parse_function(s: Seq<char>) -> Parsed<PairView> {
    match parse_signature(s, skip_spaces(s, 0)) {
        Parsed::Done { value: items, end } => {
            let tail = skip_spaces(s, end);
            let marked = keyword_at(s, tail, "const"@);
            let stop = skip_spaces(
                s,
                if marked {
                    tail + "const"@.len()
                } else {
                    end
                },
            );
            if stop == s.len() {
                Parsed::Done {
                    value: node(
                        Rule::Function,
                        if marked {
                            items.push(leaf(Rule::Const, "const"@))
                        } else {
                            items
                        },
                    ),
                    end: stop,
                }
            } else {
                Parsed::Failed { position: stop, expected: Expected::EndOfInput }
            }
        },
        Parsed::Failed { position, expected } => Parsed::Failed { position, expected },
    }
}

/// Whether an error reports the failure of a parse, at a position in a text
/// of `length` characters.
pub open spec fn reports<T>(e: MangleError, p: Parsed<T>, length: nat) -> bool {
    &&& p matches Parsed::Failed { position, expected }
    &&& 0 <= position <= length <= usize::MAX
    &&& e == (MangleError::ParseError { position: position as usize, expected })
}

/// Pushing a node onto a list pushes its value onto the list's values.
pub proof fn lemma_pair_views_push(list: Seq<Pair>, pair: Pair)
    ensures
        pair_views(list.push(pair)) == pair_views(list).push(pair@),
{
    assert(pair_views(list.push(pair)) =~= pair_views(list).push(pair@));
}

fn token(rule: Rule, text: &str) -> (pair: Pair)
    ensures
        pair@ == leaf(rule, text@),
{
    let pair = Pair { rule, text: String::from_str(text), inner: Vec::new() };
    assert(pair_views(pair.inner@) =~= Seq::empty());
    pair
}

fn branch(rule: Rule, inner: Vec<Pair>) -> (pair: Pair)
    ensures
        pair@ == node(rule, pair_views(inner@)),
{
    Pair { rule, text: String::new(), inner }
}

fn space(c: char) -> (r: bool)
    ensures
        r == is_space(c),
{
    c == ' ' || c == '\t' || c == '\n' || c == '\r'
}

fn name_start(c: char) -> (r: bool)
    ensures
        r == is_name_start(c),
{
    (c >= 'a' && c <= 'z') || (c >= 'A' && c <= 'Z') || c == '_'
}

fn name_char(c: char) -> (r: bool)
    ensures
        r == is_name_char(c),
{
    name_start(c) || (c >= '0' && c <= '9')
}

/// A text with its characters laid out for indexing.
struct Source<'a> {
    text: &'a str,
    chars: Vec<char>,
    /// Whether the text is known to be ASCII, so that it can be sliced in
    /// constant time.
    ascii: bool,
}

impl<'a> Source<'a> {
    spec fn wf(&self) -> bool {
        &&& self.chars@ == self.text@
        &&& self.text@.len() <= usize::MAX
        &&& self.ascii ==> self.text.is_ascii()
    }

    fn new(text: &'a str) -> (src: Source<'a>)
        ensures
            src.wf(),
            src.text@ == text@,
    {
        let mut chars: Vec<char> = Vec::new();
        for c in it: text.chars()
            invariant
                chars@ == it.seq().take(it.index() as int),
                it.seq() == text@,
        {
            chars.push(c);
        }
        assert(chars@ =~= text@);
        assert(text@.len() == chars.len());
        Source { text, chars, ascii: text.is_ascii() }
    }

    fn peek(&self, pos: usize) -> (c: Option<char>)
        requires
            self.wf(),
        ensures
            c == peek(self.text@, pos as int),
    {
        if pos < self.chars.len() {
            Some(self.chars[pos])
        } else {
            None
        }
    }

    fn skip_spaces(&self, pos: usize) -> (end: usize)
        requires
            self.wf(),
            pos <= self.text@.len(),
        ensures
            end == skip_spaces(self.text@, pos as int),
            pos <= end <= self.text@.len(),
    {
        let mut end = pos;
        while end < self.chars.len() && space(self.chars[end])
            invariant
                self.wf(),
                pos <= end <= self.text@.len(),
                skip_spaces(self.text@, pos as int) == skip_spaces(self.text@, end as int),
            decreases self.chars.len() - end,
        {
            end += 1;
        }
        end
    }

    fn name_end(&self, pos: usize) -> (end: usize)
        requires
            self.wf(),
            pos <= self.text@.len(),
        ensures
            end == name_end(self.text@, pos as int),
            pos <= end <= self.text@.len(),
    {
        let mut end = pos;
        while end < self.chars.len() && name_char(self.chars[end])
            invariant
                self.wf(),
                pos <= end <= self.text@.len(),
                name_end(self.text@, pos as int) == name_end(self.text@, end as int),
            decreases self.chars.len() - end,
        {
            end += 1;
        }
        end
    }

    /// The position after `word`, where `word` stands at `pos`.
    fn after(&self, pos: usize, word: &str) -> (end: Option<usize>)
        requires
            self.wf(),
            pos <= self.text@.len(),
        ensures
            end is Some == looking_at(self.text@, pos as int, word@),
            end matches Some(e) ==> e == pos + word@.len(),
    {
        let mut k: usize = 0;
        for c in it: word.chars()
            invariant
                self.wf(),
                it.seq() == word@,
                k == it.index(),
                self.chars.len() == self.text@.len(),
                pos + k <= self.text@.len(),
                forall|j: int| 0 <= j < k ==> self.text@[pos + j] == word@[j],
        {
            if pos + k >= self.chars.len() || self.chars[pos + k] != c {
                assert(!looking_at(self.text@, pos as int, word@)) by {
                    if looking_at(self.text@, pos as int, word@) {
                        assert(self.text@.subrange(pos as int, pos + word@.len())[k as int]
                            == word@[k as int]);
                    }
                }
                return None;
            }
            k += 1;
        }
        assert(self.text@.subrange(pos as int, pos + word@.len()) =~= word@);
        Some(pos + k)
    }

    /// The position after `word`, where `word` stands at `pos` and no
    /// character of a name follows it.
    fn after_keyword(&self, pos: usize, word: &str) -> (end: Option<usize>)
        requires
            self.wf(),
            pos <= self.text@.len(),
        ensures
            end is Some == keyword_at(self.text@, pos as int, word@),
            end matches Some(e) ==> e == pos + word@.len(),
    {
        match self.after(pos, word) {
            Some(end) => {
                if end < self.chars.len() && name_char(self.chars[end]) {
                    None
                } else {
                    Some(end)
                }
            },
            None => None,
        }
    }

    fn word_end(&self, pos: usize) -> (end: Option<usize>)
        requires
            self.wf(),
            pos <= self.text@.len(),
        ensures
            match end {
                Some(e) => word_end(self.text@, pos as int) == Some(e as int) && pos < e
                    <= self.text@.len(),
                None => word_end(self.text@, pos as int) is None,
            },
    {
        proof {
            reveal_strlit("std::string");
            reveal_strlit("std::allocator");
            reveal_strlit("std::basic_string");
        }
        if let Some(end) = self.after_keyword(pos, "std::string") {
            return Some(end);
        }
        if let Some(end) = self.after_keyword(pos, "std::allocator") {
            return Some(end);
        }
        if let Some(end) = self.after_keyword(pos, "std::basic_string") {
            return Some(end);
        }
        if pos < self.chars.len() && name_start(self.chars[pos]) {
            if self.after_keyword(pos, "const").is_some() {
                None
            } else {
                Some(self.name_end(pos + 1))
            }
        } else {
            None
        }
    }

    fn leaf(&self, rule: Rule, from: usize, to: usize) -> (pair: Pair)
        requires
            self.wf(),
            from <= to <= self.text@.len(),
        ensures
            pair@ == leaf(rule, self.text@.subrange(from as int, to as int)),
    {
        if self.ascii {
            token(rule, self.text.substring_ascii(from, to))
        } else {
            token(rule, self.text.substring_char(from, to))
        }
    }
}

impl<'a> Source<'a> {
    fn parse_type(&self, pos: usize) -> (r: Result<(Pair, usize), MangleError>)
        requires
            self.wf(),
            pos <= self.text@.len(),
        ensures
            match r {
                Ok((pair, end)) => parse_type(self.text@, pos as int) == (Parsed::Done {
                    value: pair@,
                    end: end as int,
                }) && pos < end <= self.text@.len(),
                Err(e) => reports(e, parse_type(self.text@, pos as int), self.text@.len()),
            },
    {
        let first = match self.word_end(pos) {
            Some(end) => end,
            None => {
                return Err(MangleError::ParseError { position: pos, expected: Expected::Name });
            },
        };
        let mut words: Vec<Pair> = Vec::new();
        words.push(self.leaf(Rule::Word, pos, first));
        assert(pair_views(words@) =~= seq![
            leaf(Rule::Word, self.text@.subrange(pos as int, first as int)),
        ]);
        let mut end = first;
        loop
            invariant
                self.wf(),
                pos < end <= self.text@.len(),
                parse_type(self.text@, pos as int) == type_words(
                    self.text@,
                    end as int,
                    pair_views(words@),
                ),
            decreases self.text@.len() - end,
        {
            let next = self.skip_spaces(end);
            match self.word_end(next) {
                Some(last) => {
                    let word = self.leaf(Rule::Word, next, last);
                    proof {
                        lemma_pair_views_push(words@, word);
                    }
                    words.push(word);
                    end = last;
                },
                None => {
                    return Ok((branch(Rule::Type, words), end));
                },
            }
        }
    }

    fn parse_segment(&self, pos: usize) -> (r: Result<(Pair, usize), MangleError>)
        requires
            self.wf(),
            pos <= self.text@.len(),
        ensures
            match r {
                Ok((pair, end)) => parse_segment(self.text@, pos as int) == (Parsed::Done {
                    value: pair@,
                    end: end as int,
                }) && pos < end <= self.text@.len(),
                Err(e) => reports(e, parse_segment(self.text@, pos as int), self.text@.len()),
            },
        decreases self.text@.len() - pos, 1nat,
    {
        let (name, end) = self.parse_type(pos)?;
        let open = self.skip_spaces(end);
        if self.peek(open) != Some('<') {
            return Ok((name, end));
        }
        let first = self.skip_spaces(open + 1);
        let mut items: Vec<Pair> = Vec::new();
        items.push(name);
        assert(pair_views(items@) =~= seq![name@]);
        if self.peek(first) == Some('>') {
            return Ok((branch(Rule::Generic, items), first + 1));
        }
        let mut at = first;
        loop
            invariant
                self.wf(),
                pos < at <= self.text@.len(),
                parse_segment(self.text@, pos as int) == generic_items(
                    self.text@,
                    at as int,
                    pair_views(items@),
                ),
            decreases self.text@.len() - at,
        {
            let (element, end) = self.parse_element(at)?;
            proof {
                lemma_pair_views_push(items@, element);
            }
            items.push(element);
            let sep = self.skip_spaces(end);
            match self.peek(sep) {
                Some(',') => {
                    at = self.skip_spaces(sep + 1);
                },
                Some('>') => {
                    return Ok((branch(Rule::Generic, items), sep + 1));
                },
                _ => {
                    return Err(
                        MangleError::ParseError {
                            position: sep,
                            expected: Expected::CommaOrCloseAngle,
                        },
                    );
                },
            }
        }
    }

    fn parse_element(&self, pos: usize) -> (r: Result<(Pair, usize), MangleError>)
        requires
            self.wf(),
            pos <= self.text@.len(),
        ensures
            match r {
                Ok((pair, end)) => parse_element(self.text@, pos as int) == (Parsed::Done {
                    value: pair@,
                    end: end as int,
                }) && pos < end <= self.text@.len(),
                Err(e) => reports(e, parse_element(self.text@, pos as int), self.text@.len()),
            },
        decreases self.text@.len() - pos, 3nat,
    {
        let (mut segments, end) = self.path_segments(pos)?;
        let ghost path = pair_views(segments@);
        let inside = if segments.len() == 1 {
            let only = segments.remove(0);
            assert(only@ == path[0]);
            only
        } else {
            branch(Rule::Namespace, segments)
        };
        let mut inner: Vec<Pair> = Vec::new();
        inner.push(inside);
        assert(pair_views(inner@) =~= seq![inside@]);
        Ok((branch(Rule::Element, inner), end))
    }

    fn path_segments(&self, pos: usize) -> (r: Result<(Vec<Pair>, usize), MangleError>)
        requires
            self.wf(),
            pos <= self.text@.len(),
        ensures
            match r {
                Ok((segments, end)) => path_segments(self.text@, pos as int, Seq::empty()) == (
                Parsed::Done { value: pair_views(segments@), end: end as int }) && pos < end
                    <= self.text@.len(),
                Err(e) => reports(
                    e,
                    path_segments(self.text@, pos as int, Seq::empty()),
                    self.text@.len(),
                ),
            },
        decreases self.text@.len() - pos, 2nat,
    {
        let mut segments: Vec<Pair> = Vec::new();
        assert(pair_views(segments@) =~= Seq::empty());
        let mut at = pos;
        proof {
            reveal_strlit("::");
        }
        loop
            invariant
                self.wf(),
                pos <= at <= self.text@.len(),
                "::"@.len() == 2,
                path_segments(self.text@, pos as int, Seq::empty()) == path_segments(
                    self.text@,
                    at as int,
                    pair_views(segments@),
                ),
            decreases self.text@.len() - at,
        {
            let (segment, end) = self.parse_segment(at)?;
            proof {
                lemma_pair_views_push(segments@, segment);
            }
            segments.push(segment);
            let sep = self.skip_spaces(end);
            match self.after(sep, "::") {
                Some(after) => {
                    at = self.skip_spaces(after);
                },
                None => {
                    return Ok((segments, end));
                },
            }
        }
    }

    fn parse_ty_element(&self, pos: usize) -> (r: Result<(Pair, usize), MangleError>)
        requires
            self.wf(),
            pos <= self.text@.len(),
        ensures
            match r {
                Ok((pair, end)) => parse_ty_element(self.text@, pos as int) == (Parsed::Done {
                    value: pair@,
                    end: end as int,
                }) && pos < end <= self.text@.len(),
                Err(e) => reports(e, parse_ty_element(self.text@, pos as int), self.text@.len()),
            },
    {
        let (element, first) = self.parse_element(pos)?;
        let mut items: Vec<Pair> = Vec::new();
        items.push(element);
        assert(pair_views(items@) =~= seq![element@]);
        let mut end = first;
        proof {
            reveal_strlit("const");
        }
        loop
            invariant
                self.wf(),
                pos < end <= self.text@.len(),
                "const"@.len() == 5,
                parse_ty_element(self.text@, pos as int) == qualifiers(
                    self.text@,
                    end as int,
                    pair_views(items@),
                ),
            decreases self.text@.len() - end,
        {
            let next = self.skip_spaces(end);
            let (qualifier, after) = if self.peek(next) == Some('*') {
                (token(Rule::Ptr, "*"), next + 1)
            } else if self.peek(next) == Some('&') {
                (token(Rule::Ref, "&"), next + 1)
            } else {
                match self.after_keyword(next, "const") {
                    Some(after) => (token(Rule::Const, "const"), after),
                    None => {
                        return Ok((branch(Rule::TyElement, items), end));
                    },
                }
            };
            proof {
                lemma_pair_views_push(items@, qualifier);
            }
            items.push(qualifier);
            end = after;
        }
    }

    fn parse_signature(&self, pos: usize) -> (r: Result<(Vec<Pair>, usize), MangleError>)
        requires
            self.wf(),
            pos <= self.text@.len(),
        ensures
            match r {
                Ok((items, end)) => parse_signature(self.text@, pos as int) == (Parsed::Done {
                    value: pair_views(items@),
                    end: end as int,
                }) && pos < end <= self.text@.len(),
                Err(e) => reports(e, parse_signature(self.text@, pos as int), self.text@.len()),
            },
    {
        let (segments, end) = self.path_segments(pos)?;
        let open = self.skip_spaces(end);
        if self.peek(open) != Some('(') {
            return Err(MangleError::ParseError { position: open, expected: Expected::OpenParen });
        }
        let first = self.skip_spaces(open + 1);
        let name = branch(Rule::Namespace, segments);
        let mut items: Vec<Pair> = Vec::new();
        items.push(name);
        assert(pair_views(items@) =~= seq![name@]);
        if self.peek(first) == Some(')') {
            return Ok((items, first + 1));
        }
        let mut at = first;
        loop
            invariant
                self.wf(),
                pos < at <= self.text@.len(),
                parse_signature(self.text@, pos as int) == parameter_items(
                    self.text@,
                    at as int,
                    pair_views(items@),
                ),
            decreases self.text@.len() - at,
        {
            let (parameter, end) = self.parse_ty_element(at)?;
            proof {
                lemma_pair_views_push(items@, parameter);
            }
            items.push(parameter);
            let sep = self.skip_spaces(end);
            match self.peek(sep) {
                Some(',') => {
                    at = self.skip_spaces(sep + 1);
                },
                Some(')') => {
                    return Ok((items, sep + 1));
                },
                _ => {
                    return Err(
                        MangleError::ParseError {
                            position: sep,
                            expected: Expected::CommaOrCloseParen,
                        },
                    );
                },
            }
        }
    }
}

/// Parses a whole text as one function signature.
pub fn parse(text: &str) -> (r: Result<Pair, MangleError>)
    ensures
        match r {
            Ok(pair) => parse_function(text@) matches Parsed::Done { value, .. } && value == pair@,
            Err(e) => reports(e, parse_function(text@), text@.len()),
        },
{
    let src = Source::new(text);
    let (mut items, end) = src.parse_signature(src.skip_spaces(0))?;
    let tail = src.skip_spaces(end);
    let stop = match src.after_keyword(tail, "const") {
        Some(after) => {
            let mark = token(Rule::Const, "const");
            proof {
                lemma_pair_views_push(items@, mark);
            }
            items.push(mark);
            src.skip_spaces(after)
        },
        None => src.skip_spaces(end),
    };
    if stop == src.chars.len() {
        Ok(branch(Rule::Function, items))
    } else {
        Err(MangleError::ParseError { position: stop, expected: Expected::EndOfInput })
    }
}

} // verus!
