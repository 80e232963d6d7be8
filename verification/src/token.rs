//! The derive input as plain values: each token tree holds what the parser
//! reads of it (an identifier's text, a punctuation character, a literal's
//! source text, a group's delimiter, inner tokens and renderings).
use vstd::prelude::*;
use crate::text::char_text;

verus! {

/// How a group's tokens are enclosed.
#[derive(Clone, Copy, Debug, PartialEq, Eq, Structural)]
pub enum Delimiter {
    /// `( ... )`
    Parenthesis,
    /// `{ ... }`
    Brace,
    /// `[ ... ]`
    Bracket,
    /// An invisible delimiter around tokens that a macro expansion produced.
    Invisible,
}

/// A delimited group of token trees.
#[derive(Debug)]
pub struct Group {
    pub delimiter: Delimiter,
    /// The token trees between the delimiters.
    pub stream: Vec<TokenTree>,
    /// The inner tokens rendered as source text, without the delimiters.
    pub stream_text: String,
    /// The whole group rendered as source text, delimiters included.
    pub text: String,
}

/// One token tree of a token stream.
#[derive(Debug)]
pub enum TokenTree {
    Group(Group),
    /// An identifier or keyword, by its text.
    Ident(String),
    /// A single punctuation character.
    Punct(char),
    /// A literal, by its source text (a string literal keeps its quotes).
    Literal(String),
}

/// `t` is the identifier `word`.
pub open spec fn ident_is(t: TokenTree, word: Seq<char>) -> bool {
    t matches TokenTree::Ident(n) && n@ == word
}

/// `t` is the punctuation character `c`.
pub open spec fn punct_is(t: TokenTree, c: char) -> bool {
    t matches TokenTree::Punct(p) && p == c
}

/// `t` is an attribute body `[word ...]`: a bracketed group whose first
/// token is the identifier `word`.
pub open spec fn attr_named(t: TokenTree, word: Seq<char>) -> bool {
    t matches TokenTree::Group(g) && g.delimiter == Delimiter::Bracket && g.stream@.len() > 0
        && ident_is(g.stream@[0], word)
}

/// The source text of one token tree.
pub open spec fn token_text(t: TokenTree) -> Seq<char> {
    match t {
        TokenTree::Group(g) => g.text@,
        TokenTree::Ident(n) => n@,
        TokenTree::Punct(c) => seq![c],
        TokenTree::Literal(l) => l@,
    }
}

/// The source texts of `ts`, concatenated with nothing between them.
pub open spec fn tokens_text(ts: Seq<TokenTree>) -> Seq<char>
    decreases ts.len(),
{
    if ts.len() == 0 {
        seq![]
    } else {
        tokens_text(ts.drop_last()) + token_text(ts.last())
    }
}

/// Whether `s` holds exactly the characters of `word`.
pub fn text_is(s: &String, word: &str) -> (r: bool)
    ensures
        r == (s@ == word@),
{
    let w = String::from_str(word);
    *s == w
}

/// Appends the source text of `t` to `out`.
pub fn push_token_text(out: &mut String, t: &TokenTree)
    ensures
        final(out)@ == old(out)@ + token_text(*t),
{
    match t {
        TokenTree::Group(g) => out.append(g.text.as_str()),
        TokenTree::Ident(n) => out.append(n.as_str()),
        TokenTree::Punct(c) => {
            let s = char_text(*c);
            out.append(s.as_str());
        },
        TokenTree::Literal(l) => out.append(l.as_str()),
    }
}

} // verus!
