//! A plain model of token trees, and the token streams of proc-macro2 seen
//! through it: what a stream holds, and the pieces of a stream.
use vstd::prelude::*;
use proc_macro2::{Delimiter as Delim, Spacing, TokenStream, TokenTree};

verus! {

/// The brackets around a group of tokens.
#[derive(Clone, Copy, Debug, PartialEq, Eq, Structural)]
pub enum Delimiter {
    /// `( ... )`
    Parenthesis,
    /// `{ ... }`
    Brace,
    /// `[ ... ]`
    Bracket,
    /// No brackets: a group that macro expansion leaves around a fragment.
    Implicit,
}

/// One token tree: an identifier, a punctuation character (with whether it
/// is joined to the next character), a literal as written, or a delimited
/// group of token trees.
#[derive(Debug)]
pub enum Token {
    Ident(String),
    Punct(char, bool),
    Literal(String),
    Group(Delimiter, Vec<Token>),
}

/// A token tree as a mathematical value.
pub ghost enum TokenView {
    Ident(Seq<char>),
    Punct(char, bool),
    Literal(Seq<char>),
    Group(Delimiter, Seq<TokenView>),
}

pub open spec fn token_view(t: Token) -> TokenView
    decreases t,
{
    match t {
        Token::Ident(s) => TokenView::Ident(s@),
        Token::Punct(c, joint) => TokenView::Punct(c, joint),
        Token::Literal(s) => TokenView::Literal(s@),
        Token::Group(d, inner) => TokenView::Group(d, tokens_view(inner@)),
    }
}

pub open spec fn tokens_view(ts: Seq<Token>) -> Seq<TokenView>
    decreases ts,
{
    if ts.len() == 0 {
        Seq::empty()
    } else {
        tokens_view(ts.drop_last()).push(token_view(ts.last()))
    }
}

/// The view of a sequence of token trees is the view of each tree.
pub proof fn lemma_tokens_view(ts: Seq<Token>)
    ensures
        tokens_view(ts).len() == ts.len(),
        forall|i: int| 0 <= i < ts.len() ==> #[trigger] tokens_view(ts)[i] == token_view(ts[i]),
    decreases ts.len(),
{
    if ts.len() > 0 {
        lemma_tokens_view(ts.drop_last());
    }
}

/// proc-macro2's token stream, declared so that the library can hold one;
/// what it holds is seen through `stream_tokens`.
#[verifier::external_type_specification]
#[verifier::external_body]
pub struct ExTokenStream(proc_macro2::TokenStream);

/// The token trees that a stream holds, as values: each identifier and
/// literal by its text, each punctuation character with its spacing, each
/// group with its delimiter and the trees it holds. Spans are not seen.
pub uninterp spec fn stream_tokens(s: TokenStream) -> Seq<TokenView>;

/// The token trees of a stream (`TokenStream::into_iter`), each group's
/// trees read from `Group::stream`. The contract says that the result is
/// what the stream holds, by `stream_tokens`.
#[verifier::external_body]
pub fn tokens_of(s: &TokenStream) -> (ts: Vec<Token>)
    ensures
        tokens_view(ts@) == stream_tokens(*s),
{
    s.clone().into_iter().map(|tree| match tree {
        TokenTree::Ident(i) => Token::Ident(i.to_string()),
        TokenTree::Punct(p) => Token::Punct(p.as_char(), p.spacing() == Spacing::Joint),
        TokenTree::Literal(l) => Token::Literal(l.to_string()),
        TokenTree::Group(g) => Token::Group(match g.delimiter() {
            Delim::Parenthesis => Delimiter::Parenthesis,
            Delim::Brace => Delimiter::Brace,
            Delim::Bracket => Delimiter::Bracket,
            Delim::None => Delimiter::Implicit,
        }, tokens_of(&g.stream())),
    }).collect()
}

/// The trees `start..end` of a stream, collected into a stream of their
/// own (`TokenStream`'s `FromIterator<TokenTree>`).
#[verifier::external_body]
pub(crate) fn stream_slice(s: &TokenStream, start: usize, end: usize) -> (part: TokenStream)
    requires
        start <= end <= stream_tokens(*s).len(),
    ensures
        stream_tokens(part) == stream_tokens(*s).subrange(start as int, end as int),
{
    s.clone().into_iter().take(end).skip(start).collect()
}

/// The stream that the group at index `i` holds (`Group::stream`).
#[verifier::external_body]
pub(crate) fn group_contents(s: &TokenStream, i: usize) -> (inner: TokenStream)
    requires
        i < stream_tokens(*s).len(),
        stream_tokens(*s)[i as int] is Group,
    ensures
        stream_tokens(inner) == stream_tokens(*s)[i as int]->Group_1,
{
    match s.clone().into_iter().nth(i) {
        Some(TokenTree::Group(g)) => g.stream(),
        _ => TokenStream::new(),
    }
}

/// A copy of a stream (`TokenStream::clone`).
#[verifier::external_body]
pub(crate) fn copy_stream(s: &TokenStream) -> (c: TokenStream)
    ensures
        stream_tokens(c) == stream_tokens(*s),
{
    s.clone()
}

/// Whether two token trees are the same.
pub fn token_eq(a: &Token, b: &Token) -> (r: bool)
    ensures
        r == (token_view(*a) == token_view(*b)),
    decreases a, 1nat,
{
    match (a, b) {
        (Token::Ident(x), Token::Ident(y)) => *x == *y,
        (Token::Punct(c, j), Token::Punct(d, k)) => *c == *d && *j == *k,
        (Token::Literal(x), Token::Literal(y)) => *x == *y,
        (Token::Group(d, xs), Token::Group(e, ys)) => {
            if *d != *e {
                return false;
            }
            tokens_eq(xs, ys)
        },
        _ => false,
    }
}

/// Whether two sequences of token trees are the same.
pub fn tokens_eq(a: &Vec<Token>, b: &Vec<Token>) -> (r: bool)
    ensures
        r == (tokens_view(a@) == tokens_view(b@)),
    decreases a, 0nat,
{
    proof {
        lemma_tokens_view(a@);
        lemma_tokens_view(b@);
    }
    if a.len() != b.len() {
        return false;
    }
    let mut i: usize = 0;
    while i < a.len()
        invariant
            i <= a.len() == b.len(),
            tokens_view(a@).len() == a.len(),
            tokens_view(b@).len() == b.len(),
            forall|k: int| 0 <= k < a.len() ==> #[trigger] tokens_view(a@)[k] == token_view(a@[k]),
            forall|k: int| 0 <= k < b.len() ==> #[trigger] tokens_view(b@)[k] == token_view(b@[k]),
            forall|k: int| 0 <= k < i ==> tokens_view(a@)[k] == tokens_view(b@)[k],
        decreases a.len() - i,
    {
        assert(decreases_to!(a => a@[i as int]));
        if !token_eq(&a[i], &b[i]) {
            assert(tokens_view(a@)[i as int] != tokens_view(b@)[i as int]);
            return false;
        }
        i = i + 1;
    }
    assert(tokens_view(a@) =~= tokens_view(b@));
    true
}

} // verus!
