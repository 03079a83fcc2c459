//! The arguments of a `subsume` attribute: a comma-separated list of
//! sources, each a path `Source::Variant` or `from(Source::Variant)`, with
//! an optional trailing comma. The list is split into sources here; each
//! source path is then parsed by syn.
use vstd::prelude::*;
use crate::error::{DeriveError, ErrorKind, ErrorSite};
use crate::syntax::{parse_path, syn_path, Attribute, Meta, PathView, SourcePath};
use proc_macro2::TokenStream;
use crate::tokens::{
    group_contents, lemma_tokens_view, stream_slice, stream_tokens, token_view, tokens_of,
    tokens_view, Delimiter, Token, TokenView,
};

verus! {

pub open spec fn is_comma(t: TokenView) -> bool {
    t matches TokenView::Punct(c, _) && c == ','
}

pub open spec fn opens_angle(t: TokenView) -> bool {
    t matches TokenView::Punct(c, _) && c == '<'
}

pub open spec fn is_arrow_head(t: TokenView) -> bool {
    t matches TokenView::Punct(c, joint) && c == '-' && joint
}

/// `>` closes an angle bracket unless it ends an arrow `->`.
pub open spec fn closes_angle(ts: Seq<TokenView>, i: int) -> bool {
    &&& ts[i] matches TokenView::Punct(c, _) && c == '>'
    &&& !(i > 0 && is_arrow_head(ts[i - 1]))
}

pub open spec fn ident_text(t: TokenView) -> Seq<char> {
    match t {
        TokenView::Ident(s) => s,
        _ => Seq::empty(),
    }
}

pub open spec fn group_tokens(t: TokenView) -> Seq<TokenView> {
    match t {
        TokenView::Group(_, inner) => inner,
        _ => Seq::empty(),
    }
}

pub open spec fn from_word() -> Seq<char> {
    seq!['f', 'r', 'o', 'm']
}

/// Where the source that starts at `i` ends: at the first comma from `i` on
/// that stands outside angle brackets, or at the end. `depth` counts the
/// angle brackets open at `i`.
pub open spec fn source_end(ts: Seq<TokenView>, i: int, depth: nat) -> int
    decreases ts.len() - i,
{
    if i < 0 || i >= ts.len() {
        ts.len() as int
    } else if is_comma(ts[i]) && depth == 0 {
        i
    } else if opens_angle(ts[i]) {
        source_end(ts, i + 1, depth + 1)
    } else if closes_angle(ts, i) {
        source_end(ts, i + 1, if depth > 0 { (depth - 1) as nat } else { 0 })
    } else {
        source_end(ts, i + 1, depth)
    }
}

pub proof fn lemma_source_end_bounds(ts: Seq<TokenView>, i: int, depth: nat)
    requires
        0 <= i <= ts.len(),
    ensures
        i <= source_end(ts, i, depth) <= ts.len(),
    decreases ts.len() - i,
{
    if i < ts.len() {
        if is_comma(ts[i]) && depth == 0 {
        } else if opens_angle(ts[i]) {
            lemma_source_end_bounds(ts, i + 1, depth + 1);
        } else if closes_angle(ts, i) {
            lemma_source_end_bounds(ts, i + 1, if depth > 0 { (depth - 1) as nat } else { 0 });
        } else {
            lemma_source_end_bounds(ts, i + 1, depth);
        }
    }
}

/// Whether syn takes a word as an identifier (`syn::parse_str::<syn::Ident>`
/// succeeds on it): keywords and `_` are refused.
pub uninterp spec fn syn_ident(word: Seq<char>) -> bool;

/// An identifier that syn takes as one (not a keyword), followed by a
/// parenthesized group: a modifier such as `from(...)`.
pub open spec fn is_modifier_at(ts: Seq<TokenView>, i: int) -> bool {
    &&& 0 <= i
    &&& i + 1 < ts.len()
    &&& ts[i] is Ident
    &&& syn_ident(ident_text(ts[i]))
    &&& ts[i + 1] matches TokenView::Group(d, _) && d == Delimiter::Parenthesis
}

/// One source as written: whether it is marked `from(...)`, and the tokens
/// of its path.
pub ghost struct RawSource {
    pub convert: bool,
    pub tokens: Seq<TokenView>,
}

/// Split the sources that start at `i`. The result lists the sources up to
/// the first error of the list's own syntax, and that error. A source that
/// is followed by the error is listed when syn reads its path before it
/// reports the error (an `from(...)` source with no comma after it, and
/// the first path in a `from(...)` that holds several).
pub open spec fn split_sources(ts: Seq<TokenView>, i: int) -> (Seq<RawSource>, Option<ErrorKind>)
    decreases ts.len() - i,
{
    if i < 0 || i >= ts.len() {
        (Seq::empty(), None)
    } else if is_modifier_at(ts, i) {
        let inner = group_tokens(ts[i + 1]);
        let k = source_end(inner, 0, 0);
        let item = RawSource { convert: true, tokens: inner };
        if ident_text(ts[i]) != from_word() {
            (Seq::empty(), Some(ErrorKind::ExpectedFromModifier))
        } else if k < inner.len() {
            (seq![RawSource { convert: true, tokens: inner.subrange(0, k) }], Some(ErrorKind::ExpectedSingleSource))
        } else if i + 2 >= ts.len() {
            (seq![item], None)
        } else if !is_comma(ts[i + 2]) {
            (seq![item], Some(ErrorKind::ExpectedComma))
        } else {
            let rest = split_sources(ts, i + 3);
            (seq![item] + rest.0, rest.1)
        }
    } else {
        let k = source_end(ts, i, 0);
        proof {
            lemma_source_end_bounds(ts, i, 0);
        }
        let item = RawSource { convert: false, tokens: ts.subrange(i, k) };
        if k >= ts.len() {
            (seq![item], None)
        } else {
            let rest = split_sources(ts, k + 1);
            (seq![item] + rest.0, rest.1)
        }
    }
}

/// One source with the token trees of its path.
pub struct SourceText {
    pub convert: bool,
    pub tokens: TokenStream,
}

pub open spec fn texts_match(texts: Seq<SourceText>, raws: Seq<RawSource>) -> bool {
    &&& texts.len() == raws.len()
    &&& forall|k: int|
        0 <= k < raws.len() ==> {
            &&& (#[trigger] texts[k]).convert == raws[k].convert
            &&& stream_tokens(texts[k].tokens) == raws[k].tokens
        }
}

/// The end of the source that starts at `lo`.
pub(crate) fn find_source_end(ts: &Vec<Token>, lo: usize) -> (k: usize)
    requires
        lo <= ts.len(),
    ensures
        k == source_end(tokens_view(ts@), lo as int, 0),
        lo <= k <= ts.len(),
{
    let ghost v = tokens_view(ts@);
    proof {
        lemma_tokens_view(ts@);
        lemma_source_end_bounds(v, lo as int, 0);
    }
    let mut j: usize = lo;
    let mut depth: usize = 0;
    while j < ts.len()
        invariant
            lo <= j <= ts.len(),
            depth <= j - lo,
            v == tokens_view(ts@),
            v.len() == ts.len(),
            forall|i: int| 0 <= i < ts.len() ==> #[trigger] v[i] == token_view(ts@[i]),
            source_end(v, lo as int, 0) == source_end(v, j as int, depth as nat),
        decreases ts.len() - j,
    {
        assert(v[j as int] == token_view(ts@[j as int]));
        if j > 0 {
            assert(v[j - 1] == token_view(ts@[j - 1]));
        }
        match &ts[j] {
            Token::Punct(c, _) => {
                if *c == ',' && depth == 0 {
                    return j;
                } else if *c == '<' {
                    depth = depth + 1;
                } else if *c == '>' {
                    let arrow = j > 0 && match &ts[j - 1] {
                        Token::Punct(d, joint) => *d == '-' && *joint,
                        _ => false,
                    };
                    if !arrow && depth > 0 {
                        depth = depth - 1;
                    }
                }
            },
            _ => {},
        }
        j = j + 1;
    }
    j
}

pub(crate) fn is_from(s: &String) -> (b: bool)
    ensures
        b == (s@ == from_word()),
{
    let word = String::from_str("from");
    proof {
        reveal_strlit("from");
        assert("from"@ =~= from_word());
    }
    *s == word
}

/// Whether syn takes a word as an identifier: `syn::parse_str::<syn::Ident>`
/// succeeds on it. The contract says only that the result is the name
/// `syn_ident` of the word; which words are keywords is left to syn.
#[verifier::external_body]
pub(crate) fn takes_ident(word: &str) -> (b: bool)
    ensures
        b == syn_ident(word@),
{
    syn::parse_str::<syn::Ident>(word).is_ok()
}

/// Split the arguments of a `subsume` attribute into sources.
pub fn split_source_list(s: &TokenStream) -> (r: (Vec<SourceText>, Option<ErrorKind>))
    ensures
        texts_match(r.0@, split_sources(stream_tokens(*s), 0).0),
        r.1 == split_sources(stream_tokens(*s), 0).1,
{
    let ts = tokens_of(s);
    let ghost v = stream_tokens(*s);
    proof {
        lemma_tokens_view(ts@);
    }
    let mut texts: Vec<SourceText> = Vec::new();
    let ghost mut done: Seq<RawSource> = Seq::empty();
    let mut i: usize = 0;
    while i < ts.len()
        invariant
            i <= ts.len(),
            v == stream_tokens(*s),
            v == tokens_view(ts@),
            v.len() == ts.len(),
            forall|k: int| 0 <= k < ts.len() ==> #[trigger] v[k] == token_view(ts@[k]),
            texts_match(texts@, done),
            split_sources(v, 0) == (done + split_sources(v, i as int).0, split_sources(v, i as int).1),
        decreases ts.len() - i,
    {
        assert(v[i as int] == token_view(ts@[i as int]));
        if i + 1 < ts.len() {
            assert(v[i + 1] == token_view(ts@[i + 1]));
            if i + 2 < ts.len() {
                assert(v[i + 2] == token_view(ts@[i + 2]));
            }
        }
        let modifier = i + 1 < ts.len() && match &ts[i] {
            Token::Ident(s) => takes_ident(s.as_str()),
            _ => false,
        } && match &ts[i + 1] {
            Token::Group(d, _) => *d == Delimiter::Parenthesis,
            _ => false,
        };
        if modifier {
            let from = match &ts[i] {
                Token::Ident(s) => is_from(s),
                _ => false,
            };
            if !from {
                assert(done + Seq::<RawSource>::empty() =~= done);
                return (texts, Some(ErrorKind::ExpectedFromModifier));
            }
            let inner = match &ts[i + 1] {
                Token::Group(_, inner) => inner,
                _ => { return (texts, None); },
            };
            let ghost inner_view = group_tokens(v[i + 1]);
            assert(inner_view == tokens_view(inner@));
            let k = find_source_end(inner, 0);
            proof {
                lemma_tokens_view(inner@);
            }
            let contents = group_contents(s, i + 1);
            let piece = stream_slice(&contents, 0, k);
            let ghost item = RawSource { convert: true, tokens: inner_view.subrange(0, k as int) };
            texts.push(SourceText { convert: true, tokens: piece });
            proof {
                done = done.push(item);
            }
            if k < inner.len() {
                assert(done =~= done.drop_last() + seq![item]);
                return (texts, Some(ErrorKind::ExpectedSingleSource));
            }
            assert(inner_view.subrange(0, k as int) =~= inner_view);
            if i + 2 >= ts.len() {
                assert(done =~= done.drop_last() + seq![item]);
                return (texts, None);
            }
            let comma = match &ts[i + 2] {
                Token::Punct(c, _) => *c == ',',
                _ => false,
            };
            if !comma {
                assert(done =~= done.drop_last() + seq![item]);
                return (texts, Some(ErrorKind::ExpectedComma));
            }
            assert(done.drop_last() + (seq![item] + split_sources(v, i + 3).0) =~= done
                + split_sources(v, i + 3).0);
            i = i + 3;
        } else {
            let k = find_source_end(&ts, i);
            let piece = stream_slice(s, i, k);
            let ghost item = RawSource { convert: false, tokens: v.subrange(i as int, k as int) };
            texts.push(SourceText { convert: false, tokens: piece });
            proof {
                done = done.push(item);
            }
            if k >= ts.len() {
                assert(done =~= done.drop_last() + seq![item]);
                return (texts, None);
            }
            assert(done.drop_last() + (seq![item] + split_sources(v, k + 1).0) =~= done
                + split_sources(v, k + 1).0);
            i = k + 1;
        }
    }
    assert(done + Seq::<RawSource>::empty() =~= done);
    (texts, None)
}

/// One source of a `subsume` attribute: whether its payload is converted
/// (`from(...)`), and its path.
pub struct SourceMapping {
    pub convert: bool,
    pub path: SourcePath,
}

pub ghost struct MappingView {
    pub convert: bool,
    pub path: PathView,
}

impl View for SourceMapping {
    type V = MappingView;

    open spec fn view(&self) -> MappingView {
        MappingView { convert: self.convert, path: self.path@ }
    }
}

pub open spec fn mapping_views(ms: Seq<SourceMapping>) -> Seq<MappingView> {
    ms.map_values(|m: SourceMapping| m@)
}

/// The error of a source whose text syn does not read as one path, from
/// syn's message: where syn read a whole path and tokens are left after
/// it, the list wanted a comma after the path (inside `from(...)`, nothing
/// more); otherwise the text is no path.
pub open spec fn path_error(message: Seq<char>, convert: bool) -> ErrorKind {
    if message == "unexpected token"@ {
        if convert {
            ErrorKind::ExpectedSingleSource
        } else {
            ErrorKind::ExpectedComma
        }
    } else {
        ErrorKind::InvalidPath
    }
}

/// The paths of the sources as syn parses their text, in order; or the
/// error of the first source whose text syn does not take as a path, with
/// its index.
pub open spec fn resolve_sources(raws: Seq<RawSource>) -> Result<Seq<MappingView>, (ErrorKind, nat)>
    decreases raws.len(),
{
    if raws.len() == 0 {
        Ok(Seq::empty())
    } else {
        match resolve_sources(raws.drop_last()) {
            Err(e) => Err(e),
            Ok(ms) => match syn_path(raws.last().tokens) {
                Err(message) => Err((path_error(message, raws.last().convert), (raws.len() - 1) as nat)),
                Ok(p) => Ok(ms.push(MappingView { convert: raws.last().convert, path: p })),
            },
        }
    }
}

/// The sources of the arguments of a `subsume` attribute, or the first
/// error with the index of the source that it concerns. Errors come in the
/// order in which the list is read: a source whose path syn rejects before
/// an error of the list's syntax that follows it.
pub open spec fn parse_source_list(ts: Seq<TokenView>) -> Result<Seq<MappingView>, (ErrorKind, nat)> {
    let raws = split_sources(ts, 0).0;
    let err = split_sources(ts, 0).1;
    match resolve_sources(raws) {
        Err(e) => Err(e),
        Ok(ms) => match err {
            Some(e) => Err(
                (
                    e,
                    if e == ErrorKind::ExpectedFromModifier {
                        raws.len()
                    } else {
                        (raws.len() - 1) as nat
                    },
                ),
            ),
            None => Ok(ms),
        },
    }
}

/// Parse the sources of the arguments of a `subsume` attribute.
pub fn parse_sources(ts: &TokenStream) -> (r: Result<Vec<SourceMapping>, (ErrorKind, usize)>)
    ensures
        match r {
            Ok(ms) => parse_source_list(stream_tokens(*ts)) == Ok::<_, (ErrorKind, nat)>(mapping_views(ms@)),
            Err((kind, i)) => parse_source_list(stream_tokens(*ts)) == Err::<Seq<MappingView>, _>((kind, i as nat)),
        },
{
    let (texts, err) = split_source_list(ts);
    let ghost raws = split_sources(stream_tokens(*ts), 0).0;
    let mut ms: Vec<SourceMapping> = Vec::new();
    let mut k: usize = 0;
    assert(raws.take(0) =~= Seq::<RawSource>::empty());
    assert(mapping_views(ms@) =~= Seq::<MappingView>::empty());
    while k < texts.len()
        invariant
            k <= texts.len(),
            raws == split_sources(stream_tokens(*ts), 0).0,
            texts_match(texts@, raws),
            resolve_sources(raws.take(k as int)) == Ok::<_, (ErrorKind, nat)>(mapping_views(ms@)),
        decreases texts.len() - k,
    {
        assert(raws.take(k + 1).drop_last() =~= raws.take(k as int));
        assert(raws.take(k + 1).last() == raws[k as int]);
        let ghost text_k = texts@[k as int];
        assert(stream_tokens(text_k.tokens) == raws[k as int].tokens);
        match parse_path(&texts[k].tokens) {
            Err(message) => {
                let unexpected = String::from_str("unexpected token");
                let kind = if message == unexpected {
                    if texts[k].convert {
                        ErrorKind::ExpectedSingleSource
                    } else {
                        ErrorKind::ExpectedComma
                    }
                } else {
                    ErrorKind::InvalidPath
                };
                proof {
                    lemma_resolve_prefix_error(raws, k as nat, message@);
                }
                return Err((kind, k));
            },
            Ok(path) => {
                let convert = texts[k].convert;
                let ghost before = ms@;
                ms.push(SourceMapping { convert, path });
                assert(mapping_views(ms@) =~= mapping_views(before).push(
                    MappingView { convert: raws[k as int].convert, path: path@ },
                ));
            },
        }
        k = k + 1;
    }
    assert(raws.take(k as int) =~= raws);
    match err {
        Some(e) => {
            if e == ErrorKind::ExpectedFromModifier {
                Err((e, texts.len()))
            } else {
                Err((e, texts.len() - 1))
            }
        },
        None => Ok(ms),
    }
}

/// Once a prefix of the sources fails to resolve, the whole list fails
/// there.
pub proof fn lemma_resolve_prefix_error(raws: Seq<RawSource>, k: nat, message: Seq<char>)
    requires
        k < raws.len(),
        resolve_sources(raws.take(k as int)) is Ok,
        syn_path(raws[k as int].tokens) == Err::<PathView, Seq<char>>(message),
    ensures
        resolve_sources(raws) == Err::<Seq<MappingView>, (ErrorKind, nat)>(
            (path_error(message, raws[k as int].convert), k),
        ),
    decreases raws.len(),
{
    if raws.len() == k + 1 {
        assert(raws.drop_last() =~= raws.take(k as int));
    } else {
        assert(raws.drop_last().take(k as int) =~= raws.take(k as int));
        lemma_resolve_prefix_error(raws.drop_last(), k, message);
    }
}

/// The sources of a `subsume` attribute of variant `v` that is its
/// attribute `a`, or the error of the attribute.
pub open spec fn subsume_attr_sources(attr: Attribute, v: usize, a: usize) -> Result<Seq<MappingView>, DeriveError> {
    match attr.meta {
        Meta::Path => Err(
            DeriveError { kind: ErrorKind::ExpectedArgumentsInParentheses, site: ErrorSite::VariantAttr(v, a) },
        ),
        Meta::NameValue => Err(
            DeriveError { kind: ErrorKind::ExpectedParentheses, site: ErrorSite::VariantAttr(v, a) },
        ),
        Meta::List(ts) => match parse_source_list(stream_tokens(ts)) {
            Err((kind, i)) => Err(DeriveError { kind, site: ErrorSite::Mapping(v, a, i as usize) }),
            Ok(ms) => if ms.len() == 0 {
                Err(DeriveError { kind: ErrorKind::NoSourceVariant, site: ErrorSite::VariantAttr(v, a) })
            } else {
                Ok(ms)
            },
        },
    }
}

/// Read the sources of a `subsume` attribute of variant `v` that is its
/// attribute `a`.
pub fn parse_subsume_attr(attr: &Attribute, v: usize, a: usize) -> (r: Result<Vec<SourceMapping>, DeriveError>)
    ensures
        match r {
            Ok(ms) => subsume_attr_sources(*attr, v, a) == Ok::<_, DeriveError>(mapping_views(ms@)),
            Err(e) => subsume_attr_sources(*attr, v, a) == Err::<Seq<MappingView>, _>(e),
        },
{
    match &attr.meta {
        Meta::Path => Err(
            DeriveError { kind: ErrorKind::ExpectedArgumentsInParentheses, site: ErrorSite::VariantAttr(v, a) },
        ),
        Meta::NameValue => Err(
            DeriveError { kind: ErrorKind::ExpectedParentheses, site: ErrorSite::VariantAttr(v, a) },
        ),
        Meta::List(ts) => match parse_sources(ts) {
            Err((kind, i)) => Err(DeriveError { kind, site: ErrorSite::Mapping(v, a, i) }),
            Ok(ms) => if ms.len() == 0 {
                Err(DeriveError { kind: ErrorKind::NoSourceVariant, site: ErrorSite::VariantAttr(v, a) })
            } else {
                Ok(ms)
            },
        },
    }
}

} // verus!
