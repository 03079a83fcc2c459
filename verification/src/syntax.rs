//! A plain model of what the enum derive reads of its input: the type's
//! name, generic parameters and attributes, and its variants with their
//! attributes and fields. Paths are kept as syn parses them, with their
//! generic arguments as token trees.
use vstd::prelude::*;
use proc_macro2::TokenStream;
use quote::ToTokens;
use crate::tokens::{stream_tokens, Token, TokenView};

verus! {

/// One segment of a path: its identifier, the token trees of the generic
/// arguments that follow it (without the angle brackets), and whether they
/// were written with a turbofish `::<`.
#[derive(Debug)]
pub struct PathSegment {
    pub ident: String,
    pub args: Option<TokenStream>,
    pub turbofish: bool,
}

/// A path such as `source::Generic<'a, T>::Values`.
#[derive(Debug)]
pub struct SourcePath {
    pub leading_colon: bool,
    pub segments: Vec<PathSegment>,
}

pub ghost struct SegmentView {
    pub ident: Seq<char>,
    pub args: Option<Seq<TokenView>>,
    pub turbofish: bool,
}

pub ghost struct PathView {
    pub leading_colon: bool,
    pub segments: Seq<SegmentView>,
}

impl View for PathSegment {
    type V = SegmentView;

    open spec fn view(&self) -> SegmentView {
        SegmentView {
            ident: self.ident@,
            args: match self.args {
                Some(a) => Some(stream_tokens(a)),
                None => None,
            },
            turbofish: self.turbofish,
        }
    }
}

impl View for SourcePath {
    type V = PathView;

    open spec fn view(&self) -> PathView {
        PathView {
            leading_colon: self.leading_colon,
            segments: self.segments@.map_values(|s: PathSegment| s@),
        }
    }
}

/// What `syn` makes of token trees as a path (`syn::parse2::<syn::Path>`):
/// the path, or the message of syn's error where the trees are not one
/// whole path.
pub uninterp spec fn syn_path(tokens: Seq<TokenView>) -> Result<PathView, Seq<char>>;

/// A parsed path by its view, or syn's message by its text.
pub open spec fn parsed_path_view(r: Result<SourcePath, String>) -> Result<PathView, Seq<char>> {
    match r {
        Ok(p) => Ok(p@),
        Err(e) => Err(e@),
    }
}

/// Parse token trees as a path with `syn::parse2::<syn::Path>`, and keep
/// of each segment its identifier and the token trees of its generic
/// arguments (`ToTokens`), or the message of syn's error. The contract says
/// only that the result is the name `syn_path` of the trees; which trees
/// syn takes as paths, and its messages, are left to syn.
#[verifier::external_body]
pub(crate) fn parse_path(tokens: &TokenStream) -> (path: Result<SourcePath, String>)
    ensures
        syn_path(stream_tokens(*tokens)) == parsed_path_view(path),
{
    let path = syn::parse2::<syn::Path>(tokens.clone()).map_err(|e| e.to_string())?;
    let segments = path.segments.iter().map(|s| {
        let (args, turbofish) = match &s.arguments {
            syn::PathArguments::None => (None, false),
            syn::PathArguments::AngleBracketed(a) => (Some(a.args.to_token_stream()), a.colon2_token.is_some()),
            syn::PathArguments::Parenthesized(p) => (Some(p.to_token_stream()), false),
        };
        PathSegment { ident: s.ident.to_string(), args, turbofish }
    }).collect();
    Ok(SourcePath { leading_colon: path.leading_colon.is_some(), segments })
}

/// The arguments of an attribute: none (`#[name]`), a delimited list of
/// tokens (`#[name(...)]`), or a value (`#[name = ...]`).
#[derive(Debug)]
pub enum Meta {
    Path,
    List(TokenStream),
    NameValue,
}

/// An attribute: its path and its arguments.
#[derive(Debug)]
pub struct Attribute {
    pub path: SourcePath,
    pub meta: Meta,
}

/// A field: its name (for a named field), its attributes and its type.
#[derive(Debug)]
pub struct Field {
    pub name: Option<String>,
    pub attrs: Vec<Attribute>,
    pub ty: Vec<Token>,
}

/// The fields of a variant.
#[derive(Debug)]
pub enum Fields {
    /// `Name`
    Unit,
    /// `Name(A, B)`
    Unnamed(Vec<Field>),
    /// `Name { a: A, b: B }`
    Named(Vec<Field>),
}

/// A variant: name, attributes, fields, and whether an explicit
/// discriminant (`= value`) follows it.
#[derive(Debug)]
pub struct Variant {
    pub name: String,
    pub attrs: Vec<Attribute>,
    pub fields: Fields,
    pub discriminant: bool,
}

/// A generic parameter by kind and name.
#[derive(Debug)]
pub enum GenericParam {
    Lifetime(String),
    Type(String),
    Const(String),
}

/// The body of the type that the derive is applied to.
#[derive(Debug)]
pub enum Data {
    Enum(Vec<Variant>),
    Struct,
    Union,
}

/// The input of the derive.
#[derive(Debug)]
pub struct DeriveInput {
    pub name: String,
    pub attrs: Vec<Attribute>,
    pub generics: Vec<GenericParam>,
    pub data: Data,
}

/// The fields of a variant as a sequence.
pub open spec fn field_seq(fields: Fields) -> Seq<Field> {
    match fields {
        Fields::Unit => Seq::empty(),
        Fields::Unnamed(fs) => fs@,
        Fields::Named(fs) => fs@,
    }
}

/// The fields of a variant.
pub fn fields_of(fields: &Fields) -> (fs: &[Field])
    ensures
        fs@ == field_seq(*fields),
{
    match fields {
        Fields::Unit => &[],
        Fields::Unnamed(fs) => fs.as_slice(),
        Fields::Named(fs) => fs.as_slice(),
    }
}

pub open spec fn subsume_word() -> Seq<char> {
    seq!['s', 'u', 'b', 's', 'u', 'm', 'e']
}

/// An attribute whose path is the single identifier `subsume`.
pub open spec fn is_subsume(attr: Attribute) -> bool {
    let p = attr.path@;
    &&& !p.leading_colon
    &&& p.segments.len() == 1
    &&& p.segments[0].args is None
    &&& p.segments[0].ident == subsume_word()
}

/// Whether an attribute is a `subsume` attribute.
pub fn attr_is_subsume(attr: &Attribute) -> (b: bool)
    ensures
        b == is_subsume(*attr),
{
    let word = String::from_str("subsume");
    proof {
        reveal_strlit("subsume");
        assert("subsume"@ =~= subsume_word());
    }
    !attr.path.leading_colon && attr.path.segments.len() == 1 && attr.path.segments[0].args.is_none()
        && attr.path.segments[0].ident == word
}

} // verus!
