//! Reading the derive's input with syn. The token trees of the input are
//! parsed with syn piece by piece: the input, its generic parameters, each
//! variant and its fields, each attribute and each path. Each piece comes
//! back as plain values, with its parts as the token trees that syn writes
//! of them (`ToTokens`), and the model of the input is built from those
//! pieces.
use vstd::prelude::*;
use proc_macro2::TokenStream;
use quote::ToTokens;
use crate::syntax::{parse_path, syn_path, Attribute, Data, DeriveInput, Field, Fields, GenericParam, Meta, Variant};
use crate::derive::name_view;
use crate::tokens::{stream_tokens, tokens_of, tokens_view, TokenView};

verus! {

/// The arguments of an attribute, as syn reads them.
#[derive(Debug)]
pub enum MetaTree {
    Path,
    List(TokenStream),
    NameValue,
}

/// An attribute: the token trees of its path, and its arguments.
#[derive(Debug)]
pub struct AttrTree {
    pub path: TokenStream,
    pub meta: MetaTree,
}

/// A field: its name, and the token trees of its attributes and its type.
#[derive(Debug)]
pub struct FieldTree {
    pub name: Option<String>,
    pub attrs: Vec<TokenStream>,
    pub ty: TokenStream,
}

/// How the fields of a variant are written: none, in parentheses, or in
/// braces.
#[derive(Debug, Clone, Copy)]
pub enum Shape {
    Unit,
    Unnamed,
    Named,
}

/// A variant: its name, the token trees of its attributes and of its
/// fields, and whether a discriminant follows it.
#[derive(Debug)]
pub struct VariantTree {
    pub name: String,
    pub attrs: Vec<TokenStream>,
    pub shape: Shape,
    pub fields: TokenStream,
    pub discriminant: bool,
}

#[derive(Debug)]
pub enum DataTree {
    Enum(Vec<TokenStream>),
    Struct,
    Union,
}

/// The input of the derive: its name, and the token trees of its
/// attributes, its generic parameters and its variants.
#[derive(Debug)]
pub struct InputTree {
    pub name: String,
    pub attrs: Vec<TokenStream>,
    pub generics: TokenStream,
    pub data: DataTree,
}

pub ghost enum MetaTreeView {
    Path,
    List(Seq<TokenView>),
    NameValue,
}

pub ghost struct AttrTreeView {
    pub path: Seq<TokenView>,
    pub meta: MetaTreeView,
}

pub ghost struct FieldTreeView {
    pub name: Option<Seq<char>>,
    pub attrs: Seq<Seq<TokenView>>,
    pub ty: Seq<TokenView>,
}

pub ghost struct VariantTreeView {
    pub name: Seq<char>,
    pub attrs: Seq<Seq<TokenView>>,
    pub shape: Shape,
    pub fields: Seq<TokenView>,
    pub discriminant: bool,
}

pub ghost enum GenericParamView {
    Lifetime(Seq<char>),
    Type(Seq<char>),
    Const(Seq<char>),
}

pub ghost enum DataTreeView {
    Enum(Seq<Seq<TokenView>>),
    Struct,
    Union,
}

pub ghost struct InputTreeView {
    pub name: Seq<char>,
    pub attrs: Seq<Seq<TokenView>>,
    pub generics: Seq<TokenView>,
    pub data: DataTreeView,
}

/// What each stream holds.
pub open spec fn streams_view(v: Seq<TokenStream>) -> Seq<Seq<TokenView>> {
    v.map_values(|s: TokenStream| stream_tokens(s))
}

pub open spec fn field_trees_view(fs: Seq<FieldTree>) -> Seq<FieldTreeView> {
    fs.map_values(|f: FieldTree| f@)
}

impl View for MetaTree {
    type V = MetaTreeView;

    open spec fn view(&self) -> MetaTreeView {
        match self {
            MetaTree::Path => MetaTreeView::Path,
            MetaTree::List(t) => MetaTreeView::List(stream_tokens(*t)),
            MetaTree::NameValue => MetaTreeView::NameValue,
        }
    }
}

impl View for AttrTree {
    type V = AttrTreeView;

    open spec fn view(&self) -> AttrTreeView {
        AttrTreeView { path: stream_tokens(self.path), meta: self.meta@ }
    }
}

impl View for FieldTree {
    type V = FieldTreeView;

    open spec fn view(&self) -> FieldTreeView {
        FieldTreeView { name: name_view(self.name), attrs: streams_view(self.attrs@), ty: stream_tokens(self.ty) }
    }
}

impl View for VariantTree {
    type V = VariantTreeView;

    open spec fn view(&self) -> VariantTreeView {
        VariantTreeView {
            name: self.name@,
            attrs: streams_view(self.attrs@),
            shape: self.shape,
            fields: stream_tokens(self.fields),
            discriminant: self.discriminant,
        }
    }
}

impl View for GenericParam {
    type V = GenericParamView;

    open spec fn view(&self) -> GenericParamView {
        match self {
            GenericParam::Lifetime(s) => GenericParamView::Lifetime(s@),
            GenericParam::Type(s) => GenericParamView::Type(s@),
            GenericParam::Const(s) => GenericParamView::Const(s@),
        }
    }
}

impl View for DataTree {
    type V = DataTreeView;

    open spec fn view(&self) -> DataTreeView {
        match self {
            DataTree::Enum(vs) => DataTreeView::Enum(streams_view(vs@)),
            DataTree::Struct => DataTreeView::Struct,
            DataTree::Union => DataTreeView::Union,
        }
    }
}

impl View for InputTree {
    type V = InputTreeView;

    open spec fn view(&self) -> InputTreeView {
        InputTreeView {
            name: self.name@,
            attrs: streams_view(self.attrs@),
            generics: stream_tokens(self.generics),
            data: self.data@,
        }
    }
}

/// What `syn::Attribute::parse_outer` reads from token trees: the
/// attributes, each with the trees of its path and its arguments.
pub uninterp spec fn syn_attributes(tokens: Seq<TokenView>) -> Option<Seq<AttrTreeView>>;

/// What `syn::parse2::<syn::Variant>` reads from token trees.
pub uninterp spec fn syn_variant(tokens: Seq<TokenView>) -> Option<VariantTreeView>;

/// What `syn::parse2::<syn::FieldsNamed>` reads from token trees: each
/// field's name, and the trees of its attributes and type.
pub uninterp spec fn syn_named_fields(tokens: Seq<TokenView>) -> Option<Seq<FieldTreeView>>;

/// What `syn::parse2::<syn::FieldsUnnamed>` reads from token trees.
pub uninterp spec fn syn_unnamed_fields(tokens: Seq<TokenView>) -> Option<Seq<FieldTreeView>>;

/// What `syn::parse2::<syn::Generics>` reads from token trees: the kind and
/// name of each parameter.
pub uninterp spec fn syn_generics(tokens: Seq<TokenView>) -> Option<Seq<GenericParamView>>;

/// What `syn::parse2::<syn::DeriveInput>` reads from token trees.
pub uninterp spec fn syn_derive_input(tokens: Seq<TokenView>) -> Option<InputTreeView>;

/// What `syn::parse2::<syn::ItemEnum>` reads from token trees: the trees of
/// its variants.
pub uninterp spec fn syn_item_enum(tokens: Seq<TokenView>) -> Option<Seq<Seq<TokenView>>>;

/// Parse outer attributes with `syn::Attribute::parse_outer`, and keep the
/// token trees of each one's path and arguments. The contract says only
/// that the result is the name `syn_attributes` of the trees.
#[verifier::external_body]
pub(crate) fn parse_attributes(tokens: &TokenStream) -> (attrs: Option<Vec<AttrTree>>)
    ensures
        attrs matches Some(v) ==> syn_attributes(stream_tokens(*tokens)) == Some(v@.map_values(|a: AttrTree| a@)),
        attrs is None ==> syn_attributes(stream_tokens(*tokens)) is None,
{
    let attrs = syn::parse::Parser::parse2(syn::Attribute::parse_outer, tokens.clone()).ok()?;
    Some(attrs.iter().map(|a| AttrTree {
        path: a.path().to_token_stream(),
        meta: match &a.meta {
            syn::Meta::Path(_) => MetaTree::Path,
            syn::Meta::List(l) => MetaTree::List(l.tokens.clone()),
            syn::Meta::NameValue(_) => MetaTree::NameValue,
        },
    }).collect())
}

/// Parse a variant with `syn::parse2::<syn::Variant>`, and keep the token
/// trees of its attributes and fields. The contract says only that the
/// result is the name `syn_variant` of the trees.
#[verifier::external_body]
pub(crate) fn parse_variant(tokens: &TokenStream) -> (variant: Option<VariantTree>)
    ensures
        variant matches Some(v) ==> syn_variant(stream_tokens(*tokens)) == Some(v@),
        variant is None ==> syn_variant(stream_tokens(*tokens)) is None,
{
    let v = syn::parse2::<syn::Variant>(tokens.clone()).ok()?;
    let shape = match v.fields {
        syn::Fields::Unit => Shape::Unit,
        syn::Fields::Unnamed(_) => Shape::Unnamed,
        syn::Fields::Named(_) => Shape::Named,
    };
    let attrs = v.attrs.iter().map(|a| a.to_token_stream()).collect();
    let fields = v.fields.to_token_stream();
    Some(VariantTree { name: v.ident.to_string(), attrs, shape, fields, discriminant: v.discriminant.is_some() })
}

/// Parse named fields with `syn::parse2::<syn::FieldsNamed>`, and keep
/// each field's name and the token trees of its attributes and type. The
/// contract says only that the result is the name `syn_named_fields` of
/// the trees.
#[verifier::external_body]
pub(crate) fn parse_named_fields(tokens: &TokenStream) -> (fields: Option<Vec<FieldTree>>)
    ensures
        fields matches Some(fs) ==> syn_named_fields(stream_tokens(*tokens)) == Some(field_trees_view(fs@)),
        fields is None ==> syn_named_fields(stream_tokens(*tokens)) is None,
{
    let fields = syn::parse2::<syn::FieldsNamed>(tokens.clone()).ok()?;
    Some(fields.named.iter().map(|f| FieldTree {
        name: f.ident.as_ref().map(|i| i.to_string()),
        attrs: f.attrs.iter().map(|a| a.to_token_stream()).collect(),
        ty: f.ty.to_token_stream(),
    }).collect())
}

/// Parse unnamed fields with `syn::parse2::<syn::FieldsUnnamed>`, and keep
/// the token trees of each field's attributes and type. The contract says
/// only that the result is the name `syn_unnamed_fields` of the trees.
#[verifier::external_body]
pub(crate) fn parse_unnamed_fields(tokens: &TokenStream) -> (fields: Option<Vec<FieldTree>>)
    ensures
        fields matches Some(fs) ==> syn_unnamed_fields(stream_tokens(*tokens)) == Some(field_trees_view(fs@)),
        fields is None ==> syn_unnamed_fields(stream_tokens(*tokens)) is None,
{
    let fields = syn::parse2::<syn::FieldsUnnamed>(tokens.clone()).ok()?;
    Some(fields.unnamed.iter().map(|f| FieldTree {
        name: f.ident.as_ref().map(|i| i.to_string()),
        attrs: f.attrs.iter().map(|a| a.to_token_stream()).collect(),
        ty: f.ty.to_token_stream(),
    }).collect())
}

/// Parse generic parameters with `syn::parse2::<syn::Generics>`, and keep
/// the kind and name of each. The contract says only that the result is
/// the name `syn_generics` of the trees.
#[verifier::external_body]
pub(crate) fn parse_generics(tokens: &TokenStream) -> (generics: Option<Vec<GenericParam>>)
    ensures
        generics matches Some(g) ==> syn_generics(stream_tokens(*tokens)) == Some(g@.map_values(|p: GenericParam| p@)),
        generics is None ==> syn_generics(stream_tokens(*tokens)) is None,
{
    let generics = syn::parse2::<syn::Generics>(tokens.clone()).ok()?;
    Some(generics.params.iter().map(|p| match p {
        syn::GenericParam::Lifetime(l) => GenericParam::Lifetime(l.lifetime.ident.to_string()),
        syn::GenericParam::Type(t) => GenericParam::Type(t.ident.to_string()),
        syn::GenericParam::Const(c) => GenericParam::Const(c.ident.to_string()),
    }).collect())
}

/// Parse the input of a derive with `syn::parse2::<syn::DeriveInput>`, and
/// keep the token trees of its attributes, generic parameters and
/// variants. The contract says only that the result is the name
/// `syn_derive_input` of the trees.
#[verifier::external_body]
pub(crate) fn parse_derive_input(tokens: &TokenStream) -> (input: Option<InputTree>)
    ensures
        input matches Some(d) ==> syn_derive_input(stream_tokens(*tokens)) == Some(d@),
        input is None ==> syn_derive_input(stream_tokens(*tokens)) is None,
{
    let d = syn::parse2::<syn::DeriveInput>(tokens.clone()).ok()?;
    let data = match &d.data {
        syn::Data::Enum(e) => DataTree::Enum(e.variants.iter().map(|v| v.to_token_stream()).collect()),
        syn::Data::Struct(_) => DataTree::Struct,
        syn::Data::Union(_) => DataTree::Union,
    };
    let attrs = d.attrs.iter().map(|a| a.to_token_stream()).collect();
    Some(InputTree { name: d.ident.to_string(), attrs, generics: d.generics.to_token_stream(), data })
}

/// Parse an enum item with `syn::parse2::<syn::ItemEnum>`, and keep the
/// token trees of its variants. The contract says only that the result is
/// the name `syn_item_enum` of the trees.
#[verifier::external_body]
pub(crate) fn parse_item_enum(tokens: &TokenStream) -> (variants: Option<Vec<TokenStream>>)
    ensures
        variants matches Some(v) ==> syn_item_enum(stream_tokens(*tokens)) == Some(streams_view(v@)),
        variants is None ==> syn_item_enum(stream_tokens(*tokens)) is None,
{
    let item = syn::parse2::<syn::ItemEnum>(tokens.clone()).ok()?;
    Some(item.variants.iter().map(|v| v.to_token_stream()).collect())
}

pub open spec fn meta_read(m: MetaTreeView, meta: Meta) -> bool {
    match m {
        MetaTreeView::Path => meta is Path,
        MetaTreeView::NameValue => meta is NameValue,
        MetaTreeView::List(t) => meta matches Meta::List(ts) && stream_tokens(ts) == t,
    }
}

/// The token trees are one attribute, and `a` is what syn reads of it.
pub open spec fn attr_read(tokens: Seq<TokenView>, a: Attribute) -> bool {
    match syn_attributes(tokens) {
        Some(v) => v.len() == 1 && syn_path(v[0].path) == Ok::<_, Seq<char>>(a.path@) && meta_read(v[0].meta, a.meta),
        None => false,
    }
}

pub open spec fn attrs_read(texts: Seq<Seq<TokenView>>, attrs: Seq<Attribute>) -> bool {
    &&& texts.len() == attrs.len()
    &&& forall|i: int| 0 <= i < texts.len() ==> #[trigger] attr_read(texts[i], attrs[i])
}

pub open spec fn field_read(f: FieldTreeView, field: Field) -> bool {
    &&& name_view(field.name) == f.name
    &&& attrs_read(f.attrs, field.attrs@)
    &&& tokens_view(field.ty@) == f.ty
}

pub open spec fn field_list_read(fs: Seq<FieldTreeView>, fields: Seq<Field>) -> bool {
    &&& fs.len() == fields.len()
    &&& forall|i: int| 0 <= i < fs.len() ==> #[trigger] field_read(fs[i], fields[i])
}

/// The fields of a variant of the given shape, written as the token trees
/// `text`, are read as `fields`.
pub open spec fn fields_read(shape: Shape, text: Seq<TokenView>, fields: Fields) -> bool {
    match shape {
        Shape::Unit => fields is Unit,
        Shape::Unnamed => syn_unnamed_fields(text) matches Some(v) && fields matches Fields::Unnamed(x)
            && field_list_read(v, x@),
        Shape::Named => syn_named_fields(text) matches Some(v) && fields matches Fields::Named(x)
            && field_list_read(v, x@),
    }
}

/// The token trees are a variant, and `v` is what syn reads of it.
pub open spec fn variant_read(text: Seq<TokenView>, v: Variant) -> bool {
    match syn_variant(text) {
        Some(p) => {
            &&& v.name@ == p.name
            &&& attrs_read(p.attrs, v.attrs@)
            &&& fields_read(p.shape, p.fields, v.fields)
            &&& v.discriminant == p.discriminant
        },
        None => false,
    }
}

pub open spec fn variants_read(texts: Seq<Seq<TokenView>>, vs: Seq<Variant>) -> bool {
    &&& texts.len() == vs.len()
    &&& forall|i: int| 0 <= i < texts.len() ==> #[trigger] variant_read(texts[i], vs[i])
}

pub open spec fn data_read(d: DataTreeView, data: Data) -> bool {
    match d {
        DataTreeView::Enum(t) => data matches Data::Enum(vs) && variants_read(t, vs@),
        DataTreeView::Struct => data is Struct,
        DataTreeView::Union => data is Union,
    }
}

/// syn reads the token trees as the input of a derive, and `d` is the model
/// of it.
pub open spec fn input_read(text: Seq<TokenView>, d: DeriveInput) -> bool {
    match syn_derive_input(text) {
        Some(p) => {
            &&& d.name@ == p.name
            &&& attrs_read(p.attrs, d.attrs@)
            &&& syn_generics(p.generics) == Some(d.generics@.map_values(|g: GenericParam| g@))
            &&& data_read(p.data, d.data)
        },
        None => false,
    }
}

/// syn reads the token trees of a derive's input as the model `d`.
pub open spec fn reads_derive_input(tokens: Seq<TokenView>, d: DeriveInput) -> bool {
    input_read(tokens, d)
}

/// syn reads the token trees as an enum whose variants are the model `vs`.
pub open spec fn reads_item_enum(tokens: Seq<TokenView>, vs: Seq<Variant>) -> bool {
    match syn_item_enum(tokens) {
        Some(t) => variants_read(t, vs),
        None => false,
    }
}

/// Read one attribute from its token trees.
pub fn read_attribute(tokens: &TokenStream) -> (r: Option<Attribute>)
    ensures
        r matches Some(a) ==> attr_read(stream_tokens(*tokens), a),
        r is None ==> forall|a: Attribute| !attr_read(stream_tokens(*tokens), a),
{
    let mut parsed = match parse_attributes(tokens) {
        Some(v) => v,
        None => return None,
    };
    if parsed.len() != 1 {
        return None;
    }
    let ghost first = parsed@[0]@;
    assert(parsed@.map_values(|a: AttrTree| a@)[0] == first);
    let a = parsed.remove(0);
    let path = match parse_path(&a.path) {
        Ok(p) => p,
        Err(_) => return None,
    };
    let meta = match a.meta {
        MetaTree::Path => Meta::Path,
        MetaTree::NameValue => Meta::NameValue,
        MetaTree::List(t) => Meta::List(t),
    };
    Some(Attribute { path, meta })
}

/// Read attributes from their token trees.
pub fn read_attributes(texts: &Vec<TokenStream>) -> (r: Option<Vec<Attribute>>)
    ensures
        r matches Some(v) ==> attrs_read(streams_view(texts@), v@),
        r is None ==> forall|v: Seq<Attribute>| !attrs_read(streams_view(texts@), v),
{
    let ghost views = streams_view(texts@);
    let mut out: Vec<Attribute> = Vec::new();
    let mut i: usize = 0;
    while i < texts.len()
        invariant
            i <= texts.len(),
            views == streams_view(texts@),
            out.len() == i,
            forall|k: int| 0 <= k < i ==> #[trigger] attr_read(views[k], out@[k]),
        decreases texts.len() - i,
    {
        assert(views[i as int] == stream_tokens(texts@[i as int]));
        match read_attribute(&texts[i]) {
            Some(a) => out.push(a),
            None => {
                assert forall|v: Seq<Attribute>| !attrs_read(views, v) by {
                    if attrs_read(views, v) {
                        assert(attr_read(views[i as int], v[i as int]));
                    }
                }
                return None;
            },
        }
        i = i + 1;
    }
    Some(out)
}

/// Read a field from its parts.
pub fn read_field(f: FieldTree) -> (r: Option<Field>)
    ensures
        r matches Some(field) ==> field_read(f@, field),
        r is None ==> forall|field: Field| !field_read(f@, field),
{
    let ghost view = f@;
    let attrs = match read_attributes(&f.attrs) {
        Some(a) => a,
        None => return None,
    };
    let ty = tokens_of(&f.ty);
    Some(Field { name: f.name, attrs, ty })
}

/// Read a list of fields from their parts.
pub fn read_field_list(fs: Vec<FieldTree>) -> (r: Option<Vec<Field>>)
    ensures
        r matches Some(v) ==> field_list_read(field_trees_view(fs@), v@),
        r is None ==> forall|v: Seq<Field>| !field_list_read(field_trees_view(fs@), v),
{
    let ghost views = field_trees_view(fs@);
    let n = fs.len();
    let mut rest = fs;
    let mut out: Vec<Field> = Vec::new();
    while rest.len() > 0
        invariant
            views == field_trees_view(fs@),
            views.len() == n,
            field_trees_view(rest@) == views.subrange(n - rest.len(), n as int),
            out.len() == n - rest.len(),
            forall|k: int| 0 <= k < out.len() ==> #[trigger] field_read(views[k], out@[k]),
        decreases rest.len(),
    {
        let ghost k = n - rest.len();
        let ghost before = rest@;
        assert(field_trees_view(before)[0] == views[k]);
        let f = rest.remove(0);
        assert(f@ == views[k]);
        assert forall|j: int| 0 <= j < rest.len() implies #[trigger] field_trees_view(rest@)[j]
            == views.subrange(n - rest.len(), n as int)[j] by {
            assert(rest@[j] == before[j + 1]);
            assert(field_trees_view(before)[j + 1] == views[k + 1 + j]);
        }
        assert(field_trees_view(rest@) =~= views.subrange(n - rest.len(), n as int));
        match read_field(f) {
            Some(field) => out.push(field),
            None => {
                assert forall|v: Seq<Field>| !field_list_read(views, v) by {
                    if field_list_read(views, v) {
                        assert(field_read(views[k], v[k]));
                    }
                }
                return None;
            },
        }
    }
    Some(out)
}

/// Read the fields of a variant of the given shape from their token trees.
pub fn read_fields(shape: Shape, text: &TokenStream) -> (r: Option<Fields>)
    ensures
        r matches Some(fields) ==> fields_read(shape, stream_tokens(*text), fields),
        r is None ==> forall|fields: Fields| !fields_read(shape, stream_tokens(*text), fields),
{
    match shape {
        Shape::Unit => Some(Fields::Unit),
        Shape::Unnamed => match parse_unnamed_fields(text) {
            Some(v) => match read_field_list(v) {
                Some(x) => Some(Fields::Unnamed(x)),
                None => None,
            },
            None => None,
        },
        Shape::Named => match parse_named_fields(text) {
            Some(v) => match read_field_list(v) {
                Some(x) => Some(Fields::Named(x)),
                None => None,
            },
            None => None,
        },
    }
}

/// Read a variant from its token trees.
pub fn read_variant(text: &TokenStream) -> (r: Option<Variant>)
    ensures
        r matches Some(v) ==> variant_read(stream_tokens(*text), v),
        r is None ==> forall|v: Variant| !variant_read(stream_tokens(*text), v),
{
    let p = match parse_variant(text) {
        Some(p) => p,
        None => return None,
    };
    let ghost view = p@;
    let attrs = match read_attributes(&p.attrs) {
        Some(a) => a,
        None => return None,
    };
    let fields = match read_fields(p.shape, &p.fields) {
        Some(f) => f,
        None => return None,
    };
    Some(Variant { name: p.name, attrs, fields, discriminant: p.discriminant })
}

/// Read variants from their token trees.
pub fn read_variants(texts: &Vec<TokenStream>) -> (r: Option<Vec<Variant>>)
    ensures
        r matches Some(v) ==> variants_read(streams_view(texts@), v@),
        r is None ==> forall|v: Seq<Variant>| !variants_read(streams_view(texts@), v),
{
    let ghost views = streams_view(texts@);
    let mut out: Vec<Variant> = Vec::new();
    let mut i: usize = 0;
    while i < texts.len()
        invariant
            i <= texts.len(),
            views == streams_view(texts@),
            out.len() == i,
            forall|k: int| 0 <= k < i ==> #[trigger] variant_read(views[k], out@[k]),
        decreases texts.len() - i,
    {
        assert(views[i as int] == stream_tokens(texts@[i as int]));
        match read_variant(&texts[i]) {
            Some(v) => out.push(v),
            None => {
                assert forall|v: Seq<Variant>| !variants_read(views, v) by {
                    if variants_read(views, v) {
                        assert(variant_read(views[i as int], v[i as int]));
                    }
                }
                return None;
            },
        }
        i = i + 1;
    }
    Some(out)
}

/// Read the token trees of a derive's input with syn into the model:
/// `None` exactly when syn does not read them as such an input.
pub fn read_derive_input(tokens: &TokenStream) -> (r: Option<DeriveInput>)
    ensures
        r matches Some(d) ==> reads_derive_input(stream_tokens(*tokens), d),
        r is None ==> forall|d: DeriveInput| !reads_derive_input(stream_tokens(*tokens), d),
{
    let p = match parse_derive_input(tokens) {
        Some(p) => p,
        None => return None,
    };
    let ghost view = p@;
    let attrs = match read_attributes(&p.attrs) {
        Some(a) => a,
        None => return None,
    };
    let data = match &p.data {
        DataTree::Enum(texts) => match read_variants(texts) {
            Some(vs) => Data::Enum(vs),
            None => {
                assert forall|d: DeriveInput| !reads_derive_input(stream_tokens(*tokens), d) by {
                    if reads_derive_input(stream_tokens(*tokens), d) {
                        let vs = d.data->Enum_0;
                        assert(variants_read(streams_view(texts@), vs@));
                    }
                }
                return None;
            },
        },
        DataTree::Struct => Data::Struct,
        DataTree::Union => Data::Union,
    };
    let generics = match parse_generics(&p.generics) {
        Some(g) => g,
        None => return None,
    };
    Some(DeriveInput { name: p.name, attrs, generics, data })
}

/// Read the token trees of an enum item with syn into the model of its
/// variants: `None` exactly when syn does not read them as an enum.
pub fn read_item_enum(tokens: &TokenStream) -> (r: Option<Vec<Variant>>)
    ensures
        r matches Some(vs) ==> reads_item_enum(stream_tokens(*tokens), vs@),
        r is None ==> forall|vs: Seq<Variant>| !reads_item_enum(stream_tokens(*tokens), vs),
{
    let texts = match parse_item_enum(tokens) {
        Some(t) => t,
        None => return None,
    };
    read_variants(&texts)
}

} // verus!
