use proc_macro2::{Delimiter as Delim, Spacing, TokenStream, TokenTree};
use widen::conversions::FromImpl;
use widen::derive::{expand, target_ident, Expansion};
use widen::entry::{derive_widen, type_enum, DeriveFailure, TypeEnumFailure};
use widen::error::{DeriveError, ErrorKind, ErrorSite};
use widen::syntax::{Attribute, Data, DeriveInput, Field, Fields, GenericParam, Meta, PathSegment, SourcePath, Variant};
use widen::tokens::{Delimiter, Token};
use widen::type_enum::type_enum_variants;

fn convert(stream: TokenStream) -> Vec<Token> {
    let mut out = Vec::new();
    for tree in stream {
        match tree {
            TokenTree::Ident(i) => out.push(Token::Ident(i.to_string())),
            TokenTree::Punct(p) => out.push(Token::Punct(p.as_char(), p.spacing() == Spacing::Joint)),
            TokenTree::Literal(l) => out.push(Token::Literal(l.to_string())),
            TokenTree::Group(g) => {
                let inner = convert(g.stream());
                match g.delimiter() {
                    Delim::Parenthesis => out.push(Token::Group(Delimiter::Parenthesis, inner)),
                    Delim::Brace => out.push(Token::Group(Delimiter::Brace, inner)),
                    Delim::Bracket => out.push(Token::Group(Delimiter::Bracket, inner)),
                    Delim::None => out.push(Token::Group(Delimiter::Implicit, inner)),
                }
            }
        }
    }
    out
}

fn tokens(src: &str) -> Vec<Token> {
    convert(src.parse::<TokenStream>().unwrap())
}

fn simple_path(name: &str) -> SourcePath {
    SourcePath {
        leading_colon: false,
        segments: name
            .split("::")
            .map(|s| PathSegment { ident: s.to_string(), args: None, turbofish: false })
            .collect(),
    }
}

fn stream(src: &str) -> TokenStream {
    src.parse().unwrap()
}

fn attr(name: &str, args: &str) -> Attribute {
    Attribute { path: simple_path(name), meta: Meta::List(stream(args)) }
}

fn subsume(args: &str) -> Attribute {
    attr("subsume", args)
}

fn field(name: Option<&str>, ty: &str) -> Field {
    Field { name: name.map(|n| n.to_string()), attrs: Vec::new(), ty: tokens(ty) }
}

fn unit() -> Fields {
    Fields::Unit
}

fn tuple(types: &[&str]) -> Fields {
    Fields::Unnamed(types.iter().map(|t| field(None, t)).collect())
}

fn named(fields: &[(&str, &str)]) -> Fields {
    Fields::Named(fields.iter().map(|(n, t)| field(Some(n), t)).collect())
}

fn variant(name: &str, attrs: Vec<Attribute>, fields: Fields) -> Variant {
    Variant { name: name.to_string(), attrs, fields, discriminant: false }
}

fn enum_input(name: &str, generics: Vec<GenericParam>, variants: Vec<Variant>) -> DeriveInput {
    DeriveInput { name: name.to_string(), attrs: Vec::new(), generics, data: Data::Enum(variants) }
}

fn render_path(p: &SourcePath) -> String {
    let mut text = String::new();
    if p.leading_colon {
        text.push_str("::");
    }
    for (i, s) in p.segments.iter().enumerate() {
        if i > 0 {
            text.push_str("::");
        }
        text.push_str(&s.ident);
        if let Some(args) = &s.args {
            text.push('<');
            text.push_str(&args.to_string());
            text.push('>');
        }
    }
    text
}

fn conversion<'a>(exp: &'a Expansion, source: &str) -> &'a FromImpl {
    exp.from_impls
        .iter()
        .find(|i| render_path(&i.source) == source)
        .unwrap_or_else(|| panic!("no conversion from {source}"))
}

/// The destination variant (and whether the payload is converted) that a
/// source variant becomes.
fn converts(exp: &Expansion, source: &str, variant: &str) -> Option<(usize, bool)> {
    exp.from_impls
        .iter()
        .filter(|i| render_path(&i.source) == source)
        .flat_map(|i| i.arms.iter())
        .find(|a| a.source_variant == variant)
        .map(|a| (a.target, a.convert))
}

fn error_of(input: &DeriveInput) -> DeriveError {
    match expand(input) {
        Err(e) => e,
        Ok(exp) => panic!("expected an error, got {exp:?}"),
    }
}

// enum C from the subsume tests, with its `error` attributes.
fn enum_c() -> DeriveInput {
    enum_input(
        "C",
        Vec::new(),
        vec![
            variant(
                "SharedVariant",
                vec![attr("error", "\"{}\", A::Shared"), subsume("A::Shared, B::Shared")],
                unit(),
            ),
            variant("VariantA", vec![attr("error", "\"exclusive to A\""), subsume("A::Exclusive")], unit()),
            variant("VariantB", vec![attr("error", "\"exclusive to B\""), subsume("B::Exclusive")], unit()),
            variant(
                "Normal",
                vec![attr("error", "transparent"), subsume("A::Normal, from(B::Normal)")],
                Fields::Unnamed(vec![Field {
                    name: None,
                    attrs: vec![Attribute { path: simple_path("from"), meta: Meta::Path }],
                    ty: tokens("Normal"),
                }]),
            ),
            variant("Extra", vec![attr("error", "\"only in C\"")], unit()),
        ],
    )
}

#[test]
fn merges_shared_units_and_preserves_exclusive_cases() {
    let exp = expand(&enum_c()).unwrap();
    assert_eq!(exp.from_impls.len(), 2);
    assert_eq!(converts(&exp, "A", "Shared"), Some((0, false)));
    assert_eq!(converts(&exp, "B", "Shared"), Some((0, false)));
    assert_eq!(converts(&exp, "A", "Exclusive"), Some((1, false)));
    assert_eq!(converts(&exp, "B", "Exclusive"), Some((2, false)));
    // `Extra` is only in C: no source variant becomes it.
    assert!(exp.from_impls.iter().all(|i| i.arms.iter().all(|a| a.target != 4)));
    // Unit variants hold no field, so no widening of C is generated.
    assert!(exp.widen.is_none());
}

#[test]
fn forwards_owned_payloads_and_converts_only_marked_sources() {
    let exp = expand(&enum_c()).unwrap();
    assert_eq!(converts(&exp, "A", "Normal"), Some((3, false)));
    assert_eq!(converts(&exp, "B", "Normal"), Some((3, true)));
    assert_eq!(conversion(&exp, "A").arms.len(), 3);
    assert_eq!(conversion(&exp, "B").arms.len(), 3);
}

#[test]
fn question_mark_infers_the_destination() {
    let exp = expand(&enum_c()).unwrap();
    assert_eq!(converts(&exp, "A", "Exclusive"), Some((1, false)));
    assert_eq!(exp.from_impls[0].arms.iter().map(|a| a.source_variant.as_str()).collect::<Vec<_>>(), ["Shared", "Exclusive", "Normal"]);
}

#[test]
fn supports_matching_named_and_tuple_fields_with_generics() {
    let input = enum_input(
        "Generic",
        vec![
            GenericParam::Lifetime("a".into()),
            GenericParam::Type("T".into()),
            GenericParam::Const("N".into()),
        ],
        vec![
            variant(
                "Borrowed",
                vec![subsume("source::Generic::<'a, T, N>::Values")],
                named(&[("values", "&'a [T; N]")]),
            ),
            variant("Pair", vec![subsume("source::Generic<'a, T, N>::Pair")], tuple(&["T", "T"])),
        ],
    );
    let exp = expand(&input).unwrap();
    // The turbofish is dropped: both variants come from one source type.
    assert_eq!(exp.from_impls.len(), 1);
    let ty = &exp.from_impls[0].source;
    let names: Vec<&str> = ty.segments.iter().map(|s| s.ident.as_str()).collect();
    assert_eq!(names, ["source", "Generic"]);
    assert!(!ty.segments[1].turbofish);
    let args = ty.segments[1].args.clone().expect("generic arguments");
    assert_eq!(format!("{:?}", convert(args)), format!("{:?}", tokens("'a, T, N")));
    let source = render_path(ty);
    assert_eq!(converts(&exp, &source, "Values"), Some((0, false)));
    assert_eq!(converts(&exp, &source, "Pair"), Some((1, false)));
    // `Pair` holds two fields, so only the conversions are generated.
    assert!(exp.widen.is_none());
}

#[test]
fn respects_explicit_generic_conversion_bounds() {
    let input = enum_input(
        "Converted",
        vec![GenericParam::Type("T".into())],
        vec![variant("Value", vec![subsume("from(Byte::Value)")], tuple(&["T"]))],
    );
    let exp = expand(&input).unwrap();
    assert_eq!(converts(&exp, "Byte", "Value"), Some((0, true)));
    let widen = exp.widen.unwrap();
    assert_eq!(widen.arms.len(), 1);
    assert_eq!(widen.target, "__WidenTarget");
}

#[test]
fn supports_external_enums_and_merges_cases_from_the_same_source() {
    let input = enum_input(
        "Comparison",
        Vec::new(),
        vec![
            variant("Unequal", vec![subsume("Ordering::Less, Ordering::Greater")], unit()),
            variant("Equal", vec![subsume("Ordering::Equal")], unit()),
        ],
    );
    let exp = expand(&input).unwrap();
    assert_eq!(exp.from_impls.len(), 1);
    assert_eq!(converts(&exp, "Ordering", "Less"), Some((0, false)));
    assert_eq!(converts(&exp, "Ordering", "Greater"), Some((0, false)));
    assert_eq!(converts(&exp, "Ordering", "Equal"), Some((1, false)));
}

fn read_error() -> DeriveInput {
    enum_input(
        "ReadError",
        Vec::new(),
        vec![
            variant("Parse", vec![attr("error", "transparent")], tuple(&["ParseError"])),
            variant("Io", vec![attr("error", "transparent")], tuple(&["IoError"])),
        ],
    )
}

#[test]
fn converts_every_payload_with_thiserror_from_impls() {
    let exp = expand(&read_error()).unwrap();
    assert!(exp.from_impls.is_empty());
    let widen = exp.widen.unwrap();
    assert_eq!(widen.arms.iter().map(|a| (a.variant, a.field.clone())).collect::<Vec<_>>(), [(0, None), (1, None)]);
}

#[test]
fn can_widen_to_the_same_enum() {
    // The target must convert from every payload type; the enum itself does
    // through its `From` impls, so it is a valid target.
    let input = read_error();
    let exp = expand(&input).unwrap();
    let widen = exp.widen.unwrap();
    let Data::Enum(variants) = &input.data else { unreachable!() };
    for arm in &widen.arms {
        let Fields::Unnamed(fields) = &variants[arm.variant].fields else { unreachable!() };
        assert_eq!(fields.len(), 1);
    }
}

#[test]
fn supports_named_fields_lifetimes_and_const_generics() {
    let input = enum_input(
        "Borrowed",
        vec![
            GenericParam::Lifetime("a".into()),
            GenericParam::Type("T".into()),
            GenericParam::Const("N".into()),
        ],
        vec![variant("Values", Vec::new(), named(&[("values", "&'a [T; N]")]))],
    );
    let widen = expand(&input).unwrap().widen.unwrap();
    assert_eq!(widen.arms.len(), 1);
    assert_eq!(widen.arms[0].field.as_deref(), Some("values"));
    assert_eq!(widen.target, "__WidenTarget");
}

#[test]
fn preserves_default_generics_and_avoids_generated_name_collisions() {
    let input = enum_input(
        "Collision",
        vec![GenericParam::Type("__WidenTarget".into())],
        vec![variant("Value", Vec::new(), tuple(&["__WidenTarget"]))],
    );
    let widen = expand(&input).unwrap().widen.unwrap();
    assert_eq!(widen.target, "___WidenTarget");
}

#[test]
fn empty_enum_can_widen_to_any_target() {
    let widen = expand(&enum_input("Empty", Vec::new(), Vec::new())).unwrap().widen.unwrap();
    assert!(widen.arms.is_empty());
}

#[test]
fn target_skips_every_taken_name() {
    let generics = vec![
        GenericParam::Type("__WidenTarget".into()),
        GenericParam::Const("___WidenTarget".into()),
        GenericParam::Lifetime("____WidenTarget".into()),
    ];
    // A lifetime does not take a name: four underscores are free.
    assert_eq!(target_ident(&generics), "____WidenTarget");
}

#[test]
fn rejects_invalid_derives_and_conversions() {
    // Widen requires each variant to contain exactly one field.
    for (fields, name) in [(unit(), "Missing"), (tuple(&["u32", "u32"]), "Pair"), (named(&[("first", "u32"), ("second", "u32")]), "Pair")] {
        let input = enum_input("Source", Vec::new(), vec![variant(name, Vec::new(), fields)]);
        assert_eq!(error_of(&input), DeriveError { kind: ErrorKind::NotOneField, site: ErrorSite::Variant(0) });
    }

    let one = |attrs: Vec<Attribute>, fields: Fields| enum_input("E", Vec::new(), vec![variant("V", attrs, fields)]);
    let kind_of = |input: DeriveInput| error_of(&input).kind;

    assert_eq!(kind_of(one(vec![subsume("")], unit())), ErrorKind::NoSourceVariant);
    assert_eq!(kind_of(one(vec![subsume("Unit")], unit())), ErrorKind::ExpectedSourceVariant);
    assert_eq!(kind_of(one(vec![subsume("into(Source::Value)")], tuple(&["u8"]))), ErrorKind::ExpectedFromModifier);
    assert_eq!(kind_of(one(vec![subsume("from(Source::Unit)")], unit())), ErrorKind::ConversionNeedsFields);

    let duplicate = enum_input(
        "Duplicate",
        Vec::new(),
        vec![
            variant("First", vec![subsume("Source::Unit")], unit()),
            variant("Second", vec![subsume("Source::Unit")], unit()),
        ],
    );
    assert_eq!(
        error_of(&duplicate),
        DeriveError { kind: ErrorKind::AlreadyMapped, site: ErrorSite::Mapping(1, 0, 0) }
    );

    let mut on_enum = one(Vec::new(), unit());
    on_enum.attrs.push(subsume("Source::Unit"));
    assert_eq!(error_of(&on_enum), DeriveError { kind: ErrorKind::MisplacedSubsume, site: ErrorSite::EnumAttr(0) });

    let on_field = one(
        Vec::new(),
        Fields::Unnamed(vec![Field { name: None, attrs: vec![subsume("Source::Value")], ty: tokens("u8") }]),
    );
    assert_eq!(
        error_of(&on_field),
        DeriveError { kind: ErrorKind::MisplacedSubsume, site: ErrorSite::FieldAttr(0, 0, 0) }
    );

    // A missing source variant, a payload of another type and fields of
    // another shape are left for the compiler: the derive maps what it is told.
    let exp = expand(&one(vec![subsume("Source::Shared")], unit())).unwrap();
    assert_eq!(converts(&exp, "Source", "Shared"), Some((0, false)));
    let exp = expand(&one(vec![subsume("Source::Value")], tuple(&["Converted"]))).unwrap();
    assert_eq!(converts(&exp, "Source", "Value"), Some((0, false)));
    let exp = expand(&one(vec![subsume("Source::Value")], named(&[("first", "u8")]))).unwrap();
    assert_eq!(converts(&exp, "Source", "Value"), Some((0, false)));
}

#[test]
fn structs_and_unions_are_refused() {
    let mut input = enum_input("S", Vec::new(), Vec::new());
    input.data = Data::Struct;
    assert_eq!(error_of(&input), DeriveError { kind: ErrorKind::NotAnEnum, site: ErrorSite::EnumName });
    input.data = Data::Union;
    assert_eq!(error_of(&input).kind, ErrorKind::NotAnEnum);
}

#[test]
fn attribute_forms_and_list_syntax_errors() {
    let one = |attr: Attribute| enum_input("E", Vec::new(), vec![variant("V", vec![attr], tuple(&["u8"]))]);
    let bare = Attribute { path: simple_path("subsume"), meta: Meta::Path };
    assert_eq!(
        error_of(&one(bare)),
        DeriveError { kind: ErrorKind::ExpectedArgumentsInParentheses, site: ErrorSite::VariantAttr(0, 0) }
    );
    let value = Attribute { path: simple_path("subsume"), meta: Meta::NameValue };
    assert_eq!(error_of(&one(value)).kind, ErrorKind::ExpectedParentheses);
    assert_eq!(
        error_of(&one(subsume("from(A::B, C::D)"))),
        DeriveError { kind: ErrorKind::ExpectedSingleSource, site: ErrorSite::Mapping(0, 0, 0) }
    );
    assert_eq!(
        error_of(&one(subsume("A::X, from(A::B) C::D"))),
        DeriveError { kind: ErrorKind::ExpectedComma, site: ErrorSite::Mapping(0, 0, 1) }
    );
    // A whole path followed by more tokens: syn's list wants a comma there,
    // and inside `from(...)` nothing more.
    assert_eq!(
        error_of(&one(subsume("A::X, A::B C"))),
        DeriveError { kind: ErrorKind::ExpectedComma, site: ErrorSite::Mapping(0, 0, 1) }
    );
    assert_eq!(
        error_of(&one(subsume("A::B C::D"))),
        DeriveError { kind: ErrorKind::ExpectedComma, site: ErrorSite::Mapping(0, 0, 0) }
    );
    assert_eq!(
        error_of(&one(subsume("from(A::X B)"))),
        DeriveError { kind: ErrorKind::ExpectedSingleSource, site: ErrorSite::Mapping(0, 0, 0) }
    );
    assert_eq!(error_of(&one(subsume("A::<"))).kind, ErrorKind::InvalidPath);
    assert_eq!(error_of(&one(subsume("A::X<u8>"))).kind, ErrorKind::GenericArgumentsOnVariant);
    // A keyword followed by parentheses is no modifier: it is read as the
    // path `self`, and a comma is wanted after it.
    assert_eq!(error_of(&one(subsume("self(A::B)"))).kind, ErrorKind::ExpectedComma);
    assert_eq!(error_of(&one(subsume("to(A::B)"))).kind, ErrorKind::ExpectedFromModifier);
    // A path error in an earlier source comes before a list error after it.
    assert_eq!(
        error_of(&one(subsume("A::, into(B::C)"))),
        DeriveError { kind: ErrorKind::InvalidPath, site: ErrorSite::Mapping(0, 0, 0) }
    );
    // A trailing comma is accepted, and commas inside angle brackets do not
    // split a source.
    let exp = expand(&one(subsume("Map<K, V>::Entry,"))).unwrap();
    assert_eq!(converts(&exp, "Map<K , V>", "Entry"), Some((0, false)));
    // Attributes other than `subsume` are not read.
    let exp = expand(&one(attr("doc", "= ignored"))).unwrap();
    assert!(exp.from_impls.is_empty());
}

#[test]
fn a_conversion_error_keeps_its_message() {
    assert_eq!(ErrorKind::AlreadyMapped.message(), "source variant is already mapped");
    assert_eq!(ErrorKind::NotAnEnum.message(), "Widen can only be derived for enums");
}

#[test]
fn constructs_and_matches_shorthand_payloads() {
    let out = type_enum_variants(vec![variant("ParseError", Vec::new(), unit())]).unwrap();
    assert_eq!(out.len(), 1);
    assert_eq!(out[0].name, "ParseError");
    let Fields::Unnamed(fields) = &out[0].fields else { panic!("expected a payload variant") };
    assert_eq!(fields.len(), 1);
    assert!(matches!(fields[0].ty.as_slice(), [Token::Ident(t)] if t == "ParseError"));
}

#[test]
fn preserves_generics_explicit_fields_and_attributes() {
    let mut documented = variant("T", vec![attr("doc", "= \"payload\"")], unit());
    documented.attrs.push(attr("allow", "dead_code"));
    let out = type_enum_variants(vec![
        documented,
        variant("Values", Vec::new(), tuple(&["[T; N]"])),
        variant("Borrowed", Vec::new(), named(&[("values", "&'a [T; N]")])),
    ])
    .unwrap();
    assert_eq!(out.len(), 3);
    assert_eq!(out[0].attrs.len(), 2);
    let Fields::Unnamed(fields) = &out[0].fields else { panic!("expected a payload variant") };
    assert!(matches!(fields[0].ty.as_slice(), [Token::Ident(t)] if t == "T"));
    let Fields::Unnamed(values) = &out[1].fields else { panic!("explicit fields must stay") };
    assert_eq!(values.len(), 1);
    assert!(matches!(&values[0].ty[0], Token::Group(Delimiter::Bracket, _)));
    let Fields::Named(borrowed) = &out[2].fields else { panic!("named fields must stay") };
    assert_eq!(borrowed[0].name.as_deref(), Some("values"));
}

#[test]
fn supports_subset_and_thiserror_derives() {
    let out = type_enum_variants(vec![
        variant("ParseError", vec![attr("error", "transparent")], unit()),
        Variant {
            name: "Io".into(),
            attrs: vec![attr("error", "transparent")],
            fields: Fields::Unnamed(vec![Field {
                name: None,
                attrs: vec![Attribute { path: simple_path("from"), meta: Meta::Path }],
                ty: tokens("std::io::Error"),
            }]),
            discriminant: false,
        },
    ])
    .unwrap();
    let widen = expand(&enum_input("Error", Vec::new(), out)).unwrap().widen.unwrap();
    assert_eq!(widen.arms.len(), 2);
}

#[test]
fn shorthand_refuses_discriminants() {
    let mut with_value = variant("B", Vec::new(), unit());
    with_value.discriminant = true;
    assert_eq!(type_enum_variants(vec![variant("A", Vec::new(), unit()), with_value]).err(), Some(1));
}

#[test]
fn derive_reads_raw_tokens_and_merges_turbofish_sources() {
    let input = stream(
        "#[doc = \"errors\"] enum Error<'a> { #[subsume(Src::<u8>::A, from(Other::X))] A(u8), \
         #[subsume(Src<u8>::B)] B { value: &'a str } }",
    );
    let exp = derive_widen(&input).expect("the derive expands");
    assert_eq!(exp.from_impls.len(), 2);
    let from_src = conversion(&exp, "Src<u8>");
    assert_eq!(from_src.arms.len(), 2);
    assert_eq!(converts(&exp, "Src<u8>", "A"), Some((0, false)));
    assert_eq!(converts(&exp, "Src<u8>", "B"), Some((1, false)));
    assert_eq!(converts(&exp, "Other", "X"), Some((0, true)));
    let widen = exp.widen.expect("every variant has one field");
    assert_eq!(widen.target, "__WidenTarget");
    assert_eq!(widen.arms.len(), 2);
}

#[test]
fn derive_reports_syntax_and_rule_errors_on_raw_tokens() {
    assert!(matches!(derive_widen(&stream("enum")), Err(DeriveFailure::Syntax)));
    assert!(matches!(derive_widen(&stream("enum E { A(u8) } extra")), Err(DeriveFailure::Syntax)));
    match derive_widen(&stream("struct S(u8);")) {
        Err(DeriveFailure::Derive(e)) => {
            assert_eq!(e.kind, ErrorKind::NotAnEnum);
            assert_eq!(e.site, ErrorSite::EnumName);
        }
        other => panic!("expected a derive error, got {other:?}"),
    }
    let exp = derive_widen(&stream("enum E { #[subsume(Src::A)] A, B(u8) }")).expect("conversions alone");
    assert_eq!(exp.from_impls.len(), 1);
    assert!(exp.widen.is_none());
    match derive_widen(&stream("enum E { A, B(u8) }")) {
        Err(DeriveFailure::Derive(e)) => assert_eq!(e.kind, ErrorKind::NotOneField),
        other => panic!("expected a derive error, got {other:?}"),
    }
}

#[test]
fn shorthand_reads_raw_tokens() {
    let out = type_enum(&stream("pub enum Error { ParseError, Io(std::io::Error), #[doc = \"x\"] Named { code: u8 } }"))
        .expect("the shorthand expands");
    assert_eq!(out.len(), 3);
    assert_eq!(out[0].name, "ParseError");
    match &out[0].fields {
        Fields::Unnamed(fs) => {
            assert_eq!(fs.len(), 1);
            assert_eq!(format!("{:?}", fs[0].ty), format!("{:?}", tokens("ParseError")));
        }
        other => panic!("expected a payload variant, got {other:?}"),
    }
    assert!(matches!(&out[1].fields, Fields::Unnamed(fs) if fs.len() == 1));
    assert!(matches!(&out[2].fields, Fields::Named(fs) if fs.len() == 1 && fs[0].name.as_deref() == Some("code")));
    assert_eq!(out[2].attrs.len(), 1);
    assert!(matches!(type_enum(&stream("enum E { A, B = 2 }")), Err(TypeEnumFailure::Discriminant(1))));
    assert!(matches!(type_enum(&stream("struct S;")), Err(TypeEnumFailure::Syntax)));
}

#[test]
fn streams_are_seen_as_token_trees() {
    let ts = widen::tokens::tokens_of(&stream("a::b(x, 'c')"));
    assert_eq!(ts.len(), 5);
    assert!(matches!(&ts[0], Token::Ident(s) if s == "a"));
    assert!(matches!(&ts[1], Token::Punct(':', true)));
    assert!(matches!(&ts[2], Token::Punct(':', false)));
    assert!(matches!(&ts[3], Token::Ident(s) if s == "b"));
    match &ts[4] {
        Token::Group(Delimiter::Parenthesis, inner) => {
            assert_eq!(inner.len(), 3);
            assert!(matches!(&inner[2], Token::Literal(l) if l == "'c'"));
        }
        other => panic!("expected a group, got {other:?}"),
    }
    // A group without delimiters, as macro expansion leaves one, is kept.
    let implicit: TokenStream =
        [TokenTree::Group(proc_macro2::Group::new(Delim::None, stream("u8")))].into_iter().collect();
    assert!(matches!(&widen::tokens::tokens_of(&implicit)[0], Token::Group(Delimiter::Implicit, inner) if inner.len() == 1));
    assert!(widen::tokens::tokens_eq(&tokens("A<B, C>"), &tokens("A < B , C >")));
    assert!(!widen::tokens::tokens_eq(&tokens("A<B, C>"), &tokens("A<B, D>")));
    assert!(!widen::tokens::tokens_eq(&tokens("(a)"), &tokens("[a]")));
}
