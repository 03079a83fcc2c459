//! The shorthand of `type_enum!`: a bare variant name `ParseError` stands
//! for the variant `ParseError(ParseError)`, whose payload type has the
//! variant's name. Variants written with fields, and every attribute, are
//! kept as they are.
use vstd::prelude::*;
use crate::syntax::{field_seq, Field, Fields, Variant};
use crate::tokens::Token;

verus! {

/// The payload variant that a bare variant name stands for.
pub open spec fn is_payload_shorthand(v: Variant, out: Variant) -> bool {
    &&& out.name == v.name
    &&& out.attrs == v.attrs
    &&& !out.discriminant
    &&& (out.fields matches Fields::Unnamed(fs) && fs@.len() == 1 && fs@[0].name is None
        && fs@[0].attrs@.len() == 0 && fs@[0].ty@ == seq![Token::Ident(v.name)])
}

/// How `type_enum!` writes a variant out: a bare name becomes a payload
/// variant, any other variant stays as it is.
pub open spec fn expands_to(v: Variant, out: Variant) -> bool {
    if v.fields is Unit {
        is_payload_shorthand(v, out)
    } else {
        out == v
    }
}

/// The first variant that is followed by a discriminant, which the
/// shorthand does not accept.
pub open spec fn first_discriminant(variants: Seq<Variant>) -> Option<nat> {
    if exists|i: int| 0 <= i < variants.len() && (#[trigger] variants[i]).discriminant {
        Some(
            (choose|i: int|
                0 <= i < variants.len() && (#[trigger] variants[i]).discriminant && forall|j: int|
                    0 <= j < i ==> !(#[trigger] variants[j]).discriminant) as nat,
        )
    } else {
        None
    }
}

fn payload_variant(v: Variant) -> (out: Variant)
    requires
        v.fields is Unit,
    ensures
        is_payload_shorthand(v, out),
{
    let ty_name = v.name.clone();
    let mut ty: Vec<Token> = Vec::new();
    ty.push(Token::Ident(ty_name));
    let field = Field { name: None, attrs: Vec::new(), ty };
    let mut fields: Vec<Field> = Vec::new();
    fields.push(field);
    proof {
        assert(ty@ =~= seq![Token::Ident(v.name)]);
    }
    Variant { name: v.name, attrs: v.attrs, fields: Fields::Unnamed(fields), discriminant: false }
}

/// Write out the variants of `type_enum!`: the index of the first variant
/// with a discriminant is the error.
pub fn type_enum_variants(variants: Vec<Variant>) -> (r: Result<Vec<Variant>, usize>)
    ensures
        match r {
            Err(i) => first_discriminant(variants@) == Some(i as nat),
            Ok(out) => {
                &&& first_discriminant(variants@) is None
                &&& out.len() == variants.len()
                &&& forall|i: int| 0 <= i < variants.len() ==> expands_to(variants@[i], #[trigger] out@[i])
                &&& forall|i: int| 0 <= i < variants.len() && !(variants@[i].fields is Unit) ==> #[trigger] out@[i]
                    == variants@[i]
            },
        },
{
    let mut d: usize = 0;
    while d < variants.len()
        invariant
            d <= variants.len(),
            forall|j: int| 0 <= j < d ==> !(#[trigger] variants@[j]).discriminant,
        decreases variants.len() - d,
    {
        if variants[d].discriminant {
            proof {
                let i = d as int;
                assert(0 <= i < variants.len() && variants@[i].discriminant && forall|j: int|
                    0 <= j < i ==> !(#[trigger] variants@[j]).discriminant);
                let c = choose|i: int|
                    0 <= i < variants.len() && (#[trigger] variants@[i]).discriminant && forall|j: int|
                        0 <= j < i ==> !(#[trigger] variants@[j]).discriminant;
                if c < i {
                } else if c > i {
                    assert(!variants@[i].discriminant);
                }
            }
            return Err(d);
        }
        d = d + 1;
    }
    let ghost orig = variants@;
    let n = variants.len();
    let mut rest = variants;
    let mut out: Vec<Variant> = Vec::new();
    while rest.len() > 0
        invariant
            orig.len() == n,
            rest@ == orig.subrange(n - rest.len(), n as int),
            out.len() == n - rest.len(),
            forall|i: int| 0 <= i < out.len() ==> expands_to(orig[i], #[trigger] out@[i]),
            forall|i: int| 0 <= i < out.len() && !(orig[i].fields is Unit) ==> #[trigger] out@[i] == orig[i],
        decreases rest.len(),
    {
        let ghost k = n - rest.len();
        let v = rest.remove(0);
        assert(v == orig[k]);
        assert(rest@ =~= orig.subrange(n - rest.len(), n as int));
        let is_unit = matches!(v.fields, Fields::Unit);
        if is_unit {
            let w = payload_variant(v);
            out.push(w);
        } else {
            out.push(v);
        }
    }
    Ok(out)
}

/// The shorthand touches only bare names. A variant written with fields,
/// in parentheses or in braces, comes out exactly as written: its name,
/// every attribute, its fields and its discriminant. A bare name `N` comes
/// out as `N(N)` with its own attributes, one unnamed field without
/// attributes, and no discriminant.
pub proof fn law_shorthand_keeps_written_variants(v: Variant, out: Variant)
    requires
        expands_to(v, out),
    ensures
        !(v.fields is Unit) ==> {
            &&& out.name == v.name
            &&& out.attrs == v.attrs
            &&& out.fields == v.fields
            &&& out.discriminant == v.discriminant
        },
        v.fields is Unit ==> {
            &&& out.name == v.name
            &&& out.attrs == v.attrs
            &&& !out.discriminant
            &&& out.fields matches Fields::Unnamed(fs) && fs@.len() == 1
            &&& field_seq(out.fields)[0].name is None
            &&& field_seq(out.fields)[0].attrs@.len() == 0
            &&& field_seq(out.fields)[0].ty@ == seq![Token::Ident(v.name)]
        },
{
}

} // verus!
