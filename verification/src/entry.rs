//! The two entry points on the token trees of a macro's input: the enum
//! derive and the enum shorthand. Each reads its input with syn into the model and decides on
//! the model; an input that syn does not read is a syntax error.
use vstd::prelude::*;
use crate::derive::{expand, expansion, Expansion, ExpansionView};
use crate::error::DeriveError;
use crate::reading::{read_derive_input, read_item_enum, reads_derive_input, reads_item_enum};
use crate::syntax::{DeriveInput, Variant};
use proc_macro2::TokenStream;
use crate::tokens::stream_tokens;
use crate::type_enum::{expands_to, first_discriminant, type_enum_variants};

verus! {

/// Why the derive produced no expansion: syn did not read its input as an
/// item, or the item breaks a rule of the derive.
#[derive(Debug)]
pub enum DeriveFailure {
    Syntax,
    Derive(DeriveError),
}

/// Why the enum shorthand produced no enum: syn did not read its input as
/// an enum, or the variant at the index carries a discriminant.
#[derive(Debug)]
pub enum TypeEnumFailure {
    Syntax,
    Discriminant(usize),
}

/// The enum derive on the raw tokens of its input: syn reads them as an
/// item, and the expansion of that item is returned, or the rule it breaks.
pub fn derive_widen(tokens: &TokenStream) -> (r: Result<Expansion, DeriveFailure>)
    ensures
        (r matches Err(DeriveFailure::Syntax)) <==> forall|d: DeriveInput| !reads_derive_input(stream_tokens(*tokens), d),
        r matches Ok(e) ==> exists|d: DeriveInput|
            reads_derive_input(stream_tokens(*tokens), d) && #[trigger] expansion(d) == Ok::<_, DeriveError>(e@),
        r matches Err(DeriveFailure::Derive(err)) ==> exists|d: DeriveInput|
            reads_derive_input(stream_tokens(*tokens), d) && #[trigger] expansion(d) == Err::<ExpansionView, DeriveError>(err),
{
    let input = match read_derive_input(tokens) {
        Some(d) => d,
        None => return Err(DeriveFailure::Syntax),
    };
    match expand(&input) {
        Ok(e) => Ok(e),
        Err(err) => Err(DeriveFailure::Derive(err)),
    }
}

/// The enum shorthand on the raw tokens of its input: syn reads them as an
/// enum, and its variants are written out, a bare name as a payload
/// variant; a variant with a discriminant is refused.
pub fn type_enum(tokens: &TokenStream) -> (r: Result<Vec<Variant>, TypeEnumFailure>)
    ensures
        (r matches Err(TypeEnumFailure::Syntax)) <==> forall|vs: Seq<Variant>| !reads_item_enum(stream_tokens(*tokens), vs),
        r matches Err(TypeEnumFailure::Discriminant(i)) ==> exists|vs: Seq<Variant>|
            reads_item_enum(stream_tokens(*tokens), vs) && #[trigger] first_discriminant(vs) == Some(i as nat),
        r matches Ok(out) ==> exists|vs: Seq<Variant>| {
            &&& reads_item_enum(stream_tokens(*tokens), vs)
            &&& #[trigger] first_discriminant(vs) is None
            &&& out.len() == vs.len()
            &&& forall|i: int| 0 <= i < vs.len() ==> expands_to(vs[i], #[trigger] out@[i])
        },
{
    let variants = match read_item_enum(tokens) {
        Some(vs) => vs,
        None => return Err(TypeEnumFailure::Syntax),
    };
    let ghost vs = variants@;
    match type_enum_variants(variants) {
        Ok(out) => {
            assert(first_discriminant(vs) is None);
            Ok(out)
        },
        Err(i) => {
            assert(first_discriminant(vs) == Some(i as nat));
            Err(TypeEnumFailure::Discriminant(i))
        },
    }
}

} // verus!
