//! Errors of the enum derive: what went wrong, and where in the input.
use vstd::prelude::*;

verus! {

/// What is wrong with the input of the derive.
#[derive(Clone, Copy, Debug, PartialEq, Eq, Structural)]
pub enum ErrorKind {
    /// The input is a struct or a union.
    NotAnEnum,
    /// A `subsume` attribute stands on the enum itself or on a field.
    MisplacedSubsume,
    /// A variant does not hold exactly one field.
    NotOneField,
    /// `#[subsume]` without arguments.
    ExpectedArgumentsInParentheses,
    /// `#[subsume = ...]`.
    ExpectedParentheses,
    /// A modifier other than `from(...)`.
    ExpectedFromModifier,
    /// `from(...)` that holds more than one source variant.
    ExpectedSingleSource,
    /// Something other than a comma after `from(...)`.
    ExpectedComma,
    /// Tokens that do not form a path.
    InvalidPath,
    /// `#[subsume()]`.
    NoSourceVariant,
    /// A path with a single segment, where `Source::Variant` is expected.
    ExpectedSourceVariant,
    /// Generic arguments on the variant segment of a path.
    GenericArgumentsOnVariant,
    /// A source variant named twice for the same source enum.
    AlreadyMapped,
    /// `from(...)` on a destination variant without fields.
    ConversionNeedsFields,
}

/// Where the error is: the element of the input that it points at.
/// Variants, fields, attributes and mappings are counted from zero, in the
/// order in which they are written.
#[derive(Clone, Copy, Debug, PartialEq, Eq, Structural)]
pub enum ErrorSite {
    /// The name of the type.
    EnumName,
    /// An attribute of the enum.
    EnumAttr(usize),
    /// An attribute of a field: variant, field, attribute.
    FieldAttr(usize, usize, usize),
    /// A variant.
    Variant(usize),
    /// An attribute of a variant: variant, attribute.
    VariantAttr(usize, usize),
    /// One source of a `subsume` attribute: variant, attribute, source.
    Mapping(usize, usize, usize),
}

/// An error of the derive.
#[derive(Clone, Copy, Debug, PartialEq, Eq, Structural)]
pub struct DeriveError {
    pub kind: ErrorKind,
    pub site: ErrorSite,
}

/// The message that the derive reports for each kind of error.
pub open spec fn message_text(kind: ErrorKind) -> Seq<char> {
    match kind {
        ErrorKind::NotAnEnum => "Widen can only be derived for enums"@,
        ErrorKind::MisplacedSubsume => "`subsume` must be placed on an enum variant"@,
        ErrorKind::NotOneField => "Widen requires each variant to contain exactly one field"@,
        ErrorKind::ExpectedArgumentsInParentheses => "expected attribute arguments in parentheses: #[subsume(...)]"@,
        ErrorKind::ExpectedParentheses => "expected parentheses: #[subsume(...)]"@,
        ErrorKind::ExpectedFromModifier => "expected `from(Source::Variant)`"@,
        ErrorKind::ExpectedSingleSource => "expected a single source variant"@,
        ErrorKind::ExpectedComma => "expected `,`"@,
        ErrorKind::InvalidPath => "expected a path to a source variant"@,
        ErrorKind::NoSourceVariant => "expected at least one source variant"@,
        ErrorKind::ExpectedSourceVariant => "expected `Source::Variant`"@,
        ErrorKind::GenericArgumentsOnVariant => "put generic arguments on the source enum"@,
        ErrorKind::AlreadyMapped => "source variant is already mapped"@,
        ErrorKind::ConversionNeedsFields => "`from(...)` requires a variant with fields"@,
    }
}

impl ErrorKind {
    /// The message of this kind of error.
    pub fn message(&self) -> (text: &'static str)
        ensures
            text@ == message_text(*self),
    {
        match self {
            ErrorKind::NotAnEnum => "Widen can only be derived for enums",
            ErrorKind::MisplacedSubsume => "`subsume` must be placed on an enum variant",
            ErrorKind::NotOneField => "Widen requires each variant to contain exactly one field",
            ErrorKind::ExpectedArgumentsInParentheses => "expected attribute arguments in parentheses: #[subsume(...)]",
            ErrorKind::ExpectedParentheses => "expected parentheses: #[subsume(...)]",
            ErrorKind::ExpectedFromModifier => "expected `from(Source::Variant)`",
            ErrorKind::ExpectedSingleSource => "expected a single source variant",
            ErrorKind::ExpectedComma => "expected `,`",
            ErrorKind::InvalidPath => "expected a path to a source variant",
            ErrorKind::NoSourceVariant => "expected at least one source variant",
            ErrorKind::ExpectedSourceVariant => "expected `Source::Variant`",
            ErrorKind::GenericArgumentsOnVariant => "put generic arguments on the source enum",
            ErrorKind::AlreadyMapped => "source variant is already mapped",
            ErrorKind::ConversionNeedsFields => "`from(...)` requires a variant with fields",
        }
    }
}

} // verus!
