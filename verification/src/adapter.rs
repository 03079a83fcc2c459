//! The runtime part: the widening trait and the error marker.
use vstd::prelude::*;

verus! {

/// Widen a value into a destination determined by its context.
///
/// Derived implementations convert an enum by its payload types. The `Result`
/// implementation marks its error for conversion through [`Widen`].
///
/// Inclusion is a convention: arbitrary `From` implementations may transform
/// payloads, and variants with the same payload type may become indistinguishable.
pub trait Subset<T>: Sized {
    /// Convert the value or prepare its error for conversion.
    fn widen(self) -> T;
}

/// An error awaiting conversion into a destination chosen by its receiver.
///
/// `E` is the complete source error, including any wrapper or context.
/// `Target` is a type marker with no stored value. The marker is a ghost
/// value: it takes no space and places no `Send` or `Sync` requirement on
/// `Target`.
#[must_use]
pub struct Widen<E, Target> {
    error: E,
    target: Ghost<Target>,
}

impl<E, Target> Widen<E, Target> {
    /// The complete source error that this marker carries.
    pub closed spec fn source_error(self) -> E {
        self.error
    }

    /// Mark an error for conversion. The receiving context can infer `Target`.
    pub fn new(error: E) -> (marked: Self)
        ensures
            marked.source_error() == error,
    {
        Widen { error, target: Ghost(arbitrary()) }
    }

    /// Recover the complete source error so an integration can convert it.
    pub fn into_inner(self) -> (error: E)
        ensures
            error == self.source_error(),
    {
        self.error
    }
}

/// std's `core::fmt::Formatter`, declared so that the `Debug` impl below
/// can name it; nothing inside it is visible.
#[verifier::external_type_specification]
#[verifier::external_body]
pub struct ExFormatter<'a>(core::fmt::Formatter<'a>);

/// std's `core::fmt::Error`, the error of `core::fmt::Result`.
#[verifier::external_type_specification]
#[verifier::external_body]
pub struct ExFmtError(core::fmt::Error);

/// `Widening(<error>)`, written with `Formatter::debug_tuple`; `Target` need
/// not implement `Debug`. Nothing is stated of the text.
impl<E: core::fmt::Debug, Target> core::fmt::Debug for Widen<E, Target> {
    #[verifier::external_body]
    fn fmt(&self, f: &mut core::fmt::Formatter<'_>) -> core::fmt::Result {
        f.debug_tuple("Widening").field(&self.error).finish()
    }
}

/// The error that widening a `Result` marks: success values pass unchanged,
/// an error is carried inside a [`Widen`] marker.
pub open spec fn widened_result<T, E, Target>(
    result: Result<T, E>,
    marked: Result<T, Widen<E, Target>>,
) -> bool {
    match result {
        Ok(value) => marked == Ok::<T, Widen<E, Target>>(value),
        Err(error) => marked matches Err(w) && w.source_error() == error,
    }
}

impl<T, E, Target> Subset<Result<T, Widen<E, Target>>> for Result<T, E> {
    /// Wrap the error in [`Widen`], preserving successful values.
    fn widen(self) -> (marked: Result<T, Widen<E, Target>>)
        ensures
            widened_result::<T, E, Target>(self, marked),
    {
        match self {
            Ok(value) => Ok(value),
            Err(error) => Err(Widen::new(error)),
        }
    }
}

/// Widening a `Result` keeps a success value as it is, and an error comes
/// back unchanged from the marker by `into_inner`.
pub proof fn law_widen_keeps_success_and_error<T, E, Target>(
    result: Result<T, E>,
    marked: Result<T, Widen<E, Target>>,
)
    requires
        widened_result::<T, E, Target>(result, marked),
    ensures
        result is Ok <==> marked is Ok,
        result matches Ok(v) ==> marked == Ok::<T, Widen<E, Target>>(v),
        result matches Err(e) ==> marked matches Err(w) && w.source_error() == e,
{
}

} // verus!
