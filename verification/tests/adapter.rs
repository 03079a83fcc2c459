use proc_macro2::TokenStream;
use std::rc::Rc;
use widen::entry::derive_widen;
use widen::{Subset, Widen};

#[test]
fn preserves_success_and_owns_the_original_error() {
    let success: Result<_, Widen<String, ()>> = Result::<_, String>::Ok(42).widen();
    assert_eq!(success.unwrap(), 42);

    let error = String::from("original error");
    let address = error.as_ptr();
    let result: Result<(), Widen<_, ()>> = Err(error).widen();
    let error = result.unwrap_err().into_inner();
    assert_eq!(error, "original error");
    assert_eq!(error.as_ptr(), address);
}

#[test]
fn marker_adds_no_storage_or_send_sync_requirements() {
    fn assert_send_sync<T: Send + Sync>() {}
    assert_send_sync::<Widen<u64, Rc<()>>>();
    assert_eq!(size_of::<Widen<u64, Rc<()>>>(), size_of::<u64>());
}

#[test]
fn new_then_into_inner_gives_back_the_error() {
    let marked: Widen<Vec<u8>, u32> = Widen::new(vec![1, 2, 3]);
    assert_eq!(marked.into_inner(), vec![1, 2, 3]);
}

#[test]
fn widening_an_ok_keeps_the_value_and_an_err_marks_it() {
    let ok: Result<&str, Widen<u8, ()>> = Result::<&str, u8>::Ok("value").widen();
    assert!(matches!(ok, Ok("value")));
    let err: Result<&str, Widen<u8, ()>> = Result::<&str, u8>::Err(7).widen();
    match err {
        Err(marked) => assert_eq!(marked.into_inner(), 7),
        Ok(_) => panic!("an error must stay an error"),
    }
}

// An application's error wrapper that carries context next to the error.
#[derive(Debug, PartialEq)]
pub struct Traced<E> {
    pub error: E,
    pub context: Vec<&'static str>,
}

impl<E> From<E> for Traced<E> {
    fn from(error: E) -> Self {
        Self {
            error,
            context: Vec::new(),
        }
    }
}

impl<E: Subset<F>, F> From<Widen<Traced<E>, F>> for Traced<F> {
    fn from(error: Widen<Traced<E>, F>) -> Self {
        let Traced { error, context } = error.into_inner();
        Self {
            error: error.widen(),
            context,
        }
    }
}

#[derive(Debug, PartialEq)]
struct ParseError(&'static str);

#[derive(Debug, PartialEq)]
struct IoError(u32);

// The widening that the derive writes for this enum: each variant's payload
// is converted with `From` into the target.
enum ReadError {
    Parse(ParseError),
    Io(IoError),
}

impl<T: From<ParseError> + From<IoError>> Subset<T> for ReadError {
    fn widen(self) -> T {
        match self {
            ReadError::Parse(payload) => T::from(payload),
            ReadError::Io(payload) => T::from(payload),
        }
    }
}

#[derive(Debug, PartialEq)]
enum AppError {
    Parse(ParseError),
    Io(IoError),
}

impl From<ParseError> for AppError {
    fn from(error: ParseError) -> Self {
        Self::Parse(error)
    }
}

impl From<IoError> for AppError {
    fn from(error: IoError) -> Self {
        Self::Io(error)
    }
}

fn lower(result: Result<u32, ReadError>) -> Result<u32, Traced<ReadError>> {
    let value = result?;
    Ok(value)
}

fn higher(result: Result<u32, Traced<ReadError>>) -> Result<u32, Traced<AppError>> {
    let value = result.widen()?;
    Ok(value + 1)
}

fn generic<E: Subset<F>, F>(result: Result<u32, Traced<E>>) -> Result<u32, Traced<F>> {
    let value = result.widen()?;
    Ok(value + 1)
}

#[test]
fn preserves_plain_from_and_infers_target() {
    assert_eq!(higher(lower(Ok(7))), Ok(8));
    assert_eq!(
        higher(lower(Err(ReadError::Io(IoError(42))))),
        Err(Traced::from(AppError::Io(IoError(42)))),
    );
}

#[test]
fn preserves_metadata_and_both_payloads() {
    for (source, expected) in [
        (ReadError::Io(IoError(42)), AppError::Io(IoError(42))),
        (
            ReadError::Parse(ParseError("invalid number")),
            AppError::Parse(ParseError("invalid number")),
        ),
    ] {
        let result = higher(Err(Traced {
            error: source,
            context: vec!["read configuration", "startup"],
        }));
        assert_eq!(
            result,
            Err(Traced {
                error: expected,
                context: vec!["read configuration", "startup"],
            }),
        );
    }
}

#[test]
fn infers_target_in_generic_function() {
    assert_eq!(
        generic(lower(Err(ReadError::Io(IoError(42))))),
        Err(Traced::from(AppError::Io(IoError(42)))),
    );
}

#[test]
fn debug_does_not_require_target_to_implement_debug() {
    struct Target;
    let error = Widen::<_, Target>::new(42);
    assert_eq!(format!("{error:?}"), "Widening(42)");
}

// The derive plans for `ReadError` exactly the widening written by hand
// above: one arm per variant, each converting its one unnamed payload.
#[test]
fn derive_plans_the_fixture_widening() {
    let input: TokenStream = "enum ReadError { Parse(ParseError), Io(IoError) }".parse().unwrap();
    let plan = derive_widen(&input).expect("the derive expands");
    assert!(plan.from_impls.is_empty());
    let widen = plan.widen.expect("every variant has one field");
    assert_eq!(widen.target, "__WidenTarget");
    let arms: Vec<(usize, Option<String>)> = widen.arms.iter().map(|a| (a.variant, a.field.clone())).collect();
    assert_eq!(arms, vec![(0, None), (1, None)]);
}
