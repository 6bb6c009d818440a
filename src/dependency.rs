use vstd::prelude::*;

verus! {

/// Relies on `anyhow::Error` being an ordinary owned value: a constructor's
/// error is moved into `DependencyError` unchanged and never inspected.
#[verifier::external_type_specification]
#[verifier::external_body]
pub struct ExAnyhowError(anyhow::Error);

/// Why a request handler could not get a resource.
pub enum DependencyError {
    /// The resource was asked for without construction and is not there.
    DoesNotExist { name: &'static str },
    /// The resource's constructor failed.
    FailedToConstruct { name: &'static str, source: anyhow::Error },
}

impl DependencyError {
    /// The resource named `name` does not exist.
    pub fn does_not_exist(name: &'static str) -> (r: DependencyError)
        ensures
            r == (DependencyError::DoesNotExist { name }),
    {
        DependencyError::DoesNotExist { name }
    }

    /// Constructing the resource named `name` failed with `error`.
    pub fn failed_to_construct(name: &'static str, error: anyhow::Error) -> (r: DependencyError)
        ensures
            r == (DependencyError::FailedToConstruct { name, source: error }),
    {
        DependencyError::FailedToConstruct { name, source: error }
    }

    /// The name of the resource the error is about.
    pub fn name(&self) -> (r: &'static str)
        ensures
            r == match self {
                DependencyError::DoesNotExist { name } => *name,
                DependencyError::FailedToConstruct { name, .. } => *name,
            },
    {
        match self {
            DependencyError::DoesNotExist { name } => *name,
            DependencyError::FailedToConstruct { name, .. } => *name,
        }
    }
}

/// A resource fetched for a request handler; it must already exist.
pub struct Dep<T>(pub T);

impl<T> Dep<T> {
    /// Turns the result of looking up the resource named `name` into the
    /// handler's argument, or into `DoesNotExist` when nothing was found.
    pub fn from_lookup(found: Option<T>, name: &'static str) -> (r: Result<Dep<T>, DependencyError>)
        ensures
            match found {
                Some(v) => r == Ok::<Dep<T>, DependencyError>(Dep(v)),
                None => r == Err::<Dep<T>, DependencyError>(DependencyError::DoesNotExist { name }),
            },
    {
        match found {
            Some(v) => Ok(Dep(v)),
            None => Err(DependencyError::does_not_exist(name)),
        }
    }
}

/// A resource for a request handler, constructed on demand when missing.
pub struct Obtain<T>(pub T);

impl<T> Obtain<T> {
    /// Turns the outcome of getting or constructing the resource named
    /// `name` into the handler's argument, or into `FailedToConstruct`
    /// carrying the constructor's error.
    pub fn from_outcome(outcome: Result<T, anyhow::Error>, name: &'static str) -> (r: Result<
        Obtain<T>,
        DependencyError,
    >)
        ensures
            match outcome {
                Ok(v) => r == Ok::<Obtain<T>, DependencyError>(Obtain(v)),
                Err(e) => r == Err::<Obtain<T>, DependencyError>(
                    DependencyError::FailedToConstruct { name, source: e },
                ),
            },
    {
        match outcome {
            Ok(v) => Ok(Obtain(v)),
            Err(e) => Err(DependencyError::failed_to_construct(name, e)),
        }
    }
}

} // verus!
