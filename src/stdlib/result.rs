//! `Result<T, E>` of the language's standard library.
use vstd::prelude::*;

verus! {

/// A value or an error.
#[derive(Debug, Clone, PartialEq)]
pub enum Result<T, E> {
    /// A value.
    Success(T),
    /// An error.
    Failure(E),
}

impl<T, E> Result<T, E> {
    /// Whether this is a value.
    pub fn is_ok(&self) -> (r: bool)
        ensures
            r == (self is Success),
    {
        match self {
            Result::Success(_) => true,
            Result::Failure(_) => false,
        }
    }

    /// Whether this is an error.
    pub fn is_err(&self) -> (r: bool)
        ensures
            r == (self is Failure),
    {
        match self {
            Result::Success(_) => false,
            Result::Failure(_) => true,
        }
    }

    /// The value; this must not be an error.
    pub fn unwrap(self) -> (r: T)
        requires
            self is Success,
        ensures
            self == Result::<T, E>::Success(r),
    {
        match self {
            Result::Success(v) => v,
            Result::Failure(_) => {
                unreached()
            },
        }
    }

    /// The value, or `default` on an error.
    pub fn unwrap_or(self, default: T) -> (r: T)
        ensures
            match self {
                Result::Success(v) => r == v,
                Result::Failure(_) => r == default,
            },
    {
        match self {
            Result::Success(v) => v,
            Result::Failure(_) => default,
        }
    }

    /// Applies `f` to the value; an error is kept.
    pub fn map<U, F: FnOnce(T) -> U>(self, f: F) -> (r: Result<U, E>)
        requires
            self matches Result::Success(v) ==> f.requires((v,)),
        ensures
            match self {
                Result::Success(v) => r matches Result::Success(u) && f.ensures((v,), u),
                Result::Failure(e) => r == Result::<U, E>::Failure(e),
            },
    {
        match self {
            Result::Success(v) => Result::Success(f(v)),
            Result::Failure(e) => Result::Failure(e),
        }
    }

    /// Applies `f` to the error; a value is kept.
    pub fn map_err<G, F: FnOnce(E) -> G>(self, f: F) -> (r: Result<T, G>)
        requires
            self matches Result::Failure(e) ==> f.requires((e,)),
        ensures
            match self {
                Result::Success(v) => r == Result::<T, G>::Success(v),
                Result::Failure(e) => r matches Result::Failure(g) && f.ensures((e,), g),
            },
    {
        match self {
            Result::Success(v) => Result::Success(v),
            Result::Failure(e) => Result::Failure(f(e)),
        }
    }

    /// The error kept, or what `f` returns for the value.
    pub fn and_then<U, F: FnOnce(T) -> Result<U, E>>(self, f: F) -> (r: Result<U, E>)
        requires
            self matches Result::Success(v) ==> f.requires((v,)),
        ensures
            match self {
                Result::Success(v) => f.ensures((v,), r),
                Result::Failure(e) => r == Result::<U, E>::Failure(e),
            },
    {
        match self {
            Result::Success(v) => f(v),
            Result::Failure(e) => Result::Failure(e),
        }
    }
}

} // verus!
