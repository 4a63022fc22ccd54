//! `Option<T>` of the language's standard library.
use vstd::prelude::*;

verus! {

/// An optional value.
#[derive(Debug, Clone, PartialEq)]
pub enum Option<T> {
    /// A value is present.
    Present(T),
    /// No value.
    Absent,
}

impl<T> Option<T> {
    /// Whether the option holds a value.
    pub fn is_some(&self) -> (r: bool)
        ensures
            r == (self is Present),
    {
        match self {
            Option::Present(_) => true,
            Option::Absent => false,
        }
    }

    /// Whether the option is empty.
    pub fn is_none(&self) -> (r: bool)
        ensures
            r == (self is Absent),
    {
        match self {
            Option::Present(_) => false,
            Option::Absent => true,
        }
    }

    /// The value held; the option must hold one.
    pub fn unwrap(self) -> (r: T)
        requires
            self is Present,
        ensures
            self == Option::Present(r),
    {
        match self {
            Option::Present(v) => v,
            Option::Absent => {
                unreached()
            },
        }
    }

    /// The value held, or `default`.
    pub fn unwrap_or(self, default: T) -> (r: T)
        ensures
            match self {
                Option::Present(v) => r == v,
                Option::Absent => r == default,
            },
    {
        match self {
            Option::Present(v) => v,
            Option::Absent => default,
        }
    }

    /// Applies `f` to the value held.
    pub fn map<U, F: FnOnce(T) -> U>(self, f: F) -> (r: Option<U>)
        requires
            self matches Option::Present(v) ==> f.requires((v,)),
        ensures
            match self {
                Option::Present(v) => r matches Option::Present(u) && f.ensures((v,), u),
                Option::Absent => r is Absent,
            },
    {
        match self {
            Option::Present(v) => Option::Present(f(v)),
            Option::Absent => Option::Absent,
        }
    }

    /// `None` when empty, else what `f` returns for the value held.
    pub fn and_then<U, F: FnOnce(T) -> Option<U>>(self, f: F) -> (r: Option<U>)
        requires
            self matches Option::Present(v) ==> f.requires((v,)),
        ensures
            match self {
                Option::Present(v) => f.ensures((v,), r),
                Option::Absent => r is Absent,
            },
    {
        match self {
            Option::Present(v) => f(v),
            Option::Absent => Option::Absent,
        }
    }
}

} // verus!
