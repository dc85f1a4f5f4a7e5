//! Checks that need observations: what they ask for, and how far they come.
use crate::paths::FsPath;
use vstd::prelude::*;

verus! {

/// What is asked of a path.
#[derive(Clone, Copy, PartialEq, Eq, Structural, Debug)]
pub enum Ask {
    /// Whether anything is there.
    Presence,
    /// Whether it is a regular file, without following a link.
    Kind,
    /// Its metadata and that of the folders above it.
    Entry,
    /// Its bytes.
    Content,
    /// Whether the lockfile that it is names the project.
    Ownership,
    /// What a provider of build artifacts says of it.
    Provider,
}

/// How far a check has come: it needs an observation, it failed, or it has its
/// result.
pub enum Step<T> {
    Need(FsPath, Ask),
    Fail(String),
    Have(T),
}

/// The same, as a value to reason about.
pub enum Got<T> {
    Need(Seq<u8>, Ask),
    Fail(Seq<char>),
    Have(T),
}

/// Whether a step is what its description says, where no value matters.
pub open spec fn step_is<T, U>(r: Step<T>, expected: Got<U>) -> bool {
    match expected {
        Got::Need(at, ask) => r matches Step::Need(p, a) && p@ == at && a == ask,
        Got::Fail(reason) => r matches Step::Fail(text) && text@ == reason,
        Got::Have(_) => r is Have,
    }
}

} // verus!
