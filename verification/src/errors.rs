use vstd::prelude::*;

verus! {

/// The collector's failure taxonomy. Resolution and precondition errors are
/// raised before any task starts; `TaskFailure` wraps the first terminal
/// failure of a running adapter task.
#[derive(Debug)]
pub enum Error {
    /// An explicit configuration path was given but no file exists there.
    ConfigNotFound { path: String },
    /// A configuration layer failed to parse or did not fit the schema.
    ConfigParse,
    /// After filtering, no sink is enabled: nothing would observe any event.
    NoSink,
    /// After filtering, no source is enabled: nothing would publish any event.
    NoSource,
    /// An adapter task terminated with an error, reported opaquely.
    TaskFailure { detail: String },
}

} // verus!
