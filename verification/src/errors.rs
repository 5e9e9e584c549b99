use vstd::prelude::*;

verus! {

/// The errors of the backup tool.
#[derive(Debug, Clone)]
pub enum Errors {
    /// The environment did not hold a usable setting.
    EnvError(String),
    /// Dumping or compressing the database failed.
    DumpError(String),
    /// The storage service failed or answered in an unexpected way.
    StorageError(String),
}

/// The result type used throughout the library.
pub type Res<T> = Result<T, Errors>;

} // verus!
