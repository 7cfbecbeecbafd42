use vstd::prelude::*;

verus! {

/// Why a build failed. Every failure aborts the whole build.
#[derive(Debug, Clone, PartialEq, Eq)]
pub enum BuildError {
    /// A specifier could not be mapped to an existing file, or the module
    /// that wrote it has no parent directory.
    Resolution { from: String, specifier: String },
    /// The transpiler rejected the source text of a module.
    Transpile { path: String },
    /// The file of a module could not be read.
    Io { path: String },
}

} // verus!
