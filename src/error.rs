use vstd::prelude::*;

verus! {

/// The failures of the toolkit.
#[derive(Debug, Clone, PartialEq, Eq)]
pub enum PotError {
    /// The named host command could not be found or run.
    WhichError(String),
    /// A command printed text that is not UTF-8.
    Utf8Error,
    /// A path has fewer parent directories than needed.
    PathError(String),
    /// A required file could not be read.
    FileError,
    /// `jls` could not be run.
    JlsError,
    /// A bridge file is incomplete or its gateway lies outside its network.
    BridgeConfError,
    /// A required system setting is missing after defaults and overrides merged.
    IncompleteSystemConf,
    /// The address is already reserved.
    AlreadyInUse,
    /// The address lies outside the pot network.
    OutsideNetwork,
    /// The address lies outside the bridge's network.
    OutsideBridgeNetwork,
    /// No bridge has the given name.
    BridgeNotFound(String),
    /// `cpuset` printed nothing.
    CpuSetNoOutput,
    /// `cpuset` printed a line without `:`.
    CpuSetMalformed,
}

} // verus!
