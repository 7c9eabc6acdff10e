use vstd::prelude::*;

verus! {

/// Why a single position was rejected.
#[derive(Debug, Clone, Copy, PartialEq, Eq, Structural)]
pub enum CoordinateFault {
    /// The position does not have exactly two components.
    WrongArity,
    /// A component is NaN.
    NotANumber,
    /// Longitude is outside [-180, 180] or latitude outside [-90, 90].
    OutOfRange,
}

/// Failures of a buffer pool.
#[derive(Debug, Clone, Copy, PartialEq, Eq, Structural)]
pub enum BufferPoolError {
    /// The pool already holds its maximum number of buffers of that kind.
    PoolFull,
}

/// Failures of a transformer configuration.
#[derive(Debug, Clone, PartialEq, Eq)]
pub enum TransformerError {
    /// A CRS identifier is empty.
    InvalidCrs,
    /// The coordinate transformer rejected the CRS pair; its message.
    CreationFailed(String),
}

/// Every failure of converting a geometry.
#[derive(Debug, Clone, PartialEq, Eq)]
pub enum ProjectionError {
    /// The geometry is structurally invalid: a feature without geometry, a
    /// polygon without rings, or a collection nested in a collection.
    InvalidGeometryType,
    /// A position failed validation.
    InvalidCoordinates(CoordinateFault),
    /// The coordinate transformer failed on a coordinate; its message.
    ProjError(String),
    /// The transformer configuration failed.
    TransformerError(TransformerError),
    /// The buffer pool failed.
    BufferPoolError(BufferPoolError),
    /// The encoding layer could not read the input; its message.
    GeoJsonError(String),
}

impl CoordinateFault {
    /// A human-readable description.
    pub fn message(&self) -> (r: &'static str)
        ensures
            r@ == (match self {
                CoordinateFault::WrongArity => "Coordinates must have exactly two components"@,
                CoordinateFault::NotANumber => "NaN coordinates are not allowed"@,
                CoordinateFault::OutOfRange => "Coordinates out of valid range"@,
            }),
    {
        match self {
            CoordinateFault::WrongArity => "Coordinates must have exactly two components",
            CoordinateFault::NotANumber => "NaN coordinates are not allowed",
            CoordinateFault::OutOfRange => "Coordinates out of valid range",
        }
    }
}

} // verus!
