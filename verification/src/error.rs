//! Errors that can happen in the UI layer.

use vstd::prelude::*;

verus! {

/// Errors that can happen while drawing the UI.
#[derive(Debug)]
pub enum UiError<BE> {
    /// Storage constraints reached.
    Storage(StorageError),
    /// Error emitted from the backend.
    Backend(BE),
}

/// Storage constraints reached.
#[derive(Debug, PartialEq, Eq, Structural, Clone, Copy)]
pub enum StorageError {
    /// Not enough space in the container.
    NotEnoughStorage,
}

impl StorageError {
    /// The message that describes this error.
    pub fn message(&self) -> (r: &'static str)
        ensures
            r@ == "Not enough space in the container."@,
    {
        match self {
            StorageError::NotEnoughStorage => "Not enough space in the container.",
        }
    }
}

impl<BE> UiError<BE> {
    /// Wraps a storage error.
    pub fn from_storage(e: StorageError) -> (r: Self)
        ensures
            r == UiError::<BE>::Storage(e),
    {
        UiError::Storage(e)
    }

    /// Wraps a backend error.
    pub fn from_backend(e: BE) -> (r: Self)
        ensures
            r == UiError::<BE>::Backend(e),
    {
        UiError::Backend(e)
    }
}

} // verus!
