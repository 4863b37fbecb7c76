//! Errors reported by the canvas directory.

use vstd::prelude::*;

verus! {

/// Why a directory operation was refused.
#[derive(Debug, PartialEq)]
pub enum CanvasStoreError {
    /// The named canvas does not exist.
    CanvasNotFound,
    /// The initiator is not allowed to perform the change; the payload says
    /// why.
    AccessDenied(String),
    /// The durable record of the change could not be written.
    PersistenceFailed,
}

impl Clone for CanvasStoreError {
    fn clone(&self) -> (r: Self)
        ensures
            r@ == self@,
    {
        match self {
            CanvasStoreError::CanvasNotFound => CanvasStoreError::CanvasNotFound,
            CanvasStoreError::AccessDenied(why) => CanvasStoreError::AccessDenied(why.clone()),
            CanvasStoreError::PersistenceFailed => CanvasStoreError::PersistenceFailed,
        }
    }
}

/// The mathematical value of a [`CanvasStoreError`].
pub enum CanvasStoreErrorView {
    CanvasNotFound,
    AccessDenied(Seq<char>),
    PersistenceFailed,
}

impl View for CanvasStoreError {
    type V = CanvasStoreErrorView;

    open spec fn view(&self) -> CanvasStoreErrorView {
        match self {
            CanvasStoreError::CanvasNotFound => CanvasStoreErrorView::CanvasNotFound,
            CanvasStoreError::AccessDenied(why) => CanvasStoreErrorView::AccessDenied(why@),
            CanvasStoreError::PersistenceFailed => CanvasStoreErrorView::PersistenceFailed,
        }
    }
}

} // verus!
