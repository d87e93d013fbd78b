//! Pure helpers used when translating between the platform backend's
//! graphics layer and the library's display model.  The unsafe calls into
//! that layer themselves live outside the library.

use vstd::prelude::*;

use crate::core_graphics::CGError;
use crate::displays::{Error, Point, Rotation};

verus! {

/// Helper for converting a `CGError` with a context string into a display
/// error.  Must not be used when the error is `success`.
pub fn cg_error_to_error(cg_error: CGError, context: &str) -> (r: Error)
    requires
        cg_error != CGError::success,
    ensures
        r matches Error::Internal(m) && m@ == context@,
{
    Error::Internal(context.to_owned())
}

/// Helper to lift a `CGError` to a display error result by providing some
/// additional context as to what operation caused it.
pub fn cg_error_to_result(cg_error: CGError, context: &str) -> (r: Result<(), Error>)
    ensures
        cg_error == CGError::success <==> r is Ok,
        cg_error != CGError::success ==> (r matches Err(Error::Internal(m)) && m@ == context@),
{
    match cg_error {
        CGError::success => Ok(()),
        _ => Err(cg_error_to_error(cg_error, context)),
    }
}

/// Undo the display rotation applied to a point.  Note that this is not the
/// same thing as rotating the point in 2D space: it only swaps the axes for
/// the two portrait rotations, so that display extents can be presented
/// uniformly in landscape resolution.
pub fn undo_display_rotation(point: Point, rotation: Rotation) -> (r: Point)
    ensures
        rotation is Zero || rotation is OneEighty ==> r == point,
        rotation is Ninety || rotation is TwoSeventy ==> r == (Point { x: point.y, y: point.x }),
{
    match rotation {
        Rotation::Zero | Rotation::OneEighty => point,
        Rotation::Ninety | Rotation::TwoSeventy => Point { x: point.y, y: point.x },
    }
}

} // verus!
