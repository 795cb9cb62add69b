//! The record of one converted document, and the conversion itself.

use crate::annotation::{with_runs, AnnotationMap, Label};
use crate::dedup::{dedup, dedup_adjacent};
use crate::error::ConversionError;
use crate::path::{all_on_grid, path_samples, quantized_samples, walk_path, Segment};
use crate::point::FullUPoint;
use crate::scene::{document_order, first_path, text_runs, Node};
use vstd::prelude::*;

verus! {

/// What a document converts to: the points of its path and its annotations.
#[derive(Clone, Debug, PartialEq, Eq)]
pub struct Drawing {
    /// The tagged grid points of the path, in traversal order, none equal to
    /// the one before it.
    pub segments: Vec<FullUPoint>,
    /// The annotations of the document.
    pub meta: AnnotationMap,
}

impl Drawing {
    /// The record with the given points and annotations.
    pub fn new(segments: Vec<FullUPoint>, meta: AnnotationMap) -> (r: Drawing)
        ensures
            r.segments == segments,
            r.meta == meta,
    {
        Drawing { segments, meta }
    }
}

/// The points of a flattened path: its samples on the grid, in traversal
/// order, without immediate repetitions.
pub open spec fn flattened(segments: Seq<Segment>, resolution: int) -> Seq<FullUPoint> {
    dedup_adjacent(quantized_samples(path_samples(segments, resolution)))
}

/// The annotations of a scene: its text runs read in document order into an
/// empty map.
pub open spec fn scene_annotations(root: Node) -> Map<Label, Seq<char>> {
    with_runs(Map::empty(), text_runs(document_order(root)))
}

/// Flattens a path: walks it with `resolution` samples to a curve and removes
/// the immediate repetitions. Fails when a point of the path would land on a
/// negative cell.
pub fn flatten_path(segments: &Vec<Segment>, resolution: u16) -> (r: Result<
    Vec<FullUPoint>,
    ConversionError,
>)
    ensures
        match r {
            Ok(points) => all_on_grid(path_samples(segments@, resolution as int)) && points@
                == flattened(segments@, resolution as int),
            Err(e) => !all_on_grid(path_samples(segments@, resolution as int)) && e
                == ConversionError::QuantizationDomainError,
        },
{
    match walk_path(segments, resolution) {
        Ok(mut points) => {
            dedup(&mut points);
            Ok(points)
        },
        Err(e) => Err(e),
    }
}

/// Converts a scene: flattens the first path in document order and gathers the
/// annotations of all text runs.
///
/// A scene without a path gives `NoPathFound`; a path with a point on a
/// negative cell gives `QuantizationDomainError`. Text runs that are malformed
/// or carry an unknown label are passed over and never fail the conversion.
pub fn process_scene(root: &Node, resolution: u16) -> (r: Result<Drawing, ConversionError>)
    ensures
        match first_path(document_order(*root)) {
            None => r matches Err(e) && e == ConversionError::NoPathFound,
            Some(segments) => if all_on_grid(path_samples(segments, resolution as int)) {
                r matches Ok(drawing) && drawing.segments@ == flattened(
                    segments,
                    resolution as int,
                ) && drawing.meta@ == scene_annotations(*root)
            } else {
                r matches Err(e) && e == ConversionError::QuantizationDomainError
            },
        },
{
    let segments = match root.find_path() {
        Some(segments) => segments,
        None => {
            return Err(ConversionError::NoPathFound);
        },
    };
    let points = match flatten_path(segments, resolution) {
        Ok(points) => points,
        Err(e) => {
            return Err(e);
        },
    };
    let mut meta = AnnotationMap::new();
    root.read_annotations(&mut meta);
    Ok(Drawing::new(points, meta))
}

} // verus!
