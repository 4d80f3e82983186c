//! What the offline viewer shows: one frame of every stream of a stage.

use crate::index::{FrameIndex, StreamFrames};
use crate::listing::{in_frame_order, sort_frames};
use crate::pipeline::Stage;
use crate::text::views;
use vstd::prelude::*;

verus! {

/// The annotation that the offline viewer shows.
#[derive(Debug, Clone, Copy, PartialEq, Eq, Structural)]
pub enum OfflineAnnotation {
    Raw,
    Rotated,
    Mask,
    Alphablend,
    Yolo,
}

impl Default for OfflineAnnotation {
    fn default() -> (annotation: Self)
        ensures
            annotation == OfflineAnnotation::Alphablend,
    {
        OfflineAnnotation::Alphablend
    }
}

/// Why the viewer has nothing to show.
#[derive(Debug, Clone, Copy, PartialEq, Eq, Structural)]
pub enum ViewError {
    /// The annotation has no images.
    NoImages,
    /// An artifact of a stream is not named by a frame number.
    FrameName,
    /// A stream has no frame with the wanted place.
    NoSuchFrame,
}

/// The stage whose artifacts show an annotation. Detections are records,
/// not images, and cannot be shown.
pub fn annotation_stage(annotation: OfflineAnnotation) -> (stage: Result<Stage, ViewError>)
    ensures
        stage == match annotation {
            OfflineAnnotation::Raw => Ok::<Stage, ViewError>(Stage::RawFrames),
            OfflineAnnotation::Rotated => Ok(Stage::RotatedFrames),
            OfflineAnnotation::Mask => Ok(Stage::MaskFrames),
            OfflineAnnotation::Alphablend => Ok(Stage::AlphablendFrames),
            OfflineAnnotation::Yolo => Err(ViewError::NoImages),
        },
{
    match annotation {
        OfflineAnnotation::Raw => Ok(Stage::RawFrames),
        OfflineAnnotation::Rotated => Ok(Stage::RotatedFrames),
        OfflineAnnotation::Mask => Ok(Stage::MaskFrames),
        OfflineAnnotation::Alphablend => Ok(Stage::AlphablendFrames),
        OfflineAnnotation::Yolo => Err(ViewError::NoImages),
    }
}

/// The artifact at the place `frame` among the artifacts `frames` of a
/// stream, once they are in frame order.
pub open spec fn frame_shown(frames: Seq<Seq<char>>, frame: int) -> Result<Seq<char>, ViewError> {
    match in_frame_order(frames) {
        Some(ordered) => if 0 <= frame < ordered.len() {
            Ok(ordered[frame])
        } else {
            Err(ViewError::NoSuchFrame)
        },
        None => Err(ViewError::FrameName),
    }
}

/// The artifacts that are shown for the place `frame`: one of every
/// stream, in the order of the streams; the first stream that has none
/// decides the error.
pub open spec fn frames_shown(entries: Seq<StreamFrames>, frame: int) -> Result<
    Seq<Seq<char>>,
    ViewError,
>
    decreases entries.len(),
{
    if entries.len() == 0 {
        Ok(Seq::empty())
    } else {
        match frames_shown(entries.drop_last(), frame) {
            Ok(shown) => match frame_shown(views(entries.last().frames@), frame) {
                Ok(path) => Ok(shown.push(path)),
                Err(e) => Err(e),
            },
            Err(e) => Err(e),
        }
    }
}

/// The artifact of one stream at the place `frame` of its frames in frame
/// order.
pub fn frame_at(frames: &Vec<String>, frame: usize) -> (result: Result<String, ViewError>)
    ensures
        match result {
            Ok(path) => frame_shown(views(frames@), frame as int) == Ok::<_, ViewError>(path@),
            Err(e) => frame_shown(views(frames@), frame as int) == Err::<Seq<char>, _>(e),
        },
{
    match sort_frames(frames) {
        Some(ordered) => {
            if frame < ordered.len() {
                Ok(ordered[frame].clone())
            } else {
                Err(ViewError::NoSuchFrame)
            }
        },
        None => Err(ViewError::FrameName),
    }
}

/// The artifacts to show for the place `frame`: one of every stream of
/// `index`, in ascending order of stream.
pub fn frames_at(index: &FrameIndex, frame: usize) -> (result: Result<Vec<String>, ViewError>)
    ensures
        match result {
            Ok(paths) => frames_shown(index.entries(), frame as int) == Ok::<_, ViewError>(
                views(paths@),
            ),
            Err(e) => frames_shown(index.entries(), frame as int) == Err::<Seq<Seq<char>>, _>(e),
        },
{
    let streams = index.streams();
    let mut paths: Vec<String> = Vec::new();
    let mut i: usize = 0;
    proof {
        assert(views(paths@) =~= Seq::<Seq<char>>::empty());
    }
    while i < streams.len()
        invariant
            0 <= i <= streams@.len(),
            streams@ == index.entries(),
            frames_shown(streams@.take(i as int), frame as int) == Ok::<_, ViewError>(
                views(paths@),
            ),
        decreases streams@.len() - i,
    {
        proof {
            assert(streams@.take(i + 1).drop_last() =~= streams@.take(i as int));
            assert(streams@.take(i + 1).last() == streams@[i as int]);
        }
        match frame_at(&streams[i].frames, frame) {
            Ok(path) => {
                let ghost before = views(paths@);
                paths.push(path);
                proof {
                    assert(views(paths@) =~= before.push(path@));
                }
            },
            Err(e) => {
                proof {
                    lemma_view_error_stays(streams@, frame as int, i + 1);
                }
                return Err(e);
            },
        }
        i = i + 1;
    }
    proof {
        assert(streams@.take(streams@.len() as int) =~= streams@);
    }
    Ok(paths)
}

/// Once the first streams have nothing to show, all streams together have
/// nothing to show, for the same reason.
pub proof fn lemma_view_error_stays(entries: Seq<StreamFrames>, frame: int, k: int)
    requires
        0 <= k <= entries.len(),
        frames_shown(entries.take(k), frame) is Err,
    ensures
        frames_shown(entries, frame) == frames_shown(entries.take(k), frame),
    decreases entries.len() - k,
{
    if k == entries.len() {
        assert(entries.take(k) =~= entries);
    } else {
        assert(entries.take(k + 1).drop_last() =~= entries.take(k));
        lemma_view_error_stays(entries, frame, k + 1);
    }
}

/// The place before `frame`; the first place is its own.
pub fn previous_frame(frame: usize) -> (previous: usize)
    ensures
        previous == if frame == 0 {
            0
        } else {
            frame - 1
        },
{
    if frame == 0 {
        0
    } else {
        frame - 1
    }
}

/// The place behind `frame`; the last place that can be counted is its
/// own.
pub fn next_frame(frame: usize) -> (next: usize)
    ensures
        next == if frame == usize::MAX {
            frame as int
        } else {
            frame + 1
        },
{
    if frame == usize::MAX {
        frame
    } else {
        frame + 1
    }
}

} // verus!
