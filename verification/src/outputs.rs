//! The outputs of the stages: for each stage the directory it keeps its
//! artifacts in and the index of what that directory holds.

use crate::index::FrameIndex;
use crate::layout::joined;
use crate::listing::{merge_listing, merged, LayoutError, StreamListing};
use crate::ffmpeg::FfmpegArgs;
use crate::pipeline::{stage_directory_name, stage_extension, Session, Stage};
use crate::plan::{extraction_outcome, finish_extraction, StageError};
use crate::stream::StreamId;
use vstd::prelude::*;

verus! {

/// Reads the output of `stage` in `session` from `listing`, the
/// subdirectories that the directory of the stage holds.
pub fn load_stage(stage: Stage, session: &Session, listing: &Vec<StreamListing>) -> (loaded:
    Result<(FrameIndex, String), LayoutError>)
    ensures
        match loaded {
            Ok((frames, directory)) => {
                &&& frames.wf()
                &&& directory@ == joined(session.directory@, stage_directory_name(stage))
                &&& merged(Map::empty(), listing@, stage_extension(stage)) == Ok::<
                    _,
                    LayoutError,
                >(frames@)
            },
            Err(e) => merged(Map::empty(), listing@, stage_extension(stage)) == Err::<
                Map<StreamId, Seq<Seq<char>>>,
                _,
            >(e),
        },
{
    let mut frames = FrameIndex::new();
    match merge_listing(&mut frames, listing, stage.extension()) {
        Ok(()) => Ok((frames, stage.directory(session))),
        Err(e) => Err(e),
    }
}

/// The composited frames, ready for display.
#[derive(Debug)]
pub struct AlphablendFrames {
    pub frames: FrameIndex,
    pub directory: String,
}

impl AlphablendFrames {
    /// The output as `listing` shows it on disk, where `listing` holds the
    /// subdirectories of the directory of the stage.
    pub fn load_from_session(session: &Session, listing: &Vec<StreamListing>) -> (loaded: Result<
        AlphablendFrames,
        LayoutError,
    >)
        ensures
            match loaded {
                Ok(output) => {
                    &&& output.frames.wf()
                    &&& output.directory@ == joined(
                        session.directory@,
                        stage_directory_name(Stage::AlphablendFrames),
                    )
                    &&& merged(Map::empty(), listing@, stage_extension(Stage::AlphablendFrames)) == Ok::<
                        _,
                        LayoutError,
                    >(output.frames@)
                },
                Err(e) => merged(Map::empty(), listing@, stage_extension(Stage::AlphablendFrames)) == Err::<
                    Map<StreamId, Seq<Seq<char>>>,
                    _,
                >(e),
            },
    {
        match load_stage(Stage::AlphablendFrames, session, listing) {
            Ok((frames, directory)) => Ok(AlphablendFrames { frames, directory }),
            Err(e) => Err(e),
        }
    }

    /// Enters the streams of `listing` in the index. Streams that are not
    /// listed stay; where a name on disk is wrong, the index stays as it
    /// was.
    pub fn reload(&mut self, listing: &Vec<StreamListing>) -> (result: Result<(), LayoutError>)
        requires
            old(self).frames.wf(),
        ensures
            final(self).frames.wf(),
            final(self).directory == old(self).directory,
            match result {
                Ok(()) => merged(old(self).frames@, listing@, stage_extension(Stage::AlphablendFrames)) == Ok::<
                    _,
                    LayoutError,
                >(final(self).frames@),
                Err(e) => merged(old(self).frames@, listing@, stage_extension(Stage::AlphablendFrames))
                    == Err::<Map<StreamId, Seq<Seq<char>>>, _>(e) && final(self).frames@ == old(
                    self,
                ).frames@,
            },
    {
        merge_listing(&mut self.frames, listing, Stage::AlphablendFrames.extension())
    }

    /// The directory of this output in `session`. The stage has run if it
    /// exists.
    pub fn directory_in(session: &Session) -> (directory: String)
        ensures
            directory@ == joined(session.directory@, stage_directory_name(Stage::AlphablendFrames)),
    {
        Stage::AlphablendFrames.directory(session)
    }
}

/// The frames as they were cut from the recorded clips.
#[derive(Debug)]
pub struct RawFrames {
    pub frames: FrameIndex,
    pub directory: String,
}

impl RawFrames {
    /// The output as `listing` shows it on disk, where `listing` holds the
    /// subdirectories of the directory of the stage.
    pub fn load_from_session(session: &Session, listing: &Vec<StreamListing>) -> (loaded: Result<
        RawFrames,
        LayoutError,
    >)
        ensures
            match loaded {
                Ok(output) => {
                    &&& output.frames.wf()
                    &&& output.directory@ == joined(
                        session.directory@,
                        stage_directory_name(Stage::RawFrames),
                    )
                    &&& merged(Map::empty(), listing@, stage_extension(Stage::RawFrames)) == Ok::<
                        _,
                        LayoutError,
                    >(output.frames@)
                },
                Err(e) => merged(Map::empty(), listing@, stage_extension(Stage::RawFrames)) == Err::<
                    Map<StreamId, Seq<Seq<char>>>,
                    _,
                >(e),
            },
    {
        match load_stage(Stage::RawFrames, session, listing) {
            Ok((frames, directory)) => Ok(RawFrames { frames, directory }),
            Err(e) => Err(e),
        }
    }

    /// Enters the streams of `listing` in the index. Streams that are not
    /// listed stay; where a name on disk is wrong, the index stays as it
    /// was.
    pub fn reload(&mut self, listing: &Vec<StreamListing>) -> (result: Result<(), LayoutError>)
        requires
            old(self).frames.wf(),
        ensures
            final(self).frames.wf(),
            final(self).directory == old(self).directory,
            match result {
                Ok(()) => merged(old(self).frames@, listing@, stage_extension(Stage::RawFrames)) == Ok::<
                    _,
                    LayoutError,
                >(final(self).frames@),
                Err(e) => merged(old(self).frames@, listing@, stage_extension(Stage::RawFrames))
                    == Err::<Map<StreamId, Seq<Seq<char>>>, _>(e) && final(self).frames@ == old(
                    self,
                ).frames@,
            },
    {
        merge_listing(&mut self.frames, listing, Stage::RawFrames.extension())
    }

    /// The directory of this output in `session`. The stage has run if it
    /// exists.
    pub fn directory_in(session: &Session) -> (directory: String)
        ensures
            directory@ == joined(session.directory@, stage_directory_name(Stage::RawFrames)),
    {
        Stage::RawFrames.directory(session)
    }
}

/// The detections of every frame, one record for each.
#[derive(Debug)]
pub struct YoloFrames {
    pub frames: FrameIndex,
    pub directory: String,
}

impl YoloFrames {
    /// The output as `listing` shows it on disk, where `listing` holds the
    /// subdirectories of the directory of the stage.
    pub fn load_from_session(session: &Session, listing: &Vec<StreamListing>) -> (loaded: Result<
        YoloFrames,
        LayoutError,
    >)
        ensures
            match loaded {
                Ok(output) => {
                    &&& output.frames.wf()
                    &&& output.directory@ == joined(
                        session.directory@,
                        stage_directory_name(Stage::YoloFrames),
                    )
                    &&& merged(Map::empty(), listing@, stage_extension(Stage::YoloFrames)) == Ok::<
                        _,
                        LayoutError,
                    >(output.frames@)
                },
                Err(e) => merged(Map::empty(), listing@, stage_extension(Stage::YoloFrames)) == Err::<
                    Map<StreamId, Seq<Seq<char>>>,
                    _,
                >(e),
            },
    {
        match load_stage(Stage::YoloFrames, session, listing) {
            Ok((frames, directory)) => Ok(YoloFrames { frames, directory }),
            Err(e) => Err(e),
        }
    }

    /// Enters the streams of `listing` in the index. Streams that are not
    /// listed stay; where a name on disk is wrong, the index stays as it
    /// was.
    pub fn reload(&mut self, listing: &Vec<StreamListing>) -> (result: Result<(), LayoutError>)
        requires
            old(self).frames.wf(),
        ensures
            final(self).frames.wf(),
            final(self).directory == old(self).directory,
            match result {
                Ok(()) => merged(old(self).frames@, listing@, stage_extension(Stage::YoloFrames)) == Ok::<
                    _,
                    LayoutError,
                >(final(self).frames@),
                Err(e) => merged(old(self).frames@, listing@, stage_extension(Stage::YoloFrames))
                    == Err::<Map<StreamId, Seq<Seq<char>>>, _>(e) && final(self).frames@ == old(
                    self,
                ).frames@,
            },
    {
        merge_listing(&mut self.frames, listing, Stage::YoloFrames.extension())
    }

    /// The directory of this output in `session`. The stage has run if it
    /// exists.
    pub fn directory_in(session: &Session) -> (directory: String)
        ensures
            directory@ == joined(session.directory@, stage_directory_name(Stage::YoloFrames)),
    {
        Stage::YoloFrames.directory(session)
    }
}

/// The frames turned upright.
#[derive(Debug)]
pub struct RotatedFrames {
    pub frames: FrameIndex,
    pub directory: String,
}

impl RotatedFrames {
    /// The output as `listing` shows it on disk, where `listing` holds the
    /// subdirectories of the directory of the stage.
    pub fn load_from_session(session: &Session, listing: &Vec<StreamListing>) -> (loaded: Result<
        RotatedFrames,
        LayoutError,
    >)
        ensures
            match loaded {
                Ok(output) => {
                    &&& output.frames.wf()
                    &&& output.directory@ == joined(
                        session.directory@,
                        stage_directory_name(Stage::RotatedFrames),
                    )
                    &&& merged(Map::empty(), listing@, stage_extension(Stage::RotatedFrames)) == Ok::<
                        _,
                        LayoutError,
                    >(output.frames@)
                },
                Err(e) => merged(Map::empty(), listing@, stage_extension(Stage::RotatedFrames)) == Err::<
                    Map<StreamId, Seq<Seq<char>>>,
                    _,
                >(e),
            },
    {
        match load_stage(Stage::RotatedFrames, session, listing) {
            Ok((frames, directory)) => Ok(RotatedFrames { frames, directory }),
            Err(e) => Err(e),
        }
    }

    /// Enters the streams of `listing` in the index. Streams that are not
    /// listed stay; where a name on disk is wrong, the index stays as it
    /// was.
    pub fn reload(&mut self, listing: &Vec<StreamListing>) -> (result: Result<(), LayoutError>)
        requires
            old(self).frames.wf(),
        ensures
            final(self).frames.wf(),
            final(self).directory == old(self).directory,
            match result {
                Ok(()) => merged(old(self).frames@, listing@, stage_extension(Stage::RotatedFrames)) == Ok::<
                    _,
                    LayoutError,
                >(final(self).frames@),
                Err(e) => merged(old(self).frames@, listing@, stage_extension(Stage::RotatedFrames))
                    == Err::<Map<StreamId, Seq<Seq<char>>>, _>(e) && final(self).frames@ == old(
                    self,
                ).frames@,
            },
    {
        merge_listing(&mut self.frames, listing, Stage::RotatedFrames.extension())
    }

    /// The directory of this output in `session`. The stage has run if it
    /// exists.
    pub fn directory_in(session: &Session) -> (directory: String)
        ensures
            directory@ == joined(session.directory@, stage_directory_name(Stage::RotatedFrames)),
    {
        Stage::RotatedFrames.directory(session)
    }
}

/// The matting masks of the frames.
#[derive(Debug)]
pub struct MaskFrames {
    pub frames: FrameIndex,
    pub directory: String,
}

impl MaskFrames {
    /// The output as `listing` shows it on disk, where `listing` holds the
    /// subdirectories of the directory of the stage.
    pub fn load_from_session(session: &Session, listing: &Vec<StreamListing>) -> (loaded: Result<
        MaskFrames,
        LayoutError,
    >)
        ensures
            match loaded {
                Ok(output) => {
                    &&& output.frames.wf()
                    &&& output.directory@ == joined(
                        session.directory@,
                        stage_directory_name(Stage::MaskFrames),
                    )
                    &&& merged(Map::empty(), listing@, stage_extension(Stage::MaskFrames)) == Ok::<
                        _,
                        LayoutError,
                    >(output.frames@)
                },
                Err(e) => merged(Map::empty(), listing@, stage_extension(Stage::MaskFrames)) == Err::<
                    Map<StreamId, Seq<Seq<char>>>,
                    _,
                >(e),
            },
    {
        match load_stage(Stage::MaskFrames, session, listing) {
            Ok((frames, directory)) => Ok(MaskFrames { frames, directory }),
            Err(e) => Err(e),
        }
    }

    /// Enters the streams of `listing` in the index. Streams that are not
    /// listed stay; where a name on disk is wrong, the index stays as it
    /// was.
    pub fn reload(&mut self, listing: &Vec<StreamListing>) -> (result: Result<(), LayoutError>)
        requires
            old(self).frames.wf(),
        ensures
            final(self).frames.wf(),
            final(self).directory == old(self).directory,
            match result {
                Ok(()) => merged(old(self).frames@, listing@, stage_extension(Stage::MaskFrames)) == Ok::<
                    _,
                    LayoutError,
                >(final(self).frames@),
                Err(e) => merged(old(self).frames@, listing@, stage_extension(Stage::MaskFrames))
                    == Err::<Map<StreamId, Seq<Seq<char>>>, _>(e) && final(self).frames@ == old(
                    self,
                ).frames@,
            },
    {
        merge_listing(&mut self.frames, listing, Stage::MaskFrames.extension())
    }

    /// The directory of this output in `session`. The stage has run if it
    /// exists.
    pub fn directory_in(session: &Session) -> (directory: String)
        ensures
            directory@ == joined(session.directory@, stage_directory_name(Stage::MaskFrames)),
    {
        Stage::MaskFrames.directory(session)
    }
}

/// The raw frames after the extractor has run: where a run has failed the
/// stage is aborted and there are no raw frames; otherwise they are what
/// `listing` shows of the directory of the frames.
pub open spec fn extracted(
    runs: nat,
    outcomes: Seq<bool>,
    listing: Seq<StreamListing>,
) -> Result<Map<StreamId, Seq<Seq<char>>>, StageError> {
    match extraction_outcome(runs, outcomes) {
        Err(e) => Err(e),
        Ok(()) => match merged(Map::empty(), listing, stage_extension(Stage::RawFrames)) {
            Ok(frames) => Ok(frames),
            Err(e) => Err(StageError::Layout(e)),
        },
    }
}

impl RawFrames {
    /// The raw frames after the extractor has run with `outcomes`, one for
    /// every run of `runs`: they are read from `listing`, what the
    /// directory of the frames holds. Where a run has failed there are
    /// none, and the stage counts as not done.
    pub fn load_extracted(
        session: &Session,
        runs: &Vec<FfmpegArgs>,
        outcomes: &Vec<bool>,
        listing: &Vec<StreamListing>,
    ) -> (loaded: Result<RawFrames, StageError>)
        ensures
            match loaded {
                Ok(output) => {
                    &&& output.frames.wf()
                    &&& output.directory@ == joined(
                        session.directory@,
                        stage_directory_name(Stage::RawFrames),
                    )
                    &&& extracted(runs@.len(), outcomes@, listing@) == Ok::<_, StageError>(
                        output.frames@,
                    )
                },
                Err(e) => extracted(runs@.len(), outcomes@, listing@) == Err::<
                    Map<StreamId, Seq<Seq<char>>>,
                    _,
                >(e),
            },
    {
        match finish_extraction(runs, outcomes) {
            Err(e) => Err(e),
            Ok(()) => match RawFrames::load_from_session(session, listing) {
                Ok(output) => Ok(output),
                Err(e) => Err(StageError::Layout(e)),
            },
        }
    }
}

} // verus!
