//! The staged annotation pipeline: sessions, the stages of a session, and
//! what each stage has to do.
//!
//! A stage reads the artifacts of the stage before it and leaves its own
//! under a directory of the session. Whether that directory exists decides
//! between resuming (the index is read back from the names on disk) and
//! computing (every artifact is planned here, written by the caller and
//! entered in the index).

use crate::layout::{join, join_numbered, joined, numbered};
use crate::stream::StreamId;
use crate::text::{decimal_digits, parse_number, parsed_number, views};
use vstd::prelude::*;
use vstd::string::*;

verus! {

/// The stages of the pipeline, in the order in which they run.
#[derive(Debug, Clone, Copy, PartialEq, Eq, Structural)]
pub enum Stage {
    RawFrames,
    RotatedFrames,
    MaskFrames,
    YoloFrames,
    AlphablendFrames,
}

/// The name of the directory of a stage inside the session directory.
pub open spec fn stage_directory_name(stage: Stage) -> Seq<char> {
    match stage {
        Stage::RawFrames => "frames"@,
        Stage::RotatedFrames => "rotated_frames"@,
        Stage::MaskFrames => "masks"@,
        Stage::YoloFrames => "yolo_frames"@,
        Stage::AlphablendFrames => "alphablend"@,
    }
}

/// The extension of the artifacts of a stage.
pub open spec fn stage_extension(stage: Stage) -> Seq<char> {
    match stage {
        Stage::YoloFrames => "json"@,
        _ => "png"@,
    }
}

/// The stage whose artifacts a stage reads. The raw frames are cut from
/// the recorded clips, and the compositor is not fed by the pipeline.
pub open spec fn stage_input(stage: Stage) -> Option<Stage> {
    match stage {
        Stage::RawFrames => None,
        Stage::RotatedFrames => Some(Stage::RawFrames),
        Stage::MaskFrames => Some(Stage::RotatedFrames),
        Stage::YoloFrames => Some(Stage::RawFrames),
        Stage::AlphablendFrames => None,
    }
}

impl Stage {
    /// The name of the directory of the stage.
    pub fn directory_name(self) -> (name: &'static str)
        ensures
            name@ == stage_directory_name(self),
    {
        match self {
            Stage::RawFrames => "frames",
            Stage::RotatedFrames => "rotated_frames",
            Stage::MaskFrames => "masks",
            Stage::YoloFrames => "yolo_frames",
            Stage::AlphablendFrames => "alphablend",
        }
    }

    /// The extension of the artifacts of the stage.
    pub fn extension(self) -> (ext: &'static str)
        ensures
            ext@ == stage_extension(self),
    {
        match self {
            Stage::YoloFrames => "json",
            _ => "png",
        }
    }

    /// The stage whose artifacts this stage reads.
    pub fn input(self) -> (input: Option<Stage>)
        ensures
            input == stage_input(self),
    {
        match self {
            Stage::RawFrames => None,
            Stage::RotatedFrames => Some(Stage::RawFrames),
            Stage::MaskFrames => Some(Stage::RotatedFrames),
            Stage::YoloFrames => Some(Stage::RawFrames),
            Stage::AlphablendFrames => None,
        }
    }

    /// The directory of the stage in `session`. That it exists is the sign
    /// that the stage has run.
    pub fn directory(self, session: &Session) -> (directory: String)
        ensures
            directory@ == joined(session.directory@, stage_directory_name(self)),
    {
        join(session.directory.as_str(), self.directory_name())
    }
}

/// Which parts of the pipeline run for a session.
#[derive(Debug, Clone, Copy, PartialEq, Eq, Structural)]
pub struct PipelineConfig {
    pub raw_frames: bool,
    pub rotate_raw_frames: bool,
    pub yolo: bool,
    pub repair_frames: bool,
    pub upsample_frames: bool,
    pub mask_frames: bool,
    pub light_field_cameras: bool,
    pub depth_maps: bool,
    pub gaussian_cloud: bool,
}

/// The flag of the configuration that selects a stage. No flag selects the
/// compositor.
pub open spec fn stage_selected(config: PipelineConfig, stage: Stage) -> bool {
    match stage {
        Stage::RawFrames => config.raw_frames,
        Stage::RotatedFrames => config.rotate_raw_frames,
        Stage::MaskFrames => config.mask_frames,
        Stage::YoloFrames => config.yolo,
        Stage::AlphablendFrames => false,
    }
}

impl Default for PipelineConfig {
    /// Frame extraction, rotation, detection and matting are on; the rest
    /// is off.
    fn default() -> (config: Self)
        ensures
            config == (PipelineConfig {
                raw_frames: true,
                rotate_raw_frames: true,
                yolo: true,
                repair_frames: false,
                upsample_frames: false,
                mask_frames: true,
                light_field_cameras: false,
                depth_maps: false,
                gaussian_cloud: false,
            }),
    {
        PipelineConfig {
            raw_frames: true,
            rotate_raw_frames: true,
            yolo: true,
            repair_frames: false,
            upsample_frames: false,
            mask_frames: true,
            light_field_cameras: false,
            depth_maps: false,
            gaussian_cloud: false,
        }
    }
}

impl PipelineConfig {
    /// Whether the configuration selects `stage`.
    pub fn selects(&self, stage: Stage) -> (selected: bool)
        ensures
            selected == stage_selected(*self, stage),
    {
        match stage {
            Stage::RawFrames => self.raw_frames,
            Stage::RotatedFrames => self.rotate_raw_frames,
            Stage::MaskFrames => self.mask_frames,
            Stage::YoloFrames => self.yolo,
            Stage::AlphablendFrames => false,
        }
    }
}

/// A numbered unit of recorded and processed camera data, kept in a
/// directory of its own.
#[derive(Debug, Default)]
pub struct Session {
    pub id: usize,
    pub directory: String,
}

/// The largest number among `names`, if any of them is a number.
pub open spec fn largest_number(names: Seq<Seq<char>>) -> Option<usize>
    decreases names.len(),
{
    if names.len() == 0 {
        None
    } else {
        let before = largest_number(names.drop_last());
        match parsed_number(names.last()) {
            Some(n) => match before {
                Some(m) => if m < n {
                    Some(n)
                } else {
                    Some(m)
                },
                None => Some(n),
            },
            None => before,
        }
    }
}

/// The number of the next session beside those named `names`: one more
/// than the largest, zero where there is none yet, and none where the
/// numbers have run out.
pub open spec fn next_number(names: Seq<Seq<char>>) -> Option<usize> {
    match largest_number(names) {
        Some(m) => if m < usize::MAX {
            Some((m + 1) as usize)
        } else {
            None
        },
        None => Some(0),
    }
}

/// `largest_number` is a number among the names, and none is larger.
pub proof fn lemma_largest_number_is_largest(names: Seq<Seq<char>>)
    ensures
        match largest_number(names) {
            Some(m) => {
                &&& exists|i: int| 0 <= i < names.len() && parsed_number(#[trigger] names[i]) == Some(m)
                &&& forall|i: int|
                    0 <= i < names.len() ==> match parsed_number(#[trigger] names[i]) {
                        Some(n) => n <= m,
                        None => true,
                    }
            },
            None => forall|i: int| 0 <= i < names.len() ==> parsed_number(#[trigger] names[i]) is None,
        },
    decreases names.len(),
{
    if names.len() > 0 {
        let front = names.drop_last();
        lemma_largest_number_is_largest(front);
        let last = names.len() - 1;
        assert forall|i: int| 0 <= i < front.len() implies front[i] == names[i] by {}
        match largest_number(names) {
            Some(m) => {
                if parsed_number(names.last()) == Some(m) {
                    assert(parsed_number(names[last]) == Some(m));
                } else {
                    let i = choose|i: int|
                        0 <= i < front.len() && parsed_number(#[trigger] front[i]) == Some(m);
                    assert(parsed_number(names[i]) == Some(m));
                }
                assert forall|i: int| 0 <= i < names.len() implies match parsed_number(
                    #[trigger] names[i],
                ) {
                    Some(n) => n <= m,
                    None => true,
                } by {
                    if i < last {
                        assert(front[i] == names[i]);
                    }
                }
            },
            None => {
                assert forall|i: int| 0 <= i < names.len() implies parsed_number(
                    #[trigger] names[i],
                ) is None by {
                    if i < last {
                        assert(front[i] == names[i]);
                    }
                }
            },
        }
    }
}

/// The number for a new session under a root that holds the directories
/// `names`: one more than the largest number among them, or zero.
pub fn get_next_session_id(names: &Vec<String>) -> (id: Option<usize>)
    ensures
        id == next_number(views(names@)),
{
    let mut largest: Option<usize> = None;
    let mut i: usize = 0;
    while i < names.len()
        invariant
            0 <= i <= names@.len(),
            largest == largest_number(views(names@).take(i as int)),
        decreases names@.len() - i,
    {
        proof {
            let taken = views(names@).take(i + 1);
            assert(taken.drop_last() =~= views(names@).take(i as int));
            assert(taken.last() == names@[i as int]@);
        }
        match parse_number(names[i].as_str()) {
            Some(n) => {
                largest = match largest {
                    Some(m) => if m < n {
                        Some(n)
                    } else {
                        Some(m)
                    },
                    None => Some(n),
                };
            },
            None => {},
        }
        i = i + 1;
    }
    proof {
        assert(views(names@).take(names@.len() as int) =~= views(names@));
    }
    match largest {
        Some(m) => if m < usize::MAX {
            Some(m + 1)
        } else {
            None
        },
        None => Some(0),
    }
}

impl Session {
    /// The session with the number `id` under the root `directory`.
    pub fn from_id(id: usize, directory: String) -> (session: Session)
        ensures
            session.id == id,
            session.directory@ == joined(directory@, decimal_digits(id as nat)),
    {
        let path = join_numbered(directory.as_str(), id, "");
        proof {
            reveal_strlit("");
            assert(""@ =~= Seq::<char>::empty());
            assert(decimal_digits(id as nat) + ""@ =~= decimal_digits(id as nat));
        }
        Session { id, directory: path }
    }

    /// A new session under the root `directory`, which holds the
    /// directories `names`: it takes the next free number. There is none
    /// where the numbers have run out.
    pub fn new(directory: String, names: &Vec<String>) -> (session: Option<Session>)
        ensures
            match session {
                Some(s) => next_number(views(names@)) == Some(s.id) && s.directory@ == joined(
                    directory@,
                    decimal_digits(s.id as nat),
                ),
                None => next_number(views(names@)) is None,
            },
    {
        match get_next_session_id(names) {
            Some(id) => Some(Session::from_id(id, directory)),
            None => None,
        }
    }

    /// The directory that holds the recorded clips of the session.
    pub fn raw_directory(&self) -> (directory: String)
        ensures
            directory@ == joined(self.directory@, "raw"@),
    {
        join(self.directory.as_str(), "raw")
    }

    /// The file that the clip of the stream `id` is recorded to.
    pub fn raw_stream_path(&self, id: StreamId) -> (path: String)
        ensures
            path@ == numbered(joined(self.directory@, "raw"@), id.0, ".mp4"@),
    {
        let raw = self.raw_directory();
        join_numbered(raw.as_str(), id.0, ".mp4")
    }
}

/// The recorded clips of a session.
#[derive(Debug, Default)]
pub struct RawStreams {
    pub streams: Vec<String>,
}

impl RawStreams {
    /// The clips of a session: `files` are the regular files that its
    /// directory of raw clips holds.
    pub fn load_from_session(files: Vec<String>) -> (raw: RawStreams)
        ensures
            raw.streams == files,
    {
        RawStreams { streams: files }
    }
}

} // verus!
