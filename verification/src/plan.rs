//! What a stage has to do: skip, resume, or compute the planned artifacts.

use crate::ffmpeg::FfmpegArgs;
use crate::index::{FrameIndex, StreamFrames};
use crate::layout::{artifact, artifact_path, file_stem, join_numbered, joined, stem_of};
use crate::listing::{LayoutError, StreamListing};
use crate::pipeline::{
    stage_directory_name, stage_extension, stage_selected, PipelineConfig, RawStreams, Session,
    Stage,
};
use crate::stream::StreamId;
use crate::text::{decimal_digits, parse_number, parsed_number, views};
use vstd::prelude::*;
use vstd::string::*;

verus! {

/// One artifact to make: what is read and what is written.
#[derive(Debug)]
pub struct FrameJob {
    pub input: String,
    pub output: String,
}

/// The work of a stage on one stream: the directory to create and one job
/// for each frame, in the order of the frames.
#[derive(Debug)]
pub struct StreamPlan {
    pub stream_id: StreamId,
    pub directory: String,
    pub jobs: Vec<FrameJob>,
}

/// The directory of the stream `id` inside the directory of a stage.
pub open spec fn stream_directory(stage_directory: Seq<char>, id: StreamId) -> Seq<char> {
    joined(stage_directory, decimal_digits(id.0 as nat))
}

/// The artifact that a stage writes for the frame `input` of the stream
/// `id`: it keeps the name of the frame and takes the extension of the
/// stage.
pub open spec fn planned_output(
    stage_directory: Seq<char>,
    id: StreamId,
    input: Seq<char>,
    ext: Seq<char>,
) -> Seq<char> {
    artifact(stream_directory(stage_directory, id), file_stem(input), ext)
}

/// `plan` is the work on the stream `entry`.
pub open spec fn is_plan_for(
    plan: StreamPlan,
    entry: StreamFrames,
    stage_directory: Seq<char>,
    ext: Seq<char>,
) -> bool {
    &&& plan.stream_id == entry.stream_id
    &&& plan.directory@ == stream_directory(stage_directory, entry.stream_id)
    &&& plan.jobs@.len() == entry.frames@.len()
    &&& forall|i: int|
        0 <= i < plan.jobs@.len() ==> (#[trigger] plan.jobs@[i]).input@ == entry.frames@[i]@
            && plan.jobs@[i].output@ == planned_output(
            stage_directory,
            entry.stream_id,
            entry.frames@[i]@,
            ext,
        )
}

/// `plans` is the work of a stage on the streams `entries`: one plan for
/// each stream, in their order.
pub open spec fn is_stage_plan(
    plans: Seq<StreamPlan>,
    entries: Seq<StreamFrames>,
    stage_directory: Seq<char>,
    ext: Seq<char>,
) -> bool {
    &&& plans.len() == entries.len()
    &&& forall|i: int|
        0 <= i < plans.len() ==> is_plan_for(#[trigger] plans[i], entries[i], stage_directory, ext)
}

/// The artifacts that the jobs write, in their order.
pub open spec fn job_outputs(jobs: Seq<FrameJob>) -> Seq<Seq<char>> {
    Seq::new(jobs.len(), |i: int| jobs[i].output@)
}

/// The index `base` after the artifacts of `plans` were entered, one plan
/// after the other.
pub open spec fn recorded(base: Map<StreamId, Seq<Seq<char>>>, plans: Seq<StreamPlan>) -> Map<
    StreamId,
    Seq<Seq<char>>,
>
    decreases plans.len(),
{
    if plans.len() == 0 {
        base
    } else {
        recorded(base, plans.drop_last()).insert(
            plans.last().stream_id,
            job_outputs(plans.last().jobs@),
        )
    }
}

/// Plans the work of a stage on one stream.
pub fn plan_stream(entry: &StreamFrames, stage_directory: &str, ext: &str) -> (plan: StreamPlan)
    ensures
        is_plan_for(plan, *entry, stage_directory@, ext@),
{
    let directory = join_numbered(stage_directory, entry.stream_id.0, "");
    proof {
        reveal_strlit("");
        assert(""@ =~= Seq::<char>::empty());
        assert(decimal_digits(entry.stream_id.0 as nat) + ""@ =~= decimal_digits(
            entry.stream_id.0 as nat,
        ));
    }
    let mut jobs: Vec<FrameJob> = Vec::new();
    let mut i: usize = 0;
    while i < entry.frames.len()
        invariant
            0 <= i <= entry.frames@.len(),
            directory@ == stream_directory(stage_directory@, entry.stream_id),
            jobs@.len() == i,
            forall|t: int|
                0 <= t < i ==> (#[trigger] jobs@[t]).input@ == entry.frames@[t]@
                    && jobs@[t].output@ == planned_output(
                    stage_directory@,
                    entry.stream_id,
                    entry.frames@[t]@,
                    ext@,
                ),
        decreases entry.frames@.len() - i,
    {
        let stem = stem_of(entry.frames[i].as_str());
        let output = artifact_path(directory.as_str(), stem.as_str(), ext);
        jobs.push(FrameJob { input: entry.frames[i].clone(), output });
        i = i + 1;
    }
    StreamPlan { stream_id: entry.stream_id, directory, jobs }
}

/// Plans the work of a stage whose directory is `stage_directory` on every
/// stream of `input`.
pub fn plan_stage(input: &FrameIndex, stage_directory: &str, ext: &str) -> (plans: Vec<
    StreamPlan,
>)
    ensures
        is_stage_plan(plans@, input.entries(), stage_directory@, ext@),
{
    let streams = input.streams();
    let mut plans: Vec<StreamPlan> = Vec::new();
    let mut i: usize = 0;
    while i < streams.len()
        invariant
            0 <= i <= streams@.len(),
            plans@.len() == i,
            forall|t: int|
                0 <= t < i ==> is_plan_for(#[trigger] plans@[t], streams@[t], stage_directory@, ext@),
        decreases streams@.len() - i,
    {
        plans.push(plan_stream(&streams[i], stage_directory, ext));
        i = i + 1;
    }
    plans
}

impl StreamPlan {
    /// The artifacts that the plan writes, in the order of the frames.
    pub fn outputs(&self) -> (outputs: Vec<String>)
        ensures
            views(outputs@) == job_outputs(self.jobs@),
    {
        let mut outputs: Vec<String> = Vec::new();
        let mut i: usize = 0;
        while i < self.jobs.len()
            invariant
                0 <= i <= self.jobs@.len(),
                outputs@.len() == i,
                forall|t: int| 0 <= t < i ==> (#[trigger] outputs@[t])@ == self.jobs@[t].output@,
            decreases self.jobs@.len() - i,
        {
            outputs.push(self.jobs[i].output.clone());
            i = i + 1;
        }
        proof {
            assert(views(outputs@) =~= job_outputs(self.jobs@));
        }
        outputs
    }
}

/// Enters the artifacts of `plans` in `index`, once they are written.
pub fn record(index: &mut FrameIndex, plans: &Vec<StreamPlan>)
    requires
        old(index).wf(),
    ensures
        final(index).wf(),
        final(index)@ == recorded(old(index)@, plans@),
{
    let mut i: usize = 0;
    while i < plans.len()
        invariant
            index.wf(),
            0 <= i <= plans@.len(),
            index@ == recorded(old(index)@, plans@.take(i as int)),
        decreases plans@.len() - i,
    {
        proof {
            assert(plans@.take(i + 1).drop_last() =~= plans@.take(i as int));
            assert(plans@.take(i + 1).last() == plans@[i as int]);
        }
        index.insert(plans[i].stream_id, plans[i].outputs());
        i = i + 1;
    }
    proof {
        assert(plans@.take(plans@.len() as int) =~= plans@);
    }
}

/// Why a stage did not come to its end.
#[derive(Debug, Clone, Copy, PartialEq, Eq, Structural)]
pub enum StageError {
    /// The outcomes that were handed in are not one for every job.
    OutcomeMissing,
    /// A job has failed: its artifact was not made or not written.
    JobFailed,
    /// What the stage left on disk cannot be read back.
    Layout(LayoutError),
}

/// `outcomes` holds one outcome for every job of `plans`.
pub open spec fn outcomes_fit(plans: Seq<StreamPlan>, outcomes: Seq<Vec<bool>>) -> bool {
    &&& outcomes.len() == plans.len()
    &&& forall|i: int|
        0 <= i < plans.len() ==> (#[trigger] outcomes[i])@.len() == plans[i].jobs@.len()
}

/// Every outcome is a success.
pub open spec fn all_succeeded(outcomes: Seq<Vec<bool>>) -> bool {
    forall|i: int, j: int|
        0 <= i < outcomes.len() && 0 <= j < outcomes[i]@.len() ==> #[trigger] outcomes[i]@[j]
}

/// How a stage ends whose jobs had these outcomes: well if every job has
/// an outcome and every outcome is a success.
pub open spec fn stage_outcome(plans: Seq<StreamPlan>, outcomes: Seq<Vec<bool>>) -> Result<
    (),
    StageError,
> {
    if !outcomes_fit(plans, outcomes) {
        Err(StageError::OutcomeMissing)
    } else if !all_succeeded(outcomes) {
        Err(StageError::JobFailed)
    } else {
        Ok(())
    }
}

fn fits(plans: &Vec<StreamPlan>, outcomes: &Vec<Vec<bool>>) -> (fit: bool)
    ensures
        fit == outcomes_fit(plans@, outcomes@),
{
    if outcomes.len() != plans.len() {
        return false;
    }
    let mut i: usize = 0;
    while i < plans.len()
        invariant
            0 <= i <= plans@.len(),
            outcomes@.len() == plans@.len(),
            forall|t: int| 0 <= t < i ==> (#[trigger] outcomes@[t])@.len() == plans@[t].jobs@.len(),
        decreases plans@.len() - i,
    {
        if outcomes[i].len() != plans[i].jobs.len() {
            assert(outcomes@[i as int]@.len() != plans@[i as int].jobs@.len());
            return false;
        }
        i = i + 1;
    }
    true
}

fn succeeded(outcomes: &Vec<Vec<bool>>) -> (all: bool)
    ensures
        all == all_succeeded(outcomes@),
{
    let mut i: usize = 0;
    while i < outcomes.len()
        invariant
            0 <= i <= outcomes@.len(),
            forall|x: int, y: int|
                0 <= x < i && 0 <= y < outcomes@[x]@.len() ==> #[trigger] outcomes@[x]@[y],
        decreases outcomes@.len() - i,
    {
        let row = &outcomes[i];
        let mut j: usize = 0;
        while j < row.len()
            invariant
                0 <= i < outcomes@.len(),
                row@ == outcomes@[i as int]@,
                0 <= j <= row@.len(),
                forall|y: int| 0 <= y < j ==> #[trigger] row@[y],
            decreases row@.len() - j,
        {
            if !row[j] {
                assert(!outcomes@[i as int]@[j as int]);
                return false;
            }
            j = j + 1;
        }
        i = i + 1;
    }
    true
}

/// Ends a stage whose jobs were carried out with `outcomes`, one for every
/// job of `plans`, a success or not. Where every job has succeeded, the
/// artifacts of the plans are entered in `index`. Where a job has failed,
/// or an outcome is missing, the stage is aborted: nothing is entered, no
/// frame is passed over, and the error says why.
pub fn finish_stage(index: &mut FrameIndex, plans: &Vec<StreamPlan>, outcomes: &Vec<Vec<bool>>) -> (result:
    Result<(), StageError>)
    requires
        old(index).wf(),
    ensures
        final(index).wf(),
        result == stage_outcome(plans@, outcomes@),
        final(index)@ == (if result is Ok {
            recorded(old(index)@, plans@)
        } else {
            old(index)@
        }),
{
    if !fits(plans, outcomes) {
        return Err(StageError::OutcomeMissing);
    }
    if !succeeded(outcomes) {
        return Err(StageError::JobFailed);
    }
    record(index, plans);
    Ok(())
}

/// How an extraction ends whose runs had these outcomes: well if each of
/// the `runs` runs has an outcome and every outcome is a success.
pub open spec fn extraction_outcome(runs: nat, outcomes: Seq<bool>) -> Result<(), StageError> {
    if outcomes.len() != runs {
        Err(StageError::OutcomeMissing)
    } else if exists|i: int| 0 <= i < outcomes.len() && !#[trigger] outcomes[i] {
        Err(StageError::JobFailed)
    } else {
        Ok(())
    }
}

/// Ends the extraction of the raw frames whose runs were carried out with
/// `outcomes`, one for every run. Where a run has failed, or an outcome is
/// missing, the stage is aborted.
pub fn finish_extraction(runs: &Vec<FfmpegArgs>, outcomes: &Vec<bool>) -> (result: Result<
    (),
    StageError,
>)
    ensures
        result == extraction_outcome(runs@.len(), outcomes@),
{
    if outcomes.len() != runs.len() {
        return Err(StageError::OutcomeMissing);
    }
    let mut i: usize = 0;
    while i < outcomes.len()
        invariant
            0 <= i <= outcomes@.len(),
            outcomes@.len() == runs@.len(),
            forall|t: int| 0 <= t < i ==> #[trigger] outcomes@[t],
        decreases outcomes@.len() - i,
    {
        if !outcomes[i] {
            assert(!outcomes@[i as int]);
            return Err(StageError::JobFailed);
        }
        i = i + 1;
    }
    Ok(())
}

/// The paths of `count` records of one stream that are numbered from zero
/// as they stand in memory: `<directory>/<place>.<ext>`.
pub fn numbered_artifacts(directory: &str, count: usize, ext: &str) -> (paths: Vec<String>)
    ensures
        paths@.len() == count,
        forall|i: int|
            0 <= i < count ==> (#[trigger] paths@[i])@ == artifact(
                directory@,
                decimal_digits(i as nat),
                ext@,
            ),
{
    let mut paths: Vec<String> = Vec::new();
    let mut i: usize = 0;
    while i < count
        invariant
            0 <= i <= count,
            paths@.len() == i,
            forall|t: int|
                0 <= t < i ==> (#[trigger] paths@[t])@ == artifact(
                    directory@,
                    decimal_digits(t as nat),
                    ext@,
                ),
        decreases count - i,
    {
        let stem = crate::text::decimal(i);
        paths.push(artifact_path(directory, stem.as_str(), ext));
        i = i + 1;
    }
    paths
}

/// What a stage does in one run.
#[derive(Debug)]
pub enum StageWork {
    /// The configuration does not select the stage.
    Skip,
    /// The directory of the stage exists: its index is read back from the
    /// names on disk and nothing is computed.
    Resume,
    /// The directory of the stage does not exist yet: the planned artifacts
    /// are computed and written, and entered in the index.
    Compute(Vec<StreamPlan>),
}

/// Decides what the stage `stage` does in `session`, where `exists` says
/// whether its directory was found on disk and `input` is the index of the
/// stage that it reads.
pub fn stage_work(
    config: &PipelineConfig,
    stage: Stage,
    exists: bool,
    session: &Session,
    input: &FrameIndex,
) -> (work: StageWork)
    ensures
        match work {
            StageWork::Skip => !stage_selected(*config, stage),
            StageWork::Resume => stage_selected(*config, stage) && exists,
            StageWork::Compute(plans) => stage_selected(*config, stage) && !exists
                && is_stage_plan(
                plans@,
                input.entries(),
                joined(session.directory@, stage_directory_name(stage)),
                stage_extension(stage),
            ),
        },
{
    if !config.selects(stage) {
        StageWork::Skip
    } else if exists {
        StageWork::Resume
    } else {
        let directory = stage.directory(session);
        StageWork::Compute(plan_stage(input, directory.as_str(), stage.extension()))
    }
}

/// One of the listed directories holds a file with the path `path`.
pub open spec fn is_listed(listing: Seq<StreamListing>, path: Seq<char>) -> bool {
    exists|a: int, b: int|
        0 <= a < listing.len() && 0 <= b < listing[a].files@.len() && (
        #[trigger] listing[a].files@[b])@ == path
}

/// Every artifact of `plans` is on disk, where `listing` is what the
/// directory of the stage holds.
pub open spec fn is_written(plans: Seq<StreamPlan>, listing: Seq<StreamListing>) -> bool {
    forall|i: int, j: int|
        0 <= i < plans.len() && 0 <= j < plans[i].jobs@.len() ==> is_listed(
            listing,
            (#[trigger] plans[i].jobs@[j]).output@,
        )
}

fn listed(listing: &Vec<StreamListing>, path: &String) -> (found: bool)
    ensures
        found == is_listed(listing@, path@),
{
    let mut a: usize = 0;
    while a < listing.len()
        invariant
            0 <= a <= listing@.len(),
            forall|x: int, y: int|
                0 <= x < a && 0 <= y < listing@[x].files@.len() ==> (
                #[trigger] listing@[x].files@[y])@ != path@,
        decreases listing@.len() - a,
    {
        let files = &listing[a].files;
        let mut b: usize = 0;
        while b < files.len()
            invariant
                0 <= a < listing@.len(),
                files@ == listing@[a as int].files@,
                0 <= b <= files@.len(),
                forall|y: int| 0 <= y < b ==> (#[trigger] files@[y])@ != path@,
            decreases files@.len() - b,
        {
            if files[b] == *path {
                assert(listing@[a as int].files@[b as int]@ == path@);
                return true;
            }
            b = b + 1;
        }
        a = a + 1;
    }
    false
}

/// Whether every artifact of `plans` is on disk, where `listing` is what
/// the directory of the stage holds. A stage whose directory exists but
/// lacks an artifact was cut short and has to be computed again.
pub fn all_written(plans: &Vec<StreamPlan>, listing: &Vec<StreamListing>) -> (written: bool)
    ensures
        written == is_written(plans@, listing@),
{
    let mut i: usize = 0;
    while i < plans.len()
        invariant
            0 <= i <= plans@.len(),
            forall|x: int, y: int|
                0 <= x < i && 0 <= y < plans@[x].jobs@.len() ==> is_listed(
                    listing@,
                    (#[trigger] plans@[x].jobs@[y]).output@,
                ),
        decreases plans@.len() - i,
    {
        let jobs = &plans[i].jobs;
        let mut j: usize = 0;
        while j < jobs.len()
            invariant
                0 <= i < plans@.len(),
                jobs@ == plans@[i as int].jobs@,
                0 <= j <= jobs@.len(),
                forall|y: int|
                    0 <= y < j ==> is_listed(listing@, (#[trigger] jobs@[y]).output@),
            decreases jobs@.len() - j,
        {
            if !listed(listing, &jobs[j].output) {
                assert(!is_listed(listing@, plans@[i as int].jobs@[j as int].output@));
                return false;
            }
            j = j + 1;
        }
        i = i + 1;
    }
    true
}

/// Decides what the stage `stage` does in `session`, and does not trust a
/// directory that was left half written: `listing` is what the directory
/// of the stage holds, or nothing where there is no such directory. The
/// stage resumes only where every artifact that it would compute from
/// `input` is on disk.
pub fn checked_stage_work(
    config: &PipelineConfig,
    stage: Stage,
    listing: Option<&Vec<StreamListing>>,
    session: &Session,
    input: &FrameIndex,
) -> (work: StageWork)
    ensures
        match work {
            StageWork::Skip => !stage_selected(*config, stage),
            StageWork::Resume => stage_selected(*config, stage) && listing is Some && exists|
                plans: Seq<StreamPlan>,
            |
                is_stage_plan(
                    plans,
                    input.entries(),
                    joined(session.directory@, stage_directory_name(stage)),
                    stage_extension(stage),
                ) && is_written(plans, listing->0@),
            StageWork::Compute(plans) => stage_selected(*config, stage) && is_stage_plan(
                plans@,
                input.entries(),
                joined(session.directory@, stage_directory_name(stage)),
                stage_extension(stage),
            ) && (match listing {
                Some(found) => !is_written(plans@, found@),
                None => true,
            }),
        },
{
    if !config.selects(stage) {
        return StageWork::Skip;
    }
    let directory = stage.directory(session);
    let plans = plan_stage(input, directory.as_str(), stage.extension());
    match listing {
        Some(found) => {
            if all_written(&plans, found) {
                StageWork::Resume
            } else {
                StageWork::Compute(plans)
            }
        },
        None => StageWork::Compute(plans),
    }
}

/// The rate at which frames are cut from a clip, in frames per second.
pub const EXTRACTION_FPS: u32 = 5;

/// The width of the extracted frames.
pub const EXTRACTION_WIDTH: u32 = 1920;

/// The height of the extracted frames.
pub const EXTRACTION_HEIGHT: u32 = 1080;

/// The stream that a recorded clip belongs to: the number that its file is
/// named by.
pub open spec fn clip_stream(clip: Seq<char>) -> Option<usize> {
    parsed_number(file_stem(clip))
}

/// `args` cuts the clip `clip` into the frames of the stream that the clip
/// is named after, under `frames_directory`.
pub open spec fn is_extraction_of(args: FfmpegArgs, clip: Seq<char>, frames_directory: Seq<char>) -> bool {
    match clip_stream(clip) {
        Some(id) => {
            &&& args.mp4_path@ == clip
            &&& args.fps == EXTRACTION_FPS
            &&& args.width == EXTRACTION_WIDTH
            &&& args.height == EXTRACTION_HEIGHT
            &&& args.interpolation@ == "lanczos"@
            &&& args.output_directory@ == stream_directory(frames_directory, StreamId(id))
        },
        None => false,
    }
}

/// `runs` holds one run of the extractor for each of `clips`, in their
/// order.
pub open spec fn is_extraction_plan(
    runs: Seq<FfmpegArgs>,
    clips: Seq<String>,
    frames_directory: Seq<char>,
) -> bool {
    &&& runs.len() == clips.len()
    &&& forall|i: int|
        0 <= i < runs.len() ==> is_extraction_of(#[trigger] runs[i], clips[i]@, frames_directory)
}

/// One of `clips` is not named by a number.
pub open spec fn has_unnamed_clip(clips: Seq<String>) -> bool {
    exists|i: int| 0 <= i < clips.len() && clip_stream(#[trigger] clips[i]@) is None
}

/// Plans the extraction of the raw frames: one run of the extractor for
/// each recorded clip, into the directory of the stream that the clip is
/// named after. A clip whose name is no number is refused.
pub fn plan_raw_frames(raw_streams: &RawStreams, frames_directory: &str) -> (plan: Result<
    Vec<FfmpegArgs>,
    LayoutError,
>)
    ensures
        match plan {
            Ok(runs) => is_extraction_plan(runs@, raw_streams.streams@, frames_directory@),
            Err(e) => e == LayoutError::StreamName && has_unnamed_clip(raw_streams.streams@),
        },
{
    let mut runs: Vec<FfmpegArgs> = Vec::new();
    let mut i: usize = 0;
    while i < raw_streams.streams.len()
        invariant
            0 <= i <= raw_streams.streams@.len(),
            is_extraction_plan(runs@, raw_streams.streams@.take(i as int), frames_directory@),
        decreases raw_streams.streams@.len() - i,
    {
        let clip = &raw_streams.streams[i];
        let stem = stem_of(clip.as_str());
        let id = match parse_number(stem.as_str()) {
            Some(id) => id,
            None => {
                assert(clip_stream(raw_streams.streams@[i as int]@) is None);
                return Err(LayoutError::StreamName);
            },
        };
        let output_directory = join_numbered(frames_directory, id, "");
        proof {
            reveal_strlit("");
            assert(""@ =~= Seq::<char>::empty());
            assert(decimal_digits(id as nat) + ""@ =~= decimal_digits(id as nat));
        }
        let run = FfmpegArgs {
            mp4_path: clip.clone(),
            fps: EXTRACTION_FPS,
            width: EXTRACTION_WIDTH,
            height: EXTRACTION_HEIGHT,
            interpolation: String::from_str("lanczos"),
            output_directory,
        };
        assert(is_extraction_of(run, raw_streams.streams@[i as int]@, frames_directory@));
        runs.push(run);
        i = i + 1;
    }
    proof {
        assert(raw_streams.streams@.take(i as int) =~= raw_streams.streams@);
    }
    Ok(runs)
}

/// What the extraction of the raw frames does in one run.
#[derive(Debug)]
pub enum RawFramesWork {
    /// The configuration does not select the extraction.
    Skip,
    /// The frames are on disk already: their index is read back.
    Resume,
    /// The extractor runs once for each clip; the index is read back from
    /// what it wrote.
    Extract(Vec<FfmpegArgs>),
}

/// Decides what the extraction of the raw frames does in `session`, where
/// `exists` says whether the directory of the frames was found on disk.
pub fn raw_frames_work(
    config: &PipelineConfig,
    exists: bool,
    session: &Session,
    raw_streams: &RawStreams,
) -> (work: Result<RawFramesWork, LayoutError>)
    ensures
        match work {
            Ok(RawFramesWork::Skip) => !config.raw_frames,
            Ok(RawFramesWork::Resume) => config.raw_frames && exists,
            Ok(RawFramesWork::Extract(runs)) => config.raw_frames && !exists
                && is_extraction_plan(
                runs@,
                raw_streams.streams@,
                joined(session.directory@, stage_directory_name(Stage::RawFrames)),
            ),
            Err(e) => config.raw_frames && !exists && e == LayoutError::StreamName
                && has_unnamed_clip(raw_streams.streams@),
        },
{
    if !config.raw_frames {
        Ok(RawFramesWork::Skip)
    } else if exists {
        Ok(RawFramesWork::Resume)
    } else {
        let directory = Stage::RawFrames.directory(session);
        match plan_raw_frames(raw_streams, directory.as_str()) {
            Ok(runs) => Ok(RawFramesWork::Extract(runs)),
            Err(e) => Err(e),
        }
    }
}

/// The name of the file that marks a stage as complete. It is written
/// after every artifact of the stage is on disk.
pub open spec fn marker_name() -> Seq<char> {
    ".complete"@
}

/// The path of the file that marks the stage in `stage_directory` as
/// complete.
pub fn completion_marker(stage_directory: &str) -> (path: String)
    ensures
        path@ == joined(stage_directory@, marker_name()),
{
    crate::layout::join(stage_directory, ".complete")
}

/// Decides what the extraction of the raw frames does in `session`, and
/// does not trust a directory that was left half written: `found` says
/// whether the directory of the frames is on disk, and `complete` whether
/// the file that marks it as complete is. The extraction resumes only
/// where both are.
pub fn checked_raw_frames_work(
    config: &PipelineConfig,
    found: bool,
    complete: bool,
    session: &Session,
    raw_streams: &RawStreams,
) -> (work: Result<RawFramesWork, LayoutError>)
    ensures
        match work {
            Ok(RawFramesWork::Skip) => !config.raw_frames,
            Ok(RawFramesWork::Resume) => config.raw_frames && found && complete,
            Ok(RawFramesWork::Extract(runs)) => config.raw_frames && !(found && complete)
                && is_extraction_plan(
                runs@,
                raw_streams.streams@,
                joined(session.directory@, stage_directory_name(Stage::RawFrames)),
            ),
            Err(e) => config.raw_frames && !(found && complete) && e == LayoutError::StreamName
                && has_unnamed_clip(raw_streams.streams@),
        },
{
    raw_frames_work(config, found && complete, session, raw_streams)
}

} // verus!
