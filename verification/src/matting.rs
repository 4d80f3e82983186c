//! When the live matting runs.
//!
//! The masks of the live streams are inferred in the background, one batch
//! at a time. Once per tick the consumer asks what to do: collect a batch
//! that is done, wait for one that is not, start one, or rest.

use vstd::prelude::*;

verus! {

/// The side of the placeholder that stands for a stream until its first
/// frame is decoded.
pub const PLACEHOLDER_SIDE: u32 = 32;

/// The largest size at which the frames of the pipeline are matted.
pub const PIPELINE_MATTING_SIDE: u32 = 512;

/// The largest size at which frames are matted: width and height.
#[derive(Debug, Clone, Copy)]
pub struct InferenceSize(pub (u32, u32));

/// The batch that runs in the background, if any.
#[derive(Debug, Clone, Copy, PartialEq, Eq, Structural)]
pub enum BatchState {
    /// No batch was started.
    Absent,
    /// A batch runs.
    Running,
    /// A batch is done and its masks wait to be collected.
    Finished,
}

/// What the consumer does in a tick.
#[derive(Debug, Clone, Copy, PartialEq, Eq, Structural)]
pub enum MattingStep {
    /// Hand the masks of the finished batch to their streams.
    Collect,
    /// A batch runs: come back later.
    Wait,
    /// There is nothing to infer yet.
    Rest,
    /// Start a batch on the current frames of all streams.
    Infer,
}

/// The frame is still the placeholder of a stream.
pub open spec fn is_placeholder(size: (u32, u32)) -> bool {
    size == (PLACEHOLDER_SIDE, PLACEHOLDER_SIDE)
}

/// One of the frames is still a placeholder.
pub open spec fn has_placeholder(sizes: Seq<(u32, u32)>) -> bool {
    exists|i: int| 0 <= i < sizes.len() && is_placeholder(#[trigger] sizes[i])
}

/// What is to be done in a tick.
pub open spec fn matting_step(batch: BatchState, sizes: Seq<(u32, u32)>, model_loaded: bool) -> MattingStep {
    match batch {
        BatchState::Finished => MattingStep::Collect,
        BatchState::Running => MattingStep::Wait,
        BatchState::Absent => if sizes.len() == 0 || has_placeholder(sizes) || !model_loaded {
            MattingStep::Rest
        } else {
            MattingStep::Infer
        },
    }
}

/// Decides what the live matting does in a tick. `sizes` are the sizes of
/// the current frames of the streams that are matted. A batch that runs or
/// is done comes first. Without one, a new batch starts once there is a
/// stream, every stream has decoded a frame, and the model is loaded.
pub fn matting_inference(batch: BatchState, sizes: &Vec<(u32, u32)>, model_loaded: bool) -> (step:
    MattingStep)
    ensures
        step == matting_step(batch, sizes@, model_loaded),
{
    match batch {
        BatchState::Finished => MattingStep::Collect,
        BatchState::Running => MattingStep::Wait,
        BatchState::Absent => {
            if sizes.len() == 0 {
                return MattingStep::Rest;
            }
            let mut i: usize = 0;
            while i < sizes.len()
                invariant
                    0 <= i <= sizes@.len(),
                    sizes@.len() > 0,
                    batch == BatchState::Absent,
                    forall|t: int| 0 <= t < i ==> !is_placeholder(#[trigger] sizes@[t]),
                decreases sizes@.len() - i,
            {
                let size = sizes[i];
                if size.0 == PLACEHOLDER_SIDE && size.1 == PLACEHOLDER_SIDE {
                    assert(is_placeholder(sizes@[i as int]));
                    return MattingStep::Rest;
                }
                i = i + 1;
            }
            if model_loaded {
                MattingStep::Infer
            } else {
                MattingStep::Rest
            }
        },
    }
}

impl InferenceSize {
    /// The largest size as width and height.
    pub fn new(max_inference_size: (u32, u32)) -> (size: InferenceSize)
        ensures
            size == InferenceSize(max_inference_size),
    {
        InferenceSize(max_inference_size)
    }
}

} // verus!
