use bevy_light_field::index::FrameIndex;
use bevy_light_field::listing::{merge_listing, LayoutError, StreamListing};
use bevy_light_field::pipeline::{PipelineConfig, RawStreams, Session, Stage};
use bevy_light_field::plan::{
    all_written, checked_raw_frames_work, checked_stage_work, completion_marker,
    finish_extraction, finish_stage, numbered_artifacts, plan_raw_frames, StageError, plan_stage, raw_frames_work, record, stage_work,
    RawFramesWork, StageWork, StreamPlan,
};
use bevy_light_field::stream::StreamId;

fn paths(list: &[&str]) -> Vec<String> {
    list.iter().map(|s| s.to_string()).collect()
}

fn raw_index() -> FrameIndex {
    let mut index = FrameIndex::new();
    index.insert(StreamId(1), paths(&["capture/0/frames/1/1.png", "capture/0/frames/1/2.png"]));
    index.insert(StreamId(0), paths(&["capture/0/frames/0/1.png"]));
    index
}

fn entries(index: &FrameIndex) -> Vec<(usize, Vec<String>)> {
    index.streams().iter().map(|s| (s.stream_id.0, s.frames.clone())).collect()
}

#[test]
fn stage_plan_has_one_job_for_every_frame() {
    let plans = plan_stage(&raw_index(), "capture/0/masks", "png");
    assert_eq!(plans.len(), 2);
    assert_eq!(plans[0].stream_id, StreamId(0));
    assert_eq!(plans[0].directory, "capture/0/masks/0");
    assert_eq!(plans[0].jobs.len(), 1);
    assert_eq!(plans[0].jobs[0].input, "capture/0/frames/0/1.png");
    assert_eq!(plans[0].jobs[0].output, "capture/0/masks/0/1.png");
    assert_eq!(plans[1].stream_id, StreamId(1));
    assert_eq!(plans[1].directory, "capture/0/masks/1");
    assert_eq!(plans[1].jobs.len(), 2);
    assert_eq!(plans[1].jobs[0].input, "capture/0/frames/1/1.png");
    assert_eq!(plans[1].jobs[0].output, "capture/0/masks/1/1.png");
    assert_eq!(plans[1].jobs[1].input, "capture/0/frames/1/2.png");
    assert_eq!(plans[1].jobs[1].output, "capture/0/masks/1/2.png");
}

#[test]
fn stage_plan_takes_the_extension_of_the_stage() {
    let plans = plan_stage(&raw_index(), "capture/0/yolo_frames", "json");
    assert_eq!(plans[1].jobs[1].output, "capture/0/yolo_frames/1/2.json");
    assert_eq!(
        plans[1].outputs(),
        paths(&["capture/0/yolo_frames/1/1.json", "capture/0/yolo_frames/1/2.json"])
    );
}

#[test]
fn stage_plan_of_an_empty_index_is_empty() {
    assert!(plan_stage(&FrameIndex::new(), "capture/0/masks", "png").is_empty());
}

#[test]
fn recorded_plans_fill_the_index() {
    let plans = plan_stage(&raw_index(), "capture/0/rotated_frames", "png");
    let mut index = FrameIndex::new();
    record(&mut index, &plans);
    assert_eq!(
        entries(&index),
        vec![
            (0, paths(&["capture/0/rotated_frames/0/1.png"])),
            (1, paths(&["capture/0/rotated_frames/1/1.png", "capture/0/rotated_frames/1/2.png"])),
        ]
    );
}

#[test]
fn stage_has_the_streams_of_its_input() {
    let input = raw_index();
    let mut output = FrameIndex::new();
    record(&mut output, &plan_stage(&input, "capture/0/masks", "png"));
    let ids = |index: &FrameIndex| -> Vec<usize> {
        index.streams().iter().map(|s| s.stream_id.0).collect()
    };
    assert_eq!(ids(&output), ids(&input));
    for stream in input.streams() {
        assert_eq!(output.get(stream.stream_id).unwrap().len(), stream.frames.len());
    }
}

fn written(plans: &[StreamPlan]) -> Vec<StreamListing> {
    plans
        .iter()
        .map(|plan| StreamListing { name: plan.stream_id.0.to_string(), files: plan.outputs() })
        .collect()
}

#[test]
fn resumed_index_equals_the_computed_index() {
    let session = Session::from_id(0, "capture".to_string());
    let config = PipelineConfig::default();
    let input = raw_index();

    let plans = match stage_work(&config, Stage::MaskFrames, false, &session, &input) {
        StageWork::Compute(plans) => plans,
        other => panic!("expected the stage to compute, got {other:?}"),
    };
    let mut computed = FrameIndex::new();
    record(&mut computed, &plans);

    assert!(matches!(
        stage_work(&config, Stage::MaskFrames, true, &session, &input),
        StageWork::Resume
    ));
    let mut resumed = FrameIndex::new();
    assert_eq!(merge_listing(&mut resumed, &written(&plans), "png"), Ok(()));
    assert_eq!(entries(&resumed), entries(&computed));

    let mut again = FrameIndex::new();
    assert_eq!(merge_listing(&mut again, &written(&plans), "png"), Ok(()));
    assert_eq!(entries(&again), entries(&resumed));
}

#[test]
fn resumed_index_does_not_depend_on_the_order_on_disk() {
    let plans = plan_stage(&raw_index(), "capture/0/masks", "png");
    let mut computed = FrameIndex::new();
    record(&mut computed, &plans);
    let mut listing = written(&plans);
    listing.reverse();
    for stream in listing.iter_mut() {
        stream.files.reverse();
    }
    let mut resumed = FrameIndex::new();
    assert_eq!(merge_listing(&mut resumed, &listing, "png"), Ok(()));
    assert_eq!(entries(&resumed), entries(&computed));
}

#[test]
fn stage_that_is_not_selected_is_skipped() {
    let session = Session::from_id(0, "capture".to_string());
    let mut config = PipelineConfig::default();
    config.mask_frames = false;
    for exists in [false, true] {
        assert!(matches!(
            stage_work(&config, Stage::MaskFrames, exists, &session, &raw_index()),
            StageWork::Skip
        ));
        assert!(matches!(
            stage_work(&config, Stage::AlphablendFrames, exists, &session, &raw_index()),
            StageWork::Skip
        ));
    }
}

#[test]
fn stage_on_disk_is_resumed() {
    let session = Session::from_id(0, "capture".to_string());
    let config = PipelineConfig::default();
    for stage in [Stage::RotatedFrames, Stage::MaskFrames, Stage::YoloFrames] {
        assert!(matches!(
            stage_work(&config, stage, true, &session, &raw_index()),
            StageWork::Resume
        ));
    }
}

#[test]
fn stage_that_is_missing_is_computed_in_its_directory() {
    let session = Session::from_id(4, "capture".to_string());
    let config = PipelineConfig::default();
    match stage_work(&config, Stage::YoloFrames, false, &session, &raw_index()) {
        StageWork::Compute(plans) => {
            assert_eq!(plans.len(), 2);
            assert_eq!(plans[0].directory, "capture/4/yolo_frames/0");
            assert_eq!(plans[1].jobs[0].output, "capture/4/yolo_frames/1/1.json");
        }
        other => panic!("expected the stage to compute, got {other:?}"),
    }
    match stage_work(&config, Stage::RotatedFrames, false, &session, &raw_index()) {
        StageWork::Compute(plans) => {
            assert_eq!(plans[0].jobs[0].output, "capture/4/rotated_frames/0/1.png");
        }
        other => panic!("expected the stage to compute, got {other:?}"),
    }
}

#[test]
fn raw_frames_are_extracted_per_clip() {
    let raw = RawStreams { streams: paths(&["capture/0/raw/1.mp4", "capture/0/raw/0.mp4"]) };
    let runs = plan_raw_frames(&raw, "capture/0/frames").unwrap();
    assert_eq!(runs.len(), 2);
    assert_eq!(runs[0].mp4_path, "capture/0/raw/1.mp4");
    assert_eq!(runs[0].output_directory, "capture/0/frames/1");
    assert_eq!(runs[0].fps, 5);
    assert_eq!(runs[0].width, 1920);
    assert_eq!(runs[0].height, 1080);
    assert_eq!(runs[0].interpolation, "lanczos");
    assert_eq!(runs[1].mp4_path, "capture/0/raw/0.mp4");
    assert_eq!(runs[1].output_directory, "capture/0/frames/0");
    assert_eq!(
        runs[1].arguments()[10],
        "capture/0/frames/0/%d.png"
    );
}

#[test]
fn clip_without_a_number_is_refused() {
    let raw = RawStreams { streams: paths(&["capture/0/raw/0.mp4", "capture/0/raw/front.mp4"]) };
    assert_eq!(plan_raw_frames(&raw, "capture/0/frames").unwrap_err(), LayoutError::StreamName);
}

#[test]
fn raw_frames_work_follows_the_flag_and_the_disk() {
    let session = Session::from_id(0, "capture".to_string());
    let raw = RawStreams { streams: paths(&["capture/0/raw/0.mp4"]) };
    let mut config = PipelineConfig::default();
    assert!(matches!(raw_frames_work(&config, true, &session, &raw), Ok(RawFramesWork::Resume)));
    match raw_frames_work(&config, false, &session, &raw) {
        Ok(RawFramesWork::Extract(runs)) => {
            assert_eq!(runs.len(), 1);
            assert_eq!(runs[0].output_directory, "capture/0/frames/0");
        }
        other => panic!("expected an extraction, got {other:?}"),
    }
    let unnamed = RawStreams { streams: paths(&["capture/0/raw/clip.mp4"]) };
    assert!(matches!(
        raw_frames_work(&config, false, &session, &unnamed),
        Err(LayoutError::StreamName)
    ));
    assert!(matches!(
        raw_frames_work(&config, true, &session, &unnamed),
        Ok(RawFramesWork::Resume)
    ));
    config.raw_frames = false;
    assert!(matches!(raw_frames_work(&config, false, &session, &unnamed), Ok(RawFramesWork::Skip)));
    assert!(matches!(raw_frames_work(&config, true, &session, &raw), Ok(RawFramesWork::Skip)));
}

#[test]
fn records_are_numbered_from_zero() {
    assert_eq!(
        numbered_artifacts("s/yolo_frames/2", 3, "json"),
        paths(&["s/yolo_frames/2/0.json", "s/yolo_frames/2/1.json", "s/yolo_frames/2/2.json"])
    );
    assert!(numbered_artifacts("s/yolo_frames/2", 0, "json").is_empty());
}

fn listing_of(plans: &[StreamPlan]) -> Vec<StreamListing> {
    written(plans)
}

#[test]
fn complete_stage_directory_holds_every_artifact() {
    let plans = plan_stage(&raw_index(), "capture/0/masks", "png");
    let mut listing = listing_of(&plans);
    assert!(all_written(&plans, &listing));
    listing.reverse();
    listing[0].files.push("capture/0/masks/1/notes.txt".to_string());
    assert!(all_written(&plans, &listing));
    listing[0].files.retain(|f| f != "capture/0/masks/1/2.png");
    assert!(!all_written(&plans, &listing));
    assert!(!all_written(&plans, &vec![]));
    assert!(all_written(&vec![], &vec![]));
}

#[test]
fn half_written_stage_is_computed_again() {
    let session = Session::from_id(0, "capture".to_string());
    let config = PipelineConfig::default();
    let input = raw_index();
    let plans = plan_stage(&input, "capture/0/masks", "png");

    let complete = listing_of(&plans);
    assert!(matches!(
        checked_stage_work(&config, Stage::MaskFrames, Some(&complete), &session, &input),
        StageWork::Resume
    ));

    let mut partial = listing_of(&plans);
    partial[1].files.pop();
    match checked_stage_work(&config, Stage::MaskFrames, Some(&partial), &session, &input) {
        StageWork::Compute(again) => assert_eq!(again.len(), 2),
        other => panic!("expected the stage to compute, got {other:?}"),
    }
    assert!(matches!(
        checked_stage_work(&config, Stage::MaskFrames, Some(&vec![]), &session, &input),
        StageWork::Compute(_)
    ));
    assert!(matches!(
        checked_stage_work(&config, Stage::MaskFrames, None, &session, &input),
        StageWork::Compute(_)
    ));
    assert!(matches!(
        checked_stage_work(&config, Stage::MaskFrames, Some(&vec![]), &session, &FrameIndex::new()),
        StageWork::Resume
    ));

    let mut off = PipelineConfig::default();
    off.mask_frames = false;
    assert!(matches!(
        checked_stage_work(&off, Stage::MaskFrames, Some(&complete), &session, &input),
        StageWork::Skip
    ));
}

#[test]
fn stage_whose_jobs_all_succeeded_is_entered() {
    let plans = plan_stage(&raw_index(), "capture/0/masks", "png");
    let mut index = FrameIndex::new();
    assert_eq!(finish_stage(&mut index, &plans, &vec![vec![true], vec![true, true]]), Ok(()));
    let mut expected = FrameIndex::new();
    record(&mut expected, &plans);
    assert_eq!(entries(&index), entries(&expected));
    assert_eq!(
        entries(&index),
        vec![
            (0, paths(&["capture/0/masks/0/1.png"])),
            (1, paths(&["capture/0/masks/1/1.png", "capture/0/masks/1/2.png"])),
        ]
    );
}

#[test]
fn failed_job_aborts_the_stage_and_enters_nothing() {
    let plans = plan_stage(&raw_index(), "capture/0/masks", "png");
    let mut index = FrameIndex::new();
    index.insert(StreamId(9), paths(&["kept"]));
    for outcomes in [
        vec![vec![false], vec![true, true]],
        vec![vec![true], vec![true, false]],
        vec![vec![false], vec![false, false]],
    ] {
        assert_eq!(finish_stage(&mut index, &plans, &outcomes), Err(StageError::JobFailed));
        assert_eq!(entries(&index), vec![(9, paths(&["kept"]))]);
    }
}

#[test]
fn missing_outcome_aborts_the_stage() {
    let plans = plan_stage(&raw_index(), "capture/0/masks", "png");
    let mut index = FrameIndex::new();
    for outcomes in [
        vec![],
        vec![vec![true]],
        vec![vec![true], vec![true]],
        vec![vec![true], vec![true, true, true]],
        vec![vec![true], vec![true, true], vec![]],
        vec![vec![], vec![false, false]],
    ] {
        assert_eq!(finish_stage(&mut index, &plans, &outcomes), Err(StageError::OutcomeMissing));
        assert_eq!(index.len(), 0);
    }
}

#[test]
fn stage_without_jobs_ends_well() {
    let mut index = FrameIndex::new();
    assert_eq!(finish_stage(&mut index, &vec![], &vec![]), Ok(()));
    assert_eq!(index.len(), 0);
}

#[test]
fn failed_extraction_aborts_the_stage() {
    let raw = RawStreams { streams: paths(&["capture/0/raw/0.mp4", "capture/0/raw/1.mp4"]) };
    let runs = plan_raw_frames(&raw, "capture/0/frames").unwrap();
    assert_eq!(finish_extraction(&runs, &vec![true, true]), Ok(()));
    assert_eq!(finish_extraction(&runs, &vec![true, false]), Err(StageError::JobFailed));
    assert_eq!(finish_extraction(&runs, &vec![false, true]), Err(StageError::JobFailed));
    assert_eq!(finish_extraction(&runs, &vec![true]), Err(StageError::OutcomeMissing));
    assert_eq!(finish_extraction(&runs, &vec![true, true, false]), Err(StageError::OutcomeMissing));
    assert_eq!(finish_extraction(&vec![], &vec![]), Ok(()));
}

#[test]
fn completion_marker_lies_in_the_stage_directory() {
    assert_eq!(completion_marker("capture/0/frames"), "capture/0/frames/.complete");
}

#[test]
fn half_extracted_frames_are_extracted_again() {
    let session = Session::from_id(0, "capture".to_string());
    let raw = RawStreams { streams: paths(&["capture/0/raw/0.mp4"]) };
    let mut config = PipelineConfig::default();
    assert!(matches!(
        checked_raw_frames_work(&config, true, true, &session, &raw),
        Ok(RawFramesWork::Resume)
    ));
    for (found, complete) in [(true, false), (false, false), (false, true)] {
        match checked_raw_frames_work(&config, found, complete, &session, &raw) {
            Ok(RawFramesWork::Extract(runs)) => {
                assert_eq!(runs.len(), 1);
                assert_eq!(runs[0].output_directory, "capture/0/frames/0");
            }
            other => panic!("expected an extraction, got {other:?}"),
        }
    }
    let unnamed = RawStreams { streams: paths(&["capture/0/raw/clip.mp4"]) };
    assert!(matches!(
        checked_raw_frames_work(&config, true, false, &session, &unnamed),
        Err(LayoutError::StreamName)
    ));
    config.raw_frames = false;
    assert!(matches!(
        checked_raw_frames_work(&config, true, true, &session, &raw),
        Ok(RawFramesWork::Skip)
    ));
}
