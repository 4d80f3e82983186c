use bevy_light_field::listing::{LayoutError, StreamListing};
use bevy_light_field::outputs::{
    load_stage, AlphablendFrames, MaskFrames, RawFrames, RotatedFrames, YoloFrames,
};
use bevy_light_field::pipeline::{RawStreams, Session, Stage};
use bevy_light_field::plan::{plan_raw_frames, StageError};
use bevy_light_field::stream::StreamId;

fn paths(list: &[&str]) -> Vec<String> {
    list.iter().map(|s| s.to_string()).collect()
}

fn listed(name: &str, files: &[&str]) -> StreamListing {
    StreamListing { name: name.to_string(), files: paths(files) }
}

fn session() -> Session {
    Session::from_id(5, "capture".to_string())
}

#[test]
fn raw_frames_are_loaded_from_their_listing() {
    let listing = vec![listed("0", &["f/0/2.png", "f/0/1.png", "f/0/1.json"])];
    let raw = RawFrames::load_from_session(&session(), &listing).unwrap();
    assert_eq!(raw.directory, "capture/5/frames");
    assert_eq!(raw.frames.get(StreamId(0)), Some(&paths(&["f/0/1.png", "f/0/2.png"])));
    assert_eq!(RawFrames::directory_in(&session()), "capture/5/frames");
}

#[test]
fn rotated_frames_are_loaded_from_their_listing() {
    let listing = vec![listed("3", &["r/3/10.png", "r/3/9.png"])];
    let rotated = RotatedFrames::load_from_session(&session(), &listing).unwrap();
    assert_eq!(rotated.directory, "capture/5/rotated_frames");
    assert_eq!(rotated.frames.get(StreamId(3)), Some(&paths(&["r/3/9.png", "r/3/10.png"])));
    assert_eq!(RotatedFrames::directory_in(&session()), "capture/5/rotated_frames");
}

#[test]
fn mask_frames_are_loaded_from_their_listing() {
    let listing = vec![listed("1", &["m/1/0.png"])];
    let masks = MaskFrames::load_from_session(&session(), &listing).unwrap();
    assert_eq!(masks.directory, "capture/5/masks");
    assert_eq!(masks.frames.get(StreamId(1)), Some(&paths(&["m/1/0.png"])));
    assert_eq!(MaskFrames::directory_in(&session()), "capture/5/masks");
}

#[test]
fn yolo_frames_are_loaded_from_their_records() {
    let listing = vec![listed("1", &["y/1/1.json", "y/1/0.json", "y/1/0.png"])];
    let yolo = YoloFrames::load_from_session(&session(), &listing).unwrap();
    assert_eq!(yolo.directory, "capture/5/yolo_frames");
    assert_eq!(yolo.frames.get(StreamId(1)), Some(&paths(&["y/1/0.json", "y/1/1.json"])));
    assert_eq!(YoloFrames::directory_in(&session()), "capture/5/yolo_frames");
}

#[test]
fn alphablend_frames_are_loaded_from_their_listing() {
    let blended = AlphablendFrames::load_from_session(&session(), &vec![]).unwrap();
    assert_eq!(blended.directory, "capture/5/alphablend");
    assert_eq!(blended.frames.len(), 0);
    assert_eq!(AlphablendFrames::directory_in(&session()), "capture/5/alphablend");
}

#[test]
fn loading_refuses_wrong_names() {
    let unnamed_stream = vec![listed("cam", &[])];
    assert_eq!(
        RawFrames::load_from_session(&session(), &unnamed_stream).unwrap_err(),
        LayoutError::StreamName
    );
    let unnamed_frame = vec![listed("0", &["m/0/mask.png"])];
    assert_eq!(
        MaskFrames::load_from_session(&session(), &unnamed_frame).unwrap_err(),
        LayoutError::FrameName
    );
    assert!(YoloFrames::load_from_session(&session(), &unnamed_frame).is_ok());
    assert_eq!(
        load_stage(Stage::RotatedFrames, &session(), &unnamed_frame).unwrap_err(),
        LayoutError::FrameName
    );
}

#[test]
fn reload_adds_to_what_is_loaded() {
    let mut masks = MaskFrames::load_from_session(&session(), &vec![listed("0", &["m/0/1.png"])])
        .unwrap();
    assert_eq!(masks.reload(&vec![listed("1", &["m/1/1.png"])]), Ok(()));
    assert_eq!(masks.frames.len(), 2);
    assert_eq!(masks.reload(&vec![listed("0", &["m/0/2.png", "m/0/1.png"])]), Ok(()));
    assert_eq!(masks.frames.get(StreamId(0)), Some(&paths(&["m/0/1.png", "m/0/2.png"])));
    assert_eq!(masks.reload(&vec![listed("x", &[])]), Err(LayoutError::StreamName));
    assert_eq!(masks.frames.len(), 2);
    assert_eq!(masks.directory, "capture/5/masks");
}

#[test]
fn reloading_twice_changes_nothing() {
    let listing = vec![listed("0", &["f/0/2.png", "f/0/1.png"]), listed("1", &["f/1/1.png"])];
    let mut raw = RawFrames::load_from_session(&session(), &listing).unwrap();
    let first: Vec<(usize, Vec<String>)> =
        raw.frames.streams().iter().map(|s| (s.stream_id.0, s.frames.clone())).collect();
    assert_eq!(raw.reload(&listing), Ok(()));
    let second: Vec<(usize, Vec<String>)> =
        raw.frames.streams().iter().map(|s| (s.stream_id.0, s.frames.clone())).collect();
    assert_eq!(first, second);
    let mut rotated = RotatedFrames::load_from_session(&session(), &listing).unwrap();
    assert_eq!(rotated.reload(&listing), Ok(()));
    let mut yolo = YoloFrames::load_from_session(&session(), &vec![]).unwrap();
    assert_eq!(yolo.reload(&vec![listed("2", &["y/2/0.json"])]), Ok(()));
    assert_eq!(yolo.frames.get(StreamId(2)), Some(&paths(&["y/2/0.json"])));
    let mut blended = AlphablendFrames::load_from_session(&session(), &vec![]).unwrap();
    assert_eq!(blended.reload(&listing), Ok(()));
    assert_eq!(blended.frames.len(), 2);
}

#[test]
fn raw_frames_are_there_only_after_every_run_succeeded() {
    let raw = RawStreams { streams: paths(&["capture/5/raw/0.mp4", "capture/5/raw/1.mp4"]) };
    let runs = plan_raw_frames(&raw, "capture/5/frames").unwrap();
    let listing = vec![listed("0", &["f/0/2.png", "f/0/1.png"]), listed("1", &["f/1/1.png"])];

    let frames = RawFrames::load_extracted(&session(), &runs, &vec![true, true], &listing).unwrap();
    assert_eq!(frames.directory, "capture/5/frames");
    assert_eq!(frames.frames.get(StreamId(0)), Some(&paths(&["f/0/1.png", "f/0/2.png"])));
    assert_eq!(frames.frames.get(StreamId(1)), Some(&paths(&["f/1/1.png"])));

    assert_eq!(
        RawFrames::load_extracted(&session(), &runs, &vec![true, false], &listing).unwrap_err(),
        StageError::JobFailed
    );
    assert_eq!(
        RawFrames::load_extracted(&session(), &runs, &vec![true], &listing).unwrap_err(),
        StageError::OutcomeMissing
    );
    let unnamed = vec![listed("0", &["f/0/cover.png"])];
    assert_eq!(
        RawFrames::load_extracted(&session(), &runs, &vec![true, true], &unnamed).unwrap_err(),
        StageError::Layout(LayoutError::FrameName)
    );
    assert_eq!(
        RawFrames::load_extracted(&session(), &runs, &vec![false, true], &unnamed).unwrap_err(),
        StageError::JobFailed
    );
}
