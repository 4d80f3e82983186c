use bevy_light_field::pipeline::{
    get_next_session_id, PipelineConfig, RawStreams, Session, Stage,
};
use bevy_light_field::stream::StreamId;

fn names(list: &[&str]) -> Vec<String> {
    list.iter().map(|s| s.to_string()).collect()
}

#[test]
fn stages_have_their_directories() {
    assert_eq!(Stage::RawFrames.directory_name(), "frames");
    assert_eq!(Stage::RotatedFrames.directory_name(), "rotated_frames");
    assert_eq!(Stage::MaskFrames.directory_name(), "masks");
    assert_eq!(Stage::YoloFrames.directory_name(), "yolo_frames");
    assert_eq!(Stage::AlphablendFrames.directory_name(), "alphablend");
}

#[test]
fn stages_have_their_extensions() {
    assert_eq!(Stage::RawFrames.extension(), "png");
    assert_eq!(Stage::RotatedFrames.extension(), "png");
    assert_eq!(Stage::MaskFrames.extension(), "png");
    assert_eq!(Stage::YoloFrames.extension(), "json");
    assert_eq!(Stage::AlphablendFrames.extension(), "png");
}

#[test]
fn stages_read_the_stage_before_them() {
    assert_eq!(Stage::RawFrames.input(), None);
    assert_eq!(Stage::RotatedFrames.input(), Some(Stage::RawFrames));
    assert_eq!(Stage::MaskFrames.input(), Some(Stage::RotatedFrames));
    assert_eq!(Stage::YoloFrames.input(), Some(Stage::RawFrames));
    assert_eq!(Stage::AlphablendFrames.input(), None);
}

#[test]
fn stage_directories_lie_in_the_session() {
    let session = Session::from_id(3, "capture".to_string());
    assert_eq!(Stage::RawFrames.directory(&session), "capture/3/frames");
    assert_eq!(Stage::RotatedFrames.directory(&session), "capture/3/rotated_frames");
    assert_eq!(Stage::MaskFrames.directory(&session), "capture/3/masks");
    assert_eq!(Stage::YoloFrames.directory(&session), "capture/3/yolo_frames");
    assert_eq!(Stage::AlphablendFrames.directory(&session), "capture/3/alphablend");
}

#[test]
fn default_config_runs_extraction_rotation_detection_and_matting() {
    let config = PipelineConfig::default();
    assert_eq!(
        config,
        PipelineConfig {
            raw_frames: true,
            rotate_raw_frames: true,
            yolo: true,
            repair_frames: false,
            upsample_frames: false,
            mask_frames: true,
            light_field_cameras: false,
            depth_maps: false,
            gaussian_cloud: false,
        }
    );
    assert!(config.selects(Stage::RawFrames));
    assert!(config.selects(Stage::RotatedFrames));
    assert!(config.selects(Stage::MaskFrames));
    assert!(config.selects(Stage::YoloFrames));
    assert!(!config.selects(Stage::AlphablendFrames));
}

#[test]
fn config_flags_select_their_stages() {
    let mut config = PipelineConfig::default();
    config.raw_frames = false;
    assert!(!config.selects(Stage::RawFrames));
    assert!(config.selects(Stage::RotatedFrames));
    config.rotate_raw_frames = false;
    assert!(!config.selects(Stage::RotatedFrames));
    config.mask_frames = false;
    assert!(!config.selects(Stage::MaskFrames));
    assert!(config.selects(Stage::YoloFrames));
    config.yolo = false;
    assert!(!config.selects(Stage::YoloFrames));
}

#[test]
fn first_session_has_the_number_zero() {
    assert_eq!(get_next_session_id(&vec![]), Some(0));
    assert_eq!(get_next_session_id(&names(&["tmp", "a1", ""])), Some(0));
}

#[test]
fn next_session_follows_the_largest_number() {
    assert_eq!(get_next_session_id(&names(&["0"])), Some(1));
    assert_eq!(get_next_session_id(&names(&["0", "2", "x", "1"])), Some(3));
    assert_eq!(get_next_session_id(&names(&["7", "007", "3"])), Some(8));
    assert_eq!(get_next_session_id(&names(&["41", "-50", "5.5"])), Some(42));
}

#[test]
fn session_numbers_run_out_at_the_largest() {
    assert_eq!(get_next_session_id(&names(&["1", &usize::MAX.to_string()])), None);
    assert_eq!(
        get_next_session_id(&names(&[&(usize::MAX - 1).to_string()])),
        Some(usize::MAX)
    );
}

#[test]
fn session_from_id_lies_under_the_root() {
    let session = Session::from_id(7, "capture".to_string());
    assert_eq!(session.id, 7);
    assert_eq!(session.directory, "capture/7");
    let session = Session::from_id(0, "/data/runs".to_string());
    assert_eq!(session.directory, "/data/runs/0");
}

#[test]
fn new_session_takes_the_next_number() {
    let session = Session::new("capture".to_string(), &names(&["0", "1", "notes"])).unwrap();
    assert_eq!(session.id, 2);
    assert_eq!(session.directory, "capture/2");
    let first = Session::new("capture".to_string(), &vec![]).unwrap();
    assert_eq!(first.id, 0);
    assert_eq!(first.directory, "capture/0");
    assert!(Session::new("capture".to_string(), &names(&[&usize::MAX.to_string()])).is_none());
}

#[test]
fn raw_clips_lie_under_raw() {
    let session = Session::from_id(2, "capture".to_string());
    assert_eq!(session.raw_directory(), "capture/2/raw");
    assert_eq!(session.raw_stream_path(StreamId(0)), "capture/2/raw/0.mp4");
    assert_eq!(session.raw_stream_path(StreamId(13)), "capture/2/raw/13.mp4");
}

#[test]
fn raw_streams_hold_the_listed_clips() {
    let raw = RawStreams::load_from_session(names(&["capture/2/raw/1.mp4", "capture/2/raw/0.mp4"]));
    assert_eq!(raw.streams, names(&["capture/2/raw/1.mp4", "capture/2/raw/0.mp4"]));
}
