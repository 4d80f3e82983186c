use bevy_light_field::index::FrameIndex;
use bevy_light_field::pipeline::Stage;
use bevy_light_field::stream::StreamId;
use bevy_light_field::viewer::{
    annotation_stage, frame_at, frames_at, next_frame, previous_frame, OfflineAnnotation,
    ViewError,
};

fn paths(list: &[&str]) -> Vec<String> {
    list.iter().map(|s| s.to_string()).collect()
}

#[test]
fn viewer_shows_the_composite_by_default() {
    assert_eq!(OfflineAnnotation::default(), OfflineAnnotation::Alphablend);
}

#[test]
fn annotations_are_shown_from_their_stages() {
    assert_eq!(annotation_stage(OfflineAnnotation::Raw), Ok(Stage::RawFrames));
    assert_eq!(annotation_stage(OfflineAnnotation::Rotated), Ok(Stage::RotatedFrames));
    assert_eq!(annotation_stage(OfflineAnnotation::Mask), Ok(Stage::MaskFrames));
    assert_eq!(annotation_stage(OfflineAnnotation::Alphablend), Ok(Stage::AlphablendFrames));
    assert_eq!(annotation_stage(OfflineAnnotation::Yolo), Err(ViewError::NoImages));
}

#[test]
fn frame_is_picked_in_frame_order() {
    let frames = paths(&["f/10.png", "f/2.png", "f/1.png"]);
    assert_eq!(frame_at(&frames, 0), Ok("f/1.png".to_string()));
    assert_eq!(frame_at(&frames, 1), Ok("f/2.png".to_string()));
    assert_eq!(frame_at(&frames, 2), Ok("f/10.png".to_string()));
    assert_eq!(frame_at(&frames, 3), Err(ViewError::NoSuchFrame));
    assert_eq!(frame_at(&vec![], 0), Err(ViewError::NoSuchFrame));
}

#[test]
fn frame_without_a_number_cannot_be_ordered() {
    assert_eq!(frame_at(&paths(&["f/1.png", "f/x.png"]), 0), Err(ViewError::FrameName));
    assert_eq!(frame_at(&paths(&["f/1.png", "f/x.png"]), 9), Err(ViewError::FrameName));
}

#[test]
fn one_frame_of_every_stream_is_shown_in_stream_order() {
    let mut index = FrameIndex::new();
    index.insert(StreamId(2), paths(&["c/2.png", "c/1.png"]));
    index.insert(StreamId(0), paths(&["a/1.png", "a/2.png"]));
    index.insert(StreamId(1), paths(&["b/02.png", "b/01.png", "b/03.png"]));
    assert_eq!(frames_at(&index, 0), Ok(paths(&["a/1.png", "b/01.png", "c/1.png"])));
    assert_eq!(frames_at(&index, 1), Ok(paths(&["a/2.png", "b/02.png", "c/2.png"])));
    assert_eq!(frames_at(&index, 2), Err(ViewError::NoSuchFrame));
    assert_eq!(frames_at(&FrameIndex::new(), 0), Ok(vec![]));
}

#[test]
fn first_stream_without_the_frame_decides_the_error() {
    let mut index = FrameIndex::new();
    index.insert(StreamId(0), paths(&["a/1.png"]));
    index.insert(StreamId(1), paths(&["b/x.png"]));
    assert_eq!(frames_at(&index, 0), Err(ViewError::FrameName));
    assert_eq!(frames_at(&index, 1), Err(ViewError::NoSuchFrame));
}

#[test]
fn navigation_stops_at_the_ends() {
    assert_eq!(previous_frame(0), 0);
    assert_eq!(previous_frame(1), 0);
    assert_eq!(previous_frame(usize::MAX), usize::MAX - 1);
    assert_eq!(next_frame(0), 1);
    assert_eq!(next_frame(41), 42);
    assert_eq!(next_frame(usize::MAX), usize::MAX);
}
