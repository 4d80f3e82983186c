use bevy_light_field::pipeline::Session;
use bevy_light_field::stream::{
    apply_decode, Delivery, FrameError, FrameSlot, RegistryError, RtspStreamHandle,
    RtspStreamManager, StreamDescriptor, StreamId, StreamTransport, StreamUris, TargetImage,
};

fn picture(width: u32, height: u32, value: u8) -> Vec<u8> {
    vec![value; (width * height * 4) as usize]
}

fn descriptor(visible: Option<bool>, person_detection: Option<bool>) -> StreamDescriptor {
    StreamDescriptor {
        uri: "rtsp://camera/stream".to_string(),
        transport: StreamTransport::default(),
        visible,
        person_detection,
    }
}

#[test]
fn transport_defaults_to_tcp() {
    assert_eq!(StreamTransport::default(), StreamTransport::Tcp);
}

#[test]
fn descriptor_flags_default_to_off() {
    assert!(!descriptor(None, None).is_visible());
    assert!(!descriptor(Some(false), None).is_visible());
    assert!(descriptor(Some(true), None).is_visible());
    assert!(!descriptor(None, None).detects_persons());
    assert!(!descriptor(None, Some(false)).detects_persons());
    assert!(descriptor(None, Some(true)).detects_persons());
}

#[test]
fn streams_are_matted_for_automatic_recording_only() {
    assert!(descriptor(None, Some(true)).is_matted(true));
    assert!(!descriptor(None, Some(true)).is_matted(false));
    assert!(!descriptor(None, None).is_matted(true));
    assert!(!descriptor(Some(true), Some(false)).is_matted(true));
}

#[test]
fn streams_are_numbered_in_the_order_of_the_configuration() {
    let uris = StreamUris(vec![descriptor(None, None), descriptor(None, None), descriptor(None, None)]);
    assert_eq!(uris.stream_ids(), vec![StreamId(0), StreamId(1), StreamId(2)]);
    assert!(StreamUris(vec![]).stream_ids().is_empty());
}

#[test]
fn empty_slot_has_nothing_to_take() {
    let mut slot = FrameSlot::new();
    assert!(slot.take().is_none());
}

#[test]
fn slot_holds_the_latest_picture() {
    let mut slot = FrameSlot::new();
    for value in 1..=5u8 {
        assert_eq!(slot.publish(4, 2, picture(4, 2, value)), Ok(()));
    }
    let frame = slot.take().expect("a frame");
    assert_eq!(frame.width, 4);
    assert_eq!(frame.height, 2);
    assert_eq!(frame.data, picture(4, 2, 5));
}

#[test]
fn no_frame_is_delivered_twice() {
    let mut slot = FrameSlot::new();
    assert_eq!(slot.publish(2, 2, picture(2, 2, 9)), Ok(()));
    assert!(slot.take().is_some());
    assert!(slot.take().is_none());
    assert_eq!(slot.publish(2, 2, picture(2, 2, 8)), Ok(()));
    assert_eq!(slot.take().unwrap().data, picture(2, 2, 8));
    assert!(slot.take().is_none());
}

#[test]
fn change_of_resolution_is_refused() {
    let mut slot = FrameSlot::new();
    assert_eq!(slot.publish(4, 2, picture(4, 2, 1)), Ok(()));
    assert_eq!(slot.publish(2, 4, picture(2, 4, 2)), Err(FrameError::ResolutionChanged));
    assert_eq!(slot.publish(4, 4, picture(4, 4, 2)), Err(FrameError::ResolutionChanged));
    let frame = slot.take().unwrap();
    assert_eq!((frame.width, frame.height), (4, 2));
    assert_eq!(frame.data, picture(4, 2, 1));
}

#[test]
fn emptied_slot_takes_any_resolution() {
    let mut slot = FrameSlot::new();
    assert_eq!(slot.publish(4, 2, picture(4, 2, 1)), Ok(()));
    assert!(slot.take().is_some());
    assert_eq!(slot.publish(8, 8, picture(8, 8, 2)), Ok(()));
}

#[test]
fn what_is_no_picture_is_refused() {
    let mut slot = FrameSlot::new();
    assert_eq!(slot.publish(0, 2, vec![]), Err(FrameError::NotAPicture));
    assert_eq!(slot.publish(2, 0, vec![]), Err(FrameError::NotAPicture));
    assert_eq!(slot.publish(2, 2, vec![0; 15]), Err(FrameError::NotAPicture));
    assert_eq!(slot.publish(2, 2, vec![0; 17]), Err(FrameError::NotAPicture));
    assert!(slot.take().is_none());
    assert_eq!(slot.publish(2, 2, picture(2, 2, 3)), Ok(()));
    assert_eq!(slot.publish(2, 2, vec![0; 4]), Err(FrameError::NotAPicture));
    assert_eq!(slot.take().unwrap().data, picture(2, 2, 3));
}

#[test]
fn placeholder_is_a_black_square() {
    let image = TargetImage::placeholder();
    assert_eq!((image.width, image.height), (32, 32));
    assert_eq!(image.data, vec![0u8; 32 * 32 * 4]);
}

#[test]
fn poll_without_a_frame_changes_nothing() {
    let mut slot = FrameSlot::new();
    let mut image = TargetImage { width: 2, height: 1, data: vec![1, 2, 3, 4, 5, 6, 7, 8] };
    assert_eq!(apply_decode(&mut slot, &mut image), Delivery::Nothing);
    assert_eq!((image.width, image.height), (2, 1));
    assert_eq!(image.data, vec![1, 2, 3, 4, 5, 6, 7, 8]);
}

#[test]
fn poll_resizes_the_image_to_the_frame() {
    let mut slot = FrameSlot::new();
    let mut image = TargetImage::placeholder();
    slot.publish(4, 2, picture(4, 2, 7)).unwrap();
    assert_eq!(apply_decode(&mut slot, &mut image), Delivery::Resized);
    assert_eq!((image.width, image.height), (4, 2));
    assert_eq!(image.data, picture(4, 2, 7));
    assert_eq!(apply_decode(&mut slot, &mut image), Delivery::Nothing);
    slot.publish(4, 2, picture(4, 2, 8)).unwrap();
    assert_eq!(apply_decode(&mut slot, &mut image), Delivery::Copied);
    assert_eq!(image.data, picture(4, 2, 8));
}

#[test]
fn slow_polling_sees_the_most_recent_frame_only() {
    let mut slot = FrameSlot::new();
    let mut image = TargetImage::placeholder();
    let mut delivered = Vec::new();
    for value in 1..=30u8 {
        slot.publish(2, 2, picture(2, 2, value)).unwrap();
        if value % 7 == 0 {
            assert_ne!(apply_decode(&mut slot, &mut image), Delivery::Nothing);
            assert_eq!(image.data, picture(2, 2, value));
            delivered.push(image.data[0]);
            assert_eq!(apply_decode(&mut slot, &mut image), Delivery::Nothing);
        }
    }
    assert_eq!(delivered, vec![7, 14, 21, 28]);
}

#[test]
fn two_cameras_keep_their_own_latest_frames() {
    let mut slots = [FrameSlot::new(), FrameSlot::new()];
    for value in 1..=10u8 {
        slots[0].publish(4, 2, picture(4, 2, value)).unwrap();
        slots[1].publish(2, 2, picture(2, 2, 100 + value)).unwrap();
    }
    assert_eq!(slots[0].take().unwrap().data, picture(4, 2, 10));
    assert_eq!(slots[1].take().unwrap().data, picture(2, 2, 110));
}

#[test]
fn manager_registers_each_camera_once() {
    let mut manager = RtspStreamManager::new();
    assert!(!manager.contains(StreamId(0)));
    assert_eq!(manager.add_stream(StreamId(0)), Ok(()));
    assert_eq!(manager.add_stream(StreamId(1)), Ok(()));
    assert!(manager.contains(StreamId(0)));
    assert!(manager.contains(StreamId(1)));
    assert!(!manager.contains(StreamId(2)));
    assert_eq!(manager.add_stream(StreamId(0)), Err(RegistryError::DuplicateStreamId));
    assert!(manager.contains(StreamId(0)));
}

#[test]
fn cameras_that_are_not_ready_are_passed_over() {
    let session = Session::from_id(4, "capture".to_string());
    let mut manager = RtspStreamManager::new();
    manager.add_stream(StreamId(0)).unwrap();
    manager.add_stream(StreamId(1)).unwrap();
    manager.add_stream(StreamId(2)).unwrap();
    assert!(manager.start_recording(&session).is_empty());
    assert!(manager.stop_recording().is_empty());

    assert!(manager.set_ready(StreamId(2), true));
    assert!(manager.set_ready(StreamId(0), true));
    assert!(!manager.set_ready(StreamId(9), true));
    assert_eq!(manager.ready_streams(), vec![StreamId(0), StreamId(2)]);
    let targets = manager.start_recording(&session);
    assert_eq!(targets.len(), 2);
    assert_eq!(targets[0].id, StreamId(0));
    assert_eq!(targets[0].path, "capture/4/raw/0.mp4");
    assert_eq!(targets[1].id, StreamId(2));
    assert_eq!(targets[1].path, "capture/4/raw/2.mp4");
    assert_eq!(manager.stop_recording(), vec!["0.mp4", "2.mp4"]);

    assert!(manager.set_ready(StreamId(0), false));
    assert_eq!(manager.stop_recording(), vec!["2.mp4"]);
}

#[test]
fn handles_compare_by_number_and_readiness() {
    assert_eq!(
        RtspStreamHandle { id: StreamId(1), ready: true },
        RtspStreamHandle { id: StreamId(1), ready: true }
    );
    assert_ne!(
        RtspStreamHandle { id: StreamId(1), ready: true },
        RtspStreamHandle { id: StreamId(1), ready: false }
    );
}
