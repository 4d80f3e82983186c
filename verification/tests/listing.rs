use bevy_light_field::index::FrameIndex;
use bevy_light_field::listing::{
    clone_strings, files_with_extension, merge_listing, sort_frames, LayoutError, StreamListing,
};
use bevy_light_field::stream::StreamId;

fn paths(list: &[&str]) -> Vec<String> {
    list.iter().map(|s| s.to_string()).collect()
}

fn listed(name: &str, files: &[&str]) -> StreamListing {
    StreamListing { name: name.to_string(), files: paths(files) }
}

#[test]
fn frames_are_sorted_by_number_not_by_name() {
    let sorted = sort_frames(&paths(&["d/10.png", "d/9.png", "d/100.png", "d/1.png"]));
    assert_eq!(sorted, Some(paths(&["d/1.png", "d/9.png", "d/10.png", "d/100.png"])));
}

#[test]
fn frames_with_one_number_keep_their_order() {
    let sorted = sort_frames(&paths(&["d/10.png", "d/9.png", "d/009.png", "d/09.png"]));
    assert_eq!(sorted, Some(paths(&["d/9.png", "d/009.png", "d/09.png", "d/10.png"])));
}

#[test]
fn sorting_no_frames_gives_no_frames() {
    assert_eq!(sort_frames(&vec![]), Some(vec![]));
}

#[test]
fn sorting_refuses_a_frame_without_a_number() {
    assert_eq!(sort_frames(&paths(&["d/1.png", "d/thumb.png", "d/2.png"])), None);
    assert_eq!(sort_frames(&paths(&["d/thumb.png"])), None);
}

#[test]
fn files_are_kept_by_their_extension() {
    let files = paths(&["d/2.png", "d/2.json", "d/1.png", "d/readme", "d/3.PNG", "d/.png"]);
    assert_eq!(files_with_extension(&files, "png"), paths(&["d/2.png", "d/1.png"]));
    assert_eq!(files_with_extension(&files, "json"), paths(&["d/2.json"]));
    assert!(files_with_extension(&files, "mp4").is_empty());
}

#[test]
fn strings_are_copied() {
    let strings = paths(&["a", "", "ß"]);
    assert_eq!(clone_strings(&strings), strings);
}

#[test]
fn listing_becomes_an_index_in_frame_order() {
    let mut index = FrameIndex::new();
    let listing = vec![
        listed("1", &["m/1/3.png", "m/1/1.png", "m/1/2.png", "m/1/notes.txt"]),
        listed("0", &["m/0/11.png", "m/0/2.png"]),
    ];
    assert_eq!(merge_listing(&mut index, &listing, "png"), Ok(()));
    assert_eq!(index.len(), 2);
    assert_eq!(index.get(StreamId(0)), Some(&paths(&["m/0/2.png", "m/0/11.png"])));
    assert_eq!(index.get(StreamId(1)), Some(&paths(&["m/1/1.png", "m/1/2.png", "m/1/3.png"])));
}

#[test]
fn listing_of_an_empty_stream_directory_gives_a_stream_without_frames() {
    let mut index = FrameIndex::new();
    assert_eq!(merge_listing(&mut index, &vec![listed("4", &[])], "png"), Ok(()));
    assert_eq!(index.get(StreamId(4)), Some(&vec![]));
}

#[test]
fn later_listing_of_a_stream_replaces_the_earlier() {
    let mut index = FrameIndex::new();
    let listing = vec![listed("1", &["a/1.png"]), listed("01", &["b/5.png", "b/4.png"])];
    assert_eq!(merge_listing(&mut index, &listing, "png"), Ok(()));
    assert_eq!(index.len(), 1);
    assert_eq!(index.get(StreamId(1)), Some(&paths(&["b/4.png", "b/5.png"])));
}

#[test]
fn merging_keeps_streams_that_are_not_listed() {
    let mut index = FrameIndex::new();
    index.insert(StreamId(7), paths(&["kept"]));
    assert_eq!(merge_listing(&mut index, &vec![listed("2", &["x/0.png"])], "png"), Ok(()));
    assert_eq!(index.get(StreamId(7)), Some(&paths(&["kept"])));
    assert_eq!(index.get(StreamId(2)), Some(&paths(&["x/0.png"])));
}

#[test]
fn stream_directory_without_a_number_is_refused() {
    let mut index = FrameIndex::new();
    index.insert(StreamId(7), paths(&["kept"]));
    let listing = vec![listed("0", &["a/1.png"]), listed("tmp", &["b/1.png"])];
    assert_eq!(merge_listing(&mut index, &listing, "png"), Err(LayoutError::StreamName));
    assert_eq!(index.len(), 1);
    assert_eq!(index.get(StreamId(7)), Some(&paths(&["kept"])));
}

#[test]
fn frame_without_a_number_is_refused() {
    let mut index = FrameIndex::new();
    let listing = vec![listed("0", &["a/1.png", "a/cover.png"])];
    assert_eq!(merge_listing(&mut index, &listing, "png"), Err(LayoutError::FrameName));
    assert_eq!(index.len(), 0);
}

#[test]
fn first_wrong_name_decides_the_error() {
    let mut index = FrameIndex::new();
    let listing = vec![listed("0", &["a/cover.png"]), listed("tmp", &[])];
    assert_eq!(merge_listing(&mut index, &listing, "png"), Err(LayoutError::FrameName));
    let listing = vec![listed("tmp", &[]), listed("0", &["a/cover.png"])];
    assert_eq!(merge_listing(&mut index, &listing, "png"), Err(LayoutError::StreamName));
}

#[test]
fn files_of_other_extensions_need_no_number() {
    let mut index = FrameIndex::new();
    let listing = vec![listed("0", &["a/1.json", "a/cover.png.bak", "a/readme"])];
    assert_eq!(merge_listing(&mut index, &listing, "json"), Ok(()));
    assert_eq!(index.get(StreamId(0)), Some(&paths(&["a/1.json"])));
}
