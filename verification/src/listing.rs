//! Reading an index back from the names on disk.
//!
//! A stage that finds its directory on disk does not compute anything: it
//! takes the subdirectories for streams and the files in them for frames.
//! Only the names are read, never what the files hold.

use crate::index::FrameIndex;
use crate::layout::{extension, frame_index, frame_index_of, has_extension};
use crate::ordering::{arranged, is_stable_order, lemma_stable_order_is_stable, order_by_key, stable_order};
use crate::stream::StreamId;
use crate::text::{parse_number, parsed_number, views};
use vstd::prelude::*;

verus! {

/// A subdirectory of a stage directory as it was found on disk: its name
/// and the paths of the regular files in it, in any order.
#[derive(Debug)]
pub struct StreamListing {
    pub name: String,
    pub files: Vec<String>,
}

/// Why the names on disk are not those of a stage.
#[derive(Debug, Clone, Copy, PartialEq, Eq, Structural)]
pub enum LayoutError {
    /// A name that should give the number of a stream is no number.
    StreamName,
    /// A file that should be a frame is not named by a number.
    FrameName,
}

/// The paths among `paths` whose extension is `ext`, in their order.
pub open spec fn with_extension(paths: Seq<Seq<char>>, ext: Seq<char>) -> Seq<Seq<char>>
    decreases paths.len(),
{
    if paths.len() == 0 {
        Seq::empty()
    } else if extension(paths.last()) == Some(ext) {
        with_extension(paths.drop_last(), ext).push(paths.last())
    } else {
        with_extension(paths.drop_last(), ext)
    }
}

/// The frame numbers of `paths`, if every one of them names a frame.
pub open spec fn frame_numbers(paths: Seq<Seq<char>>) -> Option<Seq<usize>>
    decreases paths.len(),
{
    if paths.len() == 0 {
        Some(Seq::empty())
    } else {
        match (frame_numbers(paths.drop_last()), frame_index(paths.last())) {
            (Some(numbers), Some(n)) => Some(numbers.push(n)),
            _ => None,
        }
    }
}

/// `paths` in ascending order of frame number, paths with one number in
/// the order in which they were given; nothing where a path names no frame.
pub open spec fn in_frame_order(paths: Seq<Seq<char>>) -> Option<Seq<Seq<char>>> {
    match frame_numbers(paths) {
        Some(numbers) => Some(arranged(paths, stable_order(numbers))),
        None => None,
    }
}

/// The frames of a stream whose directory holds `files`: those with the
/// extension `ext`, in frame order.
pub open spec fn stream_artifacts(files: Seq<Seq<char>>, ext: Seq<char>) -> Option<
    Seq<Seq<char>>,
> {
    in_frame_order(with_extension(files, ext))
}

/// The paths stand in ascending order of frame number.
pub open spec fn is_in_frame_order(paths: Seq<Seq<char>>) -> bool {
    &&& forall|i: int| 0 <= i < paths.len() ==> (#[trigger] frame_index(paths[i])) is Some
    &&& forall|i: int, j: int|
        0 <= i < j < paths.len() ==> (#[trigger] frame_index(paths[i]))->0 <= (
        #[trigger] frame_index(paths[j]))->0
}

/// The frame numbers are those of the paths, place by place.
pub proof fn lemma_frame_numbers_are_indices(paths: Seq<Seq<char>>)
    ensures
        match frame_numbers(paths) {
            Some(numbers) => numbers.len() == paths.len() && forall|i: int|
                0 <= i < paths.len() ==> frame_index(#[trigger] paths[i]) == Some(numbers[i]),
            None => exists|i: int| 0 <= i < paths.len() && frame_index(#[trigger] paths[i]) is None,
        },
    decreases paths.len(),
{
    if paths.len() > 0 {
        let front = paths.drop_last();
        let last = paths.len() - 1;
        lemma_frame_numbers_are_indices(front);
        match frame_numbers(front) {
            Some(numbers) => {
                match frame_index(paths.last()) {
                    Some(n) => {
                        assert forall|i: int| 0 <= i < paths.len() implies frame_index(
                            #[trigger] paths[i],
                        ) == Some(numbers.push(n)[i]) by {
                            if i < last {
                                assert(front[i] == paths[i]);
                            }
                        }
                    },
                    None => {
                        assert(frame_index(paths[last]) is None);
                    },
                }
            },
            None => {
                let i = choose|i: int| 0 <= i < front.len() && frame_index(#[trigger] front[i]) is None;
                assert(front[i] == paths[i]);
                assert(frame_index(paths[i]) is None);
            },
        }
    }
}

/// Paths put in frame order are the same paths, each taken once, and their
/// frame numbers ascend.
pub proof fn lemma_in_frame_order_is_ordered(paths: Seq<Seq<char>>)
    requires
        paths.len() <= usize::MAX,
        frame_numbers(paths) is Some,
    ensures
        in_frame_order(paths) is Some,
        in_frame_order(paths)->0.len() == paths.len(),
        is_in_frame_order(in_frame_order(paths)->0),
        is_stable_order(frame_numbers(paths)->0, stable_order(frame_numbers(paths)->0)),
        in_frame_order(paths)->0 == arranged(paths, stable_order(frame_numbers(paths)->0)),
{
    let numbers = frame_numbers(paths)->0;
    lemma_frame_numbers_are_indices(paths);
    lemma_stable_order_is_stable(numbers);
    let order = stable_order(numbers);
    let ordered = in_frame_order(paths)->0;
    assert forall|i: int| 0 <= i < ordered.len() implies (#[trigger] frame_index(ordered[i]))
        == Some(numbers[order[i] as int]) by {
        assert(order[i] < numbers.len());
        assert(ordered[i] == paths[order[i] as int]);
    }
    assert forall|i: int, j: int| 0 <= i < j < ordered.len() implies (#[trigger] frame_index(
        ordered[i],
    ))->0 <= (#[trigger] frame_index(ordered[j]))->0 by {
        assert(frame_index(ordered[i]) == Some(numbers[order[i] as int]));
        assert(frame_index(ordered[j]) == Some(numbers[order[j] as int]));
    }
}

/// Puts `paths` in ascending order of frame number. Paths with one number
/// keep their order. There is no result where a path names no frame.
pub fn sort_frames(paths: &Vec<String>) -> (sorted: Option<Vec<String>>)
    ensures
        match sorted {
            Some(frames) => in_frame_order(views(paths@)) == Some(views(frames@)),
            None => in_frame_order(views(paths@)) is None,
        },
{
    let ghost all = views(paths@);
    let mut keys: Vec<usize> = Vec::new();
    let mut i: usize = 0;
    while i < paths.len()
        invariant
            all == views(paths@),
            0 <= i <= paths@.len(),
            frame_numbers(all.take(i as int)) == Some(keys@),
        decreases paths@.len() - i,
    {
        proof {
            assert(all.take(i + 1).drop_last() =~= all.take(i as int));
            assert(all.take(i + 1).last() == paths@[i as int]@);
        }
        match frame_index_of(paths[i].as_str()) {
            Some(k) => {
                keys.push(k);
            },
            None => {
                proof {
                    lemma_missing_number_stays_missing(all, i + 1);
                }
                return None;
            },
        }
        i = i + 1;
    }
    proof {
        assert(all.take(paths@.len() as int) =~= all);
        lemma_frame_numbers_are_indices(all);
    }
    let order = order_by_key(&keys);
    let mut frames: Vec<String> = Vec::new();
    let mut j: usize = 0;
    while j < order.len()
        invariant
            all == views(paths@),
            keys@.len() == paths@.len(),
            is_stable_order(keys@, order@),
            0 <= j <= order@.len(),
            frames@.len() == j,
            forall|t: int| 0 <= t < j ==> (#[trigger] frames@[t])@ == all[order@[t] as int],
        decreases order@.len() - j,
    {
        assert(order@[j as int] < keys@.len());
        let path = paths[order[j]].clone();
        frames.push(path);
        j = j + 1;
    }
    proof {
        assert(views(frames@) =~= arranged(all, order@));
    }
    Some(frames)
}

/// Once the beginning of a list holds a path that names no frame, the list
/// has no frame numbers.
pub proof fn lemma_missing_number_stays_missing(paths: Seq<Seq<char>>, k: int)
    requires
        0 <= k <= paths.len(),
        frame_numbers(paths.take(k)) is None,
    ensures
        frame_numbers(paths) is None,
    decreases paths.len() - k,
{
    if k == paths.len() {
        assert(paths.take(k) =~= paths);
    } else {
        assert(paths.take(k + 1).drop_last() =~= paths.take(k));
        lemma_missing_number_stays_missing(paths, k + 1);
    }
}

/// The files among `files` that have the extension `ext`, in their order.
pub fn files_with_extension(files: &Vec<String>, ext: &str) -> (kept: Vec<String>)
    ensures
        views(kept@) == with_extension(views(files@), ext@),
{
    let ghost all = views(files@);
    let mut kept: Vec<String> = Vec::new();
    let mut i: usize = 0;
    while i < files.len()
        invariant
            all == views(files@),
            0 <= i <= files@.len(),
            views(kept@) == with_extension(all.take(i as int), ext@),
        decreases files@.len() - i,
    {
        proof {
            assert(all.take(i + 1).drop_last() =~= all.take(i as int));
            assert(all.take(i + 1).last() == files@[i as int]@);
        }
        if has_extension(files[i].as_str(), ext) {
            let ghost before = views(kept@);
            let file = files[i].clone();
            kept.push(file);
            proof {
                assert(views(kept@) =~= before.push(files@[i as int]@));
            }
        }
        i = i + 1;
    }
    proof {
        assert(all.take(files@.len() as int) =~= all);
    }
    kept
}

/// The index `base` after the streams of `listing` were entered one after
/// the other, each with its files of extension `ext` in frame order.
pub open spec fn merged(
    base: Map<StreamId, Seq<Seq<char>>>,
    listing: Seq<StreamListing>,
    ext: Seq<char>,
) -> Result<Map<StreamId, Seq<Seq<char>>>, LayoutError>
    decreases listing.len(),
{
    if listing.len() == 0 {
        Ok(base)
    } else {
        match merged(base, listing.drop_last(), ext) {
            Err(e) => Err(e),
            Ok(index) => match parsed_number(listing.last().name@) {
                None => Err(LayoutError::StreamName),
                Some(id) => match stream_artifacts(views(listing.last().files@), ext) {
                    None => Err(LayoutError::FrameName),
                    Some(frames) => Ok(index.insert(StreamId(id), frames)),
                },
            },
        }
    }
}

/// Enters the streams of `listing` in `index`, each with its files of
/// extension `ext` in frame order. A stream that is listed again replaces
/// the earlier entry; streams that are not listed stay. Where a name on
/// disk is wrong, the index stays as it was.
pub fn merge_listing(index: &mut FrameIndex, listing: &Vec<StreamListing>, ext: &str) -> (result:
    Result<(), LayoutError>)
    requires
        old(index).wf(),
    ensures
        final(index).wf(),
        match result {
            Ok(()) => merged(old(index)@, listing@, ext@) == Ok::<_, LayoutError>(final(index)@),
            Err(e) => merged(old(index)@, listing@, ext@) == Err::<
                Map<StreamId, Seq<Seq<char>>>,
                _,
            >(e) && final(index)@ == old(index)@,
        },
{
    let mut entries: Vec<(StreamId, Vec<String>)> = Vec::new();
    let mut i: usize = 0;
    let ghost mut reached = old(index)@;
    while i < listing.len()
        invariant
            0 <= i <= listing@.len(),
            *index == *old(index),
            index.wf(),
            entries@.len() == i,
            merged(old(index)@, listing@.take(i as int), ext@) == Ok::<_, LayoutError>(reached),
            forall|t: int|
                0 <= t < i ==> parsed_number(listing@[t].name@) == Some(
                    (#[trigger] entries@[t]).0.0,
                ) && stream_artifacts(views(listing@[t].files@), ext@) == Some(
                    views(entries@[t].1@),
                ),
        decreases listing@.len() - i,
    {
        proof {
            assert(listing@.take(i + 1).drop_last() =~= listing@.take(i as int));
            assert(listing@.take(i + 1).last() == listing@[i as int]);
        }
        let id = match parse_number(listing[i].name.as_str()) {
            Some(id) => id,
            None => {
                proof {
                    lemma_merge_error_stays(old(index)@, listing@, ext@, i + 1);
                }
                return Err(LayoutError::StreamName);
            },
        };
        let kept = files_with_extension(&listing[i].files, ext);
        let frames = match sort_frames(&kept) {
            Some(frames) => frames,
            None => {
                proof {
                    lemma_merge_error_stays(old(index)@, listing@, ext@, i + 1);
                }
                return Err(LayoutError::FrameName);
            },
        };
        proof {
            reached = reached.insert(StreamId(id), views(frames@));
        }
        entries.push((StreamId(id), frames));
        i = i + 1;
    }
    proof {
        assert(listing@.take(listing@.len() as int) =~= listing@);
    }
    let mut j: usize = 0;
    while j < entries.len()
        invariant
            index.wf(),
            0 <= j <= entries@.len(),
            entries@.len() == listing@.len(),
            forall|t: int|
                0 <= t < listing@.len() ==> parsed_number(listing@[t].name@) == Some(
                    (#[trigger] entries@[t]).0.0,
                ) && stream_artifacts(views(listing@[t].files@), ext@) == Some(
                    views(entries@[t].1@),
                ),
            merged(old(index)@, listing@.take(j as int), ext@) == Ok::<_, LayoutError>(index@),
        decreases entries@.len() - j,
    {
        proof {
            assert(listing@.take(j + 1).drop_last() =~= listing@.take(j as int));
            assert(listing@.take(j + 1).last() == listing@[j as int]);
        }
        let frames = clone_strings(&entries[j].1);
        index.insert(entries[j].0, frames);
        j = j + 1;
    }
    proof {
        assert(listing@.take(listing@.len() as int) =~= listing@);
    }
    Ok(())
}

/// A copy of a list of strings.
pub fn clone_strings(strings: &Vec<String>) -> (copy: Vec<String>)
    ensures
        views(copy@) == views(strings@),
{
    let mut copy: Vec<String> = Vec::new();
    let mut i: usize = 0;
    while i < strings.len()
        invariant
            0 <= i <= strings@.len(),
            copy@.len() == i,
            forall|t: int| 0 <= t < i ==> (#[trigger] copy@[t])@ == strings@[t]@,
        decreases strings@.len() - i,
    {
        copy.push(strings[i].clone());
        i = i + 1;
    }
    proof {
        assert(views(copy@) =~= views(strings@));
    }
    copy
}

/// Once the beginning of a listing is refused, the whole listing is
/// refused for the same reason.
pub proof fn lemma_merge_error_stays(
    base: Map<StreamId, Seq<Seq<char>>>,
    listing: Seq<StreamListing>,
    ext: Seq<char>,
    k: int,
)
    requires
        0 <= k <= listing.len(),
        merged(base, listing.take(k), ext) is Err,
    ensures
        merged(base, listing, ext) == merged(base, listing.take(k), ext),
    decreases listing.len() - k,
{
    if k == listing.len() {
        assert(listing.take(k) =~= listing);
    } else {
        assert(listing.take(k + 1).drop_last() =~= listing.take(k));
        lemma_merge_error_stays(base, listing, ext, k + 1);
    }
}

} // verus!
