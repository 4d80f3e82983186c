//! Resuming a stage gives the index that computing it gave.
//!
//! A stage that has computed its artifacts enters the paths it has written
//! in its index. A later run finds the directory of the stage on disk and
//! reads the index back from the names in it. The laws of this module say
//! that both indices are the same, and that a stage has the streams of the
//! stage that it reads, with one artifact for every frame.

use crate::index::{lookup, StreamFrames};
use crate::layout::{
    artifact, extension, extension_dot, file_name, file_stem, frame_index, last_index_of,
};
use crate::listing::{
    frame_numbers, in_frame_order, is_in_frame_order, lemma_frame_numbers_are_indices, merged,
    stream_artifacts, with_extension, LayoutError, StreamListing,
};
use crate::ordering::{
    arranged, insertion_point, is_stable_order, lemma_stable_order_is_stable, stable_order,
};
use crate::pipeline::{stage_extension, Stage};
use crate::plan::{
    is_plan_for, is_stage_plan, job_outputs, planned_output, recorded, stream_directory,
    StreamPlan,
};
use crate::stream::StreamId;
use crate::text::{
    decimal_digits, digit_value, lemma_number_round_trip, parsed_digits, parsed_number, views,
};
use vstd::prelude::*;

verus! {

/// `c` does not occur in `s`.
pub open spec fn is_free_of(s: Seq<char>, c: char) -> bool {
    forall|i: int| 0 <= i < s.len() ==> #[trigger] s[i] != c
}

/// A name without `/` and `.` that is not empty: it can stand as the stem
/// of a file name.
pub open spec fn is_plain_stem(stem: Seq<char>) -> bool {
    stem.len() > 0 && is_free_of(stem, '/') && is_free_of(stem, '.')
}

/// A name without `/` and `.`: it can stand as an extension.
pub open spec fn is_plain_extension(ext: Seq<char>) -> bool {
    is_free_of(ext, '/') && is_free_of(ext, '.')
}

/// The last `c` of a text that ends in `c` and a rest without `c` is the
/// one before the rest.
pub proof fn lemma_last_index_before_rest(head: Seq<char>, c: char, rest: Seq<char>)
    requires
        is_free_of(rest, c),
    ensures
        last_index_of(head.push(c) + rest, c) == Some(head.len() as int),
    decreases rest.len(),
{
    let text = head.push(c) + rest;
    if rest.len() == 0 {
        assert(text =~= head.push(c));
        assert(text.last() == c);
    } else {
        assert(text.last() == rest.last());
        assert(rest.last() == rest[rest.len() - 1]);
        assert(text.drop_last() =~= head.push(c) + rest.drop_last());
        assert forall|i: int| 0 <= i < rest.drop_last().len() implies #[trigger] rest.drop_last()[i]
            != c by {
            assert(rest.drop_last()[i] == rest[i]);
        }
        lemma_last_index_before_rest(head, c, rest.drop_last());
    }
}

/// An artifact that is written under a plain stem and extension is read
/// back with that stem and that extension.
pub proof fn lemma_artifact_reads_back(directory: Seq<char>, stem: Seq<char>, ext: Seq<char>)
    requires
        is_plain_stem(stem),
        is_plain_extension(ext),
    ensures
        file_stem(artifact(directory, stem, ext)) == stem,
        extension(artifact(directory, stem, ext)) == Some(ext),
{
    let name = stem.push('.') + ext;
    let path = artifact(directory, stem, ext);
    assert(path == directory.push('/') + name);
    assert forall|i: int| 0 <= i < name.len() implies #[trigger] name[i] != '/' by {
        if i < stem.len() {
            assert(name[i] == stem[i]);
        } else if i > stem.len() {
            assert(name[i] == ext[i - stem.len() - 1]);
        }
    }
    lemma_last_index_before_rest(directory, '/', name);
    assert(path.skip(directory.len() as int + 1) =~= name);
    assert(file_name(path) == name);
    lemma_last_index_before_rest(stem, '.', ext);
    assert(extension_dot(name) == Some(stem.len() as int));
    assert(name.take(stem.len() as int) =~= stem);
    assert(name.skip(stem.len() as int + 1) =~= ext);
}

/// A name that reads as a number is a plain stem.
pub proof fn lemma_number_is_plain_stem(name: Seq<char>)
    requires
        parsed_number(name) is Some,
    ensures
        is_plain_stem(name),
{
    let signed = name.len() > 0 && name[0] == '+';
    let digits = if signed {
        name.drop_first()
    } else {
        name
    };
    assert(parsed_digits(digits) is Some);
    assert forall|i: int| 0 <= i < name.len() implies #[trigger] name[i] != '/' && name[i]
        != '.' by {
        if signed {
            if i > 0 {
                assert(digits[i - 1] == name[i]);
                assert(digit_value(digits[i - 1]) is Some);
            }
        } else {
            assert(digit_value(digits[i]) is Some);
        }
    }
}

/// The extensions of the stages are plain.
pub proof fn lemma_stage_extension_is_plain(stage: Stage)
    ensures
        is_plain_extension(stage_extension(stage)),
{
    reveal_strlit("png");
    reveal_strlit("json");
}

/// The artifact that is planned for a frame has the number of that frame
/// and the extension of the stage.
pub proof fn lemma_planned_output_keeps_number(
    stage_directory: Seq<char>,
    id: StreamId,
    input: Seq<char>,
    ext: Seq<char>,
)
    requires
        frame_index(input) is Some,
        is_plain_extension(ext),
    ensures
        frame_index(planned_output(stage_directory, id, input, ext)) == frame_index(input),
        extension(planned_output(stage_directory, id, input, ext)) == Some(ext),
{
    lemma_number_is_plain_stem(file_stem(input));
    lemma_artifact_reads_back(stream_directory(stage_directory, id), file_stem(input), ext);
}

/// Keys that ascend are in their stable order as they stand.
pub proof fn lemma_ascending_keys_stay(keys: Seq<usize>)
    requires
        keys.len() <= usize::MAX,
        forall|i: int, j: int| 0 <= i < j < keys.len() ==> keys[i] <= keys[j],
    ensures
        stable_order(keys).len() == keys.len(),
        forall|i: int| 0 <= i < keys.len() ==> (#[trigger] stable_order(keys)[i]) == i,
    decreases keys.len(),
{
    if keys.len() > 0 {
        let front = keys.drop_last();
        lemma_ascending_keys_stay(front);
        let before = stable_order(front);
        let k = keys.last();
        if before.len() > 0 {
            assert(before.last() == before[before.len() - 1]);
            assert(keys[before.len() - 1] <= keys[keys.len() - 1]);
        }
        assert(insertion_point(before, keys, k) == before.len());
        let order = before.insert(before.len() as int, (keys.len() - 1) as usize);
        assert(stable_order(keys) == order);
        assert forall|i: int| 0 <= i < keys.len() implies (#[trigger] order[i]) == i by {
            if i < before.len() {
                assert(order[i] == before[i]);
            }
        }
    }
}

/// Paths that stand in frame order are put in frame order as they stand.
pub proof fn lemma_ordered_frames_stay(paths: Seq<Seq<char>>)
    requires
        paths.len() <= usize::MAX,
        is_in_frame_order(paths),
    ensures
        in_frame_order(paths) == Some(paths),
{
    lemma_frame_numbers_are_indices(paths);
    match frame_numbers(paths) {
        Some(numbers) => {
            assert forall|i: int, j: int| 0 <= i < j < numbers.len() implies numbers[i]
                <= numbers[j] by {
                assert(frame_index(paths[i]) == Some(numbers[i]));
                assert(frame_index(paths[j]) == Some(numbers[j]));
            }
            lemma_ascending_keys_stay(numbers);
            assert(arranged(paths, stable_order(numbers)) =~= paths);
        },
        None => {
            let i = choose|i: int| 0 <= i < paths.len() && frame_index(#[trigger] paths[i]) is None;
            assert(frame_index(paths[i]) is Some);
        },
    }
}

/// Paths that all have the extension `ext` are kept when that extension is
/// asked for.
pub proof fn lemma_all_with_extension(paths: Seq<Seq<char>>, ext: Seq<char>)
    requires
        forall|i: int| 0 <= i < paths.len() ==> extension(#[trigger] paths[i]) == Some(ext),
    ensures
        with_extension(paths, ext) == paths,
    decreases paths.len(),
{
    if paths.len() > 0 {
        let front = paths.drop_last();
        assert forall|i: int| 0 <= i < front.len() implies extension(#[trigger] front[i]) == Some(
            ext,
        ) by {
            assert(front[i] == paths[i]);
        }
        lemma_all_with_extension(front, ext);
        assert(extension(paths[paths.len() - 1]) == Some(ext));
        assert(front.push(paths.last()) =~= paths);
    } else {
        assert(paths =~= Seq::<Seq<char>>::empty());
    }
}

/// The directory of a stream, read back from disk after its plan was
/// carried out, holds the planned artifacts as the frames of the stream.
pub proof fn lemma_stream_reads_back(
    plan: StreamPlan,
    entry: StreamFrames,
    stage_directory: Seq<char>,
    ext: Seq<char>,
)
    requires
        is_plan_for(plan, entry, stage_directory, ext),
        is_in_frame_order(views(entry.frames@)),
        is_plain_extension(ext),
        entry.frames@.len() <= usize::MAX,
    ensures
        stream_artifacts(job_outputs(plan.jobs@), ext) == Some(job_outputs(plan.jobs@)),
        is_in_frame_order(job_outputs(plan.jobs@)),
{
    let inputs = views(entry.frames@);
    let outputs = job_outputs(plan.jobs@);
    assert forall|i: int| 0 <= i < outputs.len() implies extension(#[trigger] outputs[i]) == Some(
        ext,
    ) && frame_index(outputs[i]) == frame_index(inputs[i]) by {
        assert(plan.jobs@[i].output@ == planned_output(
            stage_directory,
            entry.stream_id,
            entry.frames@[i]@,
            ext,
        ));
        assert(frame_index(inputs[i]) is Some);
        lemma_planned_output_keeps_number(stage_directory, entry.stream_id, inputs[i], ext);
    }
    lemma_all_with_extension(outputs, ext);
    assert forall|i: int| 0 <= i < outputs.len() implies (#[trigger] frame_index(
        outputs[i],
    )) is Some by {
        assert(extension(outputs[i]) == Some(ext));
        assert(frame_index(inputs[i]) is Some);
    }
    assert forall|i: int, j: int| 0 <= i < j < outputs.len() implies (#[trigger] frame_index(
        outputs[i],
    ))->0 <= (#[trigger] frame_index(outputs[j]))->0 by {
        assert(extension(outputs[i]) == Some(ext));
        assert(extension(outputs[j]) == Some(ext));
        assert(frame_index(inputs[i])->0 <= frame_index(inputs[j])->0);
    }
    lemma_ordered_frames_stay(outputs);
}

/// The paths name frames with numbers that ascend without a number coming
/// twice.
pub open spec fn is_strictly_in_frame_order(paths: Seq<Seq<char>>) -> bool {
    &&& forall|i: int| 0 <= i < paths.len() ==> (#[trigger] frame_index(paths[i])) is Some
    &&& forall|i: int, j: int|
        0 <= i < j < paths.len() ==> (#[trigger] frame_index(paths[i]))->0 < (
        #[trigger] frame_index(paths[j]))->0
}

/// `files` holds the paths `written`, each once, in another order:
/// `files[i]` is `written[places[i]]`.
pub open spec fn is_rearranged(
    files: Seq<Seq<char>>,
    written: Seq<Seq<char>>,
    places: Seq<int>,
) -> bool {
    &&& files.len() == written.len()
    &&& places.len() == written.len()
    &&& forall|i: int|
        0 <= i < places.len() ==> 0 <= #[trigger] places[i] < written.len() && files[i]
            == written[places[i]]
    &&& forall|i: int, j: int|
        0 <= i < j < places.len() ==> #[trigger] places[i] != #[trigger] places[j]
}

/// Places that ascend start at least where they stand.
proof fn lemma_ascending_places_from_below(places: Seq<int>, i: int)
    requires
        0 <= i < places.len(),
        forall|k: int| 0 <= k < places.len() ==> 0 <= #[trigger] places[k],
        forall|a: int, b: int|
            0 <= a < b < places.len() ==> #[trigger] places[a] < #[trigger] places[b],
    ensures
        places[i] >= i,
    decreases i,
{
    if i > 0 {
        lemma_ascending_places_from_below(places, i - 1);
        assert(places[i - 1] < places[i]);
    }
}

/// Places that ascend below their number end at most where they stand.
proof fn lemma_ascending_places_from_above(places: Seq<int>, i: int)
    requires
        0 <= i < places.len(),
        forall|k: int| 0 <= k < places.len() ==> #[trigger] places[k] < places.len(),
        forall|a: int, b: int|
            0 <= a < b < places.len() ==> #[trigger] places[a] < #[trigger] places[b],
    ensures
        places[i] <= i,
    decreases places.len() - i,
{
    if i < places.len() - 1 {
        lemma_ascending_places_from_above(places, i + 1);
        assert(places[i] < places[i + 1]);
    }
}

/// The order in which a directory hands out the artifacts of a stream does
/// not matter: artifacts that were written with frame numbers that ascend
/// without a number coming twice are read back in the order in which they
/// were written, whatever their order on disk.
pub proof fn lemma_disk_order_does_not_matter(
    files: Seq<Seq<char>>,
    written: Seq<Seq<char>>,
    places: Seq<int>,
    ext: Seq<char>,
)
    requires
        written.len() <= usize::MAX,
        is_strictly_in_frame_order(written),
        forall|i: int| 0 <= i < written.len() ==> extension(#[trigger] written[i]) == Some(ext),
        is_rearranged(files, written, places),
    ensures
        stream_artifacts(files, ext) == Some(written),
{
    let n = written.len() as int;
    assert forall|i: int| 0 <= i < files.len() implies extension(#[trigger] files[i]) == Some(
        ext,
    ) by {
        assert(files[i] == written[places[i]]);
    }
    lemma_all_with_extension(files, ext);
    lemma_frame_numbers_are_indices(files);
    if frame_numbers(files) is None {
        let i = choose|i: int| 0 <= i < files.len() && frame_index(#[trigger] files[i]) is None;
        assert(files[i] == written[places[i]]);
        assert(frame_index(written[places[i]]) is Some);
    }
    let numbers = frame_numbers(files)->0;
    lemma_stable_order_is_stable(numbers);
    let order = stable_order(numbers);
    assert(is_stable_order(numbers, order));
    let read = arranged(files, order);
    let through = Seq::new(n as nat, |i: int| places[order[i] as int]);
    assert forall|k: int| 0 <= k < through.len() implies 0 <= #[trigger] through[k]
        < through.len() by {
        assert(order[k] < numbers.len());
    }
    assert forall|a: int, b: int| 0 <= a < b < through.len() implies #[trigger] through[a]
        < #[trigger] through[b] by {
        let oa = order[a] as int;
        let ob = order[b] as int;
        assert(oa < numbers.len() && ob < numbers.len());
        assert(numbers[oa] < numbers[ob] || (numbers[oa] == numbers[ob] && oa < ob));
        assert(files[oa] == written[places[oa]]);
        assert(files[ob] == written[places[ob]]);
        assert(frame_index(files[oa]) == Some(numbers[oa]));
        assert(frame_index(files[ob]) == Some(numbers[ob]));
        if oa < ob {
            assert(places[oa] != places[ob]);
        } else {
            assert(places[ob] != places[oa]);
        }
        if places[oa] > places[ob] {
            assert(frame_index(written[places[ob]])->0 < frame_index(written[places[oa]])->0);
        }
    }
    assert forall|i: int| 0 <= i < n implies #[trigger] read[i] == written[i] by {
        lemma_ascending_places_from_below(through, i);
        lemma_ascending_places_from_above(through, i);
        assert(through[i] == i);
        assert(order[i] < numbers.len());
        assert(read[i] == files[order[i] as int]);
        assert(files[order[i] as int] == written[places[order[i] as int]]);
    }
    assert(read =~= written);
}

/// `listing` shows the disk after `plans` were carried out: one directory
/// for every plan, named by the number of its stream, that holds the
/// planned artifacts.
pub open spec fn shows_written(listing: Seq<StreamListing>, plans: Seq<StreamPlan>) -> bool {
    &&& listing.len() == plans.len()
    &&& forall|i: int|
        0 <= i < listing.len() ==> (#[trigger] listing[i]).name@ == decimal_digits(
            plans[i].stream_id.0 as nat,
        ) && views(listing[i].files@) == job_outputs(plans[i].jobs@)
}

/// Every stream of `entries` has its frames in frame order.
pub open spec fn all_in_frame_order(entries: Seq<StreamFrames>) -> bool {
    forall|i: int|
        0 <= i < entries.len() ==> is_in_frame_order(views((#[trigger] entries[i]).frames@))
}

/// Where every listed directory is named after the stream of its plan and
/// is read back as the artifacts of that plan, the listing gives the index
/// that entering the plans gives.
pub proof fn lemma_listing_gives_recorded(
    base: Map<StreamId, Seq<Seq<char>>>,
    plans: Seq<StreamPlan>,
    listing: Seq<StreamListing>,
    ext: Seq<char>,
)
    requires
        listing.len() == plans.len(),
        forall|i: int|
            0 <= i < listing.len() ==> (#[trigger] listing[i]).name@ == decimal_digits(
                plans[i].stream_id.0 as nat,
            ) && stream_artifacts(views(listing[i].files@), ext) == Some(
                job_outputs(plans[i].jobs@),
            ),
    ensures
        merged(base, listing, ext) == Ok::<_, LayoutError>(recorded(base, plans)),
    decreases plans.len(),
{
    if plans.len() > 0 {
        let last = plans.len() - 1;
        let front_plans = plans.drop_last();
        let front_listing = listing.drop_last();
        assert forall|i: int| 0 <= i < front_listing.len() implies (#[trigger] front_listing[i]).name@
            == decimal_digits(front_plans[i].stream_id.0 as nat) && stream_artifacts(
            views(front_listing[i].files@),
            ext,
        ) == Some(job_outputs(front_plans[i].jobs@)) by {
            assert(front_listing[i] == listing[i]);
            assert(front_plans[i] == plans[i]);
        }
        lemma_listing_gives_recorded(base, front_plans, front_listing, ext);
        let plan = plans[last];
        assert(plans.last() == plan);
        assert(listing.last() == listing[last]);
        lemma_number_round_trip(plan.stream_id.0);
        assert(StreamId(plan.stream_id.0) == plan.stream_id);
    }
}

/// Resuming is idempotent: the index that a stage reads back from disk
/// after it has computed its artifacts is the index that it entered while
/// computing them. The stage reads `entries`, whose frames are in frame
/// order, and `listing` shows what it wrote, in the order in which it was
/// written.
pub proof fn lemma_resume_gives_computed_index(
    base: Map<StreamId, Seq<Seq<char>>>,
    plans: Seq<StreamPlan>,
    entries: Seq<StreamFrames>,
    stage_directory: Seq<char>,
    stage: Stage,
    listing: Seq<StreamListing>,
)
    requires
        is_stage_plan(plans, entries, stage_directory, stage_extension(stage)),
        all_in_frame_order(entries),
        shows_written(listing, plans),
        forall|i: int| 0 <= i < entries.len() ==> (#[trigger] entries[i]).frames@.len() <= usize::MAX,
    ensures
        merged(base, listing, stage_extension(stage)) == Ok::<_, LayoutError>(
            recorded(base, plans),
        ),
{
    let ext = stage_extension(stage);
    lemma_stage_extension_is_plain(stage);
    assert forall|i: int| 0 <= i < listing.len() implies (#[trigger] listing[i]).name@
        == decimal_digits(plans[i].stream_id.0 as nat) && stream_artifacts(
        views(listing[i].files@),
        ext,
    ) == Some(job_outputs(plans[i].jobs@)) by {
        assert(is_plan_for(plans[i], entries[i], stage_directory, ext));
        assert(is_in_frame_order(views(entries[i].frames@)));
        lemma_stream_reads_back(plans[i], entries[i], stage_directory, ext);
    }
    lemma_listing_gives_recorded(base, plans, listing, ext);
}

/// What entering plans leaves for a stream: the artifacts of the plan for
/// that stream, where the streams of the plans differ from each other, and
/// what was there before, where no plan is for it.
pub proof fn lemma_recorded_at(
    base: Map<StreamId, Seq<Seq<char>>>,
    plans: Seq<StreamPlan>,
    id: StreamId,
)
    requires
        forall|i: int, j: int|
            0 <= i < j < plans.len() ==> (#[trigger] plans[i]).stream_id != (
            #[trigger] plans[j]).stream_id,
    ensures
        forall|i: int|
            0 <= i < plans.len() && (#[trigger] plans[i]).stream_id == id ==> recorded(
                base,
                plans,
            ).contains_key(id) && recorded(base, plans)[id] == job_outputs(plans[i].jobs@),
        (forall|i: int| 0 <= i < plans.len() ==> (#[trigger] plans[i]).stream_id != id) ==> (
        recorded(base, plans).contains_key(id) <==> base.contains_key(id)) && recorded(
            base,
            plans,
        )[id] == base[id],
    decreases plans.len(),
{
    if plans.len() > 0 {
        let front = plans.drop_last();
        let last = plans.len() - 1;
        assert forall|i: int, j: int| 0 <= i < j < front.len() implies (#[trigger] front[i]).stream_id
            != (#[trigger] front[j]).stream_id by {
            assert(front[i] == plans[i] && front[j] == plans[j]);
        }
        lemma_recorded_at(base, front, id);
        assert(plans.last() == plans[last]);
        assert forall|i: int|
            0 <= i < plans.len() && (#[trigger] plans[i]).stream_id == id implies recorded(
            base,
            plans,
        ).contains_key(id) && recorded(base, plans)[id] == job_outputs(plans[i].jobs@) by {
            if i < last {
                assert(front[i] == plans[i]);
                assert(plans[i].stream_id != plans[last].stream_id);
            }
        }
        if forall|i: int| 0 <= i < plans.len() ==> (#[trigger] plans[i]).stream_id != id {
            assert(plans[last].stream_id != id);
            assert forall|i: int| 0 <= i < front.len() implies (#[trigger] front[i]).stream_id
                != id by {
                assert(front[i] == plans[i]);
            }
        }
    }
}

/// `listing` shows the disk after `plans` were carried out, with the
/// directories and the files in them in any order: the directory
/// `listing[i]` is that of the plan `plans[to_plan[i]]`, the plan
/// `plans[k]` has the directory `listing[to_listing[k]]`, and the file
/// `listing[i].files[f]` is the artifact of the job `frame_places[i][f]` of
/// its plan.
pub open spec fn shows_written_in_any_order(
    listing: Seq<StreamListing>,
    plans: Seq<StreamPlan>,
    to_plan: Seq<int>,
    to_listing: Seq<int>,
    frame_places: Seq<Seq<int>>,
) -> bool {
    &&& listing.len() == plans.len()
    &&& to_plan.len() == plans.len()
    &&& to_listing.len() == plans.len()
    &&& frame_places.len() == plans.len()
    &&& forall|i: int|
        0 <= i < listing.len() ==> 0 <= #[trigger] to_plan[i] < plans.len()
            && to_listing[to_plan[i]] == i
    &&& forall|k: int|
        0 <= k < plans.len() ==> 0 <= #[trigger] to_listing[k] < plans.len()
            && to_plan[to_listing[k]] == k
    &&& forall|i: int|
        0 <= i < listing.len() ==> (#[trigger] listing[i]).name@ == decimal_digits(
            plans[to_plan[i]].stream_id.0 as nat,
        ) && is_rearranged(
            views(listing[i].files@),
            job_outputs(plans[to_plan[i]].jobs@),
            frame_places[i],
        )
}

/// Every stream of `entries` has frames whose numbers ascend without a
/// number coming twice.
pub open spec fn all_strictly_in_frame_order(entries: Seq<StreamFrames>) -> bool {
    forall|i: int|
        0 <= i < entries.len() ==> is_strictly_in_frame_order(
            views((#[trigger] entries[i]).frames@),
        )
}

/// Resuming does not depend on the order in which the disk hands out
/// directories and files: where every stream stands once in `entries` and
/// no stream has two frames with one number, the index that is read back
/// after the stage has computed its artifacts is the index that was
/// entered while computing them.
pub proof fn lemma_resume_ignores_disk_order(
    plans: Seq<StreamPlan>,
    entries: Seq<StreamFrames>,
    stage_directory: Seq<char>,
    stage: Stage,
    listing: Seq<StreamListing>,
    to_plan: Seq<int>,
    to_listing: Seq<int>,
    frame_places: Seq<Seq<int>>,
)
    requires
        is_stage_plan(plans, entries, stage_directory, stage_extension(stage)),
        crate::index::ascending(entries),
        all_strictly_in_frame_order(entries),
        shows_written_in_any_order(listing, plans, to_plan, to_listing, frame_places),
        forall|i: int| 0 <= i < entries.len() ==> (#[trigger] entries[i]).frames@.len() <= usize::MAX,
    ensures
        merged(Map::empty(), listing, stage_extension(stage)) == Ok::<_, LayoutError>(
            recorded(Map::empty(), plans),
        ),
{
    let ext = stage_extension(stage);
    let base = Map::<StreamId, Seq<Seq<char>>>::empty();
    lemma_stage_extension_is_plain(stage);
    let listed = Seq::new(plans.len(), |i: int| plans[to_plan[i]]);
    assert forall|i: int| 0 <= i < listing.len() implies (#[trigger] listing[i]).name@
        == decimal_digits(listed[i].stream_id.0 as nat) && stream_artifacts(
        views(listing[i].files@),
        ext,
    ) == Some(job_outputs(listed[i].jobs@)) by {
        let k = to_plan[i];
        let plan = plans[k];
        let entry = entries[k];
        assert(listed[i] == plan);
        assert(is_plan_for(plan, entry, stage_directory, ext));
        let inputs = views(entry.frames@);
        let outputs = job_outputs(plan.jobs@);
        assert(is_strictly_in_frame_order(inputs));
        assert forall|t: int| 0 <= t < outputs.len() implies extension(#[trigger] outputs[t])
            == Some(ext) && frame_index(outputs[t]) == frame_index(inputs[t]) by {
            assert(plan.jobs@[t].output@ == planned_output(
                stage_directory,
                entry.stream_id,
                entry.frames@[t]@,
                ext,
            ));
            assert(frame_index(inputs[t]) is Some);
            lemma_planned_output_keeps_number(stage_directory, entry.stream_id, inputs[t], ext);
        }
        assert forall|t: int| 0 <= t < outputs.len() implies (#[trigger] frame_index(
            outputs[t],
        )) is Some by {
            assert(extension(outputs[t]) == Some(ext));
            assert(frame_index(inputs[t]) is Some);
        }
        assert forall|a: int, b: int| 0 <= a < b < outputs.len() implies (#[trigger] frame_index(
            outputs[a],
        ))->0 < (#[trigger] frame_index(outputs[b]))->0 by {
            assert(extension(outputs[a]) == Some(ext));
            assert(extension(outputs[b]) == Some(ext));
            assert(frame_index(inputs[a])->0 < frame_index(inputs[b])->0);
        }
        lemma_disk_order_does_not_matter(views(listing[i].files@), outputs, frame_places[i], ext);
    }
    lemma_listing_gives_recorded(base, listed, listing, ext);
    assert forall|i: int, j: int| 0 <= i < j < plans.len() implies (#[trigger] plans[i]).stream_id
        != (#[trigger] plans[j]).stream_id by {
        assert(is_plan_for(plans[i], entries[i], stage_directory, ext));
        assert(is_plan_for(plans[j], entries[j], stage_directory, ext));
        assert(entries[i].stream_id.0 < entries[j].stream_id.0);
    }
    assert forall|i: int, j: int| 0 <= i < j < listed.len() implies (#[trigger] listed[i]).stream_id
        != (#[trigger] listed[j]).stream_id by {
        let a = to_plan[i];
        let b = to_plan[j];
        assert(to_listing[a] == i && to_listing[b] == j);
        assert(a != b);
        if a < b {
            assert(plans[a].stream_id != plans[b].stream_id);
        } else {
            assert(plans[b].stream_id != plans[a].stream_id);
        }
    }
    let left = recorded(base, listed);
    let right = recorded(base, plans);
    assert forall|id: StreamId|
        (#[trigger] left.dom().contains(id)) == right.dom().contains(id) && left[id]
            == right[id] by {
        lemma_recorded_at(base, listed, id);
        lemma_recorded_at(base, plans, id);
        if exists|k: int| 0 <= k < plans.len() && (#[trigger] plans[k]).stream_id == id {
            let k = choose|k: int| 0 <= k < plans.len() && (#[trigger] plans[k]).stream_id == id;
            let i = to_listing[k];
            assert(to_plan[i] == k);
            assert(listed[i] == plans[k]);
            assert(listed[i].stream_id == id);
        } else {
            assert forall|i: int| 0 <= i < listed.len() implies (#[trigger] listed[i]).stream_id
                != id by {
                assert(listed[i] == plans[to_plan[i]]);
            }
        }
    }
    assert(left =~= right);
}

/// A stage has the streams of the stage that it reads, and one artifact
/// for every frame of each: after the plans for `entries` are carried out
/// and entered in an empty index, the index holds a stream exactly if
/// `entries` does, with as many artifacts as the stream has frames.
pub proof fn lemma_stage_keeps_streams(
    plans: Seq<StreamPlan>,
    entries: Seq<StreamFrames>,
    stage_directory: Seq<char>,
    ext: Seq<char>,
    id: StreamId,
)
    requires
        is_stage_plan(plans, entries, stage_directory, ext),
    ensures
        recorded(Map::empty(), plans).contains_key(id) <==> lookup(entries, id) is Some,
        lookup(entries, id) is Some ==> recorded(Map::empty(), plans)[id].len() == lookup(
            entries,
            id,
        )->0.len(),
    decreases plans.len(),
{
    if plans.len() > 0 {
        let last = plans.len() - 1;
        let front_plans = plans.drop_last();
        let front_entries = entries.drop_last();
        assert forall|i: int| 0 <= i < front_plans.len() implies is_plan_for(
            #[trigger] front_plans[i],
            front_entries[i],
            stage_directory,
            ext,
        ) by {
            assert(front_plans[i] == plans[i]);
            assert(is_plan_for(plans[i], entries[i], stage_directory, ext));
        }
        lemma_stage_keeps_streams(front_plans, front_entries, stage_directory, ext, id);
        assert(is_plan_for(plans[last], entries[last], stage_directory, ext));
        assert(plans.last() == plans[last]);
        assert(entries.last() == entries[last]);
    }
}

} // verus!
