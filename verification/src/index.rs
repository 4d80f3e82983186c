//! The index of a stage: for every stream the artifacts that the stage
//! holds for it.

use crate::stream::StreamId;
use crate::text::views;
use vstd::prelude::*;

verus! {

/// The artifacts of one stream, in the order of its frames.
#[derive(Debug)]
pub struct StreamFrames {
    pub stream_id: StreamId,
    pub frames: Vec<String>,
}

/// A mapping from streams to their artifacts. The streams are kept in
/// ascending order of their number, each of them once.
#[derive(Debug)]
pub struct FrameIndex {
    streams: Vec<StreamFrames>,
}

/// The streams stand in strictly ascending order of their number.
pub open spec fn ascending(entries: Seq<StreamFrames>) -> bool {
    forall|i: int, j: int|
        0 <= i < j < entries.len() ==> (#[trigger] entries[i]).stream_id.0 < (
        #[trigger] entries[j]).stream_id.0
}

/// The artifacts that `entries` hold for the stream `id`.
pub open spec fn lookup(entries: Seq<StreamFrames>, id: StreamId) -> Option<Seq<Seq<char>>>
    decreases entries.len(),
{
    if entries.len() == 0 {
        None
    } else if entries.last().stream_id == id {
        Some(views(entries.last().frames@))
    } else {
        lookup(entries.drop_last(), id)
    }
}

/// In an ascending list a stream is found where it stands, and not at all
/// where it does not stand.
pub proof fn lemma_lookup_finds(entries: Seq<StreamFrames>, id: StreamId)
    requires
        ascending(entries),
    ensures
        forall|i: int|
            0 <= i < entries.len() && (#[trigger] entries[i]).stream_id == id ==> lookup(
                entries,
                id,
            ) == Some(views(entries[i].frames@)),
        (forall|i: int| 0 <= i < entries.len() ==> (#[trigger] entries[i]).stream_id != id)
            ==> lookup(entries, id) is None,
    decreases entries.len(),
{
    if entries.len() > 0 {
        let front = entries.drop_last();
        let last = entries.len() - 1;
        assert forall|i: int, j: int| 0 <= i < j < front.len() implies (#[trigger] front[i]).stream_id.0
            < (#[trigger] front[j]).stream_id.0 by {
            assert(front[i] == entries[i] && front[j] == entries[j]);
        }
        lemma_lookup_finds(front, id);
        assert forall|i: int|
            0 <= i < entries.len() && (#[trigger] entries[i]).stream_id == id implies lookup(
            entries,
            id,
        ) == Some(views(entries[i].frames@)) by {
            if i < last {
                assert(front[i] == entries[i]);
                assert(entries[i].stream_id.0 < entries[last].stream_id.0);
            }
        }
        if forall|i: int| 0 <= i < entries.len() ==> (#[trigger] entries[i]).stream_id != id {
            assert(entries[last].stream_id != id);
            assert forall|i: int| 0 <= i < front.len() implies (#[trigger] front[i]).stream_id
                != id by {
                assert(front[i] == entries[i]);
            }
        }
    }
}

impl FrameIndex {
    /// The streams of the index with their artifacts, as they are kept.
    pub closed spec fn entries(&self) -> Seq<StreamFrames> {
        self.streams@
    }

    /// The index keeps its streams in ascending order, each once.
    pub open spec fn wf(&self) -> bool {
        ascending(self.entries())
    }

    /// The index as a mapping from stream to artifacts.
    pub open spec fn view(&self) -> Map<StreamId, Seq<Seq<char>>> {
        Map::new(
            |id: StreamId| lookup(self.entries(), id) is Some,
            |id: StreamId| lookup(self.entries(), id)->0,
        )
    }

    /// An index without streams.
    pub fn new() -> (index: FrameIndex)
        ensures
            index.wf(),
            index.entries().len() == 0,
            index@ == Map::<StreamId, Seq<Seq<char>>>::empty(),
    {
        let index = FrameIndex { streams: Vec::new() };
        assert(index@ =~= Map::<StreamId, Seq<Seq<char>>>::empty());
        index
    }

    /// The number of streams.
    pub fn len(&self) -> (len: usize)
        ensures
            len == self.entries().len(),
    {
        self.streams.len()
    }

    /// The streams with their artifacts, in ascending order of stream.
    pub fn streams(&self) -> (streams: &Vec<StreamFrames>)
        ensures
            streams@ == self.entries(),
    {
        &self.streams
    }

    /// Where `id` stands among the streams, or would have to stand.
    fn position(&self, id: StreamId) -> (pos: usize)
        requires
            self.wf(),
        ensures
            pos <= self.entries().len(),
            forall|i: int| 0 <= i < pos ==> (#[trigger] self.entries()[i]).stream_id.0 < id.0,
            forall|i: int|
                pos <= i < self.entries().len() ==> (#[trigger] self.entries()[i]).stream_id.0
                    >= id.0,
    {
        let mut pos: usize = 0;
        while pos < self.streams.len() && self.streams[pos].stream_id.0 < id.0
            invariant
                self.wf(),
                pos <= self.streams@.len(),
                forall|i: int| 0 <= i < pos ==> (#[trigger] self.streams@[i]).stream_id.0 < id.0,
            decreases self.streams@.len() - pos,
        {
            pos = pos + 1;
        }
        proof {
            if pos < self.streams@.len() {
                assert forall|i: int| pos <= i < self.streams@.len() implies (
                #[trigger] self.streams@[i]).stream_id.0 >= id.0 by {
                    if i > pos {
                        assert(self.streams@[pos as int].stream_id.0 < self.streams@[i].stream_id.0);
                    }
                }
            }
        }
        pos
    }

    /// The artifacts of the stream `id`, if the index holds the stream.
    pub fn get(&self, id: StreamId) -> (frames: Option<&Vec<String>>)
        requires
            self.wf(),
        ensures
            match frames {
                Some(f) => self@.contains_key(id) && self@[id] == views(f@),
                None => !self@.contains_key(id),
            },
    {
        let pos = self.position(id);
        proof {
            lemma_lookup_finds(self.streams@, id);
        }
        if pos < self.streams.len() && self.streams[pos].stream_id.0 == id.0 {
            assert(self.streams@[pos as int].stream_id == id);
            Some(&self.streams[pos].frames)
        } else {
            assert forall|i: int| 0 <= i < self.streams@.len() implies (
            #[trigger] self.streams@[i]).stream_id != id by {
                if i >= pos {
                    if i > pos {
                        assert(self.streams@[pos as int].stream_id.0 < self.streams@[i].stream_id.0);
                    }
                }
            }
            None
        }
    }

    /// Whether the index holds the stream `id`.
    pub fn contains(&self, id: StreamId) -> (held: bool)
        requires
            self.wf(),
        ensures
            held == self@.contains_key(id),
    {
        self.get(id).is_some()
    }

    /// Enters `frames` as the artifacts of the stream `id`, in place of any
    /// that the index held for it.
    pub fn insert(&mut self, id: StreamId, frames: Vec<String>)
        requires
            old(self).wf(),
        ensures
            final(self).wf(),
            final(self)@ == old(self)@.insert(id, views(frames@)),
    {
        let pos = self.position(id);
        let ghost before = self.streams@;
        let ghost wanted = views(frames@);
        let entry = StreamFrames { stream_id: id, frames };
        if pos < self.streams.len() && self.streams[pos].stream_id.0 == id.0 {
            self.streams.set(pos, entry);
        } else {
            self.streams.insert(pos, entry);
        }
        proof {
            let after = self.streams@;
            assert(after[pos as int].stream_id == id);
            assert(views(after[pos as int].frames@) == wanted);
            let replaced = after.len() == before.len();
            assert forall|i: int, j: int| 0 <= i < j < after.len() implies (#[trigger] after[i]).stream_id.0
                < (#[trigger] after[j]).stream_id.0 by {
                if replaced {
                    if i != pos {
                        assert(after[i] == before[i]);
                    }
                    if j != pos {
                        assert(after[j] == before[j]);
                    }
                    assert(before[i].stream_id.0 < before[j].stream_id.0);
                } else {
                    if i < pos {
                        assert(after[i] == before[i]);
                    } else if i > pos {
                        assert(after[i] == before[i - 1]);
                    }
                    if j < pos {
                        assert(after[j] == before[j]);
                    } else if j > pos {
                        assert(after[j] == before[j - 1]);
                    }
                    if i < pos && j > pos {
                        assert(before[i].stream_id.0 < before[j - 1].stream_id.0);
                    }
                }
            }
            assert forall|k: StreamId| lookup(after, k) == (if k == id {
                Some(wanted)
            } else {
                lookup(before, k)
            }) by {
                lemma_lookup_finds(after, k);
                lemma_lookup_finds(before, k);
                if k != id {
                    if exists|i: int| 0 <= i < before.len() && (#[trigger] before[i]).stream_id == k {
                        let i = choose|i: int|
                            0 <= i < before.len() && (#[trigger] before[i]).stream_id == k;
                        if replaced {
                            assert(after[i] == before[i]);
                        } else if i < pos {
                            assert(after[i] == before[i]);
                        } else {
                            assert(after[i + 1] == before[i]);
                        }
                    } else {
                        assert forall|i: int| 0 <= i < after.len() implies (#[trigger] after[i]).stream_id
                            != k by {
                            if replaced {
                                if i != pos {
                                    assert(after[i] == before[i]);
                                }
                            } else if i < pos {
                                assert(after[i] == before[i]);
                            } else if i > pos {
                                assert(after[i] == before[i - 1]);
                            }
                        }
                    }
                }
            }
            assert(self@ =~= old(self)@.insert(id, wanted));
        }
    }
}

} // verus!
