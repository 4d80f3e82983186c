//! Camera streams: their identity, their descriptors, the slot that holds
//! the latest decoded frame of a camera, and the registry of the cameras
//! that are live.

use crate::layout::{join_numbered, joined};
use crate::pipeline::Session;
use crate::text::decimal_digits;
use vstd::prelude::*;
use vstd::string::*;

verus! {

/// The number of a camera, given by the place of its descriptor in the
/// configuration. Every artifact of a camera is filed under it.
#[derive(Debug, Clone, Copy, PartialEq, Eq, Hash, Structural)]
pub struct StreamId(pub usize);

/// How the encoded stream of a camera is carried.
#[derive(Debug, Clone, Copy, PartialEq, Eq, Structural)]
pub enum StreamTransport {
    Tcp,
    Udp,
}

impl Default for StreamTransport {
    fn default() -> (transport: Self)
        ensures
            transport == StreamTransport::Tcp,
    {
        StreamTransport::Tcp
    }
}

/// One camera of the configuration: where it is and how to use it.
#[derive(Debug, Clone, Default)]
pub struct StreamDescriptor {
    pub uri: String,
    pub transport: StreamTransport,
    pub visible: Option<bool>,
    pub person_detection: Option<bool>,
}

/// The cameras of the configuration, in the order that numbers them.
#[derive(Debug, Clone, Default)]
pub struct StreamUris(pub Vec<StreamDescriptor>);

impl StreamUris {
    /// The numbers of the cameras: each camera has the number of its place
    /// in the configuration.
    pub fn stream_ids(&self) -> (ids: Vec<StreamId>)
        ensures
            ids@.len() == self.0@.len(),
            forall|i: int| 0 <= i < ids@.len() ==> (#[trigger] ids@[i]).0 == i,
    {
        let mut ids: Vec<StreamId> = Vec::new();
        let mut i: usize = 0;
        while i < self.0.len()
            invariant
                0 <= i <= self.0@.len(),
                ids@.len() == i,
                forall|t: int| 0 <= t < i ==> (#[trigger] ids@[t]).0 == t,
            decreases self.0@.len() - i,
        {
            ids.push(StreamId(i));
            i = i + 1;
        }
        ids
    }
}

impl StreamDescriptor {
    /// Whether the frames of the camera are matted while it is live: the
    /// viewer records on its own and the camera looks for a subject.
    pub fn is_matted(&self, automatic_recording: bool) -> (matted: bool)
        ensures
            matted == (automatic_recording && self.person_detection == Some(true)),
    {
        automatic_recording && self.detects_persons()
    }

    /// Whether the camera is shown. One that does not say is not.
    pub fn is_visible(&self) -> (visible: bool)
        ensures
            visible == (self.visible == Some(true)),
    {
        match self.visible {
            Some(v) => v,
            None => false,
        }
    }

    /// Whether the camera looks for a subject. One that does not say does
    /// not.
    pub fn detects_persons(&self) -> (detects: bool)
        ensures
            detects == (self.person_detection == Some(true)),
    {
        match self.person_detection {
            Some(v) => v,
            None => false,
        }
    }
}

/// A decoded picture: four bytes for every pixel, row by row.
#[derive(Debug)]
pub struct Bgra8Frame {
    pub width: u32,
    pub height: u32,
    pub data: Vec<u8>,
}

/// The number of bytes of a picture of the given size.
pub open spec fn picture_bytes(width: u32, height: u32) -> int {
    width * height * 4
}

/// The picture is not empty and holds four bytes for every pixel.
pub open spec fn is_picture(width: u32, height: u32, data: Seq<u8>) -> bool {
    width > 0 && height > 0 && data.len() == picture_bytes(width, height)
}

/// Why a decoded picture was not taken.
#[derive(Debug, Clone, Copy, PartialEq, Eq, Structural)]
pub enum FrameError {
    /// The picture has no pixels, or its bytes are not four for every
    /// pixel.
    NotAPicture,
    /// The picture has another size than the one that waits in the slot:
    /// the camera has changed its resolution, and the session cannot go on.
    ResolutionChanged,
}

/// The latest decoded frame of a camera. A new frame takes the place of
/// the one that waits; a frame that is taken leaves the slot empty.
#[derive(Debug)]
pub struct FrameSlot {
    latest: Option<Bgra8Frame>,
}

/// What the slot holds, as plain values.
pub open spec fn frame_view(frame: Option<Bgra8Frame>) -> Option<(u32, u32, Seq<u8>)> {
    match frame {
        Some(f) => Some((f.width, f.height, f.data@)),
        None => None,
    }
}

/// A picture of the given size may follow what waits in the slot: the slot
/// is empty, or the waiting frame has that size.
pub open spec fn fits_waiting(slot: Option<(u32, u32, Seq<u8>)>, width: u32, height: u32) -> bool {
    match slot {
        Some((w, h, _)) => w == width && h == height,
        None => true,
    }
}

/// What the slot holds after the picture was offered to it.
pub open spec fn published(
    slot: Option<(u32, u32, Seq<u8>)>,
    width: u32,
    height: u32,
    data: Seq<u8>,
) -> Result<Option<(u32, u32, Seq<u8>)>, FrameError> {
    if !is_picture(width, height, data) {
        Err(FrameError::NotAPicture)
    } else if !fits_waiting(slot, width, height) {
        Err(FrameError::ResolutionChanged)
    } else {
        Ok(Some((width, height, data)))
    }
}

impl FrameSlot {
    /// What waits in the slot.
    pub closed spec fn view(&self) -> Option<(u32, u32, Seq<u8>)> {
        frame_view(self.latest)
    }

    /// What waits in the slot is a picture.
    pub open spec fn wf(&self) -> bool {
        match self@ {
            Some((width, height, data)) => is_picture(width, height, data),
            None => true,
        }
    }

    /// An empty slot.
    pub fn new() -> (slot: FrameSlot)
        ensures
            slot@ is None,
            slot.wf(),
    {
        FrameSlot { latest: None }
    }

    /// Puts a decoded picture in the slot, in place of the one that waits
    /// there. A picture of another size than the waiting one is refused,
    /// and so is one that is no picture; the slot then stays as it was.
    pub fn publish(&mut self, width: u32, height: u32, data: Vec<u8>) -> (result: Result<
        (),
        FrameError,
    >)
        requires
            old(self).wf(),
        ensures
            final(self).wf(),
            match result {
                Ok(()) => published(old(self)@, width, height, data@) == Ok::<_, FrameError>(
                    final(self)@,
                ),
                Err(e) => published(old(self)@, width, height, data@) == Err::<
                    Option<(u32, u32, Seq<u8>)>,
                    _,
                >(e) && final(self)@ == old(self)@,
            },
    {
        if width == 0 || height == 0 {
            return Err(FrameError::NotAPicture);
        }
        assert(width * height <= 0xFFFF_FFFF * 0xFFFF_FFFF) by (nonlinear_arith)
            requires
                0 <= width <= 0xFFFF_FFFF,
                0 <= height <= 0xFFFF_FFFF,
        ;
        let bytes: u128 = (width as u128) * (height as u128) * 4;
        if data.len() as u128 != bytes {
            return Err(FrameError::NotAPicture);
        }
        match &self.latest {
            Some(waiting) => {
                if waiting.width != width || waiting.height != height {
                    return Err(FrameError::ResolutionChanged);
                }
            },
            None => {},
        }
        self.latest = Some(Bgra8Frame { width, height, data });
        Ok(())
    }

    /// Takes the frame that waits in the slot, if there is one, and leaves
    /// the slot empty.
    pub fn take(&mut self) -> (frame: Option<Bgra8Frame>)
        requires
            old(self).wf(),
        ensures
            final(self)@ is None,
            final(self).wf(),
            frame_view(frame) == old(self)@,
    {
        self.latest.take()
    }
}

/// The slot after a run of pictures was offered to it, one after the
/// other; pictures that are refused leave it as it was.
pub open spec fn slot_after(
    slot: Option<(u32, u32, Seq<u8>)>,
    pictures: Seq<(u32, u32, Seq<u8>)>,
) -> Option<(u32, u32, Seq<u8>)>
    decreases pictures.len(),
{
    if pictures.len() == 0 {
        slot
    } else {
        let before = slot_after(slot, pictures.drop_last());
        match published(before, pictures.last().0, pictures.last().1, pictures.last().2) {
            Ok(after) => after,
            Err(_) => before,
        }
    }
}

/// After any run of pictures of one size, offered to a slot that is empty
/// or holds a frame of that size, the slot holds the last of them, however
/// many were offered since the slot was last emptied.
pub proof fn lemma_latest_frame_wins(
    slot: Option<(u32, u32, Seq<u8>)>,
    pictures: Seq<(u32, u32, Seq<u8>)>,
    width: u32,
    height: u32,
)
    requires
        pictures.len() > 0,
        fits_waiting(slot, width, height),
        forall|i: int|
            0 <= i < pictures.len() ==> (#[trigger] pictures[i]).0 == width && pictures[i].1
                == height && is_picture(width, height, pictures[i].2),
    ensures
        slot_after(slot, pictures) == Some(pictures.last()),
    decreases pictures.len(),
{
    let front = pictures.drop_last();
    if front.len() > 0 {
        assert forall|i: int| 0 <= i < front.len() implies (#[trigger] front[i]).0 == width
            && front[i].1 == height && is_picture(width, height, front[i].2) by {
            assert(front[i] == pictures[i]);
        }
        lemma_latest_frame_wins(slot, front, width, height);
        assert(front.last() == pictures[front.len() - 1]);
    }
    let last = pictures[pictures.len() - 1];
    let before = slot_after(slot, front);
    assert(pictures.last() == last);
    assert(fits_waiting(before, width, height));
    assert(published(before, last.0, last.1, last.2) == Ok::<_, FrameError>(
        Some((width, height, last.2)),
    ));
    assert(last == (width, height, last.2));
}

/// The image that the frames of a camera are shown in.
#[derive(Debug)]
pub struct TargetImage {
    pub width: u32,
    pub height: u32,
    pub data: Vec<u8>,
}

impl TargetImage {
    /// The image that stands for a camera until its first frame is
    /// decoded: a black square of 32 by 32 pixels.
    pub fn placeholder() -> (image: TargetImage)
        ensures
            image.width == 32,
            image.height == 32,
            image.data@.len() == 32 * 32 * 4,
            forall|i: int| 0 <= i < image.data@.len() ==> image.data@[i] == 0,
    {
        let mut data: Vec<u8> = Vec::new();
        let mut i: usize = 0;
        while i < 4096
            invariant
                0 <= i <= 4096,
                data@.len() == i,
                forall|t: int| 0 <= t < i ==> data@[t] == 0,
            decreases 4096 - i,
        {
            data.push(0);
            i = i + 1;
        }
        TargetImage { width: 32, height: 32, data }
    }
}

/// What a poll of the slot did to the image.
#[derive(Debug, Clone, Copy, PartialEq, Eq, Structural)]
pub enum Delivery {
    /// No frame was waiting: the image is as it was.
    Nothing,
    /// A frame of the size of the image was copied into it.
    Copied,
    /// A frame of another size was waiting: the image took its size and
    /// its pixels.
    Resized,
}

/// Polls the slot for `image`: a frame that waits is moved into the image,
/// which takes its size where the two differ. No frame is delivered twice:
/// the slot is empty afterwards.
pub fn apply_decode(slot: &mut FrameSlot, image: &mut TargetImage) -> (delivery: Delivery)
    requires
        old(slot).wf(),
    ensures
        final(slot)@ is None,
        final(slot).wf(),
        match old(slot)@ {
            Some((width, height, data)) => {
                &&& final(image).width == width
                &&& final(image).height == height
                &&& final(image).data@ == data
                &&& delivery == if old(image).width == width && old(image).height == height {
                    Delivery::Copied
                } else {
                    Delivery::Resized
                }
            },
            None => *final(image) == *old(image) && delivery == Delivery::Nothing,
        },
{
    match slot.take() {
        Some(frame) => {
            let same = image.width == frame.width && image.height == frame.height;
            image.width = frame.width;
            image.height = frame.height;
            image.data = frame.data;
            if same {
                Delivery::Copied
            } else {
                Delivery::Resized
            }
        },
        None => Delivery::Nothing,
    }
}

/// A camera that the manager has registered.
#[derive(Debug, Clone, Copy, PartialEq, Eq, Structural)]
pub struct RtspStreamHandle {
    pub id: StreamId,
    /// The session of the camera runs and takes recording commands.
    pub ready: bool,
}

/// Why a camera was not registered.
#[derive(Debug, Clone, Copy, PartialEq, Eq, Structural)]
pub enum RegistryError {
    /// A camera with this number is registered already.
    DuplicateStreamId,
}

/// A clip that a camera is told to record.
#[derive(Debug)]
pub struct RecordingTarget {
    pub id: StreamId,
    pub path: String,
}

/// The registry of the cameras that are live. No two of them have one
/// number.
#[derive(Debug)]
pub struct RtspStreamManager {
    stream_handles: Vec<RtspStreamHandle>,
}

/// `id` is the number of one of `handles`.
pub open spec fn is_registered(handles: Seq<RtspStreamHandle>, id: StreamId) -> bool {
    exists|i: int| 0 <= i < handles.len() && (#[trigger] handles[i]).id == id
}

/// No two of `handles` have one number.
pub open spec fn distinct_ids(handles: Seq<RtspStreamHandle>) -> bool {
    forall|i: int, j: int|
        0 <= i < j < handles.len() ==> (#[trigger] handles[i]).id != (#[trigger] handles[j]).id
}

/// The cameras among `handles` that take commands, in their order.
pub open spec fn ready_ids(handles: Seq<RtspStreamHandle>) -> Seq<StreamId>
    decreases handles.len(),
{
    if handles.len() == 0 {
        Seq::empty()
    } else if handles.last().ready {
        ready_ids(handles.drop_last()).push(handles.last().id)
    } else {
        ready_ids(handles.drop_last())
    }
}

/// The name of the clip of a camera.
pub open spec fn clip_name(id: StreamId) -> Seq<char> {
    decimal_digits(id.0 as nat) + ".mp4"@
}

impl RtspStreamManager {
    /// The registered cameras, in the order in which they were added.
    pub closed spec fn view(&self) -> Seq<RtspStreamHandle> {
        self.stream_handles@
    }

    /// No two registered cameras have one number.
    pub open spec fn wf(&self) -> bool {
        distinct_ids(self@)
    }

    /// A registry without cameras.
    pub fn new() -> (manager: RtspStreamManager)
        ensures
            manager.wf(),
            manager@.len() == 0,
    {
        RtspStreamManager { stream_handles: Vec::new() }
    }

    /// Where the camera `id` stands in the registry.
    fn find(&self, id: StreamId) -> (found: Option<usize>)
        ensures
            match found {
                Some(i) => i < self@.len() && self@[i as int].id == id,
                None => !is_registered(self@, id),
            },
    {
        let mut i: usize = 0;
        while i < self.stream_handles.len()
            invariant
                0 <= i <= self.stream_handles@.len(),
                forall|t: int| 0 <= t < i ==> (#[trigger] self.stream_handles@[t]).id != id,
            decreases self.stream_handles@.len() - i,
        {
            if self.stream_handles[i].id.0 == id.0 {
                return Some(i);
            }
            i = i + 1;
        }
        None
    }

    /// Whether a camera with the number `id` is registered.
    pub fn contains(&self, id: StreamId) -> (registered: bool)
        ensures
            registered == is_registered(self@, id),
    {
        match self.find(id) {
            Some(i) => {
                assert(self@[i as int].id == id);
                true
            },
            None => false,
        }
    }

    /// Registers the camera `id`. Its session is not running yet. A number
    /// that is registered already is refused, and the registry stays as it
    /// was.
    pub fn add_stream(&mut self, id: StreamId) -> (result: Result<(), RegistryError>)
        requires
            old(self).wf(),
        ensures
            final(self).wf(),
            match result {
                Ok(()) => !is_registered(old(self)@, id) && final(self)@ == old(self)@.push(
                    RtspStreamHandle { id, ready: false },
                ),
                Err(e) => e == RegistryError::DuplicateStreamId && is_registered(old(self)@, id)
                    && final(self)@ == old(self)@,
            },
    {
        if self.contains(id) {
            return Err(RegistryError::DuplicateStreamId);
        }
        let ghost before = self.stream_handles@;
        self.stream_handles.push(RtspStreamHandle { id, ready: false });
        proof {
            let after = self.stream_handles@;
            assert forall|i: int, j: int| 0 <= i < j < after.len() implies (#[trigger] after[i]).id
                != (#[trigger] after[j]).id by {
                assert(after[i] == before[i]);
                if j < before.len() {
                    assert(after[j] == before[j]);
                }
            }
        }
        Ok(())
    }

    /// Notes whether the session of the camera `id` takes commands. Says
    /// whether the camera is registered; nothing changes where it is not.
    pub fn set_ready(&mut self, id: StreamId, ready: bool) -> (known: bool)
        requires
            old(self).wf(),
        ensures
            final(self).wf(),
            known == is_registered(old(self)@, id),
            final(self)@.len() == old(self)@.len(),
            forall|i: int|
                0 <= i < old(self)@.len() ==> (#[trigger] final(self)@[i]) == (if old(
                    self,
                )@[i].id == id {
                    RtspStreamHandle { id, ready }
                } else {
                    old(self)@[i]
                }),
    {
        match self.find(id) {
            Some(i) => {
                let ghost before = self.stream_handles@;
                self.stream_handles.set(i, RtspStreamHandle { id, ready });
                proof {
                    let after = self.stream_handles@;
                    assert(before[i as int].id == id);
                    assert forall|a: int, b: int| 0 <= a < b < after.len() implies (
                    #[trigger] after[a]).id != (#[trigger] after[b]).id by {
                        assert(before[a].id != before[b].id);
                    }
                    assert forall|t: int| 0 <= t < before.len() implies (#[trigger] after[t])
                        == (if before[t].id == id {
                        RtspStreamHandle { id, ready }
                    } else {
                        before[t]
                    }) by {
                        if t != i {
                            if t < i {
                                assert(before[t].id != before[i as int].id);
                            } else {
                                assert(before[i as int].id != before[t].id);
                            }
                        }
                    }
                }
                true
            },
            None => false,
        }
    }

    /// The cameras that take commands, in the order in which they were
    /// added.
    pub fn ready_streams(&self) -> (ids: Vec<StreamId>)
        ensures
            ids@ == ready_ids(self@),
    {
        let mut ids: Vec<StreamId> = Vec::new();
        let mut i: usize = 0;
        while i < self.stream_handles.len()
            invariant
                0 <= i <= self.stream_handles@.len(),
                ids@ == ready_ids(self@.take(i as int)),
            decreases self.stream_handles@.len() - i,
        {
            proof {
                assert(self@.take(i + 1).drop_last() =~= self@.take(i as int));
                assert(self@.take(i + 1).last() == self@[i as int]);
            }
            let handle = self.stream_handles[i];
            if handle.ready {
                ids.push(handle.id);
            }
            i = i + 1;
        }
        proof {
            assert(self@.take(self@.len() as int) =~= self@);
        }
        ids
    }

    /// The clips to record for `session`: one for every camera that takes
    /// commands, under the directory of the raw clips of the session. A
    /// camera whose session is not running yet is passed over.
    pub fn start_recording(&self, session: &Session) -> (targets: Vec<RecordingTarget>)
        ensures
            targets@.len() == ready_ids(self@).len(),
            forall|i: int|
                0 <= i < targets@.len() ==> (#[trigger] targets@[i]).id == ready_ids(self@)[i]
                    && targets@[i].path@ == joined(
                    joined(session.directory@, "raw"@),
                    clip_name(ready_ids(self@)[i]),
                ),
    {
        let raw = session.raw_directory();
        let mut targets: Vec<RecordingTarget> = Vec::new();
        let mut i: usize = 0;
        while i < self.stream_handles.len()
            invariant
                0 <= i <= self.stream_handles@.len(),
                raw@ == joined(session.directory@, "raw"@),
                targets@.len() == ready_ids(self@.take(i as int)).len(),
                forall|t: int|
                    0 <= t < targets@.len() ==> (#[trigger] targets@[t]).id == ready_ids(
                        self@.take(i as int),
                    )[t] && targets@[t].path@ == joined(
                        joined(session.directory@, "raw"@),
                        clip_name(ready_ids(self@.take(i as int))[t]),
                    ),
            decreases self.stream_handles@.len() - i,
        {
            proof {
                assert(self@.take(i + 1).drop_last() =~= self@.take(i as int));
                assert(self@.take(i + 1).last() == self@[i as int]);
            }
            let handle = self.stream_handles[i];
            if handle.ready {
                let path = join_numbered(raw.as_str(), handle.id.0, ".mp4");
                targets.push(RecordingTarget { id: handle.id, path });
            }
            i = i + 1;
        }
        proof {
            assert(self@.take(self@.len() as int) =~= self@);
        }
        targets
    }

    /// The names of the clips that were recorded: one for every camera
    /// that takes commands, each of which is told to stop.
    pub fn stop_recording(&self) -> (clips: Vec<String>)
        ensures
            clips@.len() == ready_ids(self@).len(),
            forall|i: int|
                0 <= i < clips@.len() ==> (#[trigger] clips@[i])@ == clip_name(ready_ids(self@)[i]),
    {
        let mut clips: Vec<String> = Vec::new();
        let mut i: usize = 0;
        while i < self.stream_handles.len()
            invariant
                0 <= i <= self.stream_handles@.len(),
                clips@.len() == ready_ids(self@.take(i as int)).len(),
                forall|t: int|
                    0 <= t < clips@.len() ==> (#[trigger] clips@[t])@ == clip_name(
                        ready_ids(self@.take(i as int))[t],
                    ),
            decreases self.stream_handles@.len() - i,
        {
            proof {
                assert(self@.take(i + 1).drop_last() =~= self@.take(i as int));
                assert(self@.take(i + 1).last() == self@[i as int]);
            }
            let handle = self.stream_handles[i];
            if handle.ready {
                let mut name = crate::text::decimal(handle.id.0);
                name.append(".mp4");
                clips.push(name);
            }
            i = i + 1;
        }
        proof {
            assert(self@.take(self@.len() as int) =~= self@);
        }
        clips
    }
}

} // verus!
