//! Bitstream reframing: length-prefixed units to start-code framing.
//!
//! Cameras deliver each access unit as a run of units, every one led by a
//! four-byte big-endian length. The decoder wants the same payloads led by
//! the four-byte start code `00 00 00 01`. Both prefixes have the same size,
//! so the buffer is changed in place.

use vstd::prelude::*;

verus! {

/// Why a buffer is not a whole number of length-prefixed units.
#[derive(Debug, Clone, Copy, PartialEq, Eq, Structural)]
pub enum FramingError {
    /// A unit announces more payload than the buffer still holds.
    PartialBody,
    /// Fewer than four bytes are left where a length should stand.
    PartialLength,
}

/// The big-endian length that stands at `at`.
pub open spec fn unit_length(data: Seq<u8>, at: int) -> int {
    data[at] as int * 0x100_0000 + data[at + 1] as int * 0x1_0000 + data[at + 2] as int * 0x100
        + data[at + 3] as int
}

/// `data` with the start code written over the four bytes at `at`.
pub open spec fn stamp(data: Seq<u8>, at: int) -> Seq<u8> {
    data.update(at, 0u8).update(at + 1, 0u8).update(at + 2, 0u8).update(at + 3, 1u8)
}

/// Where the walk over the units stops when it is at `at`: at the end of the
/// buffer, at a unit whose body is cut short, or at a cut-short length.
pub open spec fn walk_stop(data: Seq<u8>, at: int) -> int
    decreases data.len() - at,
{
    if 0 <= at && at + 4 <= data.len() {
        let next = at + 4 + unit_length(data, at);
        if next > data.len() {
            at
        } else {
            walk_stop(data, next)
        }
    } else {
        at
    }
}

/// The buffer as the walk from `at` leaves it: the length of every unit
/// that lies whole in the buffer is replaced by the start code. A unit that
/// is cut short stays as it was, its length included.
pub open spec fn reframe_from(data: Seq<u8>, at: int) -> Seq<u8>
    decreases data.len() - at,
{
    if 0 <= at && at + 4 <= data.len() {
        let next = at + 4 + unit_length(data, at);
        if next > data.len() {
            data
        } else {
            reframe_from(stamp(data, at), next)
        }
    } else {
        data
    }
}

/// The verdict on a whole buffer.
pub open spec fn framing_of(data: Seq<u8>) -> Result<(), FramingError> {
    let stop = walk_stop(data, 0);
    if stop == data.len() {
        Ok(())
    } else if stop + 4 <= data.len() {
        Err(FramingError::PartialBody)
    } else {
        Err(FramingError::PartialLength)
    }
}

/// Puts a start code in the place of the length prefix of every unit in
/// `data`. A buffer that ends in a cut-short length or a cut-short body is
/// refused; the units before the cut are reframed by then, and nothing from
/// the last unit boundary on is touched.
pub fn convert_h264(data: &mut [u8]) -> (result: Result<(), FramingError>)
    ensures
        final(data)@ == reframe_from(old(data)@, 0),
        result == framing_of(old(data)@),
{
    let n = data.len();
    let mut i: usize = 0;
    while n - i >= 4
        invariant
            0 <= i <= n,
            n == data@.len(),
            n == old(data)@.len(),
            reframe_from(data@, i as int) == reframe_from(old(data)@, 0),
            walk_stop(old(data)@, i as int) == walk_stop(old(data)@, 0),
            forall|j: int| i <= j < n ==> data@[j] == old(data)@[j],
        decreases n - i,
    {
        let len: u64 = data[i] as u64 * 0x100_0000 + data[i + 1] as u64 * 0x1_0000 + data[i + 2] as u64
            * 0x100 + data[i + 3] as u64;
        if len > (n - i - 4) as u64 {
            return Err(FramingError::PartialBody);
        }
        data[i] = 0;
        data[i + 1] = 0;
        data[i + 2] = 0;
        data[i + 3] = 1;
        i = i + 4 + len as usize;
    }
    if i < n {
        return Err(FramingError::PartialLength);
    }
    Ok(())
}

/// The four bytes that announce a payload of `len` bytes on the wire.
pub open spec fn length_prefix(len: nat) -> Seq<u8> {
    seq![
        ((len / 0x100_0000) % 0x100) as u8,
        ((len / 0x1_0000) % 0x100) as u8,
        ((len / 0x100) % 0x100) as u8,
        (len % 0x100) as u8,
    ]
}

/// The start code that the decoder expects before every unit.
pub open spec fn start_code() -> Seq<u8> {
    seq![0u8, 0u8, 0u8, 1u8]
}

/// The payloads as they come from the camera, each led by its length.
pub open spec fn length_prefixed(units: Seq<Seq<u8>>) -> Seq<u8>
    decreases units.len(),
{
    if units.len() == 0 {
        Seq::empty()
    } else {
        length_prefix(units[0].len()) + units[0] + length_prefixed(units.drop_first())
    }
}

/// The payloads as the decoder wants them, each led by the start code.
pub open spec fn start_coded(units: Seq<Seq<u8>>) -> Seq<u8>
    decreases units.len(),
{
    if units.len() == 0 {
        Seq::empty()
    } else {
        start_code() + units[0] + start_coded(units.drop_first())
    }
}

/// Two buffers that agree from `at` on are walked alike from there, and the
/// walk leaves alone what lies before `at`.
pub proof fn lemma_walk_reads_ahead_only(a: Seq<u8>, b: Seq<u8>, at: int)
    requires
        a.len() == b.len(),
        0 <= at,
        forall|j: int| at <= j < a.len() ==> a[j] == b[j],
    ensures
        walk_stop(a, at) == walk_stop(b, at),
        reframe_from(a, at).len() == a.len(),
        forall|j: int| at <= j < a.len() ==> reframe_from(a, at)[j] == reframe_from(b, at)[j],
        forall|j: int| 0 <= j < at && j < a.len() ==> reframe_from(a, at)[j] == a[j],
    decreases a.len() - at,
{
    if at + 4 <= a.len() {
        let next = at + 4 + unit_length(a, at);
        assert(unit_length(a, at) == unit_length(b, at));
        let sa = stamp(a, at);
        let sb = stamp(b, at);
        if next <= a.len() {
            lemma_walk_reads_ahead_only(a, b, next);
            lemma_walk_reads_ahead_only(sa, sb, next);
            lemma_walk_reads_ahead_only(sb, sa, next);
            assert(reframe_from(a, at) == reframe_from(sa, next));
            assert(reframe_from(b, at) == reframe_from(sb, next));
            assert forall|j: int| at <= j < a.len() implies reframe_from(a, at)[j] == reframe_from(
                b,
                at,
            )[j] by {
                if j < next {
                    assert(reframe_from(sa, next)[j] == sa[j]);
                    assert(reframe_from(sb, next)[j] == sb[j]);
                }
            }
            assert forall|j: int| 0 <= j < at && j < a.len() implies reframe_from(a, at)[j]
                == a[j] by {
                assert(reframe_from(sa, next)[j] == sa[j]);
            }
        }
    }
}

/// The walk keeps the length of the buffer, and touches nothing before the
/// place where it starts and nothing from the place on where it stops.
pub proof fn lemma_reframe_touches_prefixes_only(data: Seq<u8>, at: int)
    requires
        0 <= at <= data.len(),
    ensures
        reframe_from(data, at).len() == data.len(),
        at <= walk_stop(data, at) <= data.len(),
        forall|j: int| 0 <= j < at ==> reframe_from(data, at)[j] == data[j],
        forall|j: int|
            walk_stop(data, at) <= j < data.len() ==> reframe_from(data, at)[j] == data[j],
    decreases data.len() - at,
{
    lemma_walk_reads_ahead_only(data, data, at);
    if at + 4 <= data.len() {
        let next = at + 4 + unit_length(data, at);
        let stamped = stamp(data, at);
        if next <= data.len() {
            lemma_walk_reads_ahead_only(stamped, data, next);
            lemma_reframe_touches_prefixes_only(stamped, next);
            assert(walk_stop(data, at) == walk_stop(stamped, next));
            assert(reframe_from(data, at) == reframe_from(stamped, next));
            let stop = walk_stop(data, at);
            assert forall|j: int| stop <= j < data.len() implies reframe_from(data, at)[j]
                == data[j] by {
                assert(reframe_from(stamped, next)[j] == stamped[j]);
            }
        }
    }
}

/// The walk passes over length-prefixed units and leaves them behind as
/// the same payloads behind start codes, whatever follows them. `head`
/// stands for what the walk has already passed, `tail` for what follows the
/// units.
pub proof fn lemma_reframe_units_after(head: Seq<u8>, units: Seq<Seq<u8>>, tail: Seq<u8>)
    requires
        forall|k: int| 0 <= k < units.len() ==> units[k].len() <= u32::MAX,
    ensures
        start_coded(units).len() == length_prefixed(units).len(),
        walk_stop(head + length_prefixed(units) + tail, head.len() as int) == walk_stop(
            head + start_coded(units) + tail,
            (head + start_coded(units)).len() as int,
        ),
        reframe_from(head + length_prefixed(units) + tail, head.len() as int) == reframe_from(
            head + start_coded(units) + tail,
            (head + start_coded(units)).len() as int,
        ),
    decreases units.len(),
{
    let data = head + length_prefixed(units) + tail;
    let at = head.len() as int;
    if units.len() == 0 {
        assert(head + length_prefixed(units) =~= head);
        assert(head + start_coded(units) =~= head);
    } else {
        let first = units[0];
        let rest = units.drop_first();
        let len = first.len();
        assert(len <= u32::MAX);
        lemma_length_prefix_reads_back(len);
        assert(unit_length(data, at) == len) by {
            assert(data[at] == length_prefix(len)[0]);
            assert(data[at + 1] == length_prefix(len)[1]);
            assert(data[at + 2] == length_prefix(len)[2]);
            assert(data[at + 3] == length_prefix(len)[3]);
        }
        let next_head = head + start_code() + first;
        let next = at + 4 + len;
        let stamped = stamp(data, at);
        assert(next == next_head.len());
        assert(length_prefixed(units).len() == 4 + len + length_prefixed(rest).len());
        assert(next <= data.len());
        assert(stamped =~= next_head + length_prefixed(rest) + tail);
        lemma_reframe_units_after(next_head, rest, tail);
        lemma_walk_reads_ahead_only(stamped, data, next);
        assert(walk_stop(data, at) == walk_stop(data, next));
        assert(reframe_from(data, at) == reframe_from(stamped, next));
        assert(next_head + start_coded(rest) =~= head + start_coded(units));
        assert(start_coded(units).len() == 4 + len + start_coded(rest).len());
    }
}

/// Reframing a run of length-prefixed units succeeds, replaces every length
/// by the start code and leaves every payload byte as it was.
pub proof fn lemma_reframe_units(units: Seq<Seq<u8>>)
    requires
        forall|k: int| 0 <= k < units.len() ==> units[k].len() <= u32::MAX,
    ensures
        framing_of(length_prefixed(units)) == Ok::<(), FramingError>(()),
        reframe_from(length_prefixed(units), 0) == start_coded(units),
{
    let none = Seq::<u8>::empty();
    lemma_reframe_units_after(none, units, none);
    assert(none + length_prefixed(units) + none =~= length_prefixed(units));
    assert(none + start_coded(units) + none =~= start_coded(units));
    assert(none + start_coded(units) =~= start_coded(units));
}

/// Reframing units that are followed by the beginning of a length fails,
/// and leaves the units reframed and the cut-short length as it was.
pub proof fn lemma_cut_short_length(units: Seq<Seq<u8>>, tail: Seq<u8>)
    requires
        forall|k: int| 0 <= k < units.len() ==> units[k].len() <= u32::MAX,
        0 < tail.len() < 4,
    ensures
        framing_of(length_prefixed(units) + tail) == Err::<(), FramingError>(
            FramingError::PartialLength,
        ),
        reframe_from(length_prefixed(units) + tail, 0) == start_coded(units) + tail,
{
    let none = Seq::<u8>::empty();
    lemma_reframe_units_after(none, units, tail);
    assert(none + length_prefixed(units) + tail =~= length_prefixed(units) + tail);
    assert(none + start_coded(units) + tail =~= start_coded(units) + tail);
    assert(none + start_coded(units) =~= start_coded(units));
}

/// Reframing units that are followed by a unit whose body is cut short
/// fails. It leaves the units reframed and the cut-short unit as it was,
/// length and body.
pub proof fn lemma_cut_short_body(units: Seq<Seq<u8>>, len: nat, body: Seq<u8>)
    requires
        forall|k: int| 0 <= k < units.len() ==> units[k].len() <= u32::MAX,
        body.len() < len <= u32::MAX,
    ensures
        framing_of(length_prefixed(units) + (length_prefix(len) + body)) == Err::<
            (),
            FramingError,
        >(FramingError::PartialBody),
        reframe_from(length_prefixed(units) + (length_prefix(len) + body), 0) == start_coded(units)
            + (length_prefix(len) + body),
{
    let none = Seq::<u8>::empty();
    let tail = length_prefix(len) + body;
    lemma_reframe_units_after(none, units, tail);
    assert(none + length_prefixed(units) + tail =~= length_prefixed(units) + tail);
    assert(none + start_coded(units) + tail =~= start_coded(units) + tail);
    assert(none + start_coded(units) =~= start_coded(units));
    let passed = start_coded(units);
    let data = passed + tail;
    let at = passed.len() as int;
    lemma_length_prefix_reads_back(len);
    assert(unit_length(data, at) == len) by {
        assert(data[at] == length_prefix(len)[0]);
        assert(data[at + 1] == length_prefix(len)[1]);
        assert(data[at + 2] == length_prefix(len)[2]);
        assert(data[at + 3] == length_prefix(len)[3]);
    }
    assert(data.len() == at + 4 + body.len());
    assert(walk_stop(data, at) == at);
    assert(reframe_from(data, at) == data);
    assert((length_prefixed(units) + tail).len() == data.len());
}

/// The four bytes that announce a length read back as that length.
pub proof fn lemma_length_prefix_reads_back(len: nat)
    requires
        len <= u32::MAX,
    ensures
        unit_length(length_prefix(len), 0) == len,
{
    let a = (len / 0x100_0000) % 0x100;
    let b = (len / 0x1_0000) % 0x100;
    let c = (len / 0x100) % 0x100;
    let d = len % 0x100;
    assert(a * 0x100_0000 + b * 0x1_0000 + c * 0x100 + d == len) by (nonlinear_arith)
        requires
            len <= 0xFFFF_FFFF,
            a == (len / 0x100_0000) % 0x100,
            b == (len / 0x1_0000) % 0x100,
            c == (len / 0x100) % 0x100,
            d == len % 0x100,
    ;
}

/// What a failed reframing leaves behind: the buffer keeps its length, and
/// every byte from the last unit boundary on is as it was, whether a length
/// or a body is cut short there.
pub proof fn lemma_failure_is_contained(data: Seq<u8>)
    ensures
        reframe_from(data, 0).len() == data.len(),
        0 <= walk_stop(data, 0) <= data.len(),
        forall|j: int| walk_stop(data, 0) <= j < data.len() ==> reframe_from(data, 0)[j] == data[j],
{
    lemma_reframe_touches_prefixes_only(data, 0);
}

} // verus!
