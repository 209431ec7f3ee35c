//! The frame transport: payloads of any length over fixed-size data frames.
//!
//! A payload is cut into chunks of 63 bytes. Each full chunk travels in one
//! data frame; what is left after the last full chunk, which may be nothing,
//! is padded with zeros and travels in one more. A payload of `n` bytes thus
//! takes `n / 63 + 1` frames. The length is not part of the frames: the
//! receiver has it from elsewhere and cuts the padding off.

use vstd::prelude::*;
use crate::error::BusFailure;
use crate::error::DriverError;
use crate::messages::HostMessage;
use crate::messages::USB_DATA_CHUNK_LEN;
use crate::messages::USB_DEVICE_MSG_LEN;

verus! {

/// Number of data frames that carry a payload of `len` bytes.
pub open spec fn frame_count(len: nat) -> nat {
    len / 63 + 1
}

/// Chunk `k` of a payload: its bytes from `63 * k` on, then zeros.
pub open spec fn chunk_of(payload: Seq<u8>, k: int) -> Seq<u8> {
    Seq::new(
        USB_DATA_CHUNK_LEN as nat,
        |i: int| if 63 * k + i < payload.len() { payload[63 * k + i] } else { 0u8 },
    )
}

/// The data frame of chunk `k` of a payload, as it goes over the wire.
pub open spec fn data_frame(payload: Seq<u8>, k: int) -> Seq<u8> {
    seq![0x00u8] + chunk_of(payload, k)
}

/// All data frames of a payload, in order.
pub open spec fn data_frames(payload: Seq<u8>) -> Seq<Seq<u8>> {
    Seq::new(frame_count(payload.len()), |k: int| data_frame(payload, k))
}

/// `msgs` are the data messages of `payload`: one per chunk, in order.
pub open spec fn carries(msgs: Seq<HostMessage>, payload: Seq<u8>) -> bool {
    &&& msgs.len() == frame_count(payload.len())
    &&& forall|k: int|
        0 <= k < msgs.len() ==> (#[trigger] msgs[k] matches HostMessage::Data { data }
            && data@ == chunk_of(payload, k))
}

/// Number of frames to read for a payload of `expected_len` bytes.
pub fn frames_needed(expected_len: usize) -> (count: usize)
    ensures
        count == frame_count(expected_len as nat),
{
    expected_len / USB_DATA_CHUNK_LEN + 1
}

/// Cuts a payload into its data messages.
pub fn split_payload(data: &[u8]) -> (msgs: Vec<HostMessage>)
    ensures
        carries(msgs@, data@),
{
    let count: usize = data.len() / USB_DATA_CHUNK_LEN + 1;
    let mut msgs: Vec<HostMessage> = Vec::new();
    let mut k: usize = 0;
    while k < count
        invariant
            data@.len() <= usize::MAX,
            count == data@.len() / 63 + 1,
            k <= count,
            msgs@.len() == k,
            forall|j: int|
                0 <= j < k ==> (#[trigger] msgs@[j] matches HostMessage::Data { data: chunk }
                    && chunk@ == chunk_of(data@, j)),
        decreases count - k,
    {
        let base: usize = k * USB_DATA_CHUNK_LEN;
        let rest: usize = data.len() - base;
        let mut chunk: [u8; USB_DATA_CHUNK_LEN] = [0u8; 63];
        let mut i: usize = 0;
        while i < USB_DATA_CHUNK_LEN && i < rest
            invariant
                data@.len() <= usize::MAX,
                base == 63 * k,
                base + rest == data@.len(),
                i <= USB_DATA_CHUNK_LEN,
                i <= rest,
                chunk@.len() == 63,
                forall|j: int| 0 <= j < i ==> chunk@[j] == data@[base + j],
                forall|j: int| i <= j < 63 ==> chunk@[j] == 0u8,
            decreases USB_DATA_CHUNK_LEN - i,
        {
            chunk[i] = data[base + i];
            i += 1;
        }
        assert(chunk@ =~= chunk_of(data@, k as int));
        msgs.push(HostMessage::Data { data: chunk });
        k += 1;
    }
    msgs
}

/// The views of a run of frames.
pub open spec fn frame_views(frames: Seq<[u8; USB_DEVICE_MSG_LEN]>) -> Seq<Seq<u8>> {
    Seq::new(frames.len(), |k: int| frames[k]@)
}

/// The first `expected_len` payload bytes of a run of data frames.
pub open spec fn reassembled(frames: Seq<Seq<u8>>, expected_len: nat) -> Seq<u8> {
    Seq::new(expected_len, |i: int| frames[i / 63][1 + i % 63])
}

/// Length of the longest run of data frames at the start of the first `limit`
/// frames: the index of the first frame there that is not a data frame, or
/// `limit` if all are.
pub open spec fn data_run(frames: Seq<Seq<u8>>, limit: int) -> int
    decreases limit,
{
    if limit <= 0 {
        0
    } else {
        let before = data_run(frames, limit - 1);
        if before == limit - 1 && frames[limit - 1][0] == 0x00 {
            limit
        } else {
            before
        }
    }
}

/// What a receiver makes of the frames that arrived for a payload of
/// `expected_len` bytes. It reads `frame_count(expected_len)` frames and no
/// more. A frame that is not a data frame ends the transfer with
/// `UnexpectedMessage` and the frame's tag. Too few frames end it with
/// `PartialTransfer` and the number of payload bytes that did arrive.
pub open spec fn received(frames: Seq<Seq<u8>>, expected_len: nat) -> Result<Seq<u8>, DriverError> {
    let needed = frame_count(expected_len) as int;
    let seen = if frames.len() < needed { frames.len() as int } else { needed };
    let run = data_run(frames, seen);
    if run < seen {
        Err(DriverError::UnexpectedMessage(frames[run][0]))
    } else if seen < needed {
        Err(DriverError::PartialTransfer((63 * seen) as usize))
    } else {
        Ok(reassembled(frames, expected_len))
    }
}

/// Puts a payload of `expected_len` bytes together again from the frames that
/// arrived for it.
pub fn join_payload(frames: &[[u8; USB_DEVICE_MSG_LEN]], expected_len: usize) -> (res: Result<
    Vec<u8>,
    DriverError,
>)
    ensures
        match res {
            Ok(payload) => received(frame_views(frames@), expected_len as nat) == Ok::<
                Seq<u8>,
                DriverError,
            >(payload@),
            Err(e) => received(frame_views(frames@), expected_len as nat) == Err::<
                Seq<u8>,
                DriverError,
            >(e),
        },
{
    let ghost views = frame_views(frames@);
    let needed: usize = expected_len / USB_DATA_CHUNK_LEN + 1;
    let seen: usize = if frames.len() < needed { frames.len() } else { needed };
    let mut k: usize = 0;
    while k < seen
        invariant
            k <= seen <= frames@.len(),
            needed == frame_count(expected_len as nat),
            seen == if frames@.len() < needed { frames@.len() } else { needed as nat },
            views == frame_views(frames@),
            data_run(views, k as int) == k,
        decreases seen - k,
    {
        let tag: u8 = frames[k][0];
        if tag != 0x00 {
            proof {
                assert(views[k as int] == frames@[k as int]@);
                lemma_data_run_stops(views, k as int, seen as int);
            }
            return Err(DriverError::UnexpectedMessage(tag));
        }
        k += 1;
    }
    if seen < needed {
        return Err(DriverError::PartialTransfer(USB_DATA_CHUNK_LEN * seen));
    }
    let mut payload: Vec<u8> = Vec::new();
    let mut i: usize = 0;
    while i < expected_len
        invariant
            i <= expected_len,
            needed == frame_count(expected_len as nat),
            needed <= frames@.len(),
            views == frame_views(frames@),
            payload@.len() == i,
            forall|j: int| 0 <= j < i ==> payload@[j] == views[j / 63][1 + j % 63],
        decreases expected_len - i,
    {
        assert(views[i as int / 63] == frames@[i as int / 63]@);
        let byte: u8 = frames[i / USB_DATA_CHUNK_LEN][1 + i % USB_DATA_CHUNK_LEN];
        payload.push(byte);
        i += 1;
    }
    assert(payload@ =~= reassembled(views, expected_len as nat));
    Ok(payload)
}

/// Number of data messages in the unbroken run that ends just before `index`.
pub open spec fn chunks_before(msgs: Seq<HostMessage>, index: int) -> int
    decreases index,
{
    if 0 < index <= msgs.len() && msgs[index - 1] is Data {
        1 + chunks_before(msgs, index - 1)
    } else {
        0
    }
}

/// What the caller is told when the bus fails on message `index` of `msgs`,
/// the messages before it having gone out. A failure on a data message is a
/// `PartialTransfer` with the payload bytes of its segment that did go out,
/// 63 for each data message before it, whatever the failure was. On any other
/// message a timeout is `TimedOut`, and another failure a `PartialTransfer`
/// of nothing.
pub open spec fn send_failed(msgs: Seq<HostMessage>, index: int, failure: BusFailure) -> DriverError {
    if 0 <= index < msgs.len() && msgs[index] is Data {
        let moved = 63 * chunks_before(msgs, index);
        DriverError::PartialTransfer(
            if moved <= usize::MAX {
                moved as usize
            } else {
                usize::MAX
            },
        )
    } else if failure is TimedOut {
        DriverError::TimedOut
    } else {
        DriverError::PartialTransfer(0)
    }
}

/// The failure to report when the bus fails on message `index` of `msgs`. The
/// session is not touched: a failed transfer does not end the connection.
pub fn send_failure(msgs: &[HostMessage], index: usize, failure: BusFailure) -> (error: DriverError)
    ensures
        error == send_failed(msgs@, index as int, failure),
{
    let on_data = index < msgs.len() && match msgs[index] {
        HostMessage::Data { .. } => true,
        _ => false,
    };
    if !on_data {
        return match failure {
            BusFailure::TimedOut => DriverError::TimedOut,
            BusFailure::Other => DriverError::PartialTransfer(0),
        };
    }
    let mut at: usize = index;
    let mut count: usize = 0;
    loop
        invariant
            at <= index < msgs@.len(),
            count == index - at,
            chunks_before(msgs@, index as int) == count + chunks_before(msgs@, at as int),
        ensures
            chunks_before(msgs@, at as int) == 0,
        decreases at,
    {
        if at == 0 {
            break ;
        }
        let is_chunk = match msgs[at - 1] {
            HostMessage::Data { .. } => true,
            _ => false,
        };
        if !is_chunk {
            break ;
        }
        at -= 1;
        count += 1;
    }
    if count > usize::MAX / 63 {
        DriverError::PartialTransfer(usize::MAX)
    } else {
        DriverError::PartialTransfer(63 * count)
    }
}

/// The failure to report when the bus fails while a single frame is awaited
/// from the device: a timeout is `TimedOut`, anything else a
/// `PartialTransfer` of nothing.
pub fn receive_failure(failure: BusFailure) -> (error: DriverError)
    ensures
        error == match failure {
            BusFailure::TimedOut => DriverError::TimedOut,
            BusFailure::Other => DriverError::PartialTransfer(0),
        },
{
    match failure {
        BusFailure::TimedOut => DriverError::TimedOut,
        BusFailure::Other => DriverError::PartialTransfer(0),
    }
}

/// Once a frame that is not a data frame has been met, the run of data frames
/// ends there, however many frames follow.
pub proof fn lemma_data_run_stops(frames: Seq<Seq<u8>>, at: int, limit: int)
    requires
        0 <= at < limit,
        data_run(frames, at) == at,
        frames[at][0] != 0x00,
    ensures
        data_run(frames, limit) == at,
    decreases limit - at,
{
    if limit == at + 1 {
    } else {
        lemma_data_run_stops(frames, at, limit - 1);
    }
}

/// A run of frames that are all data frames is its own longest run.
pub proof fn lemma_data_run_full(frames: Seq<Seq<u8>>, limit: int)
    requires
        0 <= limit <= frames.len(),
        forall|k: int| 0 <= k < limit ==> (#[trigger] frames[k])[0] == 0x00,
    ensures
        data_run(frames, limit) == limit,
    decreases limit,
{
    if limit > 0 {
        lemma_data_run_full(frames, limit - 1);
    }
}

/// Sending and receiving undo each other: the data frames of a payload, read
/// back with the payload's length, give the payload.
pub proof fn lemma_send_receive_roundtrip(payload: Seq<u8>)
    ensures
        received(data_frames(payload), payload.len()) == Ok::<Seq<u8>, DriverError>(payload),
{
    let frames = data_frames(payload);
    let n = payload.len();
    assert forall|k: int| 0 <= k < frames.len() implies (#[trigger] frames[k])[0] == 0x00 by {
        assert(frames[k] == data_frame(payload, k));
    }
    lemma_data_run_full(frames, frames.len() as int);
    assert forall|i: int| 0 <= i < n implies reassembled(frames, n)[i] == payload[i] by {
        let k = i / 63;
        let r = i % 63;
        assert(frames[k] == data_frame(payload, k));
        assert(data_frame(payload, k)[1 + r] == chunk_of(payload, k)[r]);
    }
    assert(reassembled(frames, n) =~= payload);
}

/// The frames of the data messages of a payload are the payload's data
/// frames.
pub proof fn lemma_carried_frames(msgs: Seq<HostMessage>, payload: Seq<u8>)
    requires
        carries(msgs, payload),
    ensures
        Seq::new(msgs.len(), |k: int| msgs[k].wire_bytes()) == data_frames(payload),
{
    let frames = Seq::new(msgs.len(), |k: int| msgs[k].wire_bytes());
    assert forall|k: int| 0 <= k < msgs.len() implies frames[k] == data_frames(payload)[k] by {
        assert(msgs[k] is Data);
        assert(msgs[k].wire_bytes() =~= data_frame(payload, k));
    }
    assert(frames =~= data_frames(payload));
}

/// What is sent is what is received: the frames of the messages that carry a
/// payload, read back with the payload's length, give the payload.
pub proof fn lemma_transmit_receive(msgs: Seq<HostMessage>, payload: Seq<u8>)
    requires
        carries(msgs, payload),
    ensures
        received(Seq::new(msgs.len(), |k: int| msgs[k].wire_bytes()), payload.len()) == Ok::<
            Seq<u8>,
            DriverError,
        >(payload),
{
    lemma_carried_frames(msgs, payload);
    lemma_send_receive_roundtrip(payload);
}

/// All frames of a payload but the last are full, and the last holds fewer
/// than 63 of its bytes: between none, where the length is a multiple of 63,
/// and 62.
pub proof fn lemma_frame_count(len: nat)
    ensures
        63 * (frame_count(len) - 1) <= len < 63 * frame_count(len),
        len % 63 != 0 ==> frame_count(len) == (len + 62) / 63,
{
}

} // verus!
