//! The bookkeeping of a reader that streams frames: which frames to
//! request, and what to do with a frame that arrives.
//!
//! The reader neither sends nor receives. It says which requests to send,
//! and is told which frames arrived; the caller owns the channels.

use std::collections::HashMap;
use vstd::prelude::*;
use crate::formats::pointcloud::PointCloud;

verus! {

/// A request for one frame of one object at one quality.
#[derive(Clone, Copy, Debug, PartialEq, Eq, Hash, Structural)]
pub struct FrameRequest {
    pub object_id: u8,
    pub quality: u8,
    pub frame_offset: u64,
}

/// The number of frames a new reader expects.
pub const DEFAULT_TOTAL_FRAMES: u64 = 30;

/// The number of frames a new reader keeps requested ahead, unless told
/// otherwise.
pub const DEFAULT_BUFFER_SIZE: u8 = 10;

/// The key under which the frame of a request is buffered: the object, the
/// quality and the frame offset side by side.
pub open spec fn key_of(request: FrameRequest) -> u128 {
    (request.object_id * 0x1_00_0000_0000_0000_0000 + request.quality * 0x1_0000_0000_0000_0000
        + request.frame_offset) as u128
}

/// Different requests have different keys.
pub proof fn lemma_key_of_injective(a: FrameRequest, b: FrameRequest)
    requires
        key_of(a) == key_of(b),
    ensures
        a == b,
{
}

/// The request for frame `offset` of object 0 at quality 0.
pub open spec fn plain_request(offset: int) -> FrameRequest {
    FrameRequest { object_id: 0, quality: 0, frame_offset: offset as u64 }
}

/// How far `next` is ahead of `current`, counted around the 64-bit circle.
pub open spec fn lead(next: u64, current: u64) -> int {
    if next >= current {
        next - current
    } else {
        0x1_0000_0000_0000_0000 - (current - next)
    }
}

/// The number of requests that bring the reader `buffer_size` frames ahead
/// of `current`, or to the last frame: none where `next` is behind `current`.
pub open spec fn requests_due(next: u64, current: u64, total: u64, buffer_size: u8) -> int {
    let limit = if current + buffer_size < total {
        current + buffer_size
    } else {
        total as int
    };
    if next < current || next >= limit {
        0
    } else {
        limit - next
    }
}

/// The bookkeeping of a streaming reader.
pub struct PcdAsyncReader {
    current_frame: u64,
    next_to_get: u64,
    total_frames: u64,
    buffer_size: u8,
    buffer: HashMap<u128, PointCloud>,
}

impl PcdAsyncReader {
    /// The frame that is shown next.
    pub closed spec fn current_frame(&self) -> u64 {
        self.current_frame
    }

    /// The frame that is requested next.
    pub closed spec fn next_to_get(&self) -> u64 {
        self.next_to_get
    }

    /// The number of frames of the stream.
    pub closed spec fn total_frames(&self) -> u64 {
        self.total_frames
    }

    /// How many frames the reader keeps requested ahead.
    pub closed spec fn buffer_size(&self) -> u8 {
        self.buffer_size
    }

    /// The frames that arrived before they were asked for, by key.
    pub closed spec fn buffered(&self) -> Map<u128, PointCloud> {
        self.buffer@
    }

    /// Whether the reader can keep requesting: the stream is longer than
    /// what is requested ahead, and both the frame shown and the frame
    /// requested next are frames of the stream.
    pub open spec fn is_steady(&self) -> bool {
        &&& self.buffer_size() < self.total_frames() <= u64::MAX - 255
        &&& self.current_frame() < self.total_frames()
        &&& self.next_to_get() < self.total_frames()
    }

    /// A reader for a stream of [`DEFAULT_TOTAL_FRAMES`] frames that keeps
    /// `buffer_size` frames requested ahead, [`DEFAULT_BUFFER_SIZE`] where
    /// none is given.
    pub fn new(buffer_size: Option<u8>) -> (reader: Self)
        ensures
            reader.current_frame() == 0,
            reader.next_to_get() == 0,
            reader.total_frames() == DEFAULT_TOTAL_FRAMES,
            reader.buffer_size() == (match buffer_size {
                Some(size) => size,
                None => DEFAULT_BUFFER_SIZE,
            }),
            reader.buffered() == Map::<u128, PointCloud>::empty(),
    {
        let buffer_size = match buffer_size {
            Some(size) => size,
            None => DEFAULT_BUFFER_SIZE,
        };
        Self {
            current_frame: 0,
            next_to_get: 0,
            buffer_size,
            buffer: HashMap::new(),
            total_frames: DEFAULT_TOTAL_FRAMES,
        }
    }

    /// Whether the reader can keep requesting.
    pub fn check_steady(&self) -> (steady: bool)
        ensures
            steady == self.is_steady(),
    {
        (self.buffer_size as u64) < self.total_frames && self.total_frames <= u64::MAX - 255
            && self.current_frame < self.total_frames && self.next_to_get < self.total_frames
    }

    /// The key under which the frame of a request is buffered.
    pub fn key(request: &FrameRequest) -> (key: u128)
        ensures
            key == key_of(*request),
    {
        request.object_id as u128 * 0x1_00_0000_0000_0000_0000 + request.quality as u128
            * 0x1_0000_0000_0000_0000 + request.frame_offset as u128
    }

    /// The requests with which playback starts: one for each of the first
    /// frames, as many as are kept requested ahead. The next request will be
    /// for the frame after them.
    pub fn start_requests(&mut self) -> (requests: Vec<FrameRequest>)
        ensures
            requests@ == Seq::new(old(self).buffer_size() as nat, |i: int| plain_request(i)),
            final(self).next_to_get() == old(self).buffer_size(),
            final(self).current_frame() == old(self).current_frame(),
            final(self).total_frames() == old(self).total_frames(),
            final(self).buffer_size() == old(self).buffer_size(),
            final(self).buffered() == old(self).buffered(),
    {
        let mut requests: Vec<FrameRequest> = Vec::new();
        let mut i: u8 = 0;
        while i < self.buffer_size
            invariant
                i <= self.buffer_size,
                *self == *old(self),
                requests@ == Seq::new(i as nat, |k: int| plain_request(k)),
            decreases self.buffer_size - i,
        {
            requests.push(FrameRequest { object_id: 0, quality: 0, frame_offset: i as u64 });
            assert(requests@ =~= Seq::new((i + 1) as nat, |k: int| plain_request(k)));
            i = i + 1;
        }
        self.next_to_get = self.buffer_size as u64;
        requests
    }

    /// The requests that keep the reader ahead: for the frames from the one
    /// requested next up to `buffer_size` frames ahead of the frame shown,
    /// or up to the end of the stream, after which requesting starts over
    /// at the first frame.
    pub fn send_next_req(&mut self) -> (requests: Vec<FrameRequest>)
        requires
            old(self).is_steady(),
        ensures
            requests@ == Seq::new(
                requests_due(
                    old(self).next_to_get(),
                    old(self).current_frame(),
                    old(self).total_frames(),
                    old(self).buffer_size(),
                ) as nat,
                |i: int| plain_request(old(self).next_to_get() + i),
            ),
            final(self).next_to_get() == (old(self).next_to_get() + requests@.len()) % (old(self).total_frames() as int),
            final(self).current_frame() == old(self).current_frame(),
            final(self).total_frames() == old(self).total_frames(),
            final(self).buffer_size() == old(self).buffer_size(),
            final(self).buffered() == old(self).buffered(),
            final(self).is_steady(),
    {
        let total: u64 = self.total_frames;
        let current: u64 = self.current_frame;
        let ahead: u64 = self.buffer_size as u64;
        let first: u64 = self.next_to_get;
        let limit: u64 = if current + ahead < total {
            current + ahead
        } else {
            total
        };
        let ghost due = requests_due(first, current, total, self.buffer_size);
        let mut requests: Vec<FrameRequest> = Vec::new();
        let mut sent: u64 = 0;
        let mut wrapped: bool = false;
        loop
            invariant
                total == self.total_frames,
                current == self.current_frame,
                ahead == self.buffer_size,
                self.total_frames == old(self).total_frames,
                self.current_frame == old(self).current_frame,
                self.buffer_size == old(self).buffer_size,
                self.buffer == old(self).buffer,
                first == old(self).next_to_get,
                ahead < total <= u64::MAX - 255,
                current < total,
                first < total,
                limit == (if current + ahead < total {
                    current + ahead
                } else {
                    total as int
                }),
                due == requests_due(first, current, total, self.buffer_size),
                requests@ == Seq::new(sent as nat, |i: int| plain_request(first + i)),
                sent <= total,
                sent > 0 ==> first >= current && first + sent <= limit,
                !wrapped ==> self.next_to_get == first + sent && self.next_to_get < total,
                wrapped ==> self.next_to_get == 0 && first + sent == total && limit == total && current
                    > 0,
            ensures
                requests@ == Seq::new(due as nat, |i: int| plain_request(first + i)),
                self.next_to_get == (first + due) % (total as int),
                self.total_frames == old(self).total_frames,
                self.current_frame == old(self).current_frame,
                self.buffer_size == old(self).buffer_size,
                self.buffer == old(self).buffer,
            decreases total - sent,
        {
            let next: u64 = self.next_to_get;
            let gap: u64 = if next >= current {
                next - current
            } else {
                u64::MAX - (current - next) + 1
            };
            if gap >= ahead {
                proof {
                    if wrapped {
                        assert(due == sent);
                        assert((first + due) % (total as int) == 0) by (nonlinear_arith)
                            requires
                                first + due == total,
                                total > 0,
                        ;
                    } else {
                        assert(due == sent);
                        assert((first + due) % (total as int) == first + due) by (nonlinear_arith)
                            requires
                                0 <= first + due < total,
                        ;
                    }
                }
                break ;
            }
            assert(!wrapped);
            requests.push(FrameRequest { object_id: 0, quality: 0, frame_offset: next });
            assert(requests@ =~= Seq::new((sent + 1) as nat, |i: int| plain_request(first + i)));
            sent = sent + 1;
            if next + 1 == total {
                self.next_to_get = 0;
                wrapped = true;
            } else {
                self.next_to_get = next + 1;
            }
        }
        requests
    }

    /// Moves on to the next frame, the first after the last, and returns
    /// the requests that keep the reader ahead.
    pub fn advance(&mut self) -> (requests: Vec<FrameRequest>)
        requires
            old(self).is_steady(),
        ensures
            final(self).current_frame() == (old(self).current_frame() + 1) % (old(self).total_frames() as int),
            requests@ == Seq::new(
                requests_due(
                    old(self).next_to_get(),
                    final(self).current_frame(),
                    old(self).total_frames(),
                    old(self).buffer_size(),
                ) as nat,
                |i: int| plain_request(old(self).next_to_get() + i),
            ),
            final(self).next_to_get() == (old(self).next_to_get() + requests@.len()) % (old(self).total_frames() as int),
            final(self).total_frames() == old(self).total_frames(),
            final(self).buffer_size() == old(self).buffer_size(),
            final(self).buffered() == old(self).buffered(),
            final(self).is_steady(),
    {
        self.current_frame = (self.current_frame + 1) % self.total_frames;
        self.send_next_req()
    }

    /// Takes the frame at `index` out of the buffer, if it has arrived.
    pub fn take_buffered(&mut self, index: usize) -> (frame: Option<PointCloud>)
        ensures
            frame is Some == old(self).buffered().contains_key(key_of(plain_request(index as int))),
            frame is Some ==> frame->Some_0 == old(self).buffered()[key_of(plain_request(index as int))],
            final(self).buffered() == old(self).buffered().remove(key_of(plain_request(index as int))),
            final(self).current_frame() == old(self).current_frame(),
            final(self).next_to_get() == old(self).next_to_get(),
            final(self).total_frames() == old(self).total_frames(),
            final(self).buffer_size() == old(self).buffer_size(),
    {
        broadcast use vstd::std_specs::hash::group_hash_axioms;

        let key: u128 = Self::key(&FrameRequest { object_id: 0, quality: 0, frame_offset: index as u64 });
        self.buffer.remove(&key)
    }

    /// Takes in a frame that arrived while the frame at `index` was waited
    /// for: where it is that frame it is handed on, otherwise it is kept in
    /// the buffer under its request, in place of what was kept under it.
    pub fn receive(&mut self, request: FrameRequest, data: PointCloud, index: usize) -> (frame: Option<
        PointCloud,
    >)
        ensures
            request.frame_offset == index ==> frame == Some(data) && final(self).buffered() == old(self).buffered(),
            request.frame_offset != index ==> frame is None && final(self).buffered() == old(self).buffered().insert(key_of(request), data),
            final(self).current_frame() == old(self).current_frame(),
            final(self).next_to_get() == old(self).next_to_get(),
            final(self).total_frames() == old(self).total_frames(),
            final(self).buffer_size() == old(self).buffer_size(),
    {
        broadcast use vstd::std_specs::hash::group_hash_axioms;

        if request.frame_offset == index as u64 {
            return Some(data);
        }
        let key: u128 = Self::key(&request);
        self.buffer.insert(key, data);
        None
    }

    /// The number of frames of the stream.
    pub fn len(&self) -> (n: usize)
        ensures
            n == self.total_frames() as usize,
    {
        self.total_frames as usize
    }

    /// A stream is never taken to be empty.
    pub fn is_empty(&self) -> (empty: bool)
        ensures
            !empty,
    {
        false
    }

    /// Tells the reader how many frames the stream has.
    pub fn set_len(&mut self, len: usize)
        ensures
            final(self).total_frames() == len as u64,
            final(self).current_frame() == old(self).current_frame(),
            final(self).next_to_get() == old(self).next_to_get(),
            final(self).buffer_size() == old(self).buffer_size(),
            final(self).buffered() == old(self).buffered(),
    {
        self.total_frames = len as u64;
    }

    /// The number of frames in the buffer.
    pub fn buffered_len(&self) -> (n: usize)
        ensures
            n == self.buffered().len(),
    {
        broadcast use vstd::std_specs::hash::group_hash_axioms;

        self.buffer.len()
    }
}

} // verus!
