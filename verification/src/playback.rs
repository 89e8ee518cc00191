//! The decisions of the playback buffer manager.
//!
//! The manager stands between the renderer, which asks for frames, and the
//! fetcher and decoder, which bring them. It keeps the playback buffer and the
//! renderer's request that is still waiting for an answer. Each event (a request
//! from the renderer, a finished download, a decoded stream of point clouds) is
//! one call here, which updates that state and says what to do next: which frame
//! to ask the fetcher for, and which request to answer. Sending, receiving and
//! waiting are the caller's part.

use vstd::prelude::*;
use crate::dash::buffer::{
    Buffer, FrameRequest, FrameStatus, RequestStatus, holds_frame, position_of, ready_count,
    is_exhausted, lemma_position_of,
};

verus! {

/// A request handed to the fetcher: the frame, the camera position it was asked
/// from, and how many frames were ready in the buffer when it was made.
#[derive(Debug, Clone, Copy)]
pub struct FetchRequest<C> {
    pub object_id: u8,
    pub frame_offset: u64,
    pub camera_pos: Option<C>,
    pub buffer_occupancy: usize,
}

/// Which frame a stream of decoded point clouds belongs to.
#[derive(Debug, Clone, Copy, PartialEq, Eq, Structural)]
pub struct PCMetadata {
    pub object_id: u8,
    pub frame_offset: u64,
}

/// The fetch request for `req`, with the buffer occupancy `occupancy`.
pub open spec fn fetch_of<C>(req: FrameRequest<C>, occupancy: nat) -> FetchRequest<C> {
    FetchRequest {
        object_id: req.object_id,
        frame_offset: req.frame_offset,
        camera_pos: req.camera_pos,
        buffer_occupancy: occupancy as usize,
    }
}

/// The frame request a decoded stream stands for; it carries no camera position.
pub open spec fn request_of_metadata<C>(m: PCMetadata) -> FrameRequest<C> {
    FrameRequest { object_id: m.object_id, frame_offset: m.frame_offset, camera_pos: None }
}

impl<C: Copy> FetchRequest<C> {
    /// The fetch request for `req`, made when `buffer_occupancy` frames were ready.
    pub fn new(req: FrameRequest<C>, buffer_occupancy: usize) -> (f: Self)
        ensures
            f == fetch_of(req, buffer_occupancy as nat),
    {
        FetchRequest {
            object_id: req.object_id,
            frame_offset: req.frame_offset,
            camera_pos: req.camera_pos,
            buffer_occupancy,
        }
    }

    /// The frame request this fetch is for.
    pub fn frame_request(&self) -> (r: FrameRequest<C>)
        ensures
            r == (FrameRequest {
                object_id: self.object_id,
                frame_offset: self.frame_offset,
                camera_pos: self.camera_pos,
            }),
    {
        FrameRequest {
            object_id: self.object_id,
            frame_offset: self.frame_offset,
            camera_pos: self.camera_pos,
        }
    }

    /// The frame this fetch is for, as decoded streams name it.
    pub fn metadata(&self) -> (m: PCMetadata)
        ensures
            m == (PCMetadata { object_id: self.object_id, frame_offset: self.frame_offset }),
    {
        PCMetadata { object_id: self.object_id, frame_offset: self.frame_offset }
    }
}

impl PCMetadata {
    /// The frame request this stream stands for, with no camera position.
    pub fn frame_request<C>(&self) -> (r: FrameRequest<C>)
        ensures
            r == request_of_metadata::<C>(*self),
    {
        FrameRequest { object_id: self.object_id, frame_offset: self.frame_offset, camera_pos: None }
    }
}

/// What to do with a request of the renderer.
pub enum RequestReply<C, R> {
    /// The frame is on its way: the request now waits for it.
    Wait,
    /// The frame is ready: this entry, taken out of the buffer, holds it. Take
    /// one point cloud from its channel, then hand both back to `deliver`.
    Serve(RequestStatus<C, R>),
    /// The frame was not asked for: send this request to the fetcher.
    Fetch(FetchRequest<C>),
}

/// The manager's state: the buffer, the renderer's request waiting for an
/// answer, the length of the video and of a segment (in frames), and whether
/// the buffer filled up, so that prefetching resumes once a segment is played.
pub struct BufferManager<C, R> {
    frame_to_answer: Option<FrameRequest<C>>,
    buffer: Buffer<C, R>,
    total_frames: usize,
    segment_size: u64,
    desired_level_reached: bool,
}

/// The request that follows `req` when playback goes on: one segment later,
/// wrapping around at the end of the video.
pub open spec fn next_request<C>(req: FrameRequest<C>, segment_size: nat, total_frames: nat) -> FrameRequest<C> {
    FrameRequest {
        object_id: req.object_id,
        frame_offset: ((req.frame_offset + segment_size) % (total_frames as int)) as u64,
        camera_pos: req.camera_pos,
    }
}

/// Playback wraps around the video: the request that follows any request is
/// for a frame of the video, of the same object, from the same camera position.
pub proof fn lemma_next_request_in_video<C>(req: FrameRequest<C>, segment_size: nat, total_frames: nat)
    requires
        total_frames > 0,
        req.frame_offset + segment_size <= u64::MAX,
    ensures
        next_request(req, segment_size, total_frames).frame_offset < total_frames,
        next_request(req, segment_size, total_frames).object_id == req.object_id,
        next_request(req, segment_size, total_frames).camera_pos == req.camera_pos,
{
    let x = req.frame_offset + segment_size;
    let t = total_frames as int;
    assert(x % t <= x && x % t < t) by (nonlinear_arith)
        requires
            x >= 0,
            t > 0,
    {}
}

/// Whether the renderer's `req` is for the frame at the head of `frames`.
pub open spec fn at_front<C, R>(frames: Seq<RequestStatus<C, R>>, req: FrameRequest<C>) -> bool {
    frames.len() > 0 && frames[0].req.frame_offset == req.frame_offset
}

impl<C, R> BufferManager<C, R> {
    /// The buffer's entries, oldest first.
    pub closed spec fn frames(self) -> Seq<RequestStatus<C, R>> {
        self.buffer.frames()
    }

    /// The number of entries the buffer is meant to hold.
    pub closed spec fn capacity(self) -> nat {
        self.buffer.spec_capacity()
    }

    /// The renderer's request that waits for an answer.
    pub closed spec fn pending(self) -> Option<FrameRequest<C>> {
        self.frame_to_answer
    }

    /// The number of frames of the video.
    pub closed spec fn total(self) -> nat {
        self.total_frames as nat
    }

    /// The number of frames in a segment.
    pub closed spec fn segment(self) -> nat {
        self.segment_size as nat
    }

    /// Whether the buffer filled up since prefetching last stopped.
    pub closed spec fn level_reached(self) -> bool {
        self.desired_level_reached
    }

    /// What every state keeps: the buffer holds at most one entry beyond its
    /// capacity (the one a renderer's request adds), and a segment has a frame.
    pub open spec fn bounded(self) -> bool {
        &&& self.frames().len() <= self.capacity() + 1
        &&& 1 <= self.segment() <= usize::MAX
    }
}

impl<C: Copy, R> BufferManager<C, R> {
    /// A manager with an empty buffer for `buffer_size` seconds of a video of
    /// `total_frames` frames, played at `segment_size.1` frames a second in
    /// segments of `segment_size.0` frames: the buffer holds
    /// `buffer_size * segment_size.1 / segment_size.0` segments.
    pub fn new(buffer_size: u64, total_frames: usize, segment_size: (u64, u64)) -> (m: Self)
        requires
            segment_size.0 > 0,
            segment_size.0 <= usize::MAX,
            buffer_size * segment_size.1 <= u64::MAX,
            (buffer_size * segment_size.1) / (segment_size.0 as int) <= usize::MAX,
        ensures
            m.bounded(),
            m.frames() == Seq::<RequestStatus<C, R>>::empty(),
            m.capacity() == (buffer_size * segment_size.1) / (segment_size.0 as int),
            m.pending() is None,
            m.total() == total_frames,
            m.segment() == segment_size.0,
            !m.level_reached(),
    {
        let product: u64 = buffer_size * segment_size.1;
        let capacity: u64 = product / segment_size.0;
        BufferManager {
            frame_to_answer: None,
            total_frames,
            segment_size: segment_size.0,
            buffer: Buffer::new(capacity as usize),
            desired_level_reached: false,
        }
    }

    /// The buffer.
    pub fn buffer(&self) -> (b: &Buffer<C, R>)
        ensures
            b.frames() == self.frames(),
            b.spec_capacity() == self.capacity(),
    {
        &self.buffer
    }

    /// The renderer's request that waits for an answer, if any.
    pub fn frame_to_answer(&self) -> (r: Option<FrameRequest<C>>)
        ensures
            r == self.pending(),
    {
        self.frame_to_answer
    }

    /// The request that follows `req` when playback goes on continuously.
    pub fn get_next_frame_req(&self, req: &FrameRequest<C>) -> (r: FrameRequest<C>)
        requires
            self.total() > 0,
            req.frame_offset + self.segment() <= u64::MAX,
        ensures
            r == next_request(*req, self.segment(), self.total()),
    {
        let total: u64 = self.total_frames as u64;
        FrameRequest {
            object_id: req.object_id,
            frame_offset: (req.frame_offset + self.segment_size) % total,
            camera_pos: req.camera_pos,
        }
    }

    /// Whether a prefetch can be made from the newest entry, from camera
    /// position `camera_pos`: there is a newest entry, a camera position, room
    /// to add an entry, a video to wrap around, and no overflow.
    pub open spec fn can_prefetch(self, camera_pos: Option<C>) -> bool {
        &&& camera_pos is Some
        &&& self.frames().len() > 0
        &&& self.frames().len() <= self.capacity()
        &&& self.total() > 0
        &&& self.frames().last().req.frame_offset + self.segment() <= u64::MAX
    }

    /// The request that a prefetch from camera position `camera_pos` makes:
    /// the one that follows the newest entry.
    pub open spec fn prefetch_request(self, camera_pos: Option<C>) -> FrameRequest<C> {
        next_request(
            FrameRequest {
                object_id: self.frames().last().req.object_id,
                frame_offset: self.frames().last().req.frame_offset,
                camera_pos,
            },
            self.segment(),
            self.total(),
        )
    }

    /// Asks for the frame that follows the newest entry: adds it to the buffer
    /// as being fetched and returns the request for the fetcher.
    fn prefetch_frame(&mut self, camera_pos: Option<C>) -> (f: FetchRequest<C>)
        requires
            old(self).bounded(),
            old(self).can_prefetch(camera_pos),
        ensures
            f == fetch_of(old(self).prefetch_request(camera_pos), ready_count(old(self).frames())),
            final(self).frames() == old(self).frames().push(
                RequestStatus { req: old(self).prefetch_request(camera_pos), state: FrameStatus::Fetching },
            ),
            final(self).capacity() == old(self).capacity(),
            final(self).pending() == old(self).pending(),
            final(self).total() == old(self).total(),
            final(self).segment() == old(self).segment(),
            final(self).level_reached() == old(self).level_reached(),
    {
        let back = self.buffer.back().unwrap();
        let last_req = FrameRequest {
            object_id: back.req.object_id,
            frame_offset: back.req.frame_offset,
            camera_pos,
        };
        let req = self.get_next_frame_req(&last_req);
        let fetch = FetchRequest::new(req, self.buffer.len());
        self.buffer.add(req);
        fetch
    }

    /// Whether a renderer's request `req` can be taken: one that the buffer's
    /// head does not answer adds an entry, so the buffer must have room for it.
    pub open spec fn takes_request(self, req: FrameRequest<C>) -> bool {
        at_front(self.frames(), req) || self.frames().len() <= self.capacity()
    }

    /// Whether `req` can be taken now (see `takes_request`).
    pub fn can_take_request(&self, req: &FrameRequest<C>) -> (b: bool)
        ensures
            b == self.takes_request(*req),
    {
        let at_head = match self.buffer.front() {
            Some(front) => front.req.frame_offset == req.frame_offset,
            None => false,
        };
        at_head || self.buffer.entry_count() <= self.buffer.capacity()
    }

    /// A request of the renderer for the frame of `req`. When the buffer's head
    /// is that frame and it is still on its way, the request waits; when it is
    /// ready, the head is taken out and returned to be served. Otherwise the
    /// frame is asked of the fetcher, added to the buffer, and the request waits.
    pub fn on_frame_request(&mut self, req: FrameRequest<C>) -> (reply: RequestReply<C, R>)
        requires
            old(self).bounded(),
            old(self).takes_request(req),
        ensures
            final(self).bounded(),
            final(self).capacity() == old(self).capacity(),
            final(self).total() == old(self).total(),
            final(self).segment() == old(self).segment(),
            final(self).level_reached() == old(self).level_reached(),
            at_front(old(self).frames(), req) && !(old(self).frames()[0].state is Ready) ==> {
                &&& reply is Wait
                &&& final(self).frames() == old(self).frames()
                &&& final(self).pending() == Some(req)
            },
            at_front(old(self).frames(), req) && old(self).frames()[0].state is Ready ==> {
                &&& reply == RequestReply::Serve(old(self).frames()[0])
                &&& final(self).frames() == old(self).frames().drop_first()
                &&& final(self).pending() == old(self).pending()
            },
            !at_front(old(self).frames(), req) ==> {
                &&& reply == RequestReply::<C, R>::Fetch(fetch_of(req, ready_count(old(self).frames())))
                &&& final(self).frames() == old(self).frames().push(
                    RequestStatus { req, state: FrameStatus::Fetching },
                )
                &&& final(self).pending() == Some(req)
            },
    {
        let at_head = match self.buffer.front() {
            Some(front) => front.req.frame_offset == req.frame_offset,
            None => false,
        };
        if at_head {
            let front = self.buffer.pop_front().unwrap();
            let ready = match &front.state {
                FrameStatus::Ready(_, _) => true,
                _ => false,
            };
            if ready {
                RequestReply::Serve(front)
            } else {
                self.frame_to_answer = Some(req);
                self.buffer.push_front(front);
                proof {
                    assert(self.buffer.frames() =~= old(self).buffer.frames());
                }
                RequestReply::Wait
            }
        } else {
            let fetch = FetchRequest::new(req, self.buffer.len());
            self.frame_to_answer = Some(req);
            self.buffer.add(req);
            RequestReply::Fetch(fetch)
        }
    }

    /// Whether serving `req` from the entry `front` can go on: the entry is
    /// ready with a frame left and its next frame offset fits, the buffer has
    /// room to put the entry back, and where the entry is used up and the buffer
    /// had filled, a prefetch can be made from the request's camera position.
    pub open spec fn delivers(self, req: FrameRequest<C>, front: RequestStatus<C, R>) -> bool {
        &&& front.state matches FrameStatus::Ready(n, _) && n >= 1
        &&& front.req.frame_offset < u64::MAX
        &&& self.frames().len() <= self.capacity()
        &&& (front.state matches FrameStatus::Ready(n, _) && n <= 1 && self.level_reached())
            ==> self.can_prefetch(req.camera_pos)
    }

    /// Whether serving `req` from `front` can go on now (see `delivers`).
    pub fn can_deliver(&self, req: &FrameRequest<C>, front: &RequestStatus<C, R>) -> (b: bool)
        requires
            self.bounded(),
        ensures
            b == self.delivers(*req, *front),
    {
        let n: usize = match &front.state {
            FrameStatus::Ready(n, _) => *n,
            _ => 0,
        };
        if n < 1 || front.req.frame_offset == u64::MAX
            || self.buffer.entry_count() > self.buffer.capacity() {
            return false;
        }
        if n <= 1 && self.desired_level_reached {
            self.can_prefetch_now(req.camera_pos)
        } else {
            true
        }
    }

    /// Whether a prefetch from `camera_pos` can be made now.
    fn can_prefetch_now(&self, camera_pos: Option<C>) -> (b: bool)
        requires
            self.bounded(),
        ensures
            b == self.can_prefetch(camera_pos),
    {
        if camera_pos.is_none() || self.total_frames == 0 {
            return false;
        }
        match self.buffer.back() {
            None => false,
            Some(back) => {
                self.buffer.entry_count() <= self.buffer.capacity()
                    && back.req.frame_offset <= u64::MAX - self.segment_size
            },
        }
    }

    /// The renderer's request `req` was served one point cloud from the entry
    /// `front` (returned by `on_frame_request`). Returns the request to answer
    /// the renderer with and, if one is due, the prefetch to send. Without a
    /// camera trace (`camera_from_trace` false) the answer carries no camera
    /// position: it was only a prediction. No request waits any more; the entry
    /// moves on by one frame and goes back to the head of the buffer while it
    /// has frames left; once used up, prefetching resumes if the buffer had
    /// filled.
    pub fn deliver(&mut self, req: FrameRequest<C>, front: RequestStatus<C, R>, camera_from_trace: bool) -> (r: (FrameRequest<C>, Option<FetchRequest<C>>))
        requires
            old(self).bounded(),
            old(self).delivers(req, front),
        ensures
            final(self).bounded(),
            r.0 == (FrameRequest {
                object_id: req.object_id,
                frame_offset: req.frame_offset,
                camera_pos: if camera_from_trace { req.camera_pos } else { None },
            }),
            final(self).pending() is None,
            final(self).capacity() == old(self).capacity(),
            final(self).total() == old(self).total(),
            final(self).segment() == old(self).segment(),
            match front.state {
                FrameStatus::Ready(n, rx) => {
                    if n > 1 {
                        &&& r.1 is None
                        &&& final(self).frames() == seq![RequestStatus {
                            req: FrameRequest {
                                object_id: front.req.object_id,
                                frame_offset: (front.req.frame_offset + 1) as u64,
                                camera_pos: front.req.camera_pos,
                            },
                            state: FrameStatus::Ready((n - 1) as usize, rx),
                        }] + old(self).frames()
                        &&& final(self).level_reached() == old(self).level_reached()
                    } else if old(self).level_reached() {
                        &&& r.1 == Some(fetch_of(
                            old(self).prefetch_request(req.camera_pos),
                            ready_count(old(self).frames()),
                        ))
                        &&& final(self).frames() == old(self).frames().push(RequestStatus {
                            req: old(self).prefetch_request(req.camera_pos),
                            state: FrameStatus::Fetching,
                        })
                        &&& !final(self).level_reached()
                    } else {
                        &&& r.1 is None
                        &&& final(self).frames() == old(self).frames()
                        &&& !final(self).level_reached()
                    }
                },
                _ => false,
            },
    {
        let camera = req.camera_pos;
        let reply = FrameRequest {
            object_id: req.object_id,
            frame_offset: req.frame_offset,
            camera_pos: if camera_from_trace { camera } else { None },
        };
        self.frame_to_answer = None;
        let RequestStatus { req: front_req, state } = front;
        match state {
            FrameStatus::Ready(remaining, rx) => {
                let moved = FrameRequest {
                    object_id: front_req.object_id,
                    frame_offset: front_req.frame_offset + 1,
                    camera_pos: front_req.camera_pos,
                };
                if remaining > 1 {
                    self.buffer.push_front(RequestStatus { req: moved, state: FrameStatus::Ready(remaining - 1, rx) });
                    (reply, None)
                } else if self.desired_level_reached {
                    let fetch = self.prefetch_frame(camera);
                    self.desired_level_reached = false;
                    (reply, Some(fetch))
                } else {
                    (reply, None)
                }
            },
            _ => (reply, None),
        }
    }

    /// Whether the news that the frame of `req` was downloaded can be taken:
    /// the buffer holds the frame, and where it then has room, a prefetch can be
    /// made from the request's camera position.
    pub open spec fn takes_fetch_done(self, req: FrameRequest<C>) -> bool {
        &&& holds_frame(self.frames(), req)
        &&& self.frames().len() < self.capacity() ==> self.can_prefetch(req.camera_pos)
    }

    /// Whether the news of `req`'s download can be taken now.
    pub fn can_take_fetch_done(&self, req: &FrameRequest<C>) -> (b: bool)
        requires
            self.bounded(),
        ensures
            b == self.takes_fetch_done(*req),
    {
        if self.buffer.get(*req).is_none() {
            return false;
        }
        if self.buffer.is_full() {
            true
        } else {
            self.can_prefetch_now(req.camera_pos)
        }
    }

    /// The frame of `req` was downloaded: its entry is now being decoded. While
    /// the buffer has room, the frame that follows the newest entry is asked
    /// for at once (returned); once it is full, prefetching waits until an entry
    /// is used up.
    pub fn on_fetch_done(&mut self, req: FrameRequest<C>) -> (f: Option<FetchRequest<C>>)
        requires
            old(self).bounded(),
            old(self).takes_fetch_done(req),
        ensures
            final(self).bounded(),
            ({
                let pos = position_of(old(self).frames(), req);
                let decoding = old(self).frames().update(
                    pos,
                    RequestStatus { req: old(self).frames()[pos].req, state: FrameStatus::Decoding },
                );
                if decoding.len() < old(self).capacity() {
                    let next = next_request(
                        FrameRequest {
                            object_id: decoding.last().req.object_id,
                            frame_offset: decoding.last().req.frame_offset,
                            camera_pos: req.camera_pos,
                        },
                        old(self).segment(),
                        old(self).total(),
                    );
                    &&& f == Some(fetch_of(next, ready_count(decoding)))
                    &&& final(self).frames() == decoding.push(
                        RequestStatus { req: next, state: FrameStatus::Fetching },
                    )
                    &&& final(self).level_reached() == old(self).level_reached()
                } else {
                    &&& f is None
                    &&& final(self).frames() == decoding
                    &&& final(self).level_reached()
                }
            }),
            final(self).pending() == old(self).pending(),
            final(self).capacity() == old(self).capacity(),
            final(self).total() == old(self).total(),
            final(self).segment() == old(self).segment(),
    {
        let ghost pos = position_of(old(self).frames(), req);
        proof {
            lemma_position_of(old(self).frames(), req);
        }
        self.buffer.update_state(req, FrameStatus::Decoding);
        proof {
            assert(!is_exhausted::<R>(FrameStatus::Decoding));
            assert(self.frames().len() == old(self).frames().len());
            if pos == self.frames().len() - 1 {
                assert(self.frames().last().req == old(self).frames().last().req);
            } else {
                assert(self.frames().last() == old(self).frames().last());
            }
        }
        if !self.buffer.is_full() {
            Some(self.prefetch_frame(req.camera_pos))
        } else {
            self.desired_level_reached = true;
            None
        }
    }

    /// The waiting request that a stream for `metadata` answers, if any: the
    /// one for the same frame offset.
    pub open spec fn answer_for(self, metadata: PCMetadata) -> Option<FrameRequest<C>> {
        match self.pending() {
            Some(r) => if r.frame_offset == metadata.frame_offset {
                Some(r)
            } else {
                None
            },
            None => None,
        }
    }

    /// The waiting request that a stream for `metadata` answers, if any. The
    /// caller takes the first point cloud of the stream for it before calling
    /// `on_point_cloud`.
    pub fn pending_answer(&self, metadata: &PCMetadata) -> (r: Option<FrameRequest<C>>)
        ensures
            r == self.answer_for(*metadata),
    {
        match self.frame_to_answer {
            Some(r) => if r.frame_offset == metadata.frame_offset {
                Some(r)
            } else {
                None
            },
            None => None,
        }
    }

    /// Whether a stream for `metadata` can be taken: the buffer holds its frame
    /// and, where it answers a waiting request, the next frame offset fits.
    pub open spec fn takes_point_cloud(self, metadata: PCMetadata) -> bool {
        &&& holds_frame(self.frames(), request_of_metadata::<C>(metadata))
        &&& self.answer_for(metadata) is Some ==> metadata.frame_offset < u64::MAX
    }

    /// Whether a stream for `metadata` can be taken now.
    pub fn can_take_point_cloud(&self, metadata: &PCMetadata) -> (b: bool)
        requires
            self.bounded(),
        ensures
            b == self.takes_point_cloud(*metadata),
    {
        let key: FrameRequest<C> = metadata.frame_request();
        if self.buffer.get(key).is_none() {
            return false;
        }
        match self.pending_answer(metadata) {
            Some(_) => metadata.frame_offset < u64::MAX,
            None => true,
        }
    }

    /// A stream of decoded point clouds `rx` for the frame of `metadata`
    /// arrived. Where it answers the waiting request (see `pending_answer`), its
    /// first point cloud went to the renderer: no request waits any more, and
    /// the entry is kept ready from the next frame on, with one frame less.
    /// The entry holds the rest of the segment, and is removed when nothing is
    /// left. Returns the request that was answered.
    pub fn on_point_cloud(&mut self, metadata: PCMetadata, rx: R) -> (answered: Option<FrameRequest<C>>)
        requires
            old(self).bounded(),
            old(self).takes_point_cloud(metadata),
        ensures
            final(self).bounded(),
            answered == old(self).answer_for(metadata),
            ({
                let key = request_of_metadata::<C>(metadata);
                let pos = position_of(old(self).frames(), key);
                let (new_key, remaining) = if answered is Some {
                    (
                        request_of_metadata::<C>(
                            PCMetadata {
                                object_id: metadata.object_id,
                                frame_offset: (metadata.frame_offset + 1) as u64,
                            },
                        ),
                        old(self).segment() - 1,
                    )
                } else {
                    (key, old(self).segment() as int)
                };
                if remaining == 0 {
                    final(self).frames() == old(self).frames().remove(pos)
                } else {
                    final(self).frames() == old(self).frames().update(
                        pos,
                        RequestStatus { req: new_key, state: FrameStatus::Ready(remaining as usize, rx) },
                    )
                }
            }),
            answered is Some ==> final(self).pending() is None,
            answered is None ==> final(self).pending() == old(self).pending(),
            final(self).capacity() == old(self).capacity(),
            final(self).total() == old(self).total(),
            final(self).segment() == old(self).segment(),
            final(self).level_reached() == old(self).level_reached(),
    {
        let key: FrameRequest<C> = metadata.frame_request();
        proof {
            lemma_position_of(old(self).frames(), key);
        }
        let mut remaining: usize = self.segment_size as usize;
        let mut current = metadata;
        let answered = self.pending_answer(&metadata);
        if answered.is_some() {
            self.frame_to_answer = None;
            current.frame_offset = current.frame_offset + 1;
            remaining = remaining - 1;
        }
        let new_key: FrameRequest<C> = current.frame_request();
        self.buffer.update(key, new_key, FrameStatus::Ready(remaining, rx));
        answered
    }
}

/// A recorded trace (of network bandwidth samples, or of camera positions),
/// replayed in a loop: each `next` gives the following sample, and after the
/// last one the first again.
pub struct Trace<T> {
    data: Vec<T>,
    index: usize,
}

impl<T> Trace<T> {
    /// The samples.
    pub closed spec fn samples(self) -> Seq<T> {
        self.data@
    }

    /// The position of the sample that `next` gives.
    pub closed spec fn position(self) -> nat {
        self.index as nat
    }

    /// Whether the position lies within the samples (at 0 when there are none).
    pub open spec fn well_formed(self) -> bool {
        if self.samples().len() == 0 {
            self.position() == 0
        } else {
            self.position() < self.samples().len()
        }
    }
}

impl<T: Copy> Trace<T> {
    /// A trace of the samples `data`, replayed from the first.
    pub fn new(data: Vec<T>) -> (t: Self)
        ensures
            t.well_formed(),
            t.samples() == data@,
            t.position() == 0,
    {
        Trace { data, index: 0 }
    }

    /// The sample at the current position; the position moves to the next
    /// sample, and from the last back to the first.
    pub fn next(&mut self) -> (x: T)
        requires
            old(self).well_formed(),
            old(self).samples().len() > 0,
        ensures
            final(self).well_formed(),
            x == old(self).samples()[old(self).position() as int],
            final(self).samples() == old(self).samples(),
            final(self).position() == (old(self).position() + 1) % old(self).samples().len(),
    {
        let idx = self.index;
        assert(idx < self.data.len());
        let next_idx = (idx + 1) % self.data.len();
        self.index = next_idx;
        self.data[idx]
    }

    /// Appends a sample (while recording).
    pub fn add(&mut self, x: T)
        requires
            old(self).well_formed(),
        ensures
            final(self).well_formed(),
            final(self).samples() == old(self).samples().push(x),
            final(self).position() == old(self).position(),
    {
        self.data.push(x);
    }

    /// The samples, in order.
    pub fn data(&self) -> (d: &Vec<T>)
        ensures
            d@ == self.samples(),
    {
        &self.data
    }
}

} // verus!
