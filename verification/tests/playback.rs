use vivotk::dash::buffer::{Buffer, FrameRequest, FrameStatus, RequestStatus};
use vivotk::playback::{BufferManager, FetchRequest, PCMetadata, RequestReply, Trace};

fn req(offset: u64) -> FrameRequest<u8> {
    FrameRequest { object_id: 0, frame_offset: offset, camera_pos: Some(1) }
}

fn state_of(b: &Buffer<u8, u32>, i: usize) -> Option<(u64, Option<usize>, Option<u32>)> {
    b.get_at(i).map(|s| {
        let (n, rx) = match &s.state {
            FrameStatus::Ready(n, rx) => (Some(*n), Some(*rx)),
            _ => (None, None),
        };
        (s.req.frame_offset, n, rx)
    })
}

#[test]
fn buffer_add_then_back_is_the_request() {
    let mut b: Buffer<u8, u32> = Buffer::new(3);
    assert!(b.is_empty());
    b.add(req(4));
    b.add(req(5));
    assert_eq!(b.back().unwrap().req.frame_offset, 5);
    assert_eq!(b.front().unwrap().req.frame_offset, 4);
    assert!(matches!(b.back().unwrap().state, FrameStatus::Fetching));
    assert_eq!(b.entry_count(), 2);
    assert_eq!(b.len(), 0);
    assert!(!b.is_full());
    b.add(req(6));
    assert!(b.is_full());
    assert_eq!(b.capacity(), 3);
}

#[test]
fn buffer_update_state_is_found_again() {
    let mut b: Buffer<u8, u32> = Buffer::new(3);
    b.add(req(4));
    b.add(req(5));
    b.update_state(req(5), FrameStatus::Decoding);
    assert!(matches!(b.get(req(5)).unwrap().state, FrameStatus::Decoding));
    b.update_state(req(5), FrameStatus::Ready(2, 9));
    assert_eq!(state_of(&b, 1), Some((5, Some(2), Some(9))));
    assert_eq!(b.len(), 1);
    // a key is found by object and frame, whatever its camera position
    let other_camera = FrameRequest { object_id: 0, frame_offset: 4, camera_pos: None };
    assert!(b.get(other_camera).is_some());
    assert!(b.get(req(7)).is_none());
}

#[test]
fn buffer_exhausted_entry_is_removed() {
    let mut b: Buffer<u8, u32> = Buffer::new(3);
    b.add(req(4));
    b.add(req(5));
    b.update(req(4), req(40), FrameStatus::Ready(0, 1));
    assert_eq!(b.entry_count(), 1);
    assert_eq!(b.front().unwrap().req.frame_offset, 5);
    b.update(req(5), req(6), FrameStatus::Ready(3, 1));
    assert_eq!(state_of(&b, 0), Some((6, Some(3), Some(1))));
    b.remove(req(6));
    assert!(b.is_empty());
}

#[test]
fn buffer_push_pop_and_range() {
    let mut b: Buffer<u8, u32> = Buffer::new(4);
    assert!(b.pop_front().is_none());
    b.push_back(RequestStatus { req: req(10), state: FrameStatus::Decoding });
    b.push_back(RequestStatus { req: req(12), state: FrameStatus::Fetching });
    b.push_front(RequestStatus { req: req(8), state: FrameStatus::Ready(1, 3) });
    assert_eq!(b.front().unwrap().req.frame_offset, 8);
    assert!(b.is_frame_in_buffer(req(11)));
    assert!(b.is_frame_in_buffer(req(8)));
    assert!(!b.is_frame_in_buffer(req(13)));
    assert!(!b.is_frame_in_buffer(req(7)));
    let first = b.pop_front().unwrap();
    assert_eq!(first.req.frame_offset, 8);
    assert_eq!(b.entry_count(), 2);
    b.clear();
    assert!(b.is_empty());
    assert_eq!(b.capacity(), 4);
}

#[test]
fn next_frame_request_wraps_around() {
    let m: BufferManager<u8, u32> = BufferManager::new(2, 300, (30, 30));
    let next = m.get_next_frame_req(&req(290));
    assert_eq!(next.frame_offset, 20);
    assert_eq!(next.object_id, 0);
    assert_eq!(next.camera_pos, Some(1));
    assert_eq!(m.get_next_frame_req(&req(0)).frame_offset, 30);
}

#[test]
fn manager_capacity_in_segments() {
    let m: BufferManager<u8, u32> = BufferManager::new(2, 300, (30, 30));
    assert_eq!(m.buffer().capacity(), 2);
    let m: BufferManager<u8, u32> = BufferManager::new(10, 300, (1, 30));
    assert_eq!(m.buffer().capacity(), 300);
    assert!(m.frame_to_answer().is_none());
    assert!(m.buffer().is_empty());
}

#[test]
fn manager_fetches_missing_frame_then_prefetches() {
    let mut m: BufferManager<u8, u32> = BufferManager::new(2, 300, (30, 30));
    // an unknown frame is asked of the fetcher, and the request waits
    assert!(m.can_take_request(&req(0)));
    match m.on_frame_request(req(0)) {
        RequestReply::Fetch(f) => {
            assert_eq!(f.frame_offset, 0);
            assert_eq!(f.buffer_occupancy, 0);
            assert_eq!(f.camera_pos, Some(1));
        }
        _ => panic!("expected a fetch"),
    }
    assert_eq!(m.frame_to_answer().map(|r| r.frame_offset), Some(0));
    // the download of frame 0 is done: the next segment is prefetched
    assert!(m.can_take_fetch_done(&req(0)));
    let f = m.on_fetch_done(req(0)).expect("a prefetch while there is room");
    assert_eq!(f.frame_offset, 30);
    assert_eq!(m.buffer().entry_count(), 2);
    assert!(matches!(m.buffer().get_at(0).unwrap().state, FrameStatus::Decoding));
    // the buffer is full now: no prefetch after the second download
    let g = m.on_fetch_done(req(30));
    assert!(g.is_none());
    assert!(matches!(m.buffer().get_at(1).unwrap().state, FrameStatus::Decoding));
}

#[test]
fn manager_answers_waiting_request_from_decoded_stream() {
    let mut m: BufferManager<u8, u32> = BufferManager::new(2, 300, (30, 30));
    let _ = m.on_frame_request(req(0));
    let _ = m.on_fetch_done(req(0));
    let meta = PCMetadata { object_id: 0, frame_offset: 0 };
    assert_eq!(m.pending_answer(&meta).map(|r| r.frame_offset), Some(0));
    assert!(m.can_take_point_cloud(&meta));
    let answered = m.on_point_cloud(meta, 77);
    assert_eq!(answered.map(|r| r.frame_offset), Some(0));
    assert!(m.frame_to_answer().is_none());
    // the entry keeps the rest of the segment, from the next frame on
    assert_eq!(state_of(m.buffer(), 0), Some((1, Some(29), Some(77))));
    // a stream that answers nobody keeps the whole segment
    let meta30 = PCMetadata { object_id: 0, frame_offset: 30 };
    assert!(m.pending_answer(&meta30).is_none());
    let none = m.on_point_cloud(meta30, 78);
    assert!(none.is_none());
    assert_eq!(state_of(m.buffer(), 1), Some((30, Some(30), Some(78))));
}

#[test]
fn manager_serves_ready_frame_and_keeps_the_rest() {
    let mut m: BufferManager<u8, u32> = BufferManager::new(2, 300, (30, 30));
    let _ = m.on_frame_request(req(0));
    let _ = m.on_fetch_done(req(0));
    let _ = m.on_point_cloud(PCMetadata { object_id: 0, frame_offset: 0 }, 77);
    let front = match m.on_frame_request(req(1)) {
        RequestReply::Serve(front) => front,
        _ => panic!("the frame is ready"),
    };
    assert_eq!(front.req.frame_offset, 1);
    assert!(m.can_deliver(&req(1), &front));
    let (reply, prefetch) = m.deliver(req(1), front, false);
    // without a camera trace, the answer carries no camera position
    assert_eq!(reply.frame_offset, 1);
    assert_eq!(reply.camera_pos, None);
    assert!(prefetch.is_none());
    assert_eq!(state_of(m.buffer(), 0), Some((2, Some(28), Some(77))));
    assert!(m.frame_to_answer().is_none());
}

#[test]
fn manager_waits_for_frame_in_flight() {
    let mut m: BufferManager<u8, u32> = BufferManager::new(2, 300, (30, 30));
    let _ = m.on_frame_request(req(0));
    let _ = m.on_frame_request(req(5));
    // frame 0 is at the head, still being fetched
    match m.on_frame_request(req(0)) {
        RequestReply::Wait => {}
        _ => panic!("the frame is on its way"),
    }
    assert_eq!(m.frame_to_answer().map(|r| r.frame_offset), Some(0));
    assert_eq!(m.buffer().entry_count(), 2);
    assert_eq!(m.buffer().front().unwrap().req.frame_offset, 0);
}

#[test]
fn manager_resumes_prefetch_after_last_frame() {
    // segments of two frames, four frames a second: one second is two segments
    let mut m: BufferManager<u8, u32> = BufferManager::new(1, 10, (2, 4));
    assert_eq!(m.buffer().capacity(), 2);
    let _ = m.on_frame_request(req(0));
    assert_eq!(m.on_fetch_done(req(0)).map(|f| f.frame_offset), Some(2));
    // full: prefetching stops
    assert!(m.on_fetch_done(req(2)).is_none());
    // the first frame of segment 0 answers the waiting request; one is left
    let answered = m.on_point_cloud(PCMetadata { object_id: 0, frame_offset: 0 }, 4);
    assert_eq!(answered.map(|r| r.frame_offset), Some(0));
    assert_eq!(state_of(m.buffer(), 0), Some((1, Some(1), Some(4))));
    let front = match m.on_frame_request(req(1)) {
        RequestReply::Serve(front) => front,
        _ => panic!("frame 1 is ready"),
    };
    assert!(m.can_deliver(&req(1), &front));
    let (reply, prefetch) = m.deliver(req(1), front, true);
    // with a camera trace, the answer keeps the camera position
    assert_eq!(reply.camera_pos, Some(1));
    // the segment is used up and the buffer had filled: prefetching resumes
    let p = prefetch.expect("prefetch resumes");
    assert_eq!(p.frame_offset, 4);
    assert_eq!(p.buffer_occupancy, 0);
    assert_eq!(m.buffer().entry_count(), 2);
    assert_eq!(m.buffer().back().unwrap().req.frame_offset, 4);
}

#[test]
fn manager_cannot_prefetch_from_an_empty_buffer() {
    // segments of one frame; the last ready entry is served while the buffer
    // had filled: there is no newest entry to prefetch after
    let mut m: BufferManager<u8, u32> = BufferManager::new(1, 10, (1, 2));
    let _ = m.on_frame_request(req(0));
    let _ = m.on_fetch_done(req(0));
    assert!(m.on_fetch_done(req(1)).is_none());
    let _ = m.on_point_cloud(PCMetadata { object_id: 0, frame_offset: 1 }, 5);
    let _ = m.on_point_cloud(PCMetadata { object_id: 0, frame_offset: 0 }, 4);
    assert_eq!(m.buffer().entry_count(), 1);
    let front = match m.on_frame_request(req(1)) {
        RequestReply::Serve(front) => front,
        _ => panic!("frame 1 is ready"),
    };
    assert!(m.buffer().is_empty());
    assert!(!m.can_deliver(&req(1), &front));
}

#[test]
fn manager_refuses_unknown_download() {
    let mut m: BufferManager<u8, u32> = BufferManager::new(2, 300, (30, 30));
    assert!(!m.can_take_fetch_done(&req(0)));
    assert!(!m.can_take_point_cloud(&PCMetadata { object_id: 0, frame_offset: 0 }));
    let _ = m.on_frame_request(req(0));
    let no_camera = FrameRequest { object_id: 0, frame_offset: 0, camera_pos: None };
    // room for a prefetch, but no camera position to make it from
    assert!(!m.can_take_fetch_done(&no_camera));
    assert!(m.can_take_fetch_done(&req(0)));
}

#[test]
fn fetch_request_conversions() {
    let f = FetchRequest::new(req(12), 3);
    assert_eq!(f.buffer_occupancy, 3);
    assert_eq!(f.frame_request().frame_offset, 12);
    assert_eq!(f.frame_request().camera_pos, Some(1));
    assert_eq!(f.metadata(), PCMetadata { object_id: 0, frame_offset: 12 });
    let back: FrameRequest<u8> = f.metadata().frame_request();
    assert_eq!(back.camera_pos, None);
    assert_eq!(back.frame_offset, 12);
}

#[test]
fn trace_replays_in_a_loop() {
    let mut t = Trace::new(vec![10u32, 20, 30]);
    assert_eq!(t.next(), 10);
    assert_eq!(t.next(), 20);
    assert_eq!(t.next(), 30);
    assert_eq!(t.next(), 10);
    t.add(40);
    assert_eq!(t.data(), &vec![10, 20, 30, 40]);
    assert_eq!(t.next(), 20);
}

#[test]
fn statuses_read_as_in_logs() {
    let fetching: FrameStatus<u32> = FrameStatus::Fetching;
    assert_eq!(fetching.describe(), "Fetching");
    assert_eq!(FrameStatus::<u32>::Decoding.describe(), "Decoding");
    assert_eq!(FrameStatus::Ready(12, 0u32).describe(), "Ready (12 remaining)");
    let entry = RequestStatus { req: req(1051), state: FrameStatus::Ready(0, 3u32) };
    assert_eq!(entry.describe(), "{ object_id: 0, frame_offset: 1051, state: Ready (0 remaining) }");
}

struct LastPosition(Option<u8>);

impl vivotk::dash::ViewportPrediction<u8> for LastPosition {
    fn add(&mut self, pos: Option<u8>) {
        if pos.is_some() {
            self.0 = pos;
        }
    }

    fn predict(&self) -> Option<u8> {
        self.0
    }
}

#[test]
fn viewport_predictor_through_the_trait() {
    use_predictor(&mut LastPosition(None));
}

fn use_predictor(p: &mut dyn vivotk::dash::ViewportPrediction<u8>) {
    assert_eq!(p.predict(), None);
    p.add(Some(3));
    p.add(None);
    assert_eq!(p.predict(), Some(3));
}
