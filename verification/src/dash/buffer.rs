//! The playback buffer: the frame requests in flight or ready, in order, with
//! the state of each.
//!
//! A request is identified by its object and frame offset; the camera position
//! that travels with it (`C`) takes no part in finding it. A ready frame carries
//! the receiving end of the channel its point clouds arrive on (`R`).

use vstd::prelude::*;
use std::collections::VecDeque;
use crate::dash::parser::{first_index, lemma_first_index};
use crate::text::{decimal, decimal_string, extend_chars, string_of};

verus! {

/// A request for the frame at `frame_offset` of object `object_id`, made from
/// camera position `camera_pos`.
#[derive(Debug, Clone, Copy)]
pub struct FrameRequest<C> {
    pub object_id: u8,
    pub frame_offset: u64,
    pub camera_pos: Option<C>,
}

impl<C> FrameRequest<C> {
    /// Whether two requests are for the same frame of the same object.
    pub open spec fn same_frame(self, other: FrameRequest<C>) -> bool {
        self.object_id == other.object_id && self.frame_offset == other.frame_offset
    }
}

impl<C> PartialEq for FrameRequest<C> {
    fn eq(&self, other: &Self) -> (r: bool) {
        self.object_id == other.object_id && self.frame_offset == other.frame_offset
    }
}

impl<C> vstd::std_specs::cmp::PartialEqSpecImpl for FrameRequest<C> {
    open spec fn obeys_eq_spec() -> bool {
        true
    }

    open spec fn eq_spec(&self, other: &Self) -> bool {
        self.object_id == other.object_id && self.frame_offset == other.frame_offset
    }
}

/// Where a frame stands.
pub enum FrameStatus<R> {
    /// being fetched
    Fetching,
    /// being decoded
    Decoding,
    /// ready to be rendered: how many frames remain in the channel, and the channel
    Ready(usize, R),
}

/// How a status reads in logs: `Fetching`, `Decoding`, or
/// `Ready (<n> remaining)`.
pub open spec fn state_text<R>(s: FrameStatus<R>) -> Seq<char> {
    match s {
        FrameStatus::Fetching => seq!['F', 'e', 't', 'c', 'h', 'i', 'n', 'g'],
        FrameStatus::Decoding => seq!['D', 'e', 'c', 'o', 'd', 'i', 'n', 'g'],
        FrameStatus::Ready(n, _) => seq!['R', 'e', 'a', 'd', 'y', ' ', '('] + decimal(n as nat) + seq![
            ' ',
            'r',
            'e',
            'm',
            'a',
            'i',
            'n',
            'i',
            'n',
            'g',
            ')',
        ],
    }
}

impl<R> FrameStatus<R> {
    /// How the status reads in logs (see `state_text`).
    pub fn describe(&self) -> (t: String)
        ensures
            t@ == state_text(*self),
    {
        let out: Vec<char> = match self {
            FrameStatus::Fetching => {
                let v = vec!['F', 'e', 't', 'c', 'h', 'i', 'n', 'g'];
                assert(v@ =~= seq!['F', 'e', 't', 'c', 'h', 'i', 'n', 'g']);
                v
            },
            FrameStatus::Decoding => {
                let v = vec!['D', 'e', 'c', 'o', 'd', 'i', 'n', 'g'];
                assert(v@ =~= seq!['D', 'e', 'c', 'o', 'd', 'i', 'n', 'g']);
                v
            },
            FrameStatus::Ready(n, _) => {
                let mut v = vec!['R', 'e', 'a', 'd', 'y', ' ', '('];
                let digits = decimal_string(*n as u64);
                extend_chars(&mut v, &digits);
                let tail = vec![' ', 'r', 'e', 'm', 'a', 'i', 'n', 'i', 'n', 'g', ')'];
                extend_chars(&mut v, &tail);
                assert(v@ =~= state_text(*self));
                v
            },
        };
        string_of(&out)
    }
}

/// A frame request with its status.
pub struct RequestStatus<C, R> {
    pub req: FrameRequest<C>,
    pub state: FrameStatus<R>,
}

/// How an entry reads in logs:
/// `{ object_id: <id>, frame_offset: <offset>, state: <state> }`.
pub open spec fn status_text<C, R>(s: RequestStatus<C, R>) -> Seq<char> {
    seq!['{', ' ', 'o', 'b', 'j', 'e', 'c', 't', '_', 'i', 'd', ':', ' '] + decimal(
        s.req.object_id as nat,
    ) + seq![',', ' ', 'f', 'r', 'a', 'm', 'e', '_', 'o', 'f', 'f', 's', 'e', 't', ':', ' ']
        + decimal(s.req.frame_offset as nat) + seq![',', ' ', 's', 't', 'a', 't', 'e', ':', ' ']
        + state_text(s.state) + seq![' ', '}']
}

impl<C, R> RequestStatus<C, R> {
    /// How the entry reads in logs (see `status_text`).
    pub fn describe(&self) -> (t: String)
        ensures
            t@ == status_text(*self),
    {
        let mut v = vec!['{', ' ', 'o', 'b', 'j', 'e', 'c', 't', '_', 'i', 'd', ':', ' '];
        let id = decimal_string(self.req.object_id as u64);
        extend_chars(&mut v, &id);
        let sep = vec![',', ' ', 'f', 'r', 'a', 'm', 'e', '_', 'o', 'f', 'f', 's', 'e', 't', ':', ' '];
        extend_chars(&mut v, &sep);
        let offset = decimal_string(self.req.frame_offset);
        extend_chars(&mut v, &offset);
        let sep2 = vec![',', ' ', 's', 't', 'a', 't', 'e', ':', ' '];
        extend_chars(&mut v, &sep2);
        let state = self.state.describe();
        let state_chars = crate::text::chars_of(state.as_str());
        extend_chars(&mut v, &state_chars);
        let end = vec![' ', '}'];
        extend_chars(&mut v, &end);
        assert(v@ =~= status_text(*self));
        string_of(&v)
    }
}

/// Whether a status removes its frame when it is set: ready, with nothing left.
pub open spec fn is_exhausted<R>(s: FrameStatus<R>) -> bool {
    s matches FrameStatus::Ready(n, _) && n == 0
}

pub open spec fn is_ready<R>(s: FrameStatus<R>) -> bool {
    s is Ready
}

/// The number of entries whose frame is ready.
pub open spec fn ready_count<C, R>(s: Seq<RequestStatus<C, R>>) -> nat
    decreases s.len(),
{
    if s.len() == 0 {
        0
    } else {
        ready_count(s.drop_last()) + if is_ready(s.last().state) {
            1nat
        } else {
            0nat
        }
    }
}

pub open spec fn for_frame<C, R>(key: FrameRequest<C>) -> spec_fn(RequestStatus<C, R>) -> bool {
    |s: RequestStatus<C, R>| s.req.same_frame(key)
}

/// The position of the first entry for the frame of `key` (`s.len()` if there is none).
pub open spec fn position_of<C, R>(s: Seq<RequestStatus<C, R>>, key: FrameRequest<C>) -> int {
    first_index(s, for_frame(key))
}

/// Whether some entry is for the frame of `key`.
pub open spec fn holds_frame<C, R>(s: Seq<RequestStatus<C, R>>, key: FrameRequest<C>) -> bool {
    exists|i: int| 0 <= i < s.len() && (#[trigger] s[i]).req.same_frame(key)
}

/// A bounded queue of frame requests, oldest first.
pub struct Buffer<C, R> {
    frames: VecDeque<RequestStatus<C, R>>,
    capacity: usize,
}

proof fn lemma_first_index_at_most<A>(s: Seq<A>, p: spec_fn(A) -> bool, i: int)
    requires
        0 <= i < s.len(),
        p(s[i]),
    ensures
        0 <= first_index(s, p) <= i,
        p(s[first_index(s, p)]),
    decreases s.len(),
{
    if !p(s[0]) {
        let t = s.subrange(1, s.len() as int);
        assert(t[i - 1] == s[i]);
        lemma_first_index_at_most(t, p, i - 1);
        assert(s[first_index(s, p)] == t[first_index(t, p)]);
    }
}

/// In entries that hold the frame of `key`, its first entry lies within them
/// and is for that frame.
pub proof fn lemma_position_of<C, R>(s: Seq<RequestStatus<C, R>>, key: FrameRequest<C>)
    requires
        holds_frame(s, key),
    ensures
        0 <= position_of(s, key) < s.len(),
        s[position_of(s, key)].req.same_frame(key),
{
    let i = choose|i: int| 0 <= i < s.len() && (#[trigger] s[i]).req.same_frame(key);
    let p = for_frame::<C, R>(key);
    assert(p(s[i]));
    lemma_first_index_at_most(s, p, i);
}

proof fn lemma_first_index_minimal<A>(s: Seq<A>, p: spec_fn(A) -> bool, j: int)
    requires
        0 <= j < first_index(s, p),
        j < s.len(),
    ensures
        !p(s[j]),
    decreases s.len(),
{
    if j > 0 {
        let t = s.subrange(1, s.len() as int);
        lemma_first_index_minimal(t, p, j - 1);
        assert(t[j - 1] == s[j]);
    }
}

/// The buffer never counts more ready frames than it has entries.
pub proof fn lemma_ready_count_bounded<C, R>(s: Seq<RequestStatus<C, R>>)
    ensures
        ready_count(s) <= s.len(),
    decreases s.len(),
{
    if s.len() > 0 {
        lemma_ready_count_bounded(s.drop_last());
    }
}

/// An entry set in place is found again where it was: after `update` with a
/// key for the same frame, or after `update_state` with a state that keeps the
/// entry, looking up that frame (`get`) gives the new entry.
pub proof fn lemma_update_found_again<C, R>(
    s: Seq<RequestStatus<C, R>>,
    key: FrameRequest<C>,
    entry: RequestStatus<C, R>,
)
    requires
        holds_frame(s, key),
        entry.req.same_frame(key),
    ensures
        ({
            let t = s.update(position_of(s, key), entry);
            &&& holds_frame(t, key)
            &&& position_of(t, key) == position_of(s, key)
            &&& t[position_of(t, key)] == entry
        }),
{
    lemma_position_of(s, key);
    let i = position_of(s, key);
    let t = s.update(i, entry);
    let p = for_frame::<C, R>(key);
    assert forall|j: int| 0 <= j < i implies !p(#[trigger] t[j]) by {
        lemma_first_index_minimal(s, p, j);
    }
    lemma_first_index(t, p, i);
    assert(t[i].req.same_frame(key));
}

impl<C, R> Buffer<C, R> {
    /// The entries, oldest first.
    pub closed spec fn frames(self) -> Seq<RequestStatus<C, R>> {
        self.frames@
    }

    /// The number of entries the buffer is meant to hold.
    pub closed spec fn spec_capacity(self) -> nat {
        self.capacity as nat
    }

    /// An empty buffer meant for `capacity` entries.
    pub fn new(capacity: usize) -> (b: Self)
        ensures
            b.frames() == Seq::<RequestStatus<C, R>>::empty(),
            b.spec_capacity() == capacity,
    {
        Buffer { frames: VecDeque::with_capacity(capacity), capacity }
    }

    /// Appends a request for a frame that is being fetched.
    pub fn add(&mut self, req: FrameRequest<C>)
        requires
            old(self).frames().len() <= old(self).spec_capacity(),
        ensures
            final(self).frames() == old(self).frames().push(
                RequestStatus { req, state: FrameStatus::Fetching },
            ),
            final(self).spec_capacity() == old(self).spec_capacity(),
    {
        self.frames.push_back(RequestStatus { req, state: FrameStatus::Fetching });
    }

    /// Appends an entry.
    pub fn push_back(&mut self, state: RequestStatus<C, R>)
        requires
            old(self).frames().len() <= old(self).spec_capacity(),
        ensures
            final(self).frames() == old(self).frames().push(state),
            final(self).spec_capacity() == old(self).spec_capacity(),
    {
        self.frames.push_back(state);
    }

    /// Puts an entry in front of all others.
    pub fn push_front(&mut self, state: RequestStatus<C, R>)
        requires
            old(self).frames().len() <= old(self).spec_capacity(),
        ensures
            final(self).frames() == seq![state] + old(self).frames(),
            final(self).spec_capacity() == old(self).spec_capacity(),
    {
        self.frames.push_front(state);
    }

    /// Takes out the oldest entry, if there is one.
    pub fn pop_front(&mut self) -> (r: Option<RequestStatus<C, R>>)
        ensures
            old(self).frames().len() == 0 ==> r is None && final(self).frames() == old(self).frames(),
            old(self).frames().len() > 0 ==> r == Some(old(self).frames()[0]) && final(self).frames()
                == old(self).frames().subrange(1, old(self).frames().len() as int),
            final(self).spec_capacity() == old(self).spec_capacity(),
    {
        self.frames.pop_front()
    }

    /// The oldest entry, if there is one.
    pub fn front(&self) -> (r: Option<&RequestStatus<C, R>>)
        ensures
            self.frames().len() == 0 ==> r is None,
            self.frames().len() > 0 ==> r == Some(&self.frames()[0]),
    {
        if self.frames.len() == 0 {
            None
        } else {
            Some(&self.frames[0])
        }
    }

    /// The newest entry, if there is one.
    pub fn back(&self) -> (r: Option<&RequestStatus<C, R>>)
        ensures
            self.frames().len() == 0 ==> r is None,
            self.frames().len() > 0 ==> r == Some(&self.frames().last()),
    {
        if self.frames.len() == 0 {
            None
        } else {
            Some(&self.frames[self.frames.len() - 1])
        }
    }

    /// The position of the first entry for the frame of `key`.
    fn position(&self, key: &FrameRequest<C>) -> (i: usize)
        ensures
            i as int == position_of(self.frames(), *key),
            i <= self.frames().len(),
            (i as int) < self.frames().len() <==> holds_frame(self.frames(), *key),
    {
        let ghost p = for_frame::<C, R>(*key);
        let mut i: usize = 0;
        while i < self.frames.len()
            invariant
                i <= self.frames@.len(),
                p == for_frame::<C, R>(*key),
                forall|j: int| 0 <= j < i ==> !p(#[trigger] self.frames@[j]),
            decreases self.frames@.len() - i,
        {
            if self.frames[i].req.object_id == key.object_id && self.frames[i].req.frame_offset
                == key.frame_offset {
                proof {
                    lemma_first_index(self.frames@, p, i as int);
                }
                return i;
            }
            assert(!p(self.frames@[i as int]));
            i = i + 1;
        }
        proof {
            lemma_first_index(self.frames@, p, i as int);
            if holds_frame(self.frames@, *key) {
                let k = choose|k: int| 0 <= k < self.frames@.len() && (#[trigger] self.frames@[k]).req.same_frame(*key);
                assert(p(self.frames@[k]));
            }
        }
        i
    }

    /// Sets the request and the state of the first entry for the frame of `key`;
    /// when the new state is ready with no frame left, the entry is removed instead.
    pub fn update(&mut self, key: FrameRequest<C>, new_key: FrameRequest<C>, new_state: FrameStatus<R>)
        requires
            holds_frame(old(self).frames(), key),
        ensures
            final(self).spec_capacity() == old(self).spec_capacity(),
            is_exhausted(new_state) ==> final(self).frames() == old(self).frames().remove(
                position_of(old(self).frames(), key),
            ),
            !is_exhausted(new_state) ==> final(self).frames() == old(self).frames().update(
                position_of(old(self).frames(), key),
                RequestStatus { req: new_key, state: new_state },
            ),
    {
        let idx = self.position(&key);
        let removed = self.frames.remove(idx);
        if let FrameStatus::Ready(0, _) = new_state {
            return;
        }
        self.frames.insert(idx, RequestStatus { req: new_key, state: new_state });
        proof {
            assert(self.frames@ =~= old(self).frames@.update(
                idx as int,
                RequestStatus { req: new_key, state: new_state },
            ));
        }
    }

    /// Sets the state of the first entry for the frame of `req`; when the state
    /// is ready with no frame left, the entry is removed instead.
    pub fn update_state(&mut self, req: FrameRequest<C>, state: FrameStatus<R>)
        requires
            holds_frame(old(self).frames(), req),
        ensures
            final(self).spec_capacity() == old(self).spec_capacity(),
            is_exhausted(state) ==> final(self).frames() == old(self).frames().remove(
                position_of(old(self).frames(), req),
            ),
            !is_exhausted(state) ==> final(self).frames() == old(self).frames().update(
                position_of(old(self).frames(), req),
                RequestStatus { req: old(self).frames()[position_of(old(self).frames(), req)].req, state },
            ),
    {
        let idx = self.position(&req);
        let removed = self.frames.remove(idx).unwrap();
        if let FrameStatus::Ready(0, _) = state {
            return;
        }
        self.frames.insert(idx, RequestStatus { req: removed.req, state });
        proof {
            assert(self.frames@ =~= old(self).frames@.update(
                idx as int,
                RequestStatus { req: old(self).frames@[idx as int].req, state },
            ));
        }
    }

    /// The first entry for the frame of `req`, if there is one.
    pub fn get(&self, req: FrameRequest<C>) -> (r: Option<&RequestStatus<C, R>>)
        ensures
            !holds_frame(self.frames(), req) ==> r is None,
            holds_frame(self.frames(), req) ==> r == Some(&self.frames()[position_of(self.frames(), req)]),
    {
        let idx = self.position(&req);
        if idx < self.frames.len() {
            Some(&self.frames[idx])
        } else {
            None
        }
    }

    /// Removes the first entry for the frame of `req`.
    pub fn remove(&mut self, req: FrameRequest<C>)
        requires
            holds_frame(old(self).frames(), req),
        ensures
            final(self).frames() == old(self).frames().remove(position_of(old(self).frames(), req)),
            final(self).spec_capacity() == old(self).spec_capacity(),
    {
        let idx = self.position(&req);
        self.frames.remove(idx);
    }

    /// Whether the buffer holds as many entries as it is meant to, or more.
    pub fn is_full(&self) -> (b: bool)
        ensures
            b == (self.frames().len() >= self.spec_capacity()),
    {
        self.frames.len() >= self.capacity
    }

    /// Whether the buffer has no entry.
    pub fn is_empty(&self) -> (b: bool)
        ensures
            b == (self.frames().len() == 0),
    {
        self.frames.len() == 0
    }

    /// The number of entries whose frame is ready to be rendered.
    pub fn len(&self) -> (n: usize)
        ensures
            n == ready_count(self.frames()),
    {
        let mut n: usize = 0;
        let mut i: usize = 0;
        while i < self.frames.len()
            invariant
                i <= self.frames@.len(),
                n == ready_count(self.frames@.subrange(0, i as int)),
                n <= i,
            decreases self.frames@.len() - i,
        {
            assert(self.frames@.subrange(0, i + 1).drop_last() =~= self.frames@.subrange(0, i as int));
            if let FrameStatus::Ready(_, _) = self.frames[i].state {
                n = n + 1;
            }
            i = i + 1;
        }
        assert(self.frames@.subrange(0, i as int) =~= self.frames@);
        n
    }

    /// The number of entries the buffer is meant to hold.
    pub fn capacity(&self) -> (c: usize)
        ensures
            c == self.spec_capacity(),
    {
        self.capacity
    }

    /// The entry at position `i` (0 is the oldest), if there is one.
    pub fn get_at(&self, i: usize) -> (r: Option<&RequestStatus<C, R>>)
        ensures
            i < self.frames().len() ==> r == Some(&self.frames()[i as int]),
            i >= self.frames().len() ==> r is None,
    {
        if i < self.frames.len() {
            Some(&self.frames[i])
        } else {
            None
        }
    }

    /// The number of entries, in any state.
    pub fn entry_count(&self) -> (n: usize)
        ensures
            n == self.frames().len(),
    {
        self.frames.len()
    }

    /// Removes every entry.
    pub fn clear(&mut self)
        ensures
            final(self).frames() == Seq::<RequestStatus<C, R>>::empty(),
            final(self).spec_capacity() == old(self).spec_capacity(),
    {
        self.frames.clear();
    }

    /// Whether the frame of `req` lies between the frames of the oldest and the
    /// newest entries (the buffered frames are taken to be contiguous).
    pub fn is_frame_in_buffer(&self, req: FrameRequest<C>) -> (b: bool)
        requires
            self.frames().len() > 0,
        ensures
            b == (self.frames()[0].req.frame_offset <= req.frame_offset
                && req.frame_offset <= self.frames().last().req.frame_offset),
    {
        let front = self.front().unwrap();
        let back = self.back().unwrap();
        req.frame_offset >= front.req.frame_offset && req.frame_offset <= back.req.frame_offset
    }
}

} // verus!
