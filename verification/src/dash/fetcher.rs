//! What the segment fetcher decides: which URL to request for each view, under
//! which file name to keep it, and the running download bitrate. The requests
//! themselves are made by the caller.

use vstd::prelude::*;
use crate::dash::parser::{info_available, segment_info, view_or_left, MPDParser};
use crate::io::reader::{lemma_piece_start, piece_start};
use crate::utils::{window_average, last_n, SimpleRunningAverage};

verus! {

/// Download statistics: the average bitrate of the last five downloads.
pub struct FetchStats {
    pub avg_bitrate: SimpleRunningAverage<5>,
}

/// The outcome of downloading the segments of one frame: where each view's
/// segment was stored, and the average bitrate of the last five downloads.
pub struct FetchResult {
    pub paths: Vec<Option<String>>,
    pub last5_avg_bitrate: i64,
}

/// A segment to download for one view: its URL, the bandwidth that the manifest
/// states for it, and the file name to store it under.
pub struct SegmentRequest {
    pub url: String,
    pub bandwidth: Option<u64>,
    pub filename: String,
}

/// Decides what to fetch, from a parsed manifest.
pub struct Fetcher {
    pub mpd_parser: MPDParser,
    pub download_dir: String,
    pub stats: FetchStats,
}

/// The number of views of a frame.
pub const VIEWS: usize = 6;

/// Where the file name of a URL ends: before a trailing `/`, if there is one.
pub open spec fn segment_end(s: Seq<char>) -> int {
    if s.len() > 0 && s[s.len() - 1] == '/' {
        s.len() - 1
    } else {
        s.len() as int
    }
}

/// The file name of a URL: its last `/`-separated piece, where a trailing `/`
/// does not start an (empty) piece.
pub open spec fn filename_of(s: Seq<char>) -> Seq<char> {
    s.subrange(piece_start(s, segment_end(s)), segment_end(s))
}

proof fn lemma_piece_has_no_separator(s: Seq<char>, end: int)
    requires
        0 <= end <= s.len(),
    ensures
        forall|k: int| piece_start(s, end) <= k < end ==> s[k] != '/',
        piece_start(s, end) == 0 || s[piece_start(s, end) - 1] == '/',
    decreases end,
{
    if end > 0 && s[end - 1] != '/' {
        lemma_piece_has_no_separator(s, end - 1);
    }
}

/// The file name taken from a URL is its last piece: it holds no `/`, the URL
/// before it is empty or ends with `/`, and after it comes nothing or one `/`.
pub proof fn lemma_filename_is_last_piece(s: Seq<char>)
    ensures
        forall|k: int| 0 <= k < filename_of(s).len() ==> filename_of(s)[k] != '/',
        ({
            let start = piece_start(s, segment_end(s));
            &&& start == 0 || s[start - 1] == '/'
            &&& s == s.subrange(0, start) + filename_of(s) + s.subrange(segment_end(s), s.len() as int)
            &&& s.len() - segment_end(s) <= 1
        }),
{
    lemma_piece_has_no_separator(s, segment_end(s));
    lemma_piece_start(s, segment_end(s));
    let start = piece_start(s, segment_end(s));
    assert(s =~= s.subrange(0, start) + filename_of(s) + s.subrange(segment_end(s), s.len() as int));
}

/// The file name that a downloaded segment is stored under: the last piece of
/// its URL (`url.rsplit_terminator('/').next()`).
pub fn generate_filename_from_url(url: &str) -> (name: &str)
    requires
        url@.len() > 0,
    ensures
        name@ == filename_of(url@),
{
    let n = url.unicode_len();
    let end = if url.get_char(n - 1) == '/' {
        n - 1
    } else {
        n
    };
    let mut start = end;
    proof {
        lemma_piece_start(url@, end as int);
    }
    while start > 0 && url.get_char(start - 1) != '/'
        invariant
            start <= end <= url@.len(),
            n == url@.len(),
            end as int == segment_end(url@),
            piece_start(url@, start as int) == piece_start(url@, end as int),
        decreases start,
    {
        start = start - 1;
    }
    url.substring_char(start, end)
}

/// The running average of the download bitrate after a download of
/// `total_bytes` bytes that took `elapsed_ms` milliseconds: the bits per
/// millisecond (the elapsed time taken as at least 1 ms).
pub open spec fn download_bitrate(total_bytes: nat, elapsed_ms: nat) -> int {
    (total_bytes * 8) as int / (if elapsed_ms > 1 { elapsed_ms } else { 1nat }) as int
}

impl FetchStats {
    /// Statistics before any download.
    pub fn new() -> (s: FetchStats)
        ensures
            s.avg_bitrate.window() == Seq::<i64>::empty(),
    {
        FetchStats { avg_bitrate: SimpleRunningAverage::new() }
    }

    /// Records a download of `total_bytes` bytes in `elapsed_ms` milliseconds and
    /// returns the new average of the last five bitrates.
    pub fn record_download(&mut self, total_bytes: usize, elapsed_ms: u64) -> (avg: i64)
        requires
            total_bytes * 8 <= usize::MAX,
        ensures
            final(self).avg_bitrate.window() == last_n(
                old(self).avg_bitrate.window().push(
                    download_bitrate(total_bytes as nat, elapsed_ms as nat) as i64,
                ),
                5,
            ),
            avg as int == window_average(final(self).avg_bitrate.window()),
    {
        let total_bits = total_bytes * 8;
        let ms: u64 = if elapsed_ms > 1 {
            elapsed_ms
        } else {
            1
        };
        let rate = (total_bits as u64 / ms) as usize;
        assert(rate as int == download_bitrate(total_bytes as nat, elapsed_ms as nat));
        self.avg_bitrate.add(rate as i64);
        self.avg_bitrate.get()
    }
}

impl Fetcher {
    /// A fetcher that stores segments in `download_dir`.
    pub fn new(mpd_parser: MPDParser, download_dir: String) -> (f: Fetcher)
        ensures
            f.mpd_parser == mpd_parser,
            f.download_dir@ == download_dir@,
            f.stats.avg_bitrate.window() == Seq::<i64>::empty(),
    {
        Fetcher { mpd_parser, download_dir, stats: FetchStats::new() }
    }

    /// Whether a download of frame `frame` of `object_id` at the given per-view
    /// qualities can be planned: each of the six views has a segment at its quality.
    pub open spec fn plan_available(self, object_id: u8, frame: u64, quality: Seq<usize>) -> bool {
        quality.len() >= VIEWS && forall|v: int|
            0 <= v < VIEWS ==> info_available(
                self.mpd_parser.manifest(),
                self.mpd_parser.markers(),
                object_id,
                #[trigger] quality[v] as u8,
                frame,
                Some(v as u8),
            )
    }

    /// What to download for frame `frame` of `object_id`: for each view `v`, the
    /// segment of representation `quality[v]` (taken as a `u8`) in view `v`, and
    /// the file name of its URL.
    pub fn plan_download(&self, object_id: u8, frame: u64, quality: &[usize]) -> (plan: Vec<SegmentRequest>)
        requires
            self.plan_available(object_id, frame, quality@),
        ensures
            plan@.len() == VIEWS,
            forall|v: int|
                0 <= v < VIEWS ==> {
                    let info = segment_info(
                        self.mpd_parser.manifest(),
                        self.mpd_parser.markers(),
                        object_id,
                        quality@[v] as u8,
                        frame,
                        Some(v as u8),
                    );
                    &&& (#[trigger] plan@[v]).url@ == info.0
                    &&& plan@[v].bandwidth == info.1
                    &&& plan@[v].filename@ == filename_of(info.0)
                },
    {
        let mut plan: Vec<SegmentRequest> = Vec::new();
        let mut view: usize = 0;
        while view < VIEWS
            invariant
                view <= VIEWS,
                self.plan_available(object_id, frame, quality@),
                plan@.len() == view,
                forall|v: int|
                    0 <= v < view ==> {
                        let info = segment_info(
                            self.mpd_parser.manifest(),
                            self.mpd_parser.markers(),
                            object_id,
                            quality@[v] as u8,
                            frame,
                            Some(v as u8),
                        );
                        &&& (#[trigger] plan@[v]).url@ == info.0
                        &&& plan@[v].bandwidth == info.1
                        &&& plan@[v].filename@ == filename_of(info.0)
                    },
            decreases VIEWS - view,
        {
            let q = quality[view] as u8;
            assert(q == quality@[view as int] as u8);
            let (url, bandwidth) = self.mpd_parser.get_info(object_id, q, frame, Some(view as u8));
            proof {
                lemma_url_nonempty(self.mpd_parser, object_id, q, frame, Some(view as u8));
            }
            let name = generate_filename_from_url(url.as_str());
            let filename = name.to_owned();
            plan.push(SegmentRequest { url, bandwidth, filename });
            view = view + 1;
        }
        plan
    }

    /// The bitrates on offer for frame `frame_offset` of `object_id` in view
    /// `view_id`; `None` means the left view (view 0).
    pub fn available_bitrates(&self, object_id: u8, frame_offset: u64, view_id: Option<u8>) -> (r: Vec<u64>)
        requires
            self.mpd_parser.bitrates_available(object_id, frame_offset, view_or_left(view_id)),
        ensures
            r@ == self.mpd_parser.spec_available_bitrates(
                object_id,
                frame_offset,
                view_or_left(view_id),
            ),
    {
        let view = Some(
            match view_id {
                Some(v) => v,
                None => 0,
            },
        );
        self.mpd_parser.available_bitrates(object_id, frame_offset, view)
    }

    /// The bitrates on offer for frame `frame_offset` of `object_id`, for each of the six views.
    pub fn all_available_bitrates(&self, object_id: u8, frame_offset: u64) -> (r: Vec<Vec<u64>>)
        requires
            forall|v: int|
                0 <= v < VIEWS ==> self.mpd_parser.bitrates_available(object_id, frame_offset, Some(#[trigger] (v as u8))),
        ensures
            r@.len() == VIEWS,
            forall|v: int|
                0 <= v < VIEWS ==> (#[trigger] r@[v])@ == self.mpd_parser.spec_available_bitrates(
                    object_id,
                    frame_offset,
                    Some(v as u8),
                ),
    {
        let mut r: Vec<Vec<u64>> = Vec::new();
        let mut v: usize = 0;
        while v < VIEWS
            invariant
                v <= VIEWS,
                r@.len() == v,
                forall|w: int|
                    0 <= w < VIEWS ==> self.mpd_parser.bitrates_available(object_id, frame_offset, Some(#[trigger] (w as u8))),
                forall|w: int|
                    0 <= w < v ==> (#[trigger] r@[w])@ == self.mpd_parser.spec_available_bitrates(
                        object_id,
                        frame_offset,
                        Some(w as u8),
                    ),
            decreases VIEWS - v,
        {
            assert(self.mpd_parser.bitrates_available(object_id, frame_offset, Some((v as int) as u8)));
            r.push(self.available_bitrates(object_id, frame_offset, Some(v as u8)));
            v = v + 1;
        }
        r
    }
}

/// A segment URL is never empty: it starts with the base URL, which ends with `/`.
proof fn lemma_url_nonempty(p: MPDParser, object_id: u8, rid: u8, frame: u64, view: Option<u8>)
    requires
        info_available(p.manifest(), p.markers(), object_id, rid, frame, view),
    ensures
        segment_info(p.manifest(), p.markers(), object_id, rid, frame, view).0.len() > 0,
{
}

} // verus!
