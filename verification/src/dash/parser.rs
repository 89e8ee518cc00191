//! A simplified model of a DASH Media Presentation Description (MPD) and the
//! lookups that the player makes in it: the base URL, the frame at which each
//! period starts, the URL and bandwidth of a segment, and the bitrates offered.
//!
//! The manifest arrives here already read from XML; durations are `xs:duration`
//! values (see `duration`).

#![allow(non_snake_case)]

use vstd::prelude::*;
use crate::dash::duration::XsDuration;
use crate::text::{
    chars_at, chars_of, decimal, decimal_string, digit_value, ends_with, extend_chars, is_digit, occurs_at,
    parse_u8, parse_u8_spec, replace_all, replace_all_chars, starts_with, string_of, zero_pad, zero_pad_chars,
};

verus! {

/// Frames per second of the content.
pub const FPS: u64 = 30;

/// A URL that specifies one common location for segments and other resources.
#[derive(Debug, Clone)]
pub struct BaseURL {
    pub base: String,
}

/// Template-based segment URL construction: `media` may hold `$RepresentationID$`,
/// `$Number$` and `$Number%0<w>d$` placeholders.
#[derive(Debug, Clone)]
pub struct SegmentTemplate {
    pub media: Option<String>,
    pub startNumber: Option<u64>,
    pub duration: Option<u64>,
    pub timescale: Option<u64>,
}

/// One version of the content, in a given encoding and bitrate.
#[derive(Debug, Clone)]
pub struct Representation {
    pub id: Option<String>,
    pub mimeType: Option<String>,
    pub codecs: Option<String>,
    pub contentType: Option<String>,
    pub frameRate: Option<String>,
    pub bandwidth: Option<u64>,
    pub segment_template: Option<SegmentTemplate>,
}

/// A set of interchangeable representations of one object (and one view of it).
#[derive(Debug, Clone)]
pub struct AdaptationSet {
    pub id: Option<u64>,
    pub BaseURL: Option<BaseURL>,
    pub mimeType: Option<String>,
    pub representations: Option<Vec<Representation>>,
    pub viewId: Option<u64>,
    pub srcObjectId: Option<u64>,
}

/// A chunk of the content with a duration.
#[derive(Debug, Clone)]
pub struct Period {
    pub id: Option<String>,
    pub start: Option<String>,
    pub duration: Option<XsDuration>,
    pub adaptations: Option<Vec<AdaptationSet>>,
}

/// The root of a manifest.
#[derive(Debug, Clone)]
pub struct MPD {
    pub mpdtype: Option<String>,
    pub xmlns: Option<String>,
    pub profiles: Option<String>,
    pub minBufferTime: Option<XsDuration>,
    pub suggestedPresentationDelay: Option<XsDuration>,
    pub periods: Vec<Period>,
    pub base_urls: Option<Vec<BaseURL>>,
}

// ---------------------------------------------------------------------------
// the model

/// The frame at which each period starts, followed by the total number of frames,
/// where period `i` spans `frames[i]` frames. Only periods with a duration
/// contribute a marker.
pub open spec fn period_markers(ps: Seq<Period>, frames: Seq<u64>) -> Seq<int>
    decreases ps.len(),
{
    if ps.len() == 0 {
        seq![0int]
    } else {
        let m = period_markers(ps.drop_last(), frames);
        match ps.last().duration {
            Some(_) => m.push(m.last() + frames[ps.len() - 1]),
            None => m,
        }
    }
}

/// The index of the last marker that is at most `x` (-1 if there is none).
pub open spec fn period_index(ms: Seq<int>, x: int) -> int
    decreases ms.len(),
{
    if ms.len() == 0 {
        -1
    } else if ms.last() <= x {
        ms.len() - 1
    } else {
        period_index(ms.drop_last(), x)
    }
}

/// The index of the first element of `s` that satisfies `p` (`s.len()` if none does).
pub open spec fn first_index<A>(s: Seq<A>, p: spec_fn(A) -> bool) -> int
    decreases s.len(),
{
    if s.len() == 0 {
        0
    } else if p(s[0]) {
        0
    } else {
        1 + first_index(s.subrange(1, s.len() as int), p)
    }
}

pub open spec fn or_zero(o: Option<u64>) -> u64 {
    match o {
        Some(v) => v,
        None => 0,
    }
}

/// Whether an adaptation set is the one asked for: it belongs to `object_id`
/// (an absent `srcObjectId` counts as 0) and, when a view is given, to that
/// view (an absent `viewId` counts as 0).
pub open spec fn adaptation_matches(a: AdaptationSet, object_id: u8, view_id: Option<u8>) -> bool {
    (view_id is None || view_id.unwrap() as u64 == or_zero(a.viewId)) && or_zero(a.srcObjectId)
        == object_id as u64
}

pub open spec fn representation_pred(representation_id: u8) -> spec_fn(Representation) -> bool {
    |r: Representation| representation_matches(r, representation_id)
}

pub open spec fn adaptation_pred(object_id: u8, view_id: Option<u8>) -> spec_fn(AdaptationSet) -> bool {
    |a: AdaptationSet| adaptation_matches(a, object_id, view_id)
}

/// Whether a representation's id reads as `representation_id`.
pub open spec fn representation_matches(r: Representation, representation_id: u8) -> bool {
    r.id matches Some(id) && parse_u8_spec(id@) == Some(representation_id)
}

/// The adaptation set that a lookup for frame `frame_offset` of `object_id`
/// (in view `view_id`) selects: the first matching one of the period that holds the frame.
pub open spec fn selected_adaptation(
    mpd: MPD,
    markers: Seq<int>,
    object_id: u8,
    frame_offset: u64,
    view_id: Option<u8>,
) -> Option<AdaptationSet> {
    let pi = period_index(markers, frame_offset as int);
    if 0 <= pi < mpd.periods@.len() && mpd.periods@[pi].adaptations is Some {
        let ads = mpd.periods@[pi].adaptations.unwrap()@;
        let k = first_index(ads, adaptation_pred(object_id, view_id));
        if k < ads.len() {
            Some(ads[k])
        } else {
            None
        }
    } else {
        None
    }
}

/// Whether every representation up to and including the first one with the
/// requested id has an id that reads as a `u8` (the lookup reads each of them).
pub open spec fn representation_found(reps: Seq<Representation>, representation_id: u8) -> bool {
    let k = first_index(reps, representation_pred(representation_id));
    &&& k < reps.len()
    &&& forall|j: int|
        0 <= j <= k ==> (#[trigger] reps[j]).id is Some && parse_u8_spec(reps[j].id.unwrap()@)
            is Some
}

/// The representation with the requested id, in a set whose lookup succeeds.
pub open spec fn selected_representation(reps: Seq<Representation>, representation_id: u8) -> Representation {
    reps[first_index(reps, representation_pred(representation_id))]
}

/// The segment number of frame `offset` in a period that starts at frame `marker`:
/// the frames since the period start, in timescale units, in whole segments,
/// times the segment duration, from the start number.
pub open spec fn segment_number(offset: int, marker: int, st: SegmentTemplate) -> int {
    let ts = st.timescale.unwrap() as int;
    let dur = st.duration.unwrap() as int;
    ((offset - marker) * ts / (dur * FPS as int)) * dur + st.startNumber.unwrap() as int
}

/// The segment numbered by `segment_number` is the one that holds the frame:
/// frames run at 30 per second, so frame `offset` lies `(offset - marker) *
/// timescale / 30` timescale units into the period; the segment number is
/// `startNumber` plus a whole number `k` of segment durations, and the frame's
/// time falls within `[k * duration, (k + 1) * duration)`.
pub proof fn lemma_segment_holds_frame(offset: int, marker: int, st: SegmentTemplate)
    requires
        marker <= offset,
        st.timescale is Some,
        st.duration is Some,
        st.startNumber is Some,
        st.duration.unwrap() > 0,
    ensures
        ({
            let ts = st.timescale.unwrap() as int;
            let dur = st.duration.unwrap() as int;
            let start = st.startNumber.unwrap() as int;
            let n = segment_number(offset, marker, st);
            let k = (n - start) / dur;
            &&& n >= start
            &&& (n - start) % dur == 0
            &&& k * dur * 30 <= (offset - marker) * ts
            &&& (offset - marker) * ts < (k + 1) * dur * 30
        }),
{
    let ts = st.timescale.unwrap() as int;
    let dur = st.duration.unwrap() as int;
    let a = (offset - marker) * ts;
    let per = dur * 30;
    let q = a / per;
    assert(a >= 0) by (nonlinear_arith)
        requires
            offset - marker >= 0,
            ts >= 0,
            a == (offset - marker) * ts,
    ;
    assert(per > 0) by (nonlinear_arith)
        requires
            dur > 0,
            per == dur * 30,
    ;
    vstd::arithmetic::div_mod::lemma_fundamental_div_mod(a, per);
    vstd::arithmetic::div_mod::lemma_mod_pos_bound(a, per);
    assert(q >= 0) by (nonlinear_arith)
        requires
            a >= 0,
            per > 0,
            q == a / per,
    ;
    vstd::arithmetic::div_mod::lemma_div_multiples_vanish(q, dur);
    vstd::arithmetic::div_mod::lemma_mod_multiples_basic(q, dur);
    assert(q * dur == dur * q) by (nonlinear_arith);
    assert(q * dur >= 0) by (nonlinear_arith)
        requires
            q >= 0,
            dur > 0,
    ;
    assert(q * dur * 30 == per * q) by (nonlinear_arith)
        requires
            per == dur * 30,
    ;
    assert((q + 1) * dur * 30 == per * q + per) by (nonlinear_arith)
        requires
            per == dur * 30,
    ;
}

/// Whether the segment number can be computed in `u64` arithmetic.
pub open spec fn segment_number_computable(offset: int, marker: int, st: SegmentTemplate) -> bool {
    &&& st.timescale is Some
    &&& st.duration is Some
    &&& st.startNumber is Some
    &&& (offset - marker) * (st.timescale.unwrap() as int) <= u64::MAX
    &&& 0 < st.duration.unwrap() as int * FPS as int <= u64::MAX
    &&& ((offset - marker) * (st.timescale.unwrap() as int) / (st.duration.unwrap() as int
        * FPS as int)) * (st.duration.unwrap() as int) <= u64::MAX
    &&& segment_number(offset, marker, st) <= u64::MAX
}

/// `$`, the name, `$`.
pub open spec fn simple_ident(key: Seq<char>) -> Seq<char> {
    seq!['$'] + key + seq!['$']
}

/// `$`, the name, `%0`: the start of a width-formatted placeholder.
pub open spec fn format_prefix(key: Seq<char>) -> Seq<char> {
    seq!['$'] + key + seq!['%', '0']
}

/// Whether the placeholder `$<key>%0<digit>d$` starts at `i`.
pub open spec fn format_at(s: Seq<char>, key: Seq<char>, i: int) -> bool {
    let n = format_prefix(key).len() as int;
    &&& occurs_at(s, format_prefix(key), i)
    &&& i + n + 3 <= s.len()
    &&& is_digit(s[i + n])
    &&& s[i + n + 1] == 'd'
    &&& s[i + n + 2] == '$'
}

/// The first position at or after `i` where a width-formatted placeholder starts (-1 if none).
pub open spec fn first_format_from(s: Seq<char>, key: Seq<char>, i: int) -> int
    decreases s.len() - i,
{
    if !(0 <= i < s.len()) {
        -1
    } else if format_at(s, key, i) {
        i
    } else {
        first_format_from(s, key, i + 1)
    }
}

/// Substitutes `value` for the placeholders of `key`: every `$<key>$`, then the
/// first `$<key>%0<w>d$`, which takes `value` padded with zeros to `w` characters.
pub open spec fn substitute(s: Seq<char>, key: Seq<char>, value: Seq<char>) -> Seq<char> {
    let r = replace_all(s, simple_ident(key), value);
    let i = first_format_from(r, key, 0);
    if i >= 0 {
        let n = format_prefix(key).len() as int;
        r.subrange(0, i) + zero_pad(value, digit_value(r[i + n])) + r.subrange(i + n + 3, r.len() as int)
    } else {
        r
    }
}

pub open spec fn representation_id_key() -> Seq<char> {
    seq!['R', 'e', 'p', 'r', 'e', 's', 'e', 'n', 't', 'a', 't', 'i', 'o', 'n', 'I', 'D']
}

pub open spec fn number_key() -> Seq<char> {
    seq!['N', 'u', 'm', 'b', 'e', 'r']
}

/// A media template with the representation id and the segment number filled in.
/// (`$Time$` and `$Bandwidth$` are left as they are: no value is given for them.)
pub open spec fn resolve_template(template: Seq<char>, representation_id: Seq<char>, number: Seq<char>) -> Seq<char> {
    substitute(substitute(template, representation_id_key(), representation_id), number_key(), number)
}

/// The manifest's first base URL, ending with `/`.
pub open spec fn base_url_of(mpd: MPD) -> Seq<char> {
    let url = mpd.base_urls.unwrap()@[0].base@;
    if ends_with(url, seq!['/']) {
        url
    } else {
        url.push('/')
    }
}

pub open spec fn has_base_url(mpd: MPD) -> bool {
    mpd.base_urls is Some && mpd.base_urls.unwrap()@.len() > 0
}

/// The representation chosen by a segment lookup, when every step of the lookup succeeds.
pub open spec fn chosen_representation(
    mpd: MPD,
    markers: Seq<int>,
    object_id: u8,
    representation_id: u8,
    frame_offset: u64,
    view_id: Option<u8>,
) -> Option<Representation> {
    match selected_adaptation(mpd, markers, object_id, frame_offset, view_id) {
        Some(a) => match a.representations {
            Some(reps) => if representation_found(reps@, representation_id) {
                Some(selected_representation(reps@, representation_id))
            } else {
                None
            },
            None => None,
        },
        None => None,
    }
}

/// Whether a segment lookup succeeds: the manifest has a base URL, the period that
/// holds the frame has a matching adaptation set with a representation of that id,
/// whose segment template has a media pattern and numbers that can be computed.
pub open spec fn info_available(
    mpd: MPD,
    markers: Seq<int>,
    object_id: u8,
    representation_id: u8,
    frame_offset: u64,
    view_id: Option<u8>,
) -> bool {
    has_base_url(mpd) && match chosen_representation(
        mpd,
        markers,
        object_id,
        representation_id,
        frame_offset,
        view_id,
    ) {
        Some(r) => match r.segment_template {
            Some(st) => st.media is Some && segment_number_computable(
                frame_offset as int,
                markers[period_index(markers, frame_offset as int)],
                st,
            ),
            None => false,
        },
        None => false,
    }
}

/// The URL and bandwidth of a segment: the base URL followed by the media
/// template filled with the representation's id and the segment number.
pub open spec fn segment_info(
    mpd: MPD,
    markers: Seq<int>,
    object_id: u8,
    representation_id: u8,
    frame_offset: u64,
    view_id: Option<u8>,
) -> (Seq<char>, Option<u64>) {
    let r = chosen_representation(mpd, markers, object_id, representation_id, frame_offset, view_id).unwrap();
    let st = r.segment_template.unwrap();
    let n = segment_number(frame_offset as int, markers[period_index(markers, frame_offset as int)], st);
    (
        base_url_of(mpd) + resolve_template(st.media.unwrap()@, r.id.unwrap()@, decimal(n as nat)),
        r.bandwidth,
    )
}

// ---------------------------------------------------------------------------
// lemmas

/// The first element that satisfies `p` is at `i` when none before `i` does
/// and the one at `i` does (or `i` is the end).
pub(crate) proof fn lemma_first_index<A>(s: Seq<A>, p: spec_fn(A) -> bool, i: int)
    requires
        0 <= i <= s.len(),
        forall|j: int| 0 <= j < i ==> !p(#[trigger] s[j]),
        i == s.len() || p(s[i]),
    ensures
        first_index(s, p) == i,
    decreases s.len(),
{
    if s.len() > 0 && i > 0 {
        let t = s.subrange(1, s.len() as int);
        assert forall|j: int| 0 <= j < i - 1 implies !p(#[trigger] t[j]) by {
            assert(t[j] == s[j + 1]);
        }
        if i < s.len() {
            assert(t[i - 1] == s[i]);
        }
        lemma_first_index(t, p, i - 1);
        assert(!p(s[0]));
    }
}

/// Periods are marked in order: the first marker is frame 0, and a later
/// period never starts before an earlier one.
pub proof fn lemma_markers_monotone(ps: Seq<Period>, frames: Seq<u64>)
    ensures
        period_markers(ps, frames).len() >= 1,
        period_markers(ps, frames)[0] == 0,
        forall|i: int, j: int|
            0 <= i <= j < period_markers(ps, frames).len() ==> 0 <= #[trigger] period_markers(
                ps,
                frames,
            )[i] <= #[trigger] period_markers(ps, frames)[j],
    decreases ps.len(),
{
    if ps.len() > 0 {
        lemma_markers_monotone(ps.drop_last(), frames);
    }
}

proof fn lemma_period_index(ms: Seq<int>, x: int)
    ensures
        -1 <= period_index(ms, x) < ms.len(),
        period_index(ms, x) >= 0 ==> ms[period_index(ms, x)] <= x,
        forall|k: int| period_index(ms, x) < k < ms.len() ==> ms[k] > x,
    decreases ms.len(),
{
    if ms.len() > 0 && ms.last() > x {
        let t = ms.drop_last();
        lemma_period_index(t, x);
        assert forall|k: int| period_index(ms, x) < k < ms.len() implies ms[k] > x by {
            if k < ms.len() - 1 {
                assert(t[k] == ms[k]);
            }
        }
    }
}

// ---------------------------------------------------------------------------
// template resolution

/// The first position at or after `from` where `$<key>%0<w>d$` starts.
fn find_format(s: &Vec<char>, key: &Vec<char>, prefix: &Vec<char>) -> (r: Option<usize>)
    requires
        prefix@ == format_prefix(key@),
    ensures
        match r {
            Some(i) => first_format_from(s@, key@, 0) == i as int,
            None => first_format_from(s@, key@, 0) == -1,
        },
{
    let n = prefix.len();
    let mut i: usize = 0;
    while i < s.len()
        invariant
            prefix@ == format_prefix(key@),
            n == prefix@.len(),
            i <= s.len(),
            first_format_from(s@, key@, 0) == first_format_from(s@, key@, i as int),
        decreases s.len() - i,
    {
        let rest = s.len() - i;
        if n < rest && rest - n >= 3 && chars_at(s, prefix, i) && '0' <= s[i + n] && s[i + n]
            <= '9' && s[i + n + 1] == 'd' && s[i + n + 2] == '$' {
            return Some(i);
        }
        i = i + 1;
    }
    None
}

/// `substitute` on characters.
fn substitute_chars(s: &Vec<char>, key: &Vec<char>, value: &Vec<char>) -> (out: Vec<char>)
    ensures
        out@ == substitute(s@, key@, value@),
{
    let mut ident: Vec<char> = Vec::new();
    ident.push('$');
    extend_chars(&mut ident, key);
    ident.push('$');
    assert(ident@ =~= simple_ident(key@));
    let r = replace_all_chars(s, &ident, value);
    let mut prefix: Vec<char> = Vec::new();
    prefix.push('$');
    extend_chars(&mut prefix, key);
    prefix.push('%');
    prefix.push('0');
    assert(prefix@ =~= format_prefix(key@));
    match find_format(&r, key, &prefix) {
        Some(i) => {
            proof {
                reveal_first_format(r@, key@, i as int);
            }
            let n = prefix.len();
            assert(is_digit(r@[i + n]));
            assert(r@[i + n] as u32 >= '0' as u32);
            let width = (r[i + n] as u32 - '0' as u32) as usize;
            let padded = zero_pad_chars(value, width);
            let mut out: Vec<char> = Vec::new();
            let mut k: usize = 0;
            while k < i
                invariant
                    k <= i < r.len(),
                    out@ =~= r@.subrange(0, k as int),
                decreases i - k,
            {
                out.push(r[k]);
                k = k + 1;
            }
            extend_chars(&mut out, &padded);
            let mut k: usize = i + n + 3;
            let ghost mid = out@;
            while k < r.len()
                invariant
                    i + n + 3 <= k <= r.len(),
                    out@ =~= mid + r@.subrange(i + n + 3, k as int),
                decreases r.len() - k,
            {
                out.push(r[k]);
                k = k + 1;
            }
            proof {
                reveal_first_format(r@, key@, i as int);
            }
            out
        },
        None => r,
    }
}

proof fn reveal_first_format(s: Seq<char>, key: Seq<char>, i: int)
    requires
        first_format_from(s, key, 0) == i,
        i >= 0,
    ensures
        format_at(s, key, i),
        0 <= i < s.len(),
{
    lemma_first_format(s, key, 0);
}

proof fn lemma_first_format(s: Seq<char>, key: Seq<char>, i: int)
    requires
        0 <= i,
    ensures
        first_format_from(s, key, i) >= 0 ==> format_at(s, key, first_format_from(s, key, i))
            && i <= first_format_from(s, key, i) < s.len(),
    decreases s.len() - i,
{
    if 0 <= i < s.len() && !format_at(s, key, i) {
        lemma_first_format(s, key, i + 1);
    }
}

fn representation_id_key_chars() -> (v: Vec<char>)
    ensures
        v@ == representation_id_key(),
{
    let v = vec!['R', 'e', 'p', 'r', 'e', 's', 'e', 'n', 't', 'a', 't', 'i', 'o', 'n', 'I', 'D'];
    assert(v@ =~= representation_id_key());
    v
}

fn number_key_chars() -> (v: Vec<char>)
    ensures
        v@ == number_key(),
{
    let v = vec!['N', 'u', 'm', 'b', 'e', 'r'];
    assert(v@ =~= number_key());
    v
}

/// Fills a media template: every `$RepresentationID$` / `$Number$` takes the
/// value, and the first `$RepresentationID%0<w>d$` / `$Number%0<w>d$` takes the
/// value padded with zeros to `w` characters.
pub fn resolve_url_template(template: &str, representation_id: &str, number: &str) -> (out: String)
    ensures
        out@ == resolve_template(template@, representation_id@, number@),
{
    let t = chars_of(template);
    let id = chars_of(representation_id);
    let num = chars_of(number);
    let k1 = representation_id_key_chars();
    let k2 = number_key_chars();
    let r1 = substitute_chars(&t, &k1, &id);
    let r2 = substitute_chars(&r1, &k2, &num);
    string_of(&r2)
}

proof fn lemma_replace_without_dollar(s: Seq<char>, pat: Seq<char>, val: Seq<char>)
    requires
        pat.len() > 0,
        pat[0] == '$',
        forall|k: int| 0 <= k < s.len() ==> s[k] != '$',
    ensures
        replace_all(s, pat, val) == s,
    decreases s.len(),
{
    if s.len() > 0 {
        if starts_with(s, pat) {
            assert(s.subrange(0, pat.len() as int)[0] == s[0]);
        }
        let t = s.subrange(1, s.len() as int);
        lemma_replace_without_dollar(t, pat, val);
        assert(seq![s[0]] + t =~= s);
    }
}

proof fn lemma_no_format_without_dollar(s: Seq<char>, key: Seq<char>, i: int)
    requires
        forall|k: int| 0 <= k < s.len() ==> s[k] != '$',
    ensures
        first_format_from(s, key, i) == -1,
    decreases s.len() - i,
{
    if 0 <= i < s.len() {
        if occurs_at(s, format_prefix(key), i) {
            assert(s.subrange(i, i + format_prefix(key).len())[0] == s[i]);
            assert(format_prefix(key)[0] == '$');
        }
        lemma_no_format_without_dollar(s, key, i + 1);
    }
}

/// A media template without `$` holds no placeholder: it resolves to itself,
/// whatever the representation id and the segment number.
pub proof fn lemma_template_without_placeholders(
    template: Seq<char>,
    representation_id: Seq<char>,
    number: Seq<char>,
)
    requires
        forall|k: int| 0 <= k < template.len() ==> template[k] != '$',
    ensures
        resolve_template(template, representation_id, number) == template,
{
    lemma_replace_without_dollar(template, simple_ident(representation_id_key()), representation_id);
    lemma_no_format_without_dollar(template, representation_id_key(), 0);
    lemma_replace_without_dollar(template, simple_ident(number_key()), number);
    lemma_no_format_without_dollar(template, number_key(), 0);
}

// ---------------------------------------------------------------------------
// the parser

/// Answers lookups in a manifest.
pub struct MPDParser {
    mpd: MPD,
    /// The number of frames of each period.
    period_frames: Vec<u64>,
    /// The first frame of each period that has a duration, then the total number of frames.
    period_markers: Vec<u64>,
}

pub open spec fn markers_as_ints(v: Seq<u64>) -> Seq<int> {
    v.map_values(|x: u64| x as int)
}

impl MPDParser {
    #[verifier::type_invariant]
    spec fn markers_consistent(self) -> bool {
        &&& self.period_frames@.len() == self.mpd.periods@.len()
        &&& markers_as_ints(self.period_markers@) == period_markers(
            self.mpd.periods@,
            self.period_frames@,
        )
    }

    /// The manifest that is answered from.
    pub closed spec fn manifest(self) -> MPD {
        self.mpd
    }

    /// The number of frames of each period.
    pub closed spec fn frame_counts(self) -> Seq<u64> {
        self.period_frames@
    }

    /// The frame at which each period (with a duration) starts, then the total.
    pub open spec fn markers(self) -> Seq<int> {
        period_markers(self.manifest().periods@, self.frame_counts())
    }

    /// Builds the parser for a manifest and marks where each period starts.
    /// `period_frames[i]` is the number of frames of period `i` (its duration
    /// in seconds times `FPS`, as the caller computes it); it is not read for
    /// a period without a duration.
    pub fn new(mpd: MPD, period_frames: Vec<u64>) -> (p: MPDParser)
        requires
            period_frames@.len() == mpd.periods@.len(),
            period_markers(mpd.periods@, period_frames@).last() <= u64::MAX,
        ensures
            p.manifest() == mpd,
            p.frame_counts() == period_frames@,
            p.markers() == period_markers(mpd.periods@, period_frames@),
    {
        let mut framestamps: Vec<u64> = Vec::new();
        let mut curr_frame: u64 = 0;
        framestamps.push(curr_frame);
        let ghost ps = mpd.periods@;
        let ghost fs = period_frames@;
        proof {
            lemma_markers_monotone(ps, fs);
            assert(ps.subrange(0, 0) =~= Seq::<Period>::empty());
            assert(markers_as_ints(framestamps@) =~= period_markers(ps.subrange(0, 0), fs));
        }
        let mut i: usize = 0;
        while i < mpd.periods.len()
            invariant
                ps == mpd.periods@,
                fs == period_frames@,
                fs.len() == ps.len(),
                i <= ps.len(),
                markers_as_ints(framestamps@) == period_markers(ps.subrange(0, i as int), fs),
                curr_frame == period_markers(ps.subrange(0, i as int), fs).last(),
                period_markers(ps, fs).last() <= u64::MAX,
            decreases ps.len() - i,
        {
            proof {
                assert(ps.subrange(0, i + 1).drop_last() =~= ps.subrange(0, i as int));
                lemma_prefix_markers_bounded(ps, fs, i + 1);
            }
            if mpd.periods[i].duration.is_some() {
                curr_frame = curr_frame + period_frames[i];
                framestamps.push(curr_frame);
                assert(markers_as_ints(framestamps@) =~= period_markers(ps.subrange(0, i + 1), fs));
            }
            i = i + 1;
        }
        assert(ps.subrange(0, ps.len() as int) =~= ps);
        MPDParser { mpd, period_frames, period_markers: framestamps }
    }

    /// The parser for a manifest with `period_frames` frames in its periods
    /// (see `new`), or `None` when the total frame count does not fit in a
    /// `u64` (which `new` needs).
    pub fn try_new(mpd: MPD, period_frames: Vec<u64>) -> (r: Option<MPDParser>)
        requires
            period_frames@.len() == mpd.periods@.len(),
        ensures
            r is Some <==> period_markers(mpd.periods@, period_frames@).last() <= u64::MAX,
            r matches Some(p) ==> p.manifest() == mpd && p.frame_counts() == period_frames@
                && p.markers() == period_markers(mpd.periods@, period_frames@),
    {
        let ghost ps = mpd.periods@;
        let ghost fs = period_frames@;
        let mut curr: u64 = 0;
        let mut i: usize = 0;
        proof {
            assert(ps.subrange(0, 0) =~= Seq::<Period>::empty());
        }
        while i < mpd.periods.len()
            invariant
                ps == mpd.periods@,
                fs == period_frames@,
                fs.len() == ps.len(),
                i <= ps.len(),
                curr == period_markers(ps.subrange(0, i as int), fs).last(),
                curr <= u64::MAX,
            decreases ps.len() - i,
        {
            proof {
                assert(ps.subrange(0, i + 1).drop_last() =~= ps.subrange(0, i as int));
            }
            if mpd.periods[i].duration.is_some() {
                let f = period_frames[i];
                if f > u64::MAX - curr {
                    proof {
                        lemma_prefix_markers_bounded(ps, fs, i + 1);
                    }
                    return None;
                }
                curr = curr + f;
            }
            i = i + 1;
        }
        assert(ps.subrange(0, ps.len() as int) =~= ps);
        Some(MPDParser::new(mpd, period_frames))
    }

    /// The manifest's first base URL, with a `/` appended unless it ends with one.
    pub fn get_base_url(&self) -> (url: String)
        requires
            has_base_url(self.manifest()),
        ensures
            url@ == base_url_of(self.manifest()),
    {
        let urls = self.mpd.base_urls.as_ref().unwrap();
        let base = &urls[0].base;
        let mut v = chars_of(base.as_str());
        if v.len() > 0 && v[v.len() - 1] == '/' {
            assert(ends_with(v@, seq!['/'])) by {
                assert(v@.subrange(v@.len() - 1, v@.len() as int) =~= seq!['/']);
            }
        } else {
            assert(!ends_with(v@, seq!['/'])) by {
                if v@.len() > 0 {
                    assert(v@.subrange(v@.len() - 1, v@.len() as int)[0] == v@[v@.len() - 1]);
                }
            }
            v.push('/');
        }
        string_of(&v)
    }

    /// The number of frames in the whole manifest.
    pub fn total_frames(&self) -> (n: usize)
        ensures
            n == self.markers().last() as usize,
    {
        proof {
            use_type_invariant(self);
            lemma_markers_monotone(self.mpd.periods@, self.period_frames@);
        }
        self.period_markers[self.period_markers.len() - 1] as usize
    }

    /// The duration of the first segment template (of the first representation of
    /// the first adaptation set of the first period), in timescale units.
    pub fn segment_duration(&self) -> (d: u64)
        requires
            first_segment_duration(self.manifest()) is Some,
        ensures
            Some(d) == first_segment_duration(self.manifest()),
    {
        let ads = self.mpd.periods[0].adaptations.as_ref().unwrap();
        let reps = ads[0].representations.as_ref().unwrap();
        let st = reps[0].segment_template.as_ref().unwrap();
        st.duration.unwrap()
    }

    /// The duration of the first segment template, where the manifest has one
    /// (see `segment_duration`); `None` where a step of the lookup finds nothing.
    pub fn try_segment_duration(&self) -> (d: Option<u64>)
        ensures
            d == first_segment_duration(self.manifest()),
    {
        if self.mpd.periods.len() == 0 {
            return None;
        }
        let ads = match &self.mpd.periods[0].adaptations {
            Some(ads) => ads,
            None => return None,
        };
        if ads.len() == 0 {
            return None;
        }
        let reps = match &ads[0].representations {
            Some(reps) => reps,
            None => return None,
        };
        if reps.len() == 0 {
            return None;
        }
        match &reps[0].segment_template {
            Some(st) => st.duration,
            None => None,
        }
    }

    /// The index of the period that holds frame `frame_offset`: the last
    /// period marker that is at most the offset.
    fn period_index_of(&self, frame_offset: u64) -> (i: usize)
        ensures
            i as int == period_index(self.markers(), frame_offset as int),
            (i as int) < self.markers().len(),
    {
        proof {
            use_type_invariant(self);
            lemma_markers_monotone(self.mpd.periods@, self.period_frames@);
        }
        let ghost ms = self.markers();
        assert(ms == markers_as_ints(self.period_markers@));
        proof {
            lemma_period_index(ms, frame_offset as int);
            assert(ms.subrange(0, ms.len() as int) =~= ms);
        }
        let mut k: usize = self.period_markers.len();
        while k > 0
            invariant
                k <= self.period_markers@.len(),
                ms == markers_as_ints(self.period_markers@),
                ms == self.markers(),
                ms[0] == 0,
                ms.len() >= 1,
                period_index(ms, frame_offset as int) == period_index(
                    ms.subrange(0, k as int),
                    frame_offset as int,
                ),
            decreases k,
        {
            assert(ms.subrange(0, k as int).last() == ms[k - 1]);
            if self.period_markers[k - 1] <= frame_offset {
                return k - 1;
            }
            assert(ms.subrange(0, k as int).drop_last() =~= ms.subrange(0, k - 1));
            k = k - 1;
        }
        assert(ms.subrange(0, 0) =~= Seq::<int>::empty());
        assert(ms[0] <= frame_offset);
        assert(false);
        0
    }

    /// Whether `available_bitrates` can answer for these arguments.
    pub open spec fn bitrates_available(self, object_id: u8, frame_offset: u64, view_id: Option<u8>) -> bool {
        match selected_adaptation(self.manifest(), self.markers(), object_id, frame_offset, view_id) {
            Some(a) => a.representations matches Some(reps) && forall|j: int|
                0 <= j < reps@.len() ==> (#[trigger] reps@[j]).bandwidth is Some,
            None => false,
        }
    }

    /// The bandwidths of all representations of the selected adaptation set, in order.
    pub open spec fn spec_available_bitrates(self, object_id: u8, frame_offset: u64, view_id: Option<u8>) -> Seq<u64> {
        let a = selected_adaptation(self.manifest(), self.markers(), object_id, frame_offset, view_id).unwrap();
        bandwidths(a.representations.unwrap()@)
    }

    /// The adaptation set selected for a lookup (see `selected_adaptation`).
    fn find_adaptation(&self, object_id: u8, frame_offset: u64, view_id: Option<u8>) -> (r: Option<&AdaptationSet>)
        ensures
            r matches Some(a) ==> selected_adaptation(self.manifest(), self.markers(), object_id, frame_offset, view_id) == Some(*a),
            r is None ==> selected_adaptation(self.manifest(), self.markers(), object_id, frame_offset, view_id) is None,
    {
        let pi = self.period_index_of(frame_offset);
        if pi >= self.mpd.periods.len() {
            return None;
        }
        let period = &self.mpd.periods[pi];
        match &period.adaptations {
            None => None,
            Some(ads) => {
                let ghost pred = adaptation_pred(object_id, view_id);
                let mut k: usize = 0;
                while k < ads.len()
                    invariant
                        k <= ads@.len(),
                        pred == adaptation_pred(object_id, view_id),
                        (pi as int) < self.mpd.periods@.len(),
                        pi as int == period_index(self.markers(), frame_offset as int),
                        self.mpd.periods@[pi as int].adaptations == Some(*ads),
                        forall|j: int| 0 <= j < k ==> !pred(#[trigger] ads@[j]),
                    decreases ads.len() - k,
                {
                    let a = &ads[k];
                    let view_ok = match view_id {
                        None => true,
                        Some(v) => v as u64 == match a.viewId {
                            Some(x) => x,
                            None => 0,
                        },
                    };
                    let obj = match a.srcObjectId {
                        Some(x) => x,
                        None => 0,
                    };
                    assert(view_ok == (view_id is None || view_id.unwrap() as u64 == or_zero(a.viewId)));
                    assert(obj == or_zero(a.srcObjectId));
                    if view_ok && obj == object_id as u64 {
                        assert(adaptation_matches(ads@[k as int], object_id, view_id));
                        proof {
                            lemma_first_index(ads@, pred, k as int);
                        }
                        return Some(a);
                    }
                    assert(!pred(ads@[k as int]));
                    k = k + 1;
                }
                proof {
                    lemma_first_index(ads@, pred, k as int);
                }
                None
            },
        }
    }

    /// The bitrates on offer for frame `frame_offset` of `object_id` in view
    /// `view_id` (in the object's first adaptation set, whatever its view, when
    /// `None`): the bandwidth of each representation of the selected set.
    pub fn available_bitrates(&self, object_id: u8, frame_offset: u64, view_id: Option<u8>) -> (r: Vec<u64>)
        requires
            self.bitrates_available(object_id, frame_offset, view_id),
        ensures
            r@ == self.spec_available_bitrates(object_id, frame_offset, view_id),
    {
        let a = self.find_adaptation(object_id, frame_offset, view_id).unwrap();
        let reps = a.representations.as_ref().unwrap();
        let mut out: Vec<u64> = Vec::new();
        let mut k: usize = 0;
        while k < reps.len()
            invariant
                k <= reps@.len(),
                forall|j: int| 0 <= j < reps@.len() ==> (#[trigger] reps@[j]).bandwidth is Some,
                out@ =~= bandwidths(reps@.subrange(0, k as int)),
            decreases reps.len() - k,
        {
            out.push(reps[k].bandwidth.unwrap());
            k = k + 1;
        }
        assert(reps@.subrange(0, reps@.len() as int) =~= reps@);
        out
    }

    /// The URL and the bandwidth of the segment that holds frame `frame_offset` of
    /// `object_id`, in representation `representation_id`, in view `view_id`
    /// (any view when `None`), or `None` when the manifest does not provide it.
    pub fn try_get_info(
        &self,
        object_id: u8,
        representation_id: u8,
        frame_offset: u64,
        view_id: Option<u8>,
    ) -> (r: Option<(String, Option<u64>)>)
        ensures
            r is Some <==> info_available(self.manifest(), self.markers(), object_id, representation_id, frame_offset, view_id),
            r matches Some((url, bw)) ==> (url@, bw) == segment_info(
                self.manifest(),
                self.markers(),
                object_id,
                representation_id,
                frame_offset,
                view_id,
            ),
    {
        proof {
            use_type_invariant(self);
        }
        let has_base = match &self.mpd.base_urls {
            Some(urls) => urls.len() > 0,
            None => false,
        };
        if !has_base {
            return None;
        }
        let a = match self.find_adaptation(object_id, frame_offset, view_id) {
            Some(a) => a,
            None => {
                return None;
            },
        };
        let reps = match &a.representations {
            Some(reps) => reps,
            None => {
                return None;
            },
        };
        let rep = match find_representation(reps, representation_id) {
            Some(k) => &reps[k],
            None => {
                return None;
            },
        };
        let st = match &rep.segment_template {
            Some(st) => st,
            None => {
                return None;
            },
        };
        let media = match &st.media {
            Some(m) => m,
            None => {
                return None;
            },
        };
        let pi = self.period_index_of(frame_offset);
        let marker = self.period_markers[pi];
        proof {
            lemma_period_index(self.markers(), frame_offset as int);
            assert(self.markers()[pi as int] == marker);
        }
        let number = match segment_number_exec(frame_offset, marker, st) {
            Some(n) => n,
            None => {
                return None;
            },
        };
        let base = self.get_base_url();
        let id = rep.id.as_ref().unwrap();
        let digits = decimal_string(number);
        let number_text = string_of(&digits);
        let resolved = resolve_url_template(media.as_str(), id.as_str(), number_text.as_str());
        let mut url = chars_of(base.as_str());
        let tail = chars_of(resolved.as_str());
        extend_chars(&mut url, &tail);
        Some((string_of(&url), rep.bandwidth))
    }

    /// The URL and the bandwidth of the segment that holds frame `frame_offset` of
    /// `object_id`, in representation `representation_id`, in view `view_id`
    /// (the first matching adaptation set of any view when `None`).
    pub fn get_info(
        &self,
        object_id: u8,
        representation_id: u8,
        frame_offset: u64,
        view_id: Option<u8>,
    ) -> (r: (String, Option<u64>))
        requires
            info_available(self.manifest(), self.markers(), object_id, representation_id, frame_offset, view_id),
        ensures
            (r.0@, r.1) == segment_info(
                self.manifest(),
                self.markers(),
                object_id,
                representation_id,
                frame_offset,
                view_id,
            ),
    {
        self.try_get_info(object_id, representation_id, frame_offset, view_id).unwrap()
    }

    /// Whether `available_bitrates` can answer for these arguments (a check
    /// that callers can make before asking).
    pub fn can_list_bitrates(&self, object_id: u8, frame_offset: u64, view_id: Option<u8>) -> (b: bool)
        ensures
            b == self.bitrates_available(object_id, frame_offset, view_id),
    {
        match self.find_adaptation(object_id, frame_offset, view_id) {
            None => false,
            Some(a) => match &a.representations {
                None => false,
                Some(reps) => all_have_bandwidth(reps),
            },
        }
    }
}

/// The view that a bitrate listing is for: the one given, or the left view
/// (view 0) when none is.
pub open spec fn view_or_left(view_id: Option<u8>) -> Option<u8> {
    Some(
        match view_id {
            Some(v) => v,
            None => 0,
        },
    )
}

/// Whether every representation states its bandwidth.
fn all_have_bandwidth(reps: &Vec<Representation>) -> (b: bool)
    ensures
        b == forall|j: int| 0 <= j < reps@.len() ==> (#[trigger] reps@[j]).bandwidth is Some,
{
    let mut k: usize = 0;
    while k < reps.len()
        invariant
            k <= reps@.len(),
            forall|j: int| 0 <= j < k ==> (#[trigger] reps@[j]).bandwidth is Some,
        decreases reps.len() - k,
    {
        if reps[k].bandwidth.is_none() {
            assert(reps@[k as int].bandwidth is None);
            return false;
        }
        k = k + 1;
    }
    true
}

/// The index of the representation whose id reads as `representation_id`, provided
/// that every id up to it reads as a `u8`.
fn find_representation(reps: &Vec<Representation>, representation_id: u8) -> (r: Option<usize>)
    ensures
        r is Some <==> representation_found(reps@, representation_id),
        r matches Some(k) ==> k < reps@.len() && reps@[k as int] == selected_representation(reps@, representation_id),
        r matches Some(k) ==> reps@[k as int].id is Some && parse_u8_spec(reps@[k as int].id.unwrap()@) == Some(representation_id),
{
    let ghost pred = representation_pred(representation_id);
    let mut k: usize = 0;
    while k < reps.len()
        invariant
            k <= reps@.len(),
            pred == representation_pred(representation_id),
            forall|j: int| 0 <= j < k ==> !pred(#[trigger] reps@[j]),
            forall|j: int|
                0 <= j < k ==> (#[trigger] reps@[j]).id is Some && parse_u8_spec(reps@[j].id.unwrap()@) is Some,
        decreases reps.len() - k,
    {
        let id = match &reps[k].id {
            Some(id) => id,
            None => {
                proof {
                    lemma_first_unsatisfied(reps@, representation_id, k as int);
                }
                return None;
            },
        };
        let v = chars_of(id.as_str());
        match parse_u8(&v) {
            None => {
                proof {
                    lemma_first_unsatisfied(reps@, representation_id, k as int);
                }
                return None;
            },
            Some(x) => {
                if x == representation_id {
                    proof {
                        lemma_first_index(reps@, pred, k as int);
                    }
                    return Some(k);
                }
            },
        }
        k = k + 1;
    }
    proof {
        lemma_first_index(reps@, pred, k as int);
    }
    None
}

proof fn lemma_first_index_bounds<A>(s: Seq<A>, p: spec_fn(A) -> bool)
    ensures
        0 <= first_index(s, p) <= s.len(),
    decreases s.len(),
{
    if s.len() > 0 {
        lemma_first_index_bounds(s.subrange(1, s.len() as int), p);
    }
}

/// When the first `k` ids read but do not match, and the id at `k` does not read,
/// the lookup fails.
proof fn lemma_first_unsatisfied(reps: Seq<Representation>, representation_id: u8, k: int)
    requires
        0 <= k < reps.len(),
        forall|j: int| 0 <= j < k ==> !representation_pred(representation_id)(#[trigger] reps[j]),
        !(reps[k].id is Some && parse_u8_spec(reps[k].id.unwrap()@) is Some),
    ensures
        !representation_found(reps, representation_id),
    decreases reps.len(),
{
    let p = representation_pred(representation_id);
    assert(!p(reps[k]));
    lemma_first_index_at_least(reps, p, k);
}

/// If none of the first `k` elements satisfies `p`, the first index is at least `k`;
/// if also the element at `k` does not, it is beyond `k`.
proof fn lemma_first_index_at_least<A>(s: Seq<A>, p: spec_fn(A) -> bool, k: int)
    requires
        0 <= k < s.len(),
        forall|j: int| 0 <= j < k ==> !p(#[trigger] s[j]),
        !p(s[k]),
    ensures
        first_index(s, p) > k,
    decreases s.len(),
{
    let t = s.subrange(1, s.len() as int);
    lemma_first_index_bounds(t, p);
    if k > 0 {
        assert forall|j: int| 0 <= j < k - 1 implies !p(#[trigger] t[j]) by {
            assert(t[j] == s[j + 1]);
        }
        assert(t[k - 1] == s[k]);
        lemma_first_index_at_least(t, p, k - 1);
        assert(!p(s[0]));
    }
}

/// The segment number, or `None` where it cannot be computed in `u64`.
fn segment_number_exec(offset: u64, marker: u64, st: &SegmentTemplate) -> (r: Option<u64>)
    requires
        marker <= offset,
    ensures
        r is Some <==> segment_number_computable(offset as int, marker as int, *st),
        r matches Some(n) ==> n == segment_number(offset as int, marker as int, *st),
{
    let ts = match st.timescale {
        Some(t) => t,
        None => {
            return None;
        },
    };
    let dur = match st.duration {
        Some(d) => d,
        None => {
            return None;
        },
    };
    let start = match st.startNumber {
        Some(s) => s,
        None => {
            return None;
        },
    };
    let a = match (offset - marker).checked_mul(ts) {
        Some(a) => a,
        None => {
            return None;
        },
    };
    let per = match dur.checked_mul(FPS) {
        Some(p) => p,
        None => {
            return None;
        },
    };
    if per == 0 {
        return None;
    }
    let q = a / per;
    let b = match q.checked_mul(dur) {
        Some(b) => b,
        None => {
            return None;
        },
    };
    match b.checked_add(start) {
        Some(n) => Some(n),
        None => None,
    }
}

/// The bandwidth of each representation, in order.
pub open spec fn bandwidths(reps: Seq<Representation>) -> Seq<u64> {
    reps.map_values(|r: Representation| r.bandwidth.unwrap())
}

/// The duration of the first segment template of the manifest, when every step to it exists.
pub open spec fn first_segment_duration(mpd: MPD) -> Option<u64> {
    if mpd.periods@.len() == 0 {
        None
    } else {
        match mpd.periods@[0].adaptations {
            Some(ads) => if ads@.len() == 0 {
                None
            } else {
                match ads@[0].representations {
                    Some(reps) => if reps@.len() == 0 {
                        None
                    } else {
                        match reps@[0].segment_template {
                            Some(st) => st.duration,
                            None => None,
                        }
                    },
                    None => None,
                }
            },
            None => None,
        }
    }
}

proof fn lemma_prefix_markers_bounded(ps: Seq<Period>, frames: Seq<u64>, n: int)
    requires
        0 <= n <= ps.len(),
    ensures
        period_markers(ps.subrange(0, n), frames).last() <= period_markers(ps, frames).last(),
    decreases ps.len() - n,
{
    lemma_markers_monotone(ps.subrange(0, n), frames);
    if n < ps.len() {
        lemma_prefix_markers_bounded(ps, frames, n + 1);
        assert(ps.subrange(0, n + 1).drop_last() =~= ps.subrange(0, n));
        lemma_markers_monotone(ps.subrange(0, n + 1), frames);
    } else {
        assert(ps.subrange(0, n) =~= ps);
    }
}

} // verus!
