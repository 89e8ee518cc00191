use vivotk::dash::duration::{
    parse_xs_duration, xs_duration_fits, xs_duration_text, DurationError, XsDuration,
};
use std::time::Duration;
use vivotk::dash::fetcher::{generate_filename_from_url, FetchStats, Fetcher};
use vivotk::dash::parser::{
    resolve_url_template, AdaptationSet, BaseURL, MPDParser, Period, Representation,
    SegmentTemplate, MPD,
};

/// The frames of each period, as the player computes them: the duration in
/// seconds (as a double) times 30, truncated.
fn frame_counts(mpd: &MPD) -> Vec<u64> {
    mpd.periods
        .iter()
        .map(|p| p.duration.map(|d| (Duration::new(d.secs, d.nanos).as_secs_f64() * 30.0) as u64).unwrap_or(0))
        .collect()
}

fn parser(mpd: MPD) -> MPDParser {
    let frames = frame_counts(&mpd);
    MPDParser::new(mpd, frames)
}

fn rep(id: &str, bandwidth: u64, media: &str, duration: u64, start: u64) -> Representation {
    Representation {
        id: Some(id.to_string()),
        mimeType: None,
        codecs: None,
        contentType: None,
        frameRate: None,
        bandwidth: Some(bandwidth),
        segment_template: Some(SegmentTemplate {
            media: Some(media.to_string()),
            startNumber: Some(start),
            duration: Some(duration),
            timescale: Some(30),
        }),
    }
}

/// The manifest of the two-adaptation-set example: ten seconds of a ply
/// sequence in three qualities, and view 5 of object 0 in three qualities.
fn example_mpd() -> MPD {
    let ply = "longdress/$RepresentationID$/longdress_vox10_$Number$.ply";
    let bin1 = "longdress/1/S26C2AIR0$RepresentationID$_F30_$Number$_5.bin";
    let bin2 = "longdress/2/S26C2AIR0$RepresentationID$_F30_$Number$_5.bin";
    let bin3 = "longdress/3/S26C2AIR0$RepresentationID$_F30_$Number$_5.bin";
    MPD {
        mpdtype: Some("static".to_string()),
        xmlns: None,
        profiles: None,
        minBufferTime: None,
        suggestedPresentationDelay: None,
        periods: vec![Period {
            id: Some("1".to_string()),
            start: None,
            duration: Some(parse_xs_duration("PT10S").unwrap()),
            adaptations: Some(vec![
                AdaptationSet {
                    id: None,
                    BaseURL: None,
                    mimeType: None,
                    representations: Some(vec![
                        rep("0", 13631488, ply, 1, 1051),
                        rep("1", 1536000, ply, 1, 1051),
                        rep("2", 204800, ply, 1, 1051),
                    ]),
                    viewId: Some(0),
                    srcObjectId: None,
                },
                AdaptationSet {
                    id: Some(5),
                    BaseURL: None,
                    mimeType: None,
                    representations: Some(vec![
                        rep("1", 100352, bin1, 30, 1051),
                        rep("2", 138240, bin2, 30, 1051),
                        rep("3", 196608, bin3, 30, 1051),
                    ]),
                    viewId: Some(5),
                    srcObjectId: Some(0),
                },
            ]),
        }],
        base_urls: Some(vec![BaseURL { base: "http://localhost:3000/".to_string() }]),
    }
}

#[test]
pub fn test_generate_filename_from_url() {
    assert_eq!(generate_filename_from_url("https://www.example.com/papaya.txt"), "papaya.txt");
    assert_eq!(generate_filename_from_url("https://www.example.com/p/a/paya.ply"), "paya.ply");
}

#[test]
fn filename_skips_a_trailing_slash() {
    assert_eq!(generate_filename_from_url("https://www.example.com/dir/"), "dir");
    assert_eq!(generate_filename_from_url("plain.bin"), "plain.bin");
    assert_eq!(generate_filename_from_url("/"), "");
    assert_eq!(generate_filename_from_url("a//"), "");
}

#[test]
pub fn test_run2() {
    let p = parser(example_mpd());
    assert_eq!(p.total_frames(), 300);
    assert_eq!(
        p.get_info(0, 2, 29, None),
        (p.get_base_url() + "longdress/2/longdress_vox10_1080.ply", Some(204800))
    );
    assert_eq!(
        p.get_info(0, 2, 29, Some(5)),
        (p.get_base_url() + "longdress/2/S26C2AIR02_F30_1051_5.bin", Some(138240))
    );
    assert_eq!(
        p.get_info(0, 2, 30, Some(5)),
        (p.get_base_url() + "longdress/2/S26C2AIR02_F30_1081_5.bin", Some(138240))
    );
    assert_eq!(p.available_bitrates(0, 30, None), vec![13631488, 1536000, 204800]);
    assert_eq!(p.available_bitrates(0, 30, Some(5)), vec![100352, 138240, 196608]);
}

#[test]
fn base_url_gets_a_trailing_slash() {
    let mut mpd = example_mpd();
    mpd.base_urls = Some(vec![BaseURL { base: "https://www.example.com".to_string() }]);
    let p = parser(mpd);
    assert_eq!(p.get_base_url(), "https://www.example.com/");
}

#[test]
fn segment_duration_of_first_template() {
    let p = parser(example_mpd());
    assert_eq!(p.segment_duration(), 1);
}

#[test]
fn lookups_that_the_manifest_cannot_answer() {
    let p = parser(example_mpd());
    // frame 300 lies beyond the only period
    assert_eq!(p.try_get_info(0, 2, 300, None), None);
    // there is no representation 9
    assert_eq!(p.try_get_info(0, 9, 3, None), None);
    // object 1 has no adaptation set
    assert_eq!(p.try_get_info(1, 1, 3, None), None);
    assert!(!p.can_list_bitrates(1, 3, None));
    assert!(p.can_list_bitrates(0, 3, Some(5)));
}

#[test]
fn periods_are_marked_by_their_frames() {
    let mut mpd = example_mpd();
    let mut second = mpd.periods[0].clone();
    second.duration = Some(parse_xs_duration("PT2.5S").unwrap());
    mpd.periods.push(second);
    let p = parser(mpd);
    // 10 s and 2.5 s at 30 frames per second
    assert_eq!(p.total_frames(), 375);
    // frame 310 is frame 10 of the second period: segment 1051 + 10
    assert_eq!(
        p.get_info(0, 1, 310, None),
        (p.get_base_url() + "longdress/1/longdress_vox10_1061.ply", Some(1536000))
    );
}

#[test]
fn template_substitution() {
    assert_eq!(resolve_url_template("$RepresentationID$/$Number%06d$.m4s", "3", "42"), "3/000042.m4s");
    assert_eq!(resolve_url_template("a_$Number$_$Number$", "1", "7"), "a_7_7");
    assert_eq!(resolve_url_template("$Number%03d$-$Number%03d$", "1", "7"), "007-$Number%03d$");
    assert_eq!(resolve_url_template("$Number%02d$", "1", "12345"), "12345");
    assert_eq!(resolve_url_template("$Time$/$Bandwidth$", "1", "2"), "$Time$/$Bandwidth$");
    assert_eq!(resolve_url_template("$Number%0xd$", "1", "2"), "$Number%0xd$");
}

#[test]
fn xs_durations() {
    assert_eq!(parse_xs_duration("PT0H0M30.030S"), Ok(XsDuration { secs: 30, nanos: 30_000_000 }));
    assert_eq!(parse_xs_duration("PT1.2S"), Ok(XsDuration { secs: 1, nanos: 200_000_000 }));
    assert_eq!(parse_xs_duration("PT1004199059S"), Ok(XsDuration { secs: 1004199059, nanos: 0 }));
    assert_eq!(parse_xs_duration("PT130S"), Ok(XsDuration { secs: 130, nanos: 0 }));
    assert_eq!(parse_xs_duration("P1DT2H"), Ok(XsDuration { secs: 93600, nanos: 0 }));
    assert_eq!(parse_xs_duration("P0Y20M0D"), Ok(XsDuration { secs: 20 * 30 * 86400, nanos: 0 }));
    assert_eq!(parse_xs_duration("PT1M30.5S"), Ok(XsDuration { secs: 90, nanos: 500_000_000 }));
    assert_eq!(
        parse_xs_duration("P2Y6M5DT12H35M30S"),
        Ok(XsDuration { secs: 2 * 31536000 + 6 * 2592000 + 5 * 86400 + 12 * 3600 + 35 * 60 + 30, nanos: 0 })
    );
    assert_eq!(parse_xs_duration("P1W"), Ok(XsDuration { secs: 604800, nanos: 0 }));
    assert_eq!(parse_xs_duration("PT1,25S"), Ok(XsDuration { secs: 1, nanos: 250_000_000 }));
    assert_eq!(parse_xs_duration("PT0.1234567891S"), Ok(XsDuration { secs: 0, nanos: 123_456_789 }));
    assert_eq!(parse_xs_duration("+PT5S"), Ok(XsDuration { secs: 5, nanos: 0 }));
    assert_eq!(parse_xs_duration("PT"), Ok(XsDuration { secs: 0, nanos: 0 }));
    // the whole text must be the duration; only the seconds may have a fraction
    assert_eq!(parse_xs_duration("PT5Sjunk"), Err(DurationError::Trailing));
    assert_eq!(parse_xs_duration("PT2.3H"), Err(DurationError::Trailing));
    assert_eq!(parse_xs_duration("P0.5Y"), Err(DurationError::Trailing));
    assert_eq!(parse_xs_duration("P5"), Err(DurationError::Trailing));
    assert_eq!(parse_xs_duration("-P5"), Err(DurationError::Trailing));
    assert_eq!(parse_xs_duration("-PT1S"), Err(DurationError::Negative));
    assert_eq!(parse_xs_duration("P"), Err(DurationError::Empty));
    assert_eq!(parse_xs_duration("-PT5S"), Err(DurationError::Negative));
    assert_eq!(parse_xs_duration("5S"), Err(DurationError::NoMatch));
    assert_eq!(parse_xs_duration(""), Err(DurationError::NoMatch));
    assert_eq!(parse_xs_duration("+5"), Err(DurationError::NoMatch));
}

#[test]
fn download_statistics_average_the_last_five() {
    let mut stats = FetchStats::new();
    assert_eq!(stats.avg_bitrate.get(), 0);
    // 1000 bytes in 10 ms: 800 bits per ms
    assert_eq!(stats.record_download(1000, 10), 800);
    // 1000 bytes in 0 ms count as 1 ms
    assert_eq!(stats.record_download(1000, 0), (800 + 8000) / 2);
    for _ in 0..5 {
        stats.record_download(10, 1);
    }
    assert_eq!(stats.avg_bitrate.get(), 80);
}

#[test]
fn download_plan_per_view() {
    let mut mpd = example_mpd();
    // give views 0..6 their own adaptation sets for object 0
    let mut sets = vec![];
    for v in 0..6u64 {
        let mut a = mpd.periods[0].adaptations.as_ref().unwrap()[1].clone();
        a.viewId = Some(v);
        sets.push(a);
    }
    mpd.periods[0].adaptations = Some(sets);
    let f = Fetcher::new(parser(mpd), "/tmp/dl".to_string());
    let plan = f.plan_download(0, 45, &[1, 2, 3, 1, 2, 3]);
    assert_eq!(plan.len(), 6);
    assert_eq!(plan[1].url, "http://localhost:3000/longdress/2/S26C2AIR02_F30_1081_5.bin");
    assert_eq!(plan[1].filename, "S26C2AIR02_F30_1081_5.bin");
    assert_eq!(plan[2].bandwidth, Some(196608));
    let all = f.all_available_bitrates(0, 45);
    assert_eq!(all.len(), 6);
    assert_eq!(all[4], vec![100352, 138240, 196608]);
}

#[test]
fn xs_durations_that_fit() {
    assert!(xs_duration_fits("PT10S"));
    assert!(xs_duration_fits("PT18446744073709551615S"));
    assert!(!xs_duration_fits("PT18446744073709551616S"));
    // text that is no duration needs no arithmetic
    assert!(xs_duration_fits("PT18446744073709551615S1M"));
    assert!(!xs_duration_fits("PT1M18446744073709551615S"));
    assert!(!xs_duration_fits("PT18446744073709551615M"));
    assert!(!xs_duration_fits("P99999999999999999999Y"));
    // texts that are no duration need no arithmetic
    assert!(xs_duration_fits("junk"));
    assert!(xs_duration_fits("P"));
    assert!(!xs_duration_fits("-P99999999999999999999Y"));
}

#[test]
fn parser_refuses_too_many_frames() {
    let mut mpd = example_mpd();
    let second = mpd.periods[0].clone();
    mpd.periods.push(second);
    assert!(MPDParser::try_new(mpd.clone(), vec![u64::MAX, 1]).is_none());
    assert_eq!(MPDParser::try_new(mpd, vec![u64::MAX - 1, 1]).map(|p| p.total_frames() as u64), Some(u64::MAX));
    let mpd = example_mpd();
    let frames = frame_counts(&mpd);
    let p = MPDParser::try_new(mpd, frames).expect("ten seconds fit");
    assert_eq!(p.total_frames(), 300);
    assert_eq!(p.try_segment_duration(), Some(1));
}

#[test]
fn segment_duration_needs_a_template() {
    let mut mpd = example_mpd();
    mpd.periods[0].adaptations.as_mut().unwrap()[0].representations.as_mut().unwrap()[0]
        .segment_template = None;
    let p = parser(mpd);
    assert_eq!(p.try_segment_duration(), None);
    let mut empty = example_mpd();
    empty.periods.clear();
    let p = parser(empty);
    assert_eq!(p.try_segment_duration(), None);
    assert_eq!(p.total_frames(), 0);
}

#[test]
fn template_without_placeholders_is_kept() {
    assert_eq!(resolve_url_template("longdress/1/frame.ply", "7", "1051"), "longdress/1/frame.ply");
    assert_eq!(resolve_url_template("", "7", "1051"), "");
}

#[test]
fn filename_is_the_last_piece() {
    let url = "http://localhost:3000/longdress/2/S26C2AIR02_F30_1081_5.bin";
    let name = generate_filename_from_url(url);
    assert!(!name.contains('/'));
    assert!(url.ends_with(name));
    assert!(url[..url.len() - name.len()].ends_with('/'));
}

#[test]
fn durations_written_back() {
    assert_eq!(xs_duration_text(&XsDuration { secs: 10, nanos: 30_000_000 }), "PT10.030S");
    assert_eq!(xs_duration_text(&XsDuration { secs: 0, nanos: 0 }), "PT0.000S");
    assert_eq!(xs_duration_text(&XsDuration { secs: 120, nanos: 999_999_999 }), "PT120.999S");
    // reading back keeps the seconds and the milliseconds
    let d = XsDuration { secs: 1004199059, nanos: 123_456_789 };
    assert_eq!(parse_xs_duration(&xs_duration_text(&d)), Ok(XsDuration { secs: 1004199059, nanos: 123_000_000 }));
}

#[test]
fn frame_counts_are_given_per_period() {
    let mut mpd = example_mpd();
    mpd.periods[0].duration = Some(XsDuration { secs: 4, nanos: 100_000_000 });
    // 4.1 s at 30 frames per second, in floating point, truncates to 122
    assert_eq!(frame_counts(&mpd), vec![122]);
    assert_eq!(parser(mpd).total_frames(), 122);
    // a period without a duration marks no frames
    let mut mpd = example_mpd();
    let mut open = mpd.periods[0].clone();
    open.duration = None;
    mpd.periods.push(open);
    assert_eq!(MPDParser::new(mpd, vec![300, 999]).total_frames(), 300);
}

#[test]
fn bitrates_of_the_left_view_by_default() {
    let mut mpd = example_mpd();
    // list view 5 before view 0, both of object 0
    mpd.periods[0].adaptations.as_mut().unwrap().reverse();
    let p = parser(mpd);
    // the parser takes the object's first set when no view is given
    assert_eq!(p.available_bitrates(0, 30, None), vec![100352, 138240, 196608]);
    assert_eq!(p.available_bitrates(0, 30, Some(0)), vec![13631488, 1536000, 204800]);
    assert!(p.can_list_bitrates(0, 30, None));
    // the fetcher asks for the left view (view 0) when no view is given
    let f = Fetcher::new(p, "/tmp/dl".to_string());
    assert_eq!(f.available_bitrates(0, 30, None), vec![13631488, 1536000, 204800]);
    assert_eq!(f.available_bitrates(0, 30, Some(5)), vec![100352, 138240, 196608]);
}
