use gmtc::backward::render_backward;
use gmtc::config::Settings;
use gmtc::decoder::{Decoder, TokenKind};
use gmtc::forward::render_forward;
use gmtc::session::{chk_bom, PrevOutcome, Session};
use gmtc::units::{count_replacements, drop_empty, resync, to_units};

fn settings(dlwidth: usize, dheight: usize, decoder: Decoder) -> Settings {
    Settings { dlwidth, dheight, wind_size: 16, cache_size: 3, decoder }
}

fn read(content: &[u8], start: u64, size: usize) -> (Vec<u8>, usize) {
    let start = (start as usize).min(content.len());
    let end = (start + size).min(content.len());
    let mut buf = vec![0u8; size];
    buf[..end - start].copy_from_slice(&content[start..end]);
    (buf, end - start)
}

fn forward(session: &mut Session, settings: &Settings, content: &[u8]) -> Vec<String> {
    let (start, size) = session.page_request(settings);
    let (buf, valid) = read(content, start, size);
    session.show_page(settings, &buf, valid).lines
}

fn backward(session: &mut Session, settings: &Settings, content: &[u8]) -> PrevOutcome {
    match session.prev_request(settings) {
        None => session.show_prev_page(settings, &[], 0),
        Some((start, size)) => {
            let (buf, valid) = read(content, start, size);
            session.show_prev_page(settings, &buf, valid)
        }
    }
}

#[test]
fn hundred_ascii_bytes_fill_ten_lines_of_nine_columns() {
    let content = vec![b'a'; 100];
    let page = render_forward(Decoder::Utf8, &content, 100, 10, 10);
    assert_eq!(page.lines.len(), 10);
    for line in &page.lines {
        assert_eq!(line, " aaaaaaaaa");
    }
    assert_eq!(page.consumed, 90);
    assert!(!page.depleted);
    assert!(!page.end_of_file);
}

#[test]
fn short_window_is_flushed_and_ends_the_file() {
    let mut buf = vec![0u8; 64];
    buf[..5].copy_from_slice(b"hello");
    let page = render_forward(Decoder::Utf8, &buf, 5, 20, 4);
    assert_eq!(page.lines, vec![" hello".to_string()]);
    assert_eq!(page.consumed, 5);
    assert!(page.depleted);
    assert!(page.end_of_file);
}

#[test]
fn full_buffer_that_runs_out_is_no_end_of_file() {
    let page = render_forward(Decoder::Utf8, b"hello", 5, 20, 4);
    assert!(page.depleted);
    assert!(!page.end_of_file);
}

#[test]
fn line_feed_marks_the_next_line_and_carriage_return_is_skipped() {
    let page = render_forward(Decoder::Utf8, b"ab\r\ncd\n", 7, 20, 4);
    assert_eq!(page.lines, vec![" ab".to_string(), "$cd".to_string(), "$".to_string()]);
    assert_eq!(page.consumed, 7);
    assert!(page.depleted);
}

#[test]
fn page_that_ends_at_a_line_feed_leaves_it_for_the_next_page() {
    let page = render_forward(Decoder::Utf8, b"ab\ncd\nef", 8, 20, 1);
    assert_eq!(page.lines, vec![" ab".to_string()]);
    assert_eq!(page.consumed, 2);
    assert!(!page.depleted);
    let next = render_forward(Decoder::Utf8, b"\ncd\nef", 6, 20, 1);
    assert_eq!(next.lines, vec!["$cd".to_string()]);
    assert_eq!(next.consumed, 3);
}

#[test]
fn utf8_widths_follow_the_lead_byte() {
    let text = "a\u{e9}\u{4e2d}\u{1f600}b";
    let bytes = text.as_bytes();
    assert_eq!(Decoder::Utf8.classify(bytes, bytes.len(), 0).cols, 1);
    let two = Decoder::Utf8.classify(bytes, bytes.len(), 1);
    assert_eq!((two.kind, two.len, two.cols), (TokenKind::Glyph, 2, 1));
    let three = Decoder::Utf8.classify(bytes, bytes.len(), 3);
    assert_eq!((three.kind, three.len, three.cols), (TokenKind::Glyph, 3, 2));
    let four = Decoder::Utf8.classify(bytes, bytes.len(), 6);
    assert_eq!((four.kind, four.len, four.cols), (TokenKind::Glyph, 4, 2));
    let page = render_forward(Decoder::Utf8, bytes, bytes.len(), 20, 4);
    assert_eq!(page.lines, vec![format!(" {}", text)]);
}

#[test]
fn wide_character_wraps_before_it_overflows() {
    let text = "abc\u{4e2d}";
    let page = render_forward(Decoder::Utf8, text.as_bytes(), 6, 5, 4);
    assert_eq!(page.lines, vec![" abc".to_string(), " \u{4e2d}".to_string()]);
    assert_eq!(page.consumed, 6);
}

#[test]
fn stray_utf8_bytes_are_skipped() {
    let bytes = [b'a', 0x80, 0xFF, b'b'];
    let page = render_forward(Decoder::Utf8, &bytes, 4, 20, 4);
    assert_eq!(page.lines, vec![" ab".to_string()]);
    assert_eq!(Decoder::Utf8.classify(&bytes, 4, 1).kind, TokenKind::Skip);
    assert_eq!(Decoder::Utf8.classify(&bytes, 4, 4).kind, TokenKind::End);
}

#[test]
fn cut_sequence_is_left_for_the_next_window() {
    let bytes = [b'a', b'b', 0xE4, 0xB8];
    let page = render_forward(Decoder::Utf8, &bytes, 4, 20, 4);
    assert_eq!(page.lines, vec![" ab".to_string()]);
    assert_eq!(page.consumed, 2);
    assert!(page.depleted);
    assert_eq!(Decoder::Utf8.classify(&bytes, 4, 2).kind, TokenKind::Cut);
}

#[test]
fn gb18030_two_and_four_byte_sequences_take_two_columns() {
    let bytes = [0xD6, 0xD0, b'a', 0x81, 0x30, 0x81, 0x30];
    let two = Decoder::Gb18030.classify(&bytes, 7, 0);
    assert_eq!((two.kind, two.len, two.cols), (TokenKind::Glyph, 2, 2));
    let four = Decoder::Gb18030.classify(&bytes, 7, 3);
    assert_eq!((four.kind, four.len, four.cols), (TokenKind::Glyph, 4, 2));
    let page = render_forward(Decoder::Gb18030, &bytes, 7, 20, 4);
    assert_eq!(page.lines, vec![" \u{4e2d}a\u{80}".to_string()]);
    assert_eq!(page.consumed, 7);
}

#[test]
fn gb18030_invalid_bytes_are_skipped_in_both_directions() {
    let bytes = [b'a', b'b', b'c', b'd', 0x80, 0xD6, 0x7F, b'e', 0xFF];
    assert_eq!(Decoder::Gb18030.classify(&bytes, 9, 4).kind, TokenKind::Invalid);
    let pair = Decoder::Gb18030.classify(&bytes, 9, 5);
    assert_eq!((pair.kind, pair.len, pair.cols), (TokenKind::Invalid, 2, 0));
    let page = render_forward(Decoder::Gb18030, &bytes, 9, 20, 4);
    assert_eq!(page.lines, vec![" abcde".to_string()]);
    assert_eq!(resync(&bytes, 9), 0);
    let units = to_units(Decoder::Gb18030, &bytes, 9, false);
    let got: Vec<(usize, String, usize)> = units.iter().map(|u| (u.offset, u.text.clone(), u.cols)).collect();
    assert_eq!(
        got,
        vec![
            (0, "a".to_string(), 1),
            (1, "b".to_string(), 1),
            (2, "c".to_string(), 1),
            (3, "d".to_string(), 1),
            (7, "e".to_string(), 1),
        ]
    );
    let back = render_backward(&units, 20, 4);
    assert_eq!(back.text, page.lines.join("\n"));
}

#[test]
fn gb18030_invalid_pair_does_not_wrap_a_line() {
    let mut bytes = vec![b'a'; 18];
    bytes.extend_from_slice(&[0xD6, 0x7F, b'b', b'c']);
    let page = render_forward(Decoder::Gb18030, &bytes, bytes.len(), 20, 4);
    assert_eq!(page.lines, vec![format!(" {}b", "a".repeat(18)), " c".to_string()]);
}

#[test]
fn gb18030_invalid_byte_keeps_the_end_of_the_page() {
    let content = vec![0x61, 0x61, 0x80, 0x61, 0x62, 0x62];
    let st = settings(4, 1, Decoder::Gb18030);
    let mut s = Session::open(Decoder::Gb18030, 6, None, &content[..4]);
    let first = forward(&mut s, &st, &content);
    assert_eq!(first, vec![" aaa".to_string()]);
    assert_eq!((s.bookmark, s.bookmark_end), (0, 4));
    match backward(&mut s, &st, &content) {
        PrevOutcome::Page(text) => assert_eq!(text, first.join("\n")),
        _ => panic!("a page lies before"),
    }
    assert_eq!((s.bookmark, s.bookmark_end), (0, 4));
    let again = forward(&mut s, &st, &content);
    assert_eq!(again, first);
    assert_eq!((s.bookmark, s.bookmark_end), (0, 4));
}

#[test]
fn gb18030_units_begin_at_the_candidate_with_the_fewest_replacements() {
    let bytes = [b'a', 0x80, 0xD6, 0x7F, b'b', 0xFF];
    assert_eq!(resync(&bytes, 6), 3);
    let units = to_units(Decoder::Gb18030, &bytes, 6, false);
    let got: Vec<(usize, String, usize)> = units.iter().map(|u| (u.offset, u.text.clone(), u.cols)).collect();
    assert_eq!(got, vec![(3, "\u{7f}".to_string(), 1), (4, "b".to_string(), 1)]);
}

#[test]
fn utf8_units_keep_offsets_and_drop_carriage_returns() {
    let text = "a\r\n\u{e9}\u{4e2d}";
    let units = to_units(Decoder::Utf8, text.as_bytes(), text.len(), false);
    let got: Vec<(usize, usize, usize, bool, String)> =
        units.iter().map(|u| (u.offset, u.len, u.cols, u.newline, u.text.clone())).collect();
    assert_eq!(
        got,
        vec![
            (0, 1, 1, false, "a".to_string()),
            (2, 1, 1, true, "\n".to_string()),
            (3, 2, 1, false, "\u{e9}".to_string()),
            (5, 3, 2, false, "\u{4e2d}".to_string()),
        ]
    );
}

#[test]
fn gb18030_units_resynchronise_behind_a_cut_sequence() {
    let bytes = [0x81, 0x30, b'a', b'b'];
    assert_eq!(resync(&bytes, 4), 1);
    let units = to_units(Decoder::Gb18030, &bytes, 4, false);
    let got: Vec<(usize, String)> = units.iter().map(|u| (u.offset, u.text.clone())).collect();
    assert_eq!(got, vec![(1, "0".to_string()), (2, "a".to_string()), (3, "b".to_string())]);
    assert_eq!(resync(&[0xD6, 0xD0, b'a'], 3), 0);
    assert_eq!(resync(&[], 0), 0);
    assert_eq!(resync(&[0xFF], 1), 1);
}

#[test]
fn replacement_characters_are_counted() {
    assert_eq!(count_replacements(""), 0);
    assert_eq!(count_replacements("a\u{fffd}b\u{fffd}\u{fffd}"), 3);
}

#[test]
fn drop_empty_keeps_units_with_text() {
    let units = to_units(Decoder::Utf8, b"ab", 2, false);
    let kept = drop_empty(&units);
    assert_eq!(kept.len(), 2);
    assert_eq!(kept[1].text, "b");
    assert_eq!(kept[1].offset, 1);
}

#[test]
fn backward_page_wraps_from_the_end() {
    let units = to_units(Decoder::Utf8, b"aaa\nbbbbbbbbbbbb", 16, false);
    let page = render_backward(&units, 10, 4);
    assert_eq!(page.text, " aaa\n$bbb\n bbbbbbbbb");
    assert_eq!(page.start, 0);
}

#[test]
fn backward_page_stops_at_the_height() {
    let units = to_units(Decoder::Utf8, &vec![b'a'; 30], 30, false);
    let page = render_backward(&units, 10, 2);
    assert_eq!(page.text, " aaaaaaaaa\n aaaaaaaaa");
    assert_eq!(page.start, 12);
    let one = render_backward(&units, 10, 1);
    assert_eq!(one.text, " aaaaaaaaa");
    assert_eq!(one.start, 21);
}

#[test]
fn backward_page_ends_at_a_line_feed_when_full() {
    let units = to_units(Decoder::Utf8, b"ab\ncd", 5, false);
    let page = render_backward(&units, 10, 1);
    assert_eq!(page.text, "$cd");
    assert_eq!(page.start, 2);
}

#[test]
fn backward_page_of_no_units_is_empty() {
    let page = render_backward(&Vec::new(), 10, 4);
    assert_eq!(page.text, "");
    assert_eq!(page.start, 0);
}

#[test]
fn utf8_bom_is_found_and_left_out_of_the_content() {
    let mut content = vec![0xEF, 0xBB, 0xBF];
    content.extend_from_slice(b"hello");
    assert_eq!(chk_bom(Decoder::Utf8, &content), 3);
    let st = settings(20, 4, Decoder::Utf8);
    let mut s = Session::open(Decoder::Utf8, content.len() as u64, None, &content[..4]);
    assert_eq!(s.bom_end, 3);
    let lines = forward(&mut s, &st, &content);
    assert_eq!(lines, vec![" hello".to_string()]);
    assert_eq!(s.bookmark, 3);
    assert_eq!(s.bookmark_end, 8);
}

#[test]
fn missing_bom_gives_zero() {
    assert_eq!(chk_bom(Decoder::Utf8, b"hello"), 0);
    assert_eq!(chk_bom(Decoder::Utf8, &[0xEF, 0xBB]), 0);
    assert_eq!(chk_bom(Decoder::Utf8, &[]), 0);
    assert_eq!(chk_bom(Decoder::Gb18030, &[0xEF, 0xBB, 0xBF, b'a']), 0);
    assert_eq!(chk_bom(Decoder::Gb18030, &[0x84, 0x31, 0x95]), 0);
}

#[test]
fn gb18030_bom_is_four_bytes() {
    assert_eq!(chk_bom(Decoder::Gb18030, &[0x84, 0x31, 0x95, 0x33, b'a']), 4);
    assert_eq!(chk_bom(Decoder::Utf8, &[0x84, 0x31, 0x95, 0x33, b'a']), 0);
}

#[test]
fn saved_caret_behind_the_end_is_dropped() {
    let s = Session::open(Decoder::Utf8, 10, Some(11), b"abc");
    assert_eq!(s.bookmark, 0);
    let s = Session::open(Decoder::Utf8, 10, Some(10), b"abc");
    assert_eq!(s.bookmark, 10);
    let s = Session::open(Decoder::Utf8, 0, Some(0), b"");
    assert_eq!((s.bookmark, s.bookmark_end, s.bom_end), (0, 0, 0));
}

#[test]
fn forward_pages_then_backward_pages_restore_each_end() {
    let content = vec![b'a'; 54];
    let st = settings(10, 2, Decoder::Utf8);
    let mut s = Session::open(Decoder::Utf8, 54, None, &content[..4]);
    let mut ends = Vec::new();
    let mut pages = Vec::new();
    for _ in 0..3 {
        let lines = forward(&mut s, &st, &content);
        ends.push(s.bookmark_end);
        pages.push(lines);
        s.turn_forward();
    }
    assert_eq!(ends, vec![18, 36, 54]);
    s.bookmark_end = 54;
    for n in (0..3).rev() {
        match backward(&mut s, &st, &content) {
            PrevOutcome::Page(text) => assert_eq!(text, pages[n].join("\n")),
            _ => panic!("a page lies before"),
        }
        let mut replay = s;
        let lines = forward(&mut replay, &st, &content);
        assert_eq!(replay.bookmark_end, ends[n]);
        assert_eq!(lines, pages[n]);
        s.turn_backward();
    }
    assert_eq!(s.bookmark, 0);
    assert!(matches!(backward(&mut s, &st, &content), PrevOutcome::TopOfFile));
    assert_eq!(s.bookmark, 0);
}

#[test]
fn backward_over_carriage_returns_only_moves_to_the_window_start() {
    let content = vec![b'\r'; 8];
    let st = settings(10, 2, Decoder::Utf8);
    let mut s = Session { decoder: Decoder::Utf8, file_len: 8, bom_end: 0, bookmark: 8, bookmark_end: 8 };
    assert!(matches!(backward(&mut s, &st, &content), PrevOutcome::NonPrintable));
    assert_eq!(s.bookmark, 0);
    assert_eq!(s.bookmark_end, 8);
    let lines = forward(&mut s, &st, &content);
    assert!(lines.is_empty());
    assert_eq!((s.bookmark, s.bookmark_end), (0, 0));
}

#[test]
fn backward_page_moves_the_bookmark_to_its_first_unit() {
    let content = b"ab\ncd\nef".to_vec();
    let st = settings(10, 2, Decoder::Utf8);
    let mut s = Session { decoder: Decoder::Utf8, file_len: 8, bom_end: 0, bookmark: 8, bookmark_end: 8 };
    match backward(&mut s, &st, &content) {
        PrevOutcome::Page(text) => assert_eq!(text, "$cd\n$ef"),
        _ => panic!("a page lies before"),
    }
    assert_eq!(s.bookmark, 2);
    assert_eq!(s.bookmark_end, 8);
}

#[test]
fn percentage_seek_is_cut_to_the_file() {
    let mut s = Session::open(Decoder::Utf8, 100, Some(40), b"abcd");
    s.percentage_seek(0);
    assert_eq!((s.bookmark, s.bookmark_end), (0, 0));
    s.percentage_seek(100);
    assert_eq!((s.bookmark, s.bookmark_end), (100, 100));
    s.percentage_seek(250);
    assert_eq!((s.bookmark, s.bookmark_end), (100, 100));
    s.percentage_seek(37);
    assert_eq!((s.bookmark, s.bookmark_end), (37, 37));
    let mut empty = Session::open(Decoder::Utf8, 0, None, b"");
    empty.percentage_seek((0.0f64 * 1.0) as u64);
    assert_eq!((empty.bookmark, empty.bookmark_end), (0, 0));
    let st = settings(10, 2, Decoder::Utf8);
    let lines = forward(&mut empty, &st, &[]);
    assert!(lines.is_empty());
    assert_eq!(empty.bookmark, 0);
}

#[test]
fn progress_is_in_whole_percent() {
    let s = Session { decoder: Decoder::Utf8, file_len: 3, bom_end: 0, bookmark: 1, bookmark_end: 1 };
    assert_eq!(s.progress_percent(), Some(33));
    let e = Session { decoder: Decoder::Utf8, file_len: 0, bom_end: 0, bookmark: 0, bookmark_end: 0 };
    assert_eq!(e.progress_percent(), None);
    let m = Session { decoder: Decoder::Utf8, file_len: u64::MAX, bom_end: 0, bookmark: u64::MAX, bookmark_end: 0 };
    assert_eq!(m.progress_percent(), Some(100));
}

#[test]
fn backward_from_a_short_last_page_takes_a_full_page() {
    let content = vec![b'a'; 12];
    let st = settings(10, 1, Decoder::Utf8);
    let mut s = Session::open(Decoder::Utf8, 12, None, &content[..4]);
    forward(&mut s, &st, &content);
    assert_eq!((s.bookmark, s.bookmark_end), (0, 9));
    s.turn_forward();
    let last = forward(&mut s, &st, &content);
    assert_eq!(last, vec![" aaa".to_string()]);
    assert_eq!((s.bookmark, s.bookmark_end), (9, 12));
    match backward(&mut s, &st, &content) {
        PrevOutcome::Page(text) => assert_eq!(text, " aaaaaaaaa"),
        _ => panic!("a page lies before"),
    }
    assert_eq!((s.bookmark, s.bookmark_end), (3, 12));
    let again = forward(&mut s, &st, &content);
    assert_eq!(again, vec![" aaaaaaaaa".to_string()]);
    assert_eq!((s.bookmark, s.bookmark_end), (3, 12));
}

#[test]
fn mixed_widths_page_forward_and_backward() {
    let text = "ab\u{4e2d}\u{4e2d}cd";
    let bytes = text.as_bytes();
    let page = render_forward(Decoder::Utf8, bytes, bytes.len(), 5, 4);
    assert_eq!(page.lines, vec![" ab\u{4e2d}".to_string(), " \u{4e2d}cd".to_string()]);
    assert_eq!(page.consumed, 10);
    let units = to_units(Decoder::Utf8, bytes, bytes.len(), false);
    let back = render_backward(&units, 5, 4);
    assert_eq!(back.text, " ab\u{4e2d}\n \u{4e2d}cd");
    assert_eq!(back.text, page.lines.join("\n"));
    assert_eq!(back.start, 0);
}

#[test]
fn backward_page_shows_what_the_forward_page_showed() {
    let content = vec![b'a'; 72];
    let st = settings(10, 4, Decoder::Utf8);
    let mut s = Session::open(Decoder::Utf8, 72, None, &content[..4]);
    let lines = forward(&mut s, &st, &content);
    assert_eq!(lines, vec![" aaaaaaaaa".to_string(); 4]);
    assert_eq!((s.bookmark, s.bookmark_end), (0, 36));
    match backward(&mut s, &st, &content) {
        PrevOutcome::Page(text) => {
            assert_eq!(text, " aaaaaaaaa\n aaaaaaaaa\n aaaaaaaaa\n aaaaaaaaa");
            assert_eq!(text, lines.join("\n"));
        }
        _ => panic!("a page lies before"),
    }
    assert_eq!((s.bookmark, s.bookmark_end), (0, 36));
}

#[test]
fn backward_page_with_line_feeds_matches_the_forward_page() {
    let content = b"ab\n\ncdef\r\nghijklmnopqrstuvw\nx".to_vec();
    let st = settings(10, 8, Decoder::Utf8);
    let mut s = Session::open(Decoder::Utf8, content.len() as u64, None, &content[..4]);
    let lines = forward(&mut s, &st, &content);
    assert_eq!(
        lines,
        vec![
            " ab".to_string(),
            "$".to_string(),
            "$cdef".to_string(),
            "$ghijklmno".to_string(),
            " pqrstuvw".to_string(),
            "$x".to_string(),
        ]
    );
    let end = s.bookmark_end;
    assert_eq!(end, content.len() as u64);
    match backward(&mut s, &st, &content) {
        PrevOutcome::Page(text) => assert_eq!(text, " ab\n$\n$cdef\n$ghijklmn\n opqrstuvw\n$x"),
        _ => panic!("a page lies before"),
    }
    assert_eq!((s.bookmark, s.bookmark_end), (0, end));
    forward(&mut s, &st, &content);
    assert_eq!((s.bookmark, s.bookmark_end), (0, end));
}

#[test]
fn backward_page_that_begins_with_a_line_feed_has_no_empty_line_above() {
    let units = to_units(Decoder::Utf8, b"\nabc", 4, false);
    let page = render_backward(&units, 10, 4);
    assert_eq!(page.text, "$abc");
    assert_eq!(page.start, 0);
    let forward_page = render_forward(Decoder::Utf8, b"\nabc", 4, 10, 4);
    assert_eq!(page.text, forward_page.lines.join("\n"));
    let two = to_units(Decoder::Utf8, b"\n\nabc", 5, false);
    assert_eq!(render_backward(&two, 10, 4).text, "$\n$abc");
    assert_eq!(render_forward(Decoder::Utf8, b"\n\nabc", 5, 10, 4).lines.join("\n"), "$\n$abc");
    let only = to_units(Decoder::Utf8, b"\n", 1, false);
    assert_eq!(render_backward(&only, 10, 4).text, "$");
}

#[test]
fn gb18030_window_at_the_edge_is_read_from_its_first_byte() {
    let bytes = [b'a', 0x80, 0xD6, 0x7F, b'b', 0xFF];
    let units = to_units(Decoder::Gb18030, &bytes, 6, true);
    let got: Vec<(usize, String)> = units.iter().map(|u| (u.offset, u.text.clone())).collect();
    assert_eq!(got, vec![(0, "a".to_string()), (4, "b".to_string())]);
}

#[test]
fn skipped_byte_behind_a_full_line_goes_with_the_page() {
    let content = "baa\r\u{4e2d}".as_bytes().to_vec();
    let st = settings(4, 1, Decoder::Utf8);
    let mut s = Session::open(Decoder::Utf8, content.len() as u64, None, &content[..4]);
    s.percentage_seek(1);
    let lines = forward(&mut s, &st, &content);
    assert_eq!(lines, vec![" aa".to_string()]);
    assert_eq!((s.bookmark, s.bookmark_end), (1, 4));
    match backward(&mut s, &st, &content) {
        PrevOutcome::Page(text) => assert_eq!(text, " baa"),
        _ => panic!("a page lies before"),
    }
    assert_eq!((s.bookmark, s.bookmark_end), (0, 4));
    let again = forward(&mut s, &st, &content);
    assert_eq!(again, vec![" baa".to_string()]);
    assert_eq!((s.bookmark, s.bookmark_end), (0, 4));
}

#[test]
fn wrapped_line_with_a_two_byte_line_end_keeps_the_end_of_the_page() {
    let content = b"aaaaaaaaaaaa\r\nbbb".to_vec();
    let st = settings(10, 1, Decoder::Utf8);
    let mut s = Session::open(Decoder::Utf8, content.len() as u64, None, &content[..4]);
    forward(&mut s, &st, &content);
    assert_eq!((s.bookmark, s.bookmark_end), (0, 9));
    s.turn_forward();
    let second = forward(&mut s, &st, &content);
    assert_eq!(second, vec![" aaa".to_string()]);
    assert_eq!((s.bookmark, s.bookmark_end), (9, 13));
    match backward(&mut s, &st, &content) {
        PrevOutcome::Page(text) => assert_eq!(text, " aaaaaaaaa"),
        _ => panic!("a page lies before"),
    }
    assert_eq!((s.bookmark, s.bookmark_end), (3, 13));
    let again = forward(&mut s, &st, &content);
    assert_eq!(again, vec![" aaaaaaaaa".to_string()]);
    assert_eq!((s.bookmark, s.bookmark_end), (3, 13));
}

#[test]
fn mixed_widths_keep_the_end_of_the_page() {
    let mut text = "x".repeat(76);
    text.push_str(&"\u{4e2d}".repeat(37));
    text.push('b');
    let content = text.into_bytes();
    let st = settings(20, 4, Decoder::Utf8);
    let mut s = Session::open(Decoder::Utf8, content.len() as u64, None, &content[..4]);
    forward(&mut s, &st, &content);
    assert_eq!((s.bookmark, s.bookmark_end), (0, 76));
    s.turn_forward();
    forward(&mut s, &st, &content);
    assert_eq!((s.bookmark, s.bookmark_end), (76, 184));
    assert!(matches!(backward(&mut s, &st, &content), PrevOutcome::Page(_)));
    assert_eq!((s.bookmark, s.bookmark_end), (75, 184));
    forward(&mut s, &st, &content);
    assert_eq!((s.bookmark, s.bookmark_end), (75, 184));
}
