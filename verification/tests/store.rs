use gmtc::config::{must_be_ge_otherwise_err, parse_scheme, ConfigError, Options, Settings};
use gmtc::decimal::{format_decimal, parse_decimal};
use gmtc::decoder::Decoder;
use gmtc::history::{
    artifact_step, caret_body, caret_name, guard_next, guarded_outcome, listing_len, load_caret, menu_choice, plan_removals,
    removal_step, upsert_action, ArtifactStep, CaretError, CaretFile, Guard, MenuChoice, Outcome, RemovalStep,
    Upsert,
};
use gmtc::search::{encode_pattern, find_bytes, holds_at, search_buf_size, Pattern, Scanner};
use gmtc::session::Session;

fn options() -> Options {
    Options { dlwidth: None, dheight: None, wind_size: None, cache_size: None, decoder: None }
}

#[test]
fn defaults_fill_missing_options() {
    let s = Settings::from_options(options()).unwrap();
    assert_eq!((s.dlwidth, s.dheight, s.wind_size, s.cache_size, s.decoder), (64, 8, 1024, 64, Decoder::Utf8));
    assert_eq!(s.big_enough_buf_size(), 256 + 2048);
}

#[test]
fn buffer_size_takes_the_larger_of_page_and_window() {
    let s = Settings { dlwidth: 100, dheight: 50, wind_size: 16, cache_size: 3, decoder: Decoder::Utf8 };
    assert_eq!(s.big_enough_buf_size(), 256 + 2 * 50 * 101);
    let t = Settings { dlwidth: 20, dheight: 4, wind_size: 1000, cache_size: 3, decoder: Decoder::Utf8 };
    assert_eq!(t.big_enough_buf_size(), 256 + 2000);
}

#[test]
fn options_below_their_minimum_are_refused() {
    let mut o = options();
    o.dlwidth = Some(19);
    assert_eq!(Settings::from_options(o), Err(ConfigError::LineWidthTooSmall));
    let mut o = options();
    o.dheight = Some(3);
    assert_eq!(Settings::from_options(o), Err(ConfigError::HeightTooSmall));
    let mut o = options();
    o.wind_size = Some(15);
    assert_eq!(Settings::from_options(o), Err(ConfigError::WindowTooSmall));
    let mut o = options();
    o.cache_size = Some(2);
    assert_eq!(Settings::from_options(o), Err(ConfigError::CacheTooSmall));
    let mut o = options();
    o.wind_size = Some(usize::MAX);
    assert_eq!(Settings::from_options(o), Err(ConfigError::BufferTooLarge));
    let o = Options { dlwidth: Some(20), dheight: Some(4), wind_size: Some(16), cache_size: Some(3), decoder: Some(Decoder::Gb18030) };
    let s = Settings::from_options(o).unwrap();
    assert_eq!((s.dlwidth, s.dheight, s.wind_size, s.cache_size, s.decoder), (20, 4, 16, 3, Decoder::Gb18030));
}

#[test]
fn minimum_check_returns_the_value_or_the_error() {
    assert_eq!(must_be_ge_otherwise_err(20, 20, ConfigError::LineWidthTooSmall), Ok(20));
    assert_eq!(must_be_ge_otherwise_err(19, 20, ConfigError::LineWidthTooSmall), Err(ConfigError::LineWidthTooSmall));
}

#[test]
fn scheme_names_are_read_in_two_spellings() {
    assert_eq!(parse_scheme("utf-8"), Ok(Decoder::Utf8));
    assert_eq!(parse_scheme("UTF-8"), Ok(Decoder::Utf8));
    assert_eq!(parse_scheme("gb18030"), Ok(Decoder::Gb18030));
    assert_eq!(parse_scheme("GB18030"), Ok(Decoder::Gb18030));
    assert_eq!(parse_scheme("latin1"), Err(ConfigError::UnsupportedEncoding));
    assert_eq!(parse_scheme("Utf-8"), Err(ConfigError::UnsupportedEncoding));
}

#[test]
fn find_bytes_gives_the_first_match() {
    assert_eq!(find_bytes(b"abcabc", b"bc"), Some(1));
    assert_eq!(find_bytes(b"abcabc", b"abcabc"), Some(0));
    assert_eq!(find_bytes(b"abcabc", b"cab"), Some(2));
    assert_eq!(find_bytes(b"abcabc", b"x"), None);
    assert_eq!(find_bytes(b"ab", b"abc"), None);
    assert_eq!(find_bytes(b"ab", b""), Some(0));
    assert!(holds_at(b"abcabc", b"ca", 2));
    assert!(!holds_at(b"abcabc", b"ca", 3));
}

#[test]
fn search_lands_exactly_on_the_match() {
    let content = b"one two three two".to_vec();
    let mut s = Session::open(Decoder::Utf8, content.len() as u64, Some(2), &content[..4]);
    let found = find_bytes(&content[s.bookmark as usize..], b"two").unwrap();
    s.land_on_match(found as u64);
    assert_eq!((s.bookmark, s.bookmark_end), (4, 4));
}

#[test]
fn search_miss_leaves_the_bookmark() {
    let content = b"one two three".to_vec();
    let s = Session::open(Decoder::Utf8, content.len() as u64, Some(5), &content[..4]);
    assert_eq!(find_bytes(&content[s.bookmark as usize..], b"two"), None);
    assert_eq!(s.bookmark, 5);
}

#[test]
fn scanner_finds_a_match_across_chunks() {
    let mut sc = Scanner::new(b"needle".to_vec());
    assert_eq!(sc.feed(b"hay hay nee", 11), None);
    assert_eq!(sc.carry, b"y nee".to_vec());
    assert_eq!(sc.base, 6);
    assert_eq!(sc.feed(b"dle hay", 7), Some(8));
}

#[test]
fn scanner_reports_the_first_of_several_matches() {
    let mut sc = Scanner::new(b"ab".to_vec());
    assert_eq!(sc.feed(b"xxa", 3), None);
    assert_eq!(sc.feed(b"bab", 3), Some(2));
    let mut miss = Scanner::new(b"zz".to_vec());
    assert_eq!(miss.feed(b"abc", 3), None);
    assert_eq!(miss.feed(b"", 0), None);
    assert_eq!(miss.feed(b"zaz", 2), None);
    assert_eq!(miss.base, 4);
}

#[test]
fn pattern_is_encoded_in_the_file_encoding() {
    match encode_pattern(Decoder::Gb18030, "\u{4e2d}a") {
        Pattern::Bytes(b) => assert_eq!(b, vec![0xD6, 0xD0, b'a']),
        _ => panic!("the pattern has a mapping"),
    }
    match encode_pattern(Decoder::Utf8, "\u{4e2d}a") {
        Pattern::Bytes(b) => assert_eq!(b, vec![0xE4, 0xB8, 0xAD, b'a']),
        _ => panic!("the pattern has a mapping"),
    }
    assert!(matches!(encode_pattern(Decoder::Utf8, ""), Pattern::Empty));
    assert!(matches!(encode_pattern(Decoder::Gb18030, "\u{e5e5}"), Pattern::Unmappable));
}

#[test]
fn search_buffer_grows_with_the_pattern() {
    assert_eq!(search_buf_size(3), 0x10000);
    assert_eq!(search_buf_size(0x100), 0x10000);
    assert_eq!(search_buf_size(0x101), 0x10100);
}

#[test]
fn caret_body_is_the_decimal_offset() {
    assert_eq!(caret_body(0), "0");
    assert_eq!(caret_body(7), "7");
    assert_eq!(caret_body(1234567890), "1234567890");
    assert_eq!(caret_body(u64::MAX), "18446744073709551615");
}

#[test]
fn caret_is_loaded_from_a_plain_file_only() {
    assert_eq!(load_caret(&CaretFile::Missing), Ok(None));
    assert_eq!(load_caret(&CaretFile::Irregular), Err(CaretError::NotRegularFile));
    assert_eq!(load_caret(&CaretFile::Body("123".to_string())), Ok(Some(123)));
    assert_eq!(load_caret(&CaretFile::Body(caret_body(98765))), Ok(Some(98765)));
    assert_eq!(load_caret(&CaretFile::Body("12x".to_string())), Err(CaretError::Malformed));
    assert_eq!(load_caret(&CaretFile::Body("".to_string())), Err(CaretError::Malformed));
}

#[test]
fn caret_name_is_the_sha256_of_the_path() {
    assert_eq!(caret_name("abc"), "ba7816bf8f01cfea414140de5dae2223b00361a396177a9cb410ff61f20015ad");
    assert_eq!(caret_name(""), "e3b0c44298fc1c149afbf4c8996fb92427ae41e4649b934ca495991b7852b855");
}

#[test]
fn removals_skip_the_paths_to_keep() {
    let paths = vec!["/a".to_string(), "abc".to_string(), "/c".to_string()];
    let plan = plan_removals(&paths, &vec![true, false, false]);
    assert_eq!(plan.len(), 2);
    assert_eq!(plan[0].fullpath, "abc");
    assert_eq!(plan[0].caret, "ba7816bf8f01cfea414140de5dae2223b00361a396177a9cb410ff61f20015ad");
    assert_eq!(plan[1].fullpath, "/c");
    assert_eq!(plan[1].caret, caret_name("/c"));
    assert!(plan_removals(&paths, &vec![true, true, true]).is_empty());
    assert!(plan_removals(&Vec::new(), &Vec::new()).is_empty());
}

#[test]
fn opening_inserts_once_and_updates_after() {
    assert_eq!(upsert_action(false), Upsert::Insert);
    assert_eq!(upsert_action(true), Upsert::Update);
}

#[test]
fn guarded_operation_needs_a_clean_release() {
    assert_eq!(guarded_outcome(true, true), Outcome::Success);
    assert_eq!(guarded_outcome(true, false), Outcome::ReleaseFailed);
    assert_eq!(guarded_outcome(false, true), Outcome::OperationFailed);
    assert_eq!(guarded_outcome(false, false), Outcome::OperationFailed);
}

#[test]
fn menu_answers_are_sorted() {
    assert_eq!(menu_choice("", 5), MenuChoice::Cancel);
    assert_eq!(menu_choice("full", 5), MenuChoice::Full);
    assert_eq!(menu_choice("3", 5), MenuChoice::Open(3));
    assert_eq!(menu_choice("5", 5), MenuChoice::Invalid);
    assert_eq!(menu_choice("x", 5), MenuChoice::Invalid);
    assert_eq!(menu_choice("-1", 5), MenuChoice::Invalid);
}

#[test]
fn listing_shows_twenty_at_most() {
    assert_eq!(listing_len(0), 0);
    assert_eq!(listing_len(19), 19);
    assert_eq!(listing_len(20), 20);
    assert_eq!(listing_len(500), 20);
}

#[test]
fn failing_operation_still_releases_the_lock() {
    let held = guard_next(Guard::Acquire, true);
    assert_eq!(held, Guard::Run);
    let ran = guard_next(held, false);
    assert_eq!(ran, Guard::Release { operation_ok: false });
    let done = guard_next(ran, true);
    assert_eq!(done, Guard::Done { outcome: Outcome::OperationFailed });
    assert_eq!(guard_next(done, true), done);
    let again = guard_next(Guard::Acquire, true);
    assert_eq!(again, Guard::Run);
    assert_eq!(guard_next(guard_next(again, true), true), Guard::Done { outcome: Outcome::Success });
    assert_eq!(guard_next(guard_next(again, true), false), Guard::Done { outcome: Outcome::ReleaseFailed });
}

#[test]
fn lock_that_cannot_be_taken_runs_nothing() {
    assert_eq!(guard_next(Guard::Acquire, false), Guard::Done { outcome: Outcome::NotAcquired });
}

#[test]
fn missing_artifact_does_not_stop_a_deletion() {
    assert_eq!(removal_step(true), RemovalStep::RemoveArtifact);
    assert_eq!(artifact_step(true), ArtifactStep::Proceed);
    assert_eq!(artifact_step(false), ArtifactStep::ProceedLogged);
}

#[test]
fn failed_row_deletion_stops_before_the_artifact() {
    assert_eq!(removal_step(false), RemovalStep::Abort);
}

#[test]
fn decimal_text_is_read_back() {
    for n in [0u64, 9, 10, 99, 100, 4096, u64::MAX] {
        assert_eq!(parse_decimal(&format_decimal(n)), Some(n));
    }
    assert_eq!(parse_decimal("+17"), Some(17));
    assert_eq!(parse_decimal("007"), Some(7));
    assert_eq!(parse_decimal("18446744073709551615"), Some(u64::MAX));
    assert_eq!(parse_decimal("18446744073709551616"), None);
    assert_eq!(parse_decimal("99999999999999999999999"), None);
    assert_eq!(parse_decimal(""), None);
    assert_eq!(parse_decimal("+"), None);
    assert_eq!(parse_decimal("-1"), None);
    assert_eq!(parse_decimal("12 "), None);
    assert_eq!(parse_decimal("1+2"), None);
    assert_eq!(parse_decimal("\u{0661}"), None);
}
