use pgn_reader::{
    Clock, Color, InvalidClock, InvalidNag, Nag, Outcome, RawComment, RawHeader, Skip,
};
use std::borrow::Cow;

#[test]
fn test_clock() {
    assert_eq!(Clock::from_ascii(b" [%clk 0:01:00] "), Ok(Clock(60)));
}

#[test]
fn test_nag() {
    assert_eq!(Nag::from_ascii(b"$33"), Ok(Nag(33)));
}

#[test]
fn test_raw_comment() {
    let comment = RawHeader(b"Hello world");
    assert_eq!(comment.decode().as_ref(), b"Hello world");

    let comment = RawHeader(b"Hello \\world\\");
    assert_eq!(comment.decode().as_ref(), b"Hello \\world\\");

    let comment = RawHeader(b"\\Hello \\\"world\\\\");
    assert_eq!(comment.decode().as_ref(), b"\\Hello \"world\\");
}

#[test]
fn test_raw_header() {
    let header = RawHeader(b"Hello world");
    assert_eq!(header.decode().as_ref(), b"Hello world");

    let header = RawHeader(b"Hello \\world\\");
    assert_eq!(header.decode().as_ref(), b"Hello \\world\\");

    let header = RawHeader(b"\\Hello \\\"world\\\\");
    assert_eq!(header.decode().as_ref(), b"\\Hello \"world\\");
}

#[test]
fn clock_adds_up_hours_minutes_and_seconds() {
    assert_eq!(Clock::from_ascii(b" [%clk 0:00:00] "), Ok(Clock(0)));
    assert_eq!(Clock::from_ascii(b" [%clk 0:00:07] "), Ok(Clock(7)));
    assert_eq!(Clock::from_ascii(b" [%clk 0:02:30] "), Ok(Clock(150)));
    assert_eq!(Clock::from_ascii(b" [%clk 0:04:15] "), Ok(Clock(255)));
    assert_eq!(Clock::from_ascii(b" [%clk 0:04:15"), Ok(Clock(255)));
}

#[test]
fn clock_rejects_what_does_not_fit() {
    assert_eq!(Clock::from_ascii(b" [%clk 0:04:16] "), Err(InvalidClock));
    assert_eq!(Clock::from_ascii(b" [%clk 1:00:00] "), Err(InvalidClock));
}

#[test]
fn clock_rejects_other_prefixes() {
    assert_eq!(Clock::from_ascii(b"[%clk 0:01:00] "), Err(InvalidClock));
    assert_eq!(Clock::from_ascii(b" [%eval 0:01:00] "), Err(InvalidClock));
    assert_eq!(Clock::from_ascii(b" [%clk"), Err(InvalidClock));
    assert_eq!(Clock::from_ascii(b""), Err(InvalidClock));
    assert_eq!(Clock::from_ascii(b"  %clk 0:01:00] "), Err(InvalidClock));
}

#[test]
fn clock_rejects_bad_digits() {
    assert_eq!(Clock::from_ascii(b" [%clk x:01:00] "), Err(InvalidClock));
    assert_eq!(Clock::from_ascii(b" [%clk 0:0a:00] "), Err(InvalidClock));
    assert_eq!(Clock::from_ascii(b" [%clk 0:01:-1] "), Err(InvalidClock));
    assert_eq!(Clock::from_ascii(b" [%clk 0:01:0"), Err(InvalidClock));
}

#[test]
fn nag_glyphs_have_their_codes() {
    assert_eq!(Nag::from_ascii(b"!"), Ok(Nag(1)));
    assert_eq!(Nag::from_ascii(b"?"), Ok(Nag(2)));
    assert_eq!(Nag::from_ascii(b"!!"), Ok(Nag(3)));
    assert_eq!(Nag::from_ascii(b"??"), Ok(Nag(4)));
    assert_eq!(Nag::from_ascii(b"!?"), Ok(Nag(5)));
    assert_eq!(Nag::from_ascii(b"?!"), Ok(Nag(6)));
    assert_eq!(Nag(Nag::GOOD_MOVE), Nag(1));
    assert_eq!(Nag(Nag::MISTAKE), Nag(2));
    assert_eq!(Nag(Nag::BRILLIANT_MOVE), Nag(3));
    assert_eq!(Nag(Nag::BLUNDER), Nag(4));
    assert_eq!(Nag(Nag::SPECULATIVE_MOVE), Nag(5));
    assert_eq!(Nag(Nag::DUBIOUS_MOVE), Nag(6));
}

#[test]
fn nag_numbers() {
    assert_eq!(Nag::from_ascii(b"$42"), Ok(Nag(42)));
    assert_eq!(Nag::from_ascii(b"$24"), Ok(Nag(24)));
    assert_eq!(Nag::from_ascii(b"$0"), Ok(Nag(0)));
    assert_eq!(Nag::from_ascii(b"$255"), Ok(Nag(255)));
    assert_eq!(Nag::from_ascii(b"$007"), Ok(Nag(7)));
}

#[test]
fn nag_rejects_the_rest() {
    assert_eq!(Nag::from_ascii(b"$"), Err(InvalidNag));
    assert_eq!(Nag::from_ascii(b"$256"), Err(InvalidNag));
    assert_eq!(Nag::from_ascii(b"$1a"), Err(InvalidNag));
    assert_eq!(Nag::from_ascii(b"$+1"), Err(InvalidNag));
    assert_eq!(Nag::from_ascii(b""), Err(InvalidNag));
    assert_eq!(Nag::from_ascii(b"!!!"), Err(InvalidNag));
    assert_eq!(Nag::from_ascii(b"42"), Err(InvalidNag));
}

#[test]
fn escapes_are_resolved() {
    let header = RawHeader(b"\\\"a\\\\b\\\"");
    assert_eq!(header.decode().as_ref(), b"\"a\\b\"");
    assert_eq!(header.as_bytes(), b"\\\"a\\\\b\\\"");
}

#[test]
fn escapes_are_taken_from_left_to_right() {
    assert_eq!(RawHeader(b"\\\\\\").decode().as_ref(), b"\\\\");
    assert_eq!(RawHeader(b"\\\\\"").decode().as_ref(), b"\\\"");
    assert_eq!(RawComment(b"\\\\\\\\").decode().as_ref(), b"\\\\");
}

#[test]
fn decode_borrows_without_an_escape() {
    assert!(matches!(RawHeader(b"Hello world").decode(), Cow::Borrowed(_)));
    assert!(matches!(RawHeader(b"back\\slash").decode(), Cow::Borrowed(_)));
    assert!(matches!(RawHeader(b"").decode(), Cow::Borrowed(_)));
    assert!(matches!(RawHeader(b"a\\\"b").decode(), Cow::Owned(_)));
    assert!(matches!(RawComment(b"plain").decode(), Cow::Borrowed(_)));
    assert!(matches!(RawComment(b"a\\\\b").decode(), Cow::Owned(_)));
}

#[test]
fn decode_utf8_reads_text() {
    assert_eq!(RawHeader(b"K\xc3\xb6ln").decode_utf8().unwrap(), "K\u{f6}ln");
    assert_eq!(RawHeader(b"say \\\"hi\\\"").decode_utf8().unwrap(), "say \"hi\"");
    assert_eq!(RawComment(b"K\xc3\xb6ln").decode_utf8().unwrap(), "K\u{f6}ln");
    assert_eq!(RawComment(b"a\\\\b").decode_utf8().unwrap(), "a\\b");
}

#[test]
fn decode_utf8_fails_on_other_bytes() {
    assert!(RawHeader(b"K\xf6ln").decode_utf8().is_err());
    assert!(RawHeader(b"\\\"K\xf6ln").decode_utf8().is_err());
    assert!(RawComment(b"\xff").decode_utf8().is_err());
    assert!(RawComment(b"\\\\\xff").decode_utf8().is_err());
}

#[test]
fn decode_utf8_lossy_replaces_other_bytes() {
    assert_eq!(RawHeader(b"K\xf6ln").decode_utf8_lossy(), "K\u{fffd}ln");
    assert_eq!(RawHeader(b"\\\"K\xf6ln").decode_utf8_lossy(), "\"K\u{fffd}ln");
    assert_eq!(RawHeader(b"K\xc3\xb6ln").decode_utf8_lossy(), "K\u{f6}ln");
    assert_eq!(RawComment(b"\xff!").decode_utf8_lossy(), "\u{fffd}!");
    assert_eq!(RawComment(b"\\\\\xff").decode_utf8_lossy(), "\\\u{fffd}");
    assert_eq!(RawComment(b"plain").decode_utf8_lossy(), "plain");
}

#[test]
fn nag_and_clock_from_str() {
    assert_eq!("??".parse::<Nag>(), Ok(Nag(4)));
    assert_eq!("$12".parse::<Nag>(), Ok(Nag(12)));
    assert_eq!("x".parse::<Nag>(), Err(InvalidNag));
    assert_eq!(" [%clk 0:00:42] ".parse::<Clock>(), Ok(Clock(42)));
    assert_eq!("0:00:42".parse::<Clock>(), Err(InvalidClock));
}

#[test]
fn nag_and_clock_from_u8() {
    assert_eq!(Nag::from(7), Nag(7));
    assert_eq!(Clock::from(60), Clock(60));
    assert_eq!(Clock(Clock::ZERO), Clock(0));
}

#[test]
fn errors_describe_themselves() {
    assert_eq!(InvalidNag.description(), "invalid nag");
    assert_eq!(InvalidClock.description(), "invalid clk");
}

#[test]
fn skip_holds_its_flag() {
    assert!(Skip(true).0);
    assert_ne!(Skip(true), Skip(false));
}

#[test]
fn outcome_names_its_winner() {
    assert_eq!(Outcome::Decisive { winner: Color::White }.winner(), Some(Color::White));
    assert_eq!(Outcome::Decisive { winner: Color::Black }.winner(), Some(Color::Black));
    assert_eq!(Outcome::Draw.winner(), None);
}
