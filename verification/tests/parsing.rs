use bili_stream::numeric::parse_u32;
use bili_stream::options::{Format, Quality};
use bili_stream::room::parse_room_id;

#[test]
fn room_id_bare_numeral() {
    assert_eq!(parse_room_id("1"), Some(1));
    assert_eq!(parse_room_id("123"), Some(123));
    assert_eq!(parse_room_id("007"), Some(7));
    assert_eq!(parse_room_id("4294967295"), Some(u32::MAX));
}

#[test]
fn room_id_zero_is_rejected() {
    assert_eq!(parse_room_id("0"), None);
    assert_eq!(parse_room_id("000"), None);
    assert_eq!(parse_room_id("live.bilibili.com/0"), None);
}

#[test]
fn room_id_overflowing_numeral_is_rejected() {
    assert_eq!(parse_room_id("4294967296"), None);
}

#[test]
fn room_id_from_full_address() {
    assert_eq!(parse_room_id("https://live.bilibili.com/123"), Some(123));
    assert_eq!(parse_room_id("http://live.bilibili.com/456"), Some(456));
    assert_eq!(parse_room_id("live.bilibili.com/789"), Some(789));
    assert_eq!(parse_room_id("https://live.bilibili.com/123?visit_id=abc"), Some(123));
}

#[test]
fn room_id_digits_behind_junk_are_rejected() {
    assert_eq!(parse_room_id("abc123"), None);
    assert_eq!(parse_room_id("abc123def"), None);
    assert_eq!(parse_room_id("room 42 of 99"), None);
    assert_eq!(parse_room_id("123abc"), None);
}

#[test]
fn room_id_without_digits_fails() {
    assert_eq!(parse_room_id("abc"), None);
    assert_eq!(parse_room_id(""), None);
    assert_eq!(parse_room_id("https://live.bilibili.com/"), None);
}

#[test]
fn quality_menu_selection() {
    assert_eq!(Quality::from_menu("1"), Ok(Quality::Low));
    assert_eq!(Quality::from_menu("2"), Ok(Quality::High));
    assert!(Quality::from_menu("3").is_err());
    assert!(Quality::from_menu("").is_err());
    assert!(Quality::from_menu("low").is_err());
}

#[test]
fn quality_flag_tokens() {
    assert_eq!(Quality::from_str("low"), Ok(Quality::Low));
    assert_eq!(Quality::from_str("high"), Ok(Quality::High));
    assert!(Quality::from_str("medium").is_err());
    assert!(Quality::from_str("").is_err());
}

#[test]
fn quality_numeric_values() {
    assert_eq!(Quality::Low.value(), 0);
    assert_eq!(Quality::High.value(), 10000);
}

#[test]
fn format_menu_selection() {
    assert_eq!(Format::from_menu("1"), Ok(Format::M3u8));
    assert_eq!(Format::from_menu("2"), Ok(Format::Flv));
    assert!(Format::from_menu("0").is_err());
    assert!(Format::from_menu("x").is_err());
}

#[test]
fn format_flag_tokens() {
    assert_eq!(Format::from_str("m3u8"), Ok(Format::M3u8));
    assert_eq!(Format::from_str("flv"), Ok(Format::Flv));
    assert!(Format::from_str("mp4").is_err());
}

#[test]
fn format_wire_tokens() {
    assert_eq!(Format::M3u8.value(), "m3u8");
    assert_eq!(Format::Flv.value(), "flv");
}

#[test]
fn format_token_round_trip() {
    assert_eq!(Format::from_str(&Format::M3u8.value()), Ok(Format::M3u8));
    assert_eq!(Format::from_str(&Format::Flv.value()), Ok(Format::Flv));
}

#[test]
fn u32_parsing_matches_standard() {
    assert_eq!(parse_u32("0"), Some(0));
    assert_eq!(parse_u32("+7"), Some(7));
    assert_eq!(parse_u32("007"), Some(7));
    assert_eq!(parse_u32("4294967295"), Some(u32::MAX));
    assert_eq!(parse_u32("4294967296"), None);
    assert_eq!(parse_u32("-1"), None);
    assert_eq!(parse_u32("1a"), None);
    assert_eq!(parse_u32("+"), None);
    assert_eq!(parse_u32(""), None);
}
