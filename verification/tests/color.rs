use trovato_site::color::{Level, Rgb};

#[test]
fn shorthand_hex_parses_the_same_as_longhand() {
    assert_eq!(Rgb::parse("#fff"), Rgb::parse("#FFFFFF"));
    assert_eq!(Rgb::parse("#B14B2E"), Rgb::parse("#b14b2e"));
    assert_eq!(Rgb::parse("var(--text)"), None);
    assert_eq!(Rgb::parse("rebeccapurple"), None);
}

#[test]
fn parse_reads_each_channel() {
    assert_eq!(Rgb::parse("#B14B2E"), Some(Rgb { r: 0xb1, g: 0x4b, b: 0x2e }));
    assert_eq!(Rgb::parse("  #abc\t"), Some(Rgb { r: 0xaa, g: 0xbb, b: 0xcc }));
    assert_eq!(Rgb::parse("#000000"), Some(Rgb { r: 0, g: 0, b: 0 }));
}

#[test]
fn parse_refuses_other_lengths_and_non_digits() {
    assert_eq!(Rgb::parse("#ffff"), None);
    assert_eq!(Rgb::parse("#fffffff"), None);
    assert_eq!(Rgb::parse("#ggg"), None);
    assert_eq!(Rgb::parse("fff"), None);
    assert_eq!(Rgb::parse(""), None);
    assert_eq!(Rgb::parse("#"), None);
}

#[test]
fn only_hex_digits_make_a_colour() {
    assert_eq!(Rgb::parse("#+f0000"), None);
    assert_eq!(Rgb::parse("#+f+f+f"), None);
    assert_eq!(Rgb::parse("#-f0000"), None);
}

#[test]
fn a_body_with_a_wide_character_is_no_colour() {
    // Six bytes after the '#', the 'é' taking two of them.
    assert_eq!(Rgb::parse("#aéabc"), None);
    assert_eq!(Rgb::parse("#éa"), None);
}

#[test]
fn level_parse_ignores_case_and_whitespace() {
    assert_eq!(Level::parse("AA"), Some(Level::Aa));
    assert_eq!(Level::parse(" aa-large "), Some(Level::AaLarge));
    assert_eq!(Level::parse("ui"), Some(Level::Ui));
    assert_eq!(Level::parse("AAA"), None);
    assert_eq!(Level::parse(""), None);
}

#[test]
fn a_level_name_parses_back_to_the_level() {
    for level in [Level::Aa, Level::AaLarge, Level::Ui] {
        assert_eq!(Level::parse(level.name()), Some(level));
    }
    assert_eq!(Level::AaLarge.name(), "AA-LARGE");
}

#[test]
fn parse_accepts_exactly_three_or_six_hex_digits() {
    assert!(Rgb::parse("#abc").is_some());
    assert!(Rgb::parse("  #A1b2C3\n").is_some());
    assert!(Rgb::parse("#abcd").is_none());
    assert!(Rgb::parse("#abcde").is_none());
    assert!(Rgb::parse("#abcdef0").is_none());
    assert!(Rgb::parse("#ab").is_none());
    assert!(Rgb::parse("#").is_none());
    assert!(Rgb::parse("abc").is_none());
    assert!(Rgb::parse("#abg").is_none());
    assert!(Rgb::parse("#+f+f+f").is_none());
    assert!(Rgb::parse("#ééé").is_none());
    assert_eq!(Rgb::parse("#abc"), Rgb::parse("#aabbcc"));
}
