use mcstat::{mc_formatted_to_ansi, remove_formatting};

/// Removes every `ESC`-introduced sequence through its final `m`, the same
/// pass the library's round-trip law describes.
fn strip_ansi(s: &str) -> String {
    let mut out = String::new();
    let mut in_escape = false;
    for c in s.chars() {
        if in_escape {
            if c == 'm' {
                in_escape = false;
            }
        } else if c == '\u{1b}' {
            in_escape = true;
        } else {
            out.push(c);
        }
    }
    out
}

#[test]
fn plain_text_is_unchanged_by_stripping() {
    assert_eq!(remove_formatting("no codes here"), "no codes here");
    assert_eq!(remove_formatting(""), "");
}

#[test]
fn colour_code_becomes_green_then_reset() {
    assert_eq!(
        mc_formatted_to_ansi("\u{a7}aHello\u{a7}r World"),
        "\u{1b}[38;5;10mHello\u{1b}[0m World\u{1b}[0m"
    );
    assert_eq!(remove_formatting("\u{a7}aHello\u{a7}r World"), "Hello World");
}

#[test]
fn dark_and_bright_colours_use_their_palette_indices() {
    assert_eq!(mc_formatted_to_ansi("\u{a7}4red"), "\u{1b}[38;5;1mred\u{1b}[0m");
    assert_eq!(mc_formatted_to_ansi("\u{a7}9blue"), "\u{1b}[38;5;12mblue\u{1b}[0m");
    assert_eq!(mc_formatted_to_ansi("\u{a7}0k"), "\u{1b}[38;5;0mk\u{1b}[0m");
    assert_eq!(mc_formatted_to_ansi("\u{a7}fw"), "\u{1b}[38;5;15mw\u{1b}[0m");
}

#[test]
fn attribute_codes_use_their_sgr_parameters() {
    assert_eq!(
        mc_formatted_to_ansi("\u{a7}lBold\u{a7}nU"),
        "\u{1b}[1mBold\u{1b}[4mU\u{1b}[0m"
    );
    assert_eq!(mc_formatted_to_ansi("\u{a7}oi"), "\u{1b}[3mi\u{1b}[0m");
    assert_eq!(mc_formatted_to_ansi("\u{a7}ms"), "\u{1b}[9ms\u{1b}[0m");
    assert_eq!(mc_formatted_to_ansi("\u{a7}kx"), "\u{1b}[6mx\u{1b}[0m");
}

#[test]
fn text_without_markup_emits_no_escapes() {
    assert_eq!(mc_formatted_to_ansi("plain"), "plain");
    assert_eq!(mc_formatted_to_ansi(""), "");
}

#[test]
fn unknown_code_is_swallowed_silently() {
    assert_eq!(remove_formatting("\u{a7}zHi"), "Hi");
    assert_eq!(mc_formatted_to_ansi("\u{a7}zHi"), "Hi\u{1b}[0m");
}

#[test]
fn lone_trailing_sentinel_is_dropped() {
    assert_eq!(remove_formatting("abc\u{a7}"), "abc");
    assert_eq!(mc_formatted_to_ansi("abc\u{a7}"), "abc\u{1b}[0m");
}

#[test]
fn sentinel_as_code_character_is_swallowed() {
    assert_eq!(remove_formatting("\u{a7}\u{a7}a"), "a");
    assert_eq!(mc_formatted_to_ansi("\u{a7}\u{a7}a"), "a\u{1b}[0m");
}

#[test]
fn styling_then_stripping_recovers_stripped_text() {
    for s in [
        "\u{a7}aHello\u{a7}r World",
        "plain",
        "\u{a7}l\u{a7}nmixed\u{a7}zstuff\u{a7}",
        "multi\nline \u{a7}btext",
        "",
    ] {
        assert_eq!(strip_ansi(&mc_formatted_to_ansi(s)), remove_formatting(s));
    }
}
