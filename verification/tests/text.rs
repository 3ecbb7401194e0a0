use snag::ansi::{sanitize_for_preview, strip_ansi};
use snag::scan::{lines_of, occurs, parse_i32, parse_u32, trim_chars, words_of};

fn chars(s: &str) -> Vec<char> {
    s.chars().collect()
}

#[test]
fn parse_u32_like_std() {
    for s in ["0", "42", "+7", "4294967295", "4294967296", "", "+", "-1", "12a", " 1", "007"] {
        assert_eq!(parse_u32(s), s.parse::<u32>().ok(), "input {s:?}");
    }
}

#[test]
fn parse_i32_like_std() {
    for s in ["0", "-0", "-2147483648", "-2147483649", "2147483647", "2147483648", "+5", "-", "x"] {
        assert_eq!(parse_i32(s), s.parse::<i32>().ok(), "input {s:?}");
    }
}

#[test]
fn words_and_lines_like_std() {
    let s = "  Uid:\t1000  1000 \u{a0}x\n";
    let w: Vec<String> = s.split_whitespace().map(|x| x.to_string()).collect();
    assert_eq!(words_of(&chars(s)), w);
    for t in ["a\nb\r\nc", "a\n", "", "\n\n", "x\r", "a\r\n\r\n"] {
        let l: Vec<String> = t.lines().map(|x| x.to_string()).collect();
        assert_eq!(lines_of(&chars(t)), l, "input {t:?}");
    }
    assert_eq!(trim_chars(&chars(" \t hi there \n")), chars("hi there"));
    assert_eq!(trim_chars(&chars("   ")), Vec::<char>::new());
}

#[test]
fn occurs_finds_substrings() {
    assert!(occurs(&chars("lo w"), &chars("hello world")));
    assert!(occurs(&chars(""), &chars("abc")));
    assert!(!occurs(&chars("abd"), &chars("abc")));
    assert!(!occurs(&chars("abcd"), &chars("abc")));
}

#[test]
fn strip_ansi_drops_sequences_and_controls() {
    assert_eq!(strip_ansi("\x1b[32mgreen\x1b[0m text"), "green text");
    assert_eq!(strip_ansi("\x1b]0;title\x07after"), "after");
    assert_eq!(strip_ansi("\x1b]0;title\x1b\\after"), "after");
    assert_eq!(strip_ansi("a\rb\x07c\td\ne"), "abc\td\ne");
    assert_eq!(strip_ansi("\x1b(Bx"), "Bx");
    assert_eq!(strip_ansi("\x1b[?2004hprompt$ "), "prompt$ ");
    assert_eq!(strip_ansi("tail\x1b"), "tail");
}

#[test]
fn preview_keeps_colours_only() {
    assert_eq!(
        sanitize_for_preview("\x1b[1;32mok\x1b[0m\x1b[2J\x1b[Hdone\r\n"),
        "\x1b[1;32mok\x1b[0mdone\n"
    );
    assert_eq!(sanitize_for_preview("a\n\n\n\n\nb"), "a\n\nb");
    assert_eq!(sanitize_for_preview("a\n\r\n\r\nb"), "a\n\nb");
    assert_eq!(sanitize_for_preview("\x1b]0;t\x07x\x1b(By\x01z"), "xyz");
    assert_eq!(sanitize_for_preview("\x1b[?1049hscreen"), "screen");
    assert_eq!(sanitize_for_preview("end\x1b"), "end");
}

#[test]
fn preview_keeps_unicode_text() {
    assert_eq!(sanitize_for_preview("caf\u{e9} ok\n"), "caf\u{e9} ok\n");
    assert_eq!(sanitize_for_preview("\x1b[31m\u{65e5}\u{672c}\x1b[0m"), "\x1b[31m\u{65e5}\u{672c}\x1b[0m");
}

#[test]
fn preview_drops_sequences_with_intermediate_bytes() {
    assert_eq!(sanitize_for_preview("\x1b[2 qok"), "ok");
    assert_eq!(sanitize_for_preview("\x1b[!pok"), "ok");
    assert_eq!(sanitize_for_preview("\x1b[1;2:3mhi"), "\x1b[1;2:3mhi");
}

#[test]
fn strip_ansi_twice_is_strip_ansi_once() {
    let raw = "\x1b[1;31mred\x1b[0m\x1b]2;t\x07 x\x1b\x1b[Kq\r\n\x01";
    let once = strip_ansi(raw);
    assert_eq!(once, "red x[Kq\n");
    assert_eq!(strip_ansi(&once), once);
}

#[test]
fn strip_ansi_leaves_plain_characters_in_order() {
    let raw = "a\x1b[1mb\x1b]0;t\x07c\x08\x7f\u{85}d\te\n";
    let out = strip_ansi(raw);
    assert_eq!(out, "abcd\te\n");
    assert!(!out.contains('\x1b'));
    assert!(out.chars().all(|c| !c.is_control() || c == '\n' || c == '\t'));
    let mut rest = raw.chars();
    assert!(out.chars().all(|c| rest.any(|r| r == c)));
}
