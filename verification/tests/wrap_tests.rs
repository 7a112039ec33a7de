use gfx_info::text::is_whitespace;
use gfx_info::tokens::bitfield_tokens;
use gfx_info::wrap::{print_neat, print_neat_bitfield, WrapError, LINE_WIDTH};

fn strings(words: &[&str]) -> Vec<String> {
    words.iter().map(|w| w.to_string()).collect()
}

fn word(len: usize) -> String {
    "x".repeat(len)
}

#[test]
fn three_flags_share_one_line() {
    let tokens = strings(&["DEVICE_LOCAL", "HOST_VISIBLE", "HOST_COHERENT"]);
    let lines = print_neat(&tokens, Some('|'), 8).unwrap();
    assert_eq!(lines, vec!["        DEVICE_LOCAL | HOST_VISIBLE | HOST_COHERENT".to_string()]);
}

#[test]
fn oversized_single_token_is_fatal() {
    let tokens = vec![word(90)];
    assert_eq!(print_neat(&tokens, Some('|'), 0), Err(WrapError { index: 0 }));
    assert_eq!(print_neat(&tokens, None, 0), Err(WrapError { index: 0 }));
}

#[test]
fn oversized_later_token_is_fatal_too() {
    let tokens = vec![word(3), word(5), word(90), word(2), word(95)];
    assert_eq!(print_neat(&tokens, Some('|'), 4), Err(WrapError { index: 2 }));
}

#[test]
fn widest_token_that_fits() {
    // indent + length + gap must stay under the width
    assert_eq!(print_neat(&vec![word(76)], Some('|'), 0), Ok(vec![word(76)]));
    assert_eq!(print_neat(&vec![word(77)], Some('|'), 0), Err(WrapError { index: 0 }));
    assert_eq!(print_neat(&vec![word(78)], None, 0), Ok(vec![word(78)]));
    assert_eq!(print_neat(&vec![word(79)], None, 0), Err(WrapError { index: 0 }));
    assert_eq!(print_neat(&vec![word(68)], Some('|'), 8), Ok(vec![format!("        {}", word(68))]));
    assert_eq!(print_neat(&vec![word(69)], Some('|'), 8), Err(WrapError { index: 0 }));
}

#[test]
fn no_tokens_give_one_line_of_indent() {
    let none: Vec<String> = Vec::new();
    assert_eq!(print_neat(&none, Some('|'), 4), Ok(vec!["    ".to_string()]));
    assert_eq!(print_neat(&none, None, 0), Ok(vec![String::new()]));
    assert_eq!(print_neat(&none, None, 100), Ok(vec![" ".repeat(100)]));
}

#[test]
fn indent_at_the_width_rejects_every_token() {
    assert_eq!(print_neat(&strings(&["A"]), None, 80), Err(WrapError { index: 0 }));
    assert_eq!(print_neat(&strings(&["A"]), Some('|'), 77), Err(WrapError { index: 0 }));
    assert_eq!(print_neat(&strings(&["A"]), Some('|'), 75), Ok(vec![format!("{}A", " ".repeat(75))]));
}

#[test]
fn wraps_when_the_line_would_reach_the_width() {
    // 4 + (20 + 3) * 3 = 73; a fourth token of 20 would give 96
    let tokens = vec![word(20), word(20), word(20), word(20), word(20)];
    let lines = print_neat(&tokens, Some('|'), 4).unwrap();
    let w = word(20);
    assert_eq!(
        lines,
        vec![format!("    {w} | {w} | {w}"), format!("    {w} | {w}")]
    );
}

#[test]
fn wrap_boundary_is_exact() {
    // 0 + (37 + 1) + (40 + 1) = 79 fits; with 41 the sum is 80 and wraps
    let fits = print_neat(&vec![word(37), word(40)], None, 0).unwrap();
    assert_eq!(fits, vec![format!("{} {}", word(37), word(40))]);
    let wraps = print_neat(&vec![word(37), word(41)], None, 0).unwrap();
    assert_eq!(wraps, vec![word(37), word(41)]);
}

#[test]
fn without_separator_tokens_are_joined_by_one_space() {
    let tokens = strings(&["alpha", "beta", "gamma"]);
    assert_eq!(print_neat(&tokens, None, 2), Ok(vec!["  alpha beta gamma".to_string()]));
}

#[test]
fn broken_line_ends_with_its_last_token() {
    let tokens = vec![word(30), word(30), word(30)];
    let lines = print_neat(&tokens, Some('|'), 0).unwrap();
    assert_eq!(lines.len(), 2);
    assert_eq!(lines[0], format!("{} | {}", word(30), word(30)));
    assert_eq!(lines[1], word(30));
    for line in &lines {
        assert!(!line.ends_with(' '));
        assert!(!line.ends_with('|'));
    }
}

#[test]
fn every_line_is_under_the_width() {
    let mut tokens: Vec<String> = Vec::new();
    for i in 0..200usize {
        tokens.push(word(1 + (i * 7) % 40));
    }
    for indent in [0usize, 4, 8, 30] {
        for separator in [None, Some('|')] {
            let lines = print_neat(&tokens, separator, indent).unwrap();
            assert!(lines.len() > 1);
            for line in &lines {
                assert!(line.chars().count() < LINE_WIDTH);
                assert!(line.starts_with(&" ".repeat(indent)));
            }
        }
    }
}

#[test]
fn wrapping_keeps_the_tokens_in_order() {
    let mut tokens: Vec<String> = Vec::new();
    for i in 0..120usize {
        tokens.push(format!("T{}_{}", i, word((i * 5) % 23)));
    }
    let lines = print_neat(&tokens, Some('|'), 8).unwrap();
    let mut seen: Vec<String> = Vec::new();
    for line in &lines {
        for part in line.trim_start().split(" | ") {
            seen.push(part.to_string());
        }
    }
    assert_eq!(seen, tokens);
}

#[test]
fn width_counts_characters() {
    let token: String = "\u{e9}".repeat(76);
    assert_eq!(print_neat(&vec![token.clone()], Some('|'), 0), Ok(vec![token]));
}

#[test]
fn tokens_of_a_flag_text() {
    assert_eq!(bitfield_tokens("DEVICE_LOCAL | CPU_VISIBLE | COHERENT"), strings(&["DEVICE_LOCAL", "CPU_VISIBLE", "COHERENT"]));
    assert_eq!(bitfield_tokens("  A\t|\nB  "), strings(&["A", "B"]));
    assert_eq!(bitfield_tokens("A|B || C"), strings(&["A|B", "||", "C"]));
    assert_eq!(bitfield_tokens("(empty)"), strings(&["(empty)"]));
    assert_eq!(bitfield_tokens("B A B"), strings(&["B", "A", "B"]));
}

#[test]
fn empty_flag_text_has_no_tokens() {
    assert!(bitfield_tokens("").is_empty());
    assert!(bitfield_tokens(" \t\n ").is_empty());
    assert!(bitfield_tokens(" | | ").is_empty());
}

#[test]
fn tokens_split_at_unicode_white_space() {
    assert_eq!(bitfield_tokens("A\u{a0}B\u{2003}C\u{3000}D\u{85}E\u{1680}F"), strings(&["A", "B", "C", "D", "E", "F"]));
    assert_eq!(bitfield_tokens("A\u{200b}B"), strings(&["A\u{200b}B"]));
}

#[test]
fn tokens_agree_with_split_whitespace() {
    let text = " X_1 | Y\u{2028}Z |\r\n| W\u{b}V \u{202f}\u{205f}U\u{1f}T ";
    let expected: Vec<String> =
        text.split_whitespace().filter(|&v| v != "|").map(|v| v.to_string()).collect();
    assert_eq!(bitfield_tokens(text), expected);
}

#[test]
fn bitfield_is_wrapped_with_bars() {
    let lines = print_neat_bitfield("DEVICE_LOCAL | CPU_VISIBLE", 8).unwrap();
    assert_eq!(lines, vec!["        DEVICE_LOCAL | CPU_VISIBLE".to_string()]);
    assert_eq!(print_neat_bitfield("", 4), Ok(vec!["    ".to_string()]));
    let wide = format!("A | {}", word(80));
    assert_eq!(print_neat_bitfield(&wide, 4), Err(WrapError { index: 1 }));
}

#[test]
fn white_space_is_that_of_unicode() {
    for code in 0u32..=0x10ffff {
        if let Some(c) = char::from_u32(code) {
            assert_eq!(is_whitespace(c), c.is_whitespace(), "U+{:04X}", code);
        }
    }
}
