use std::io::BufRead;
use ankiserver::number::{parse_u8_str, u8_to_decimal, IntParseError};
use ankiserver::paths::join_path;
use ankiserver::text::{chars_of, is_whitespace, split_fields, split_lines, trim_chars};

fn std_kind(s: &str) -> Result<u8, IntParseError> {
    match s.parse::<u8>() {
        Ok(n) => Ok(n),
        Err(e) => Err(match e.kind() {
            std::num::IntErrorKind::Empty => IntParseError::Empty,
            std::num::IntErrorKind::InvalidDigit => IntParseError::InvalidDigit,
            std::num::IntErrorKind::PosOverflow => IntParseError::PosOverflow,
            _ => panic!("unexpected kind"),
        }),
    }
}

#[test]
fn parse_u8_matches_std() {
    let cases = [
        "", "+", "-", "0", "7", "+7", "-7", "255", "256", "+255", "00255", "999x", "99x", "x9",
        " 5", "5 ", "5\n", "1000", "١", "12é", "++1", "+-1", "0000000000000",
    ];
    for c in cases.iter() {
        assert_eq!(parse_u8_str(c), std_kind(c), "case {:?}", c);
    }
}

#[test]
fn parse_u8_error_texts_match_std() {
    for c in ["", "x", "300"].iter() {
        let mine = parse_u8_str(c).unwrap_err().description();
        let theirs = c.parse::<u8>().unwrap_err().to_string();
        assert_eq!(mine, theirs);
    }
}

#[test]
fn u8_to_decimal_matches_to_string_and_reads_back() {
    for n in 0..=255u8 {
        let s = u8_to_decimal(n);
        assert_eq!(s, n.to_string());
        assert_eq!(parse_u8_str(&s), Ok(n));
    }
}

#[test]
fn whitespace_matches_std_for_every_char() {
    for u in 0..=0x10FFFFu32 {
        if let Some(c) = char::from_u32(u) {
            assert_eq!(is_whitespace(c), c.is_whitespace(), "char {:x}", u);
        }
    }
}

#[test]
fn trim_matches_std() {
    for s in ["", "  ", " a ", "\u{3000}x y\u{85}\n", "abc", "\t\r\n 5\r\n"].iter() {
        assert_eq!(trim_chars(s), s.trim());
    }
}

#[test]
fn chars_of_keeps_order() {
    assert_eq!(chars_of("aé😀"), vec!['a', 'é', '😀']);
}

#[test]
fn split_lines_matches_buffered_lines() {
    for s in ["", "a", "a\n", "a\nb", "a\r\nb\r\n", "\n\n", "x\r", "x\r\r\n", "\r\n"].iter() {
        let mine: Vec<String> = split_lines(&chars_of(s)).into_iter().map(|l| l.into_iter().collect()).collect();
        let theirs: Vec<String> = std::io::Cursor::new(s.as_bytes()).lines().map(|l| l.unwrap()).collect();
        assert_eq!(mine, theirs, "case {:?}", s);
    }
}

#[test]
fn split_fields_matches_str_split() {
    for s in ["", ".", "2.1.36", "a..b", "2.1"].iter() {
        let mine: Vec<String> = split_fields(&chars_of(s), '.').into_iter().map(|l| l.into_iter().collect()).collect();
        let theirs: Vec<String> = s.split('.').map(|x| x.to_string()).collect();
        assert_eq!(mine, theirs);
    }
}

#[test]
fn join_path_places_separator() {
    assert_eq!(join_path(r"C:\Users", "Admin"), r"C:\Users\Admin");
    assert_eq!(join_path(r"C:\Users\", "Admin"), r"C:\Users\Admin");
    assert_eq!(join_path("C:/x/", "y"), "C:/x/y");
    assert_eq!(join_path("", "y"), "y");
    assert_eq!(join_path("D:", "y"), "D:y");
    assert_eq!(join_path("pre", r"addon\ankisyncd"), r"pre\addon\ankisyncd");
}
