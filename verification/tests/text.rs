use astchunk::text::{count_lines, count_lines_checked, find_first_line_end, last_piece, push_decimal, split_on, str_eq};

const SAMPLES: &[&str] = &[
    "",
    "a",
    "\n",
    "\n\n",
    "a\n",
    "a\nb",
    "a\r\nb\r\n",
    "foo\nbar\n\r\nbaz\r",
    "\r",
    "x\r\n",
    "é\nü",
];

#[test]
fn count_lines_matches_str_lines() {
    for s in SAMPLES {
        assert_eq!(count_lines(s.as_bytes()) as usize, s.lines().count(), "{s:?}");
    }
}

#[test]
fn first_line_matches_str_lines() {
    for s in SAMPLES {
        let end = find_first_line_end(s.as_bytes());
        let expected = s.lines().next().unwrap_or("");
        assert_eq!(&s[..end], expected, "{s:?}");
    }
}

#[test]
fn split_matches_str_split() {
    for s in ["", "a", "/", "a/b", "/a//b/", "src/lib/utils.py", "é/ü"] {
        let ours = split_on(s, b'/');
        let std: Vec<&str> = s.split('/').collect();
        assert_eq!(ours, std, "{s:?}");
        assert_eq!(last_piece(s, b'/'), s.rsplit('/').next().unwrap(), "{s:?}");
    }
}

#[test]
fn decimal_rendering() {
    for n in [0u64, 7, 10, 42, 100, 65_535, u32::MAX as u64, u64::MAX] {
        let mut out = Vec::new();
        push_decimal(&mut out, n);
        assert_eq!(String::from_utf8(out).unwrap(), n.to_string());
    }
}

#[test]
fn str_eq_compares_text() {
    assert!(str_eq("abc", "abc"));
    assert!(!str_eq("abc", "abd"));
    assert!(!str_eq("abc", "ab"));
    assert!(str_eq("", ""));
    assert!(str_eq("é", "é"));
}

#[test]
fn checked_line_count_matches_str_lines() {
    for s in ["", "a", "a\n", "a\nb", "\n\n", "x\r\ny\n"] {
        assert_eq!(count_lines_checked(s.as_bytes()), Some(s.lines().count() as u32));
    }
}
