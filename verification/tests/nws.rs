use astchunk::byte_range::ByteRange;
use astchunk::nws::{nws_count_direct, NwsCumsum};

fn len32(s: &[u8]) -> u32 {
    u32::try_from(s.len()).unwrap()
}

#[test]
fn test_nws_count_basic() {
    let code = "def foo():\n    print('hello world')\n    return 42";
    let source = code.as_bytes();
    let cumsum = NwsCumsum::new(source);

    let full_range = ByteRange::new(0, len32(source));
    let nws_cumsum = cumsum.get(full_range);
    let nws_direct = nws_count_direct(code);

    assert_eq!(nws_cumsum, nws_direct);
}

#[test]
fn test_nws_count_partial() {
    let code = "def foo():\n    print('hello world')\n    return 42";
    let source = code.as_bytes();
    let cumsum = NwsCumsum::new(source);

    let partial_range = ByteRange::new(0, 11);
    let partial_nws = cumsum.get(partial_range);

    let partial_code = std::str::from_utf8(&source[..11]).unwrap();
    let partial_direct = nws_count_direct(partial_code);

    assert_eq!(partial_nws, partial_direct);
}

#[test]
fn test_nws_count_empty() {
    let cumsum = NwsCumsum::new(b"");
    assert_eq!(cumsum.get(ByteRange::new(0, 0)), 0);
}

#[test]
fn test_nws_count_all_whitespace() {
    let code = "   \t\n\r";
    let cumsum = NwsCumsum::new(code.as_bytes());
    let full = ByteRange::new(0, len32(code.as_bytes()));
    assert_eq!(cumsum.get(full), 0);
    assert_eq!(nws_count_direct(code), 0);
}

#[test]
fn test_nws_count_no_whitespace() {
    let code = "abc123";
    let cumsum = NwsCumsum::new(code.as_bytes());
    let full = ByteRange::new(0, len32(code.as_bytes()));
    assert_eq!(cumsum.get(full), 6);
    assert_eq!(nws_count_direct(code), 6);
}

#[test]
fn nws_counts_vertical_tab_and_form_feed_as_whitespace() {
    assert_eq!(nws_count_direct("a\u{0b}b\u{0c}c"), 3);
}

#[test]
fn nws_counts_each_byte_of_multibyte_characters() {
    // "é" is two bytes in UTF-8, neither of them whitespace.
    assert_eq!(nws_count_direct("é x"), 3);
}

#[test]
fn cumsum_range_matches_direct_count_everywhere() {
    let code = "fn a() {\n  let x = 1;\n}\n";
    let source = code.as_bytes();
    let cumsum = NwsCumsum::new(source);
    for start in 0..source.len() {
        for end in start..=source.len() {
            let direct = source[start..end]
                .iter()
                .filter(|b| !matches!(**b, b' ' | b'\t' | b'\n' | b'\r' | 0x0b | 0x0c))
                .count();
            let r = ByteRange::new(len32(&source[..start]), len32(&source[..end]));
            assert_eq!(cumsum.get(r) as usize, direct);
        }
    }
}

#[test]
fn adjacent_ranges_add_up() {
    let code = "def foo():\n    print('hello world')\n    return 42";
    let source = code.as_bytes();
    let cumsum = NwsCumsum::new(source);
    let n = len32(source);
    for (a, b, d) in [(0, 11, n), (3, 3, 20), (5, 30, 31), (0, 0, 0), (12, 40, n)] {
        let left = cumsum.get(ByteRange::new(a, b));
        let right = cumsum.get(ByteRange::new(b, d));
        assert_eq!(left + right, cumsum.get(ByteRange::new(a, d)));
    }
    assert_eq!(cumsum.get(ByteRange::new(0, 11)), 9);
}
