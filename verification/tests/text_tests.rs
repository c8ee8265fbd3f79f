use nntp::text::{chars_of, lines, piece_starts, range_equals, starts_with};

#[test]
fn lines_match_std() {
    for text in ["", "a", "a\n", "a\r\nb\r\n", "a\nb", "\n", "\n\n", "a\r", "x\r\ny\n\nz", "é\r\nü"] {
        let ours = lines(text);
        let std: Vec<String> = text.lines().map(|l| l.to_string()).collect();
        assert_eq!(ours, std, "{:?}", text);
    }
}

#[test]
fn piece_starts_match_split() {
    for text in ["", " ", "a b", "a  b ", "211 1 2 3 g"] {
        let chars = chars_of(text);
        let starts = piece_starts(&chars, ' ');
        assert_eq!(starts.len(), text.split(' ').count(), "{:?}", text);
        let mut expected = vec![0usize];
        for (i, c) in chars.iter().enumerate() {
            if *c == ' ' {
                expected.push(i + 1);
            }
        }
        assert_eq!(starts, expected);
    }
}

#[test]
fn starts_with_and_range_equals() {
    assert!(starts_with("220 ok", "220"));
    assert!(!starts_with("22", "220"));
    assert!(starts_with("anything", ""));
    let chars = chars_of("XFEATURE-COMPRESS GZIP");
    assert!(range_equals(&chars, 18, 22, "GZIP"));
    assert!(!range_equals(&chars, 18, 21, "GZIP"));
}
