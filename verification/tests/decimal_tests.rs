use nntp::decimal::{append_decimal, parse_usize};

fn written(n: usize) -> String {
    let mut s = String::from("n=");
    append_decimal(&mut s, n);
    s
}

fn read(text: &str) -> Option<usize> {
    let chars: Vec<char> = text.chars().collect();
    parse_usize(&chars, 0, chars.len())
}

#[test]
fn append_decimal_writes_numerals() {
    assert_eq!(written(0), "n=0");
    assert_eq!(written(7), "n=7");
    assert_eq!(written(10), "n=10");
    assert_eq!(written(3002322), "n=3002322");
    assert_eq!(written(usize::MAX), format!("n={}", usize::MAX));
}

#[test]
fn parse_usize_reads_as_from_str_does() {
    for text in ["0", "42", "+7", "007", "", "+", "-1", "1a", " 1", "++1"] {
        assert_eq!(read(text), text.parse::<usize>().ok(), "{:?}", text);
    }
    let max = usize::MAX.to_string();
    assert_eq!(read(&max), Some(usize::MAX));
    let over = format!("{}0", usize::MAX);
    assert_eq!(read(&over), None);
}

#[test]
fn parse_usize_reads_a_range() {
    let chars: Vec<char> = "x123y".chars().collect();
    assert_eq!(parse_usize(&chars, 1, 4), Some(123));
    assert_eq!(parse_usize(&chars, 1, 5), None);
}

#[test]
fn written_numbers_read_back() {
    for n in [0usize, 1, 9, 10, 99, 100, 65535, 123456789, usize::MAX] {
        let mut s = String::new();
        append_decimal(&mut s, n);
        assert_eq!(read(&s), Some(n));
    }
}
