use lana_khora::text::{parse_count, space};

#[test]
fn white_space_is_that_of_unicode() {
    for n in 0..0x11_0000u32 {
        if let Some(c) = char::from_u32(n) {
            assert_eq!(space(c), c.is_whitespace(), "{n:x}");
        }
    }
}

#[test]
fn counts_are_read_as_usual() {
    let huge = format!("{}0", usize::MAX);
    let most = format!("{}", usize::MAX);
    let leading = format!("000{}", usize::MAX);
    let texts: Vec<&str> = vec![
        "0", "7", "213", "+5", "+", "-", "-0", "", " 1", "1 ", "1.0", "12a", "\u{0661}", "++1",
        "0000", &huge, &most, &leading,
    ];
    for t in texts {
        assert_eq!(parse_count(t), t.parse::<usize>().ok(), "{t}");
    }
    assert_eq!(parse_count("213"), Some(213));
    assert_eq!(parse_count(&huge), None);
}
