use co_worker::text::{clip, lines};

#[test]
fn lines_split_like_str_lines() {
    for s in ["", "a", "a\n", "a\r\nb", "a\n\nb\n", "\n", "a\r", "x\r\r\n"] {
        let expected: Vec<String> = s.lines().map(|l| l.to_string()).collect();
        assert_eq!(lines(s), expected, "{s:?}");
    }
}

#[test]
fn clipping() {
    assert_eq!(clip("short"), Some("short".to_string()));
    let exact = "b".repeat(400);
    assert_eq!(clip(&exact), Some(exact.clone()));
    assert_eq!(clip(&"c".repeat(401)), Some(format!("{}…", "c".repeat(400))));
    assert_eq!(clip(&format!("{}é", "d".repeat(399))), None);
    assert_eq!(clip(&format!("{}éx", "d".repeat(398))), Some(format!("{}é…", "d".repeat(398))));
}

#[test]
fn white_space_is_what_std_says() {
    for u in 0u32..=0x10FFFF {
        if let Some(c) = char::from_u32(u) {
            assert_eq!(co_worker::text::is_whitespace(c), c.is_whitespace(), "{u:#x}");
        }
    }
}
