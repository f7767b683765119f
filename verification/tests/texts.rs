use xcap::text::{
    contains, push_count, push_decimal, push_four_digits, push_hexadecimal, push_margin,
    push_quoted, push_truth, trim,
};

#[test]
fn trimming_is_that_of_the_standard_library() {
    for text in [
        "",
        " ",
        "a",
        "  a b\t\n",
        "\u{a0}x\u{3000}",
        "\u{2003}\u{2028}y z\u{85}",
        "\u{200b}kept\u{feff}",
        "\u{1c}kept\u{180e}",
    ] {
        assert_eq!(trim(text), text.trim());
    }
    for code in 0..=0x3100u32 {
        if let Some(c) = char::from_u32(code) {
            let text = format!("{c}x{c}");
            assert_eq!(trim(&text), text.trim());
        }
    }
}

#[test]
fn parts_are_found_where_they_occur() {
    for (text, part) in [("editor", "dit"), ("editor", ""), ("", "a"), ("aab", "ab"), ("ab", "aab")] {
        assert_eq!(contains(text, part), text.contains(part));
    }
}

#[test]
fn numbers_are_written_in_full() {
    for value in [0, 7, -7, 10, -10, 123456, i64::MAX, -i64::MAX] {
        let mut out = String::from(">");
        push_decimal(&mut out, value);
        assert_eq!(out, format!(">{value}"));
    }
    for value in [0, 9, 16, 255, u64::MAX] {
        let mut out = String::new();
        push_count(&mut out, value);
        push_hexadecimal(&mut out, value);
        assert_eq!(out, format!("{value}{value:x}"));
    }
    for value in [0, 1, 0x409, 0xffff] {
        let mut out = String::new();
        push_four_digits(&mut out, value);
        assert_eq!(out, format!("{value:04x}"));
    }
}

#[test]
fn texts_and_truths_are_written_as_in_debugging_output() {
    let mut out = String::new();
    push_quoted(&mut out, "a \"b\" \n \u{e9}");
    push_truth(&mut out, true);
    push_truth(&mut out, false);
    push_margin(&mut out, 2);
    assert_eq!(out, format!("{:?}truefalse    ", "a \"b\" \n \u{e9}"));
}
