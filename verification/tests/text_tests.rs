use avin::text::parse_i32_text;
use avin::text::push_decimal;
use avin::text::split;
use avin::text::stem;
use avin::text::trim;

#[test]
fn text_split_on_underscore() {
    assert_eq!(split("moex_share_sber", '_'), vec!["moex", "share", "sber"]);
    assert_eq!(split("", '_'), vec![""]);
    assert_eq!(split("a__b_", '_'), vec!["a", "", "b", ""]);
    assert_eq!(split("abc", '_'), vec!["abc"]);
}

#[test]
fn text_trim_white_space() {
    assert_eq!(trim("  2023 \t"), "2023");
    assert_eq!(trim("\u{3000}x y\u{a0}"), "x y");
    assert_eq!(trim("   "), "");
    assert_eq!(trim(""), "");
    assert_eq!(trim("abc"), "abc");
}

#[test]
fn text_parse_i32() {
    assert_eq!(parse_i32_text("2023"), Some(2023));
    assert_eq!(parse_i32_text("+7"), Some(7));
    assert_eq!(parse_i32_text("-42"), Some(-42));
    assert_eq!(parse_i32_text("-2147483648"), Some(i32::MIN));
    assert_eq!(parse_i32_text("2147483647"), Some(i32::MAX));
    assert_eq!(parse_i32_text("2147483648"), None);
    assert_eq!(parse_i32_text("99999999999999999999"), None);
    assert_eq!(parse_i32_text(""), None);
    assert_eq!(parse_i32_text("-"), None);
    assert_eq!(parse_i32_text("+"), None);
    assert_eq!(parse_i32_text("20x3"), None);
    assert_eq!(parse_i32_text(" 1"), None);
    for s in ["0", "-0", "12", "x", "+-1", "007"] {
        assert_eq!(parse_i32_text(s), s.parse::<i32>().ok());
    }
}

#[test]
fn text_decimal() {
    for n in [0, 7, 10, 2023, -1, -905, i32::MAX, i32::MIN] {
        let mut s = String::from("y=");
        push_decimal(&mut s, n);
        assert_eq!(s, format!("y={}", n));
    }
}

#[test]
fn text_file_stem() {
    assert_eq!(stem("2023.pqt"), "2023");
    assert_eq!(stem("a.b.pqt"), "a.b");
    assert_eq!(stem(".hidden"), ".hidden");
    assert_eq!(stem("noext"), "noext");
    assert_eq!(stem(".."), "..");
    for name in ["2023.pqt", "a.b.pqt", ".hidden", "noext", "x."] {
        let p = std::path::Path::new(name);
        assert_eq!(stem(name), p.file_stem().unwrap().to_str().unwrap());
    }
}

#[test]
fn text_trim_agrees_with_std() {
    let samples = [
        "\u{85}a\u{1680}",
        "\u{200b}a\u{200b}",
        "\u{2028}\u{2029}b\u{202f}\u{205f}",
        "\n\r\t\u{b}\u{c} c d \u{2000}\u{200a}",
        "\u{feff}e",
    ];
    for s in samples {
        assert_eq!(trim(s), s.trim());
    }
}

#[test]
fn text_parse_agrees_with_std() {
    for s in ["-2147483649", "+2147483647", "00000000000000000000012", "--1", "1-", "\u{661}", "12 ", ""] {
        assert_eq!(parse_i32_text(s), s.parse::<i32>().ok());
    }
}
