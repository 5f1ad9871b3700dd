use startpe::geometry::{clamp_i32, scaled, Rect};
use startpe::num::{
    decimal_chars, hex4_text, hex_text, i64_text, padded_text, parse_i32, parse_nat, parse_u32,
    u64_text,
};
use startpe::text::{
    chars_of, contains_str, eq_ignore_case, find_char, is_not_after, is_white, rfind_char, same_str,
    split_char, split_lines, split_once, starts_with, string_of, to_ascii_lower, to_ascii_upper, trim,
    trim_end, trim_start,
};
use startpe::util::{
    app_display_name, encode, file_stem, from_utf16_lossy, hiword, loword, text_until_nul,
    version_block, version_text, wide, WideStr,
};

fn c(s: &str) -> Vec<char> {
    s.chars().collect()
}

#[test]
fn scaling_rounds_toward_zero() {
    assert_eq!(scaled(40, 96), 40);
    assert_eq!(scaled(7, 120), 8);
    assert_eq!(scaled(10, 144), 15);
    assert_eq!(scaled(-7, 120), -8);
    assert_eq!(scaled(-1, 95), 0);
    assert_eq!(scaled(0, 96), 0);
    for v in -200..200 {
        for dpi in [0, 1, 95, 96, 97, 120, 144, 192] {
            assert_eq!(scaled(v, dpi), v * dpi / 96);
        }
    }
}

#[test]
fn rectangles_exclude_their_far_edges() {
    let r = Rect { left: 1, top: 2, right: 5, bottom: 6 };
    assert!(r.contains(1, 2));
    assert!(r.contains(4, 5));
    assert!(!r.contains(5, 5));
    assert!(!r.contains(4, 6));
    assert!(!r.contains(0, 3));
    assert_eq!(clamp_i32(7, 1, 5), 5);
    assert_eq!(clamp_i32(-7, 1, 5), 1);
    assert_eq!(clamp_i32(3, 1, 5), 3);
}

#[test]
fn white_space_is_that_of_unicode() {
    let mut v: u32 = 0;
    while v <= 0x10FFFF {
        if let Some(ch) = char::from_u32(v) {
            assert_eq!(is_white(ch), ch.is_whitespace(), "{v:x}");
        }
        v += 1;
    }
}

#[test]
fn trimming_cuts_both_ends() {
    for s in ["", " ", "a", "  a b \t", "\u{2003}x\u{a0}", "no", "\r\nq\r\n"] {
        assert_eq!(string_of(&trim(&c(s))), s.trim());
        assert_eq!(string_of(&trim_start(&c(s))), s.trim_start());
        assert_eq!(string_of(&trim_end(&c(s))), s.trim_end());
    }
}

#[test]
fn lines_are_cut_like_the_standard_ones() {
    for s in [
        "", "a", "a\n", "a\nb", "a\r\nb\r\n", "\n", "\n\n", "a\r", "a\r\r\nb", "\r\n", "x\n\ny", "end\r\n\r",
    ] {
        let got: Vec<String> = split_lines(&c(s)).iter().map(|l| string_of(l)).collect();
        let want: Vec<String> = s.lines().map(|l| l.to_string()).collect();
        assert_eq!(got, want, "{s:?}");
    }
}

#[test]
fn splitting_keeps_every_piece() {
    for s in ["", ",", "a", "a,b", ",a,,b,", "é,ß"] {
        let got: Vec<String> = split_char(&c(s), ',').iter().map(|l| string_of(l)).collect();
        let want: Vec<String> = s.split(',').map(|l| l.to_string()).collect();
        assert_eq!(got, want);
        let once = split_once(&c(s), ',').map(|(a, b)| (string_of(&a), string_of(&b)));
        assert_eq!(once, s.split_once(',').map(|(a, b)| (a.to_string(), b.to_string())));
    }
}

#[test]
fn searching_text() {
    assert_eq!(find_char(&c("a.b.c"), '.'), Some(1));
    assert_eq!(rfind_char(&c("a.b.c"), '.'), Some(3));
    assert_eq!(find_char(&c("abc"), '.'), None);
    assert_eq!(rfind_char(&c(""), '.'), None);
    for (s, p) in [("abc", ""), ("", ""), ("abc", "bc"), ("abc", "abcd"), ("aab", "ab"), ("ab", "ba")] {
        assert_eq!(contains_str(&c(s), &c(p)), s.contains(p));
        assert_eq!(starts_with(&c(s), &c(p)), s.starts_with(p));
    }
    assert!(same_str("grün", "grün"));
    assert!(!same_str("a", "A"));
}

#[test]
fn letter_case_is_ascii_only() {
    assert!(eq_ignore_case(&c("[PinUtil]"), &c("[PINUTIL]")));
    assert!(!eq_ignore_case(&c("Ä"), &c("ä")));
    assert_eq!(string_of(&to_ascii_lower(&c("AZaz@[`{Ä"))), "AZaz@[`{Ä".to_ascii_lowercase());
    assert_eq!(string_of(&to_ascii_upper(&c("AZaz@[`{ä"))), "AZaz@[`{ä".to_ascii_uppercase());
}

#[test]
fn texts_are_ordered_like_strings() {
    let words = ["", "a", "ab", "b", "B", "é", "z", "日本", "\u{10000}", "\u{ffff}"];
    for a in words {
        for b in words {
            assert_eq!(is_not_after(&c(a), &c(b)), a <= b, "{a} {b}");
        }
    }
}

#[test]
fn numbers_are_read_like_the_standard_ones() {
    for s in [
        "0", "1", "42", "007", "+5", "-5", "", "+", "-", "1x", " 1", "4294967295", "4294967296", "2147483647",
        "2147483648", "-2147483648", "-2147483649", "--1", "+-1", "99999999999999999999", "٣",
        "18446744073709551615", "18446744073709551616", "0000000000000000000000001",
    ] {
        assert_eq!(parse_u32(&c(s)), s.parse::<u32>().ok(), "{s}");
        assert_eq!(parse_i32(&c(s)), s.parse::<i32>().ok(), "{s}");
        assert_eq!(parse_nat(&c(s), u64::MAX), s.parse::<u64>().ok(), "{s}");
    }
}

#[test]
fn numbers_are_written_like_the_standard_ones() {
    for n in [0u64, 1, 9, 10, 99, 100, 12345, u64::MAX] {
        assert_eq!(u64_text(n), n.to_string());
        assert_eq!(hex_text(n), format!("{n:x}"));
        assert_eq!(padded_text(n, 4), format!("{n:04}"));
        assert_eq!(string_of(&decimal_chars(n)), n.to_string());
    }
    for n in [0i64, -1, 17, i64::MIN, i64::MAX, -2147483648] {
        assert_eq!(i64_text(n), n.to_string());
    }
    for n in [0u16, 0x409, 0xffff, 0x4b0] {
        assert_eq!(hex4_text(n), format!("{n:04x}"));
    }
}

#[test]
fn written_numbers_read_back() {
    for n in [i32::MIN, -77, 0, 5, i32::MAX] {
        assert_eq!(parse_i32(&chars_of(&i64_text(n as i64))), Some(n));
    }
}

#[test]
fn wide_closes_with_a_nul() {
    for s in ["", "abc", "é", "𝄞x", "日本語"] {
        let want: Vec<u16> = s.encode_utf16().chain(std::iter::once(0)).collect();
        assert_eq!(wide(s), want);
        assert_eq!(WideStr::new(s).as_units(), &want);
        assert_eq!(from_utf16_lossy(&encode(s)), s);
        assert_eq!(text_until_nul(&want), s);
    }
}

#[test]
fn lone_surrogates_are_replaced() {
    for v in [
        vec![0xD800u16],
        vec![0xD800, 0x41],
        vec![0xDC00, 0xD800],
        vec![0xD834, 0xDD1E],
        vec![0xD800, 0xD800, 0xDC00],
        vec![0x41, 0, 0x42],
    ] {
        assert_eq!(from_utf16_lossy(&v), String::from_utf16_lossy(&v));
    }
    assert_eq!(text_until_nul(&[0x41, 0, 0x42]), "A");
}

#[test]
fn stems_of_paths() {
    assert_eq!(file_stem("B:\\Programs\\7-Zip\\7zFM.exe"), "7zFM");
    assert_eq!(file_stem("a/b.c.d"), "b.c");
    assert_eq!(file_stem("noext"), "noext");
    assert_eq!(file_stem("dir\\"), "");
    assert_eq!(file_stem(".hidden"), "");
}

#[test]
fn display_names_prefer_the_description() {
    let some = |s: &str| Some(s.to_string());
    assert_eq!(app_display_name(&some(" HWiNFO64 "), &some("x"), "hwinfo64.exe"), "HWiNFO64");
    assert_eq!(app_display_name(&None, &some("Product"), "a.exe"), "Product");
    assert_eq!(app_display_name(&some("  "), &some("Product"), "C:\\a.exe"), "a");
    assert_eq!(app_display_name(&None, &None, "C:\\x\\tool.exe"), "tool");
}

#[test]
fn version_resources() {
    assert_eq!(
        version_block(0x409, 0x4b0, "FileDescription"),
        "\\StringFileInfo\\040904b0\\FileDescription"
    );
    assert_eq!(version_text(&[0x41, 0x42, 0, 0]), "AB");
    assert_eq!(version_text(&[0, 0]), "");
    assert_eq!(version_text(&[0x41, 0, 0x42]), "A\0B");
}

#[test]
fn message_words_have_a_sign() {
    for v in [0isize, 1, -1, 0x7fff, 0x8000, 0xffff, 0x1_0000, 0x1234_5678, -0x1234_5678, 0xffff_8000] {
        assert_eq!(loword(v), (v & 0xffff) as i16 as i32);
        assert_eq!(hiword(v), ((v >> 16) & 0xffff) as i16 as i32);
    }
}
