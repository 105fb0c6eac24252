use hytale_backup::text::{
    append_decimal, append_fixed_digits, char_is_digit, chars_contain, chars_end_with,
    chars_equal, chars_have_stamp_shape, chars_lex_less, chars_occur_at, chars_of,
    chars_start_with, str_equal,
};

fn chars(text: &str) -> Vec<char> {
    text.chars().collect()
}

#[test]
fn the_characters_of_a_text() {
    assert_eq!(chars_of("aé日"), vec!['a', 'é', '日']);
    assert!(chars_of("").is_empty());
}

#[test]
fn searching_agrees_with_the_standard_library() {
    let hays = ["", "a", "abc", "abcabc", "aaa", "héllo wörld", "=|Setup|", "x-=|Setup|9"];
    let needles = ["", "a", "b", "bc", "abc", "abcd", "aa", "ö", "=|Setup|", "-=|Setup|", "ca"];
    for hay in hays {
        for needle in needles {
            assert_eq!(chars_contain(&chars(hay), &chars(needle)), hay.contains(needle));
            assert_eq!(chars_start_with(&chars(hay), &chars(needle)), hay.starts_with(needle));
            assert_eq!(chars_end_with(&chars(hay), &chars(needle)), hay.ends_with(needle));
            assert_eq!(chars_equal(&chars(hay), &chars(needle)), hay == needle);
            assert_eq!(str_equal(hay, needle), hay == needle);
            assert_eq!(chars_lex_less(&chars(hay), &chars(needle)), hay < needle);
        }
    }
}

#[test]
fn a_needle_stands_where_it_stands() {
    assert!(chars_occur_at(&chars("abcabc"), &chars("bc"), 1));
    assert!(chars_occur_at(&chars("abcabc"), &chars("bc"), 4));
    assert!(!chars_occur_at(&chars("abcabc"), &chars("bc"), 0));
    assert!(!chars_occur_at(&chars("abcabc"), &chars("bc"), 5));
    assert!(!chars_occur_at(&chars("abcabc"), &chars("bc"), 600));
    assert!(chars_occur_at(&chars("abc"), &chars(""), 3));
    assert!(!chars_occur_at(&chars("abc"), &chars(""), 4));
    assert!(!chars_occur_at(&chars("abc"), &chars(""), usize::MAX));
}

#[test]
fn numbers_are_written_in_decimal() {
    for n in [0u64, 1, 9, 10, 11, 99, 100, 101, 12345, u64::MAX] {
        let mut out = String::from("n=");
        append_decimal(&mut out, n);
        assert_eq!(out, format!("n={}", n));
    }
}

#[test]
fn fixed_digits_pad_and_cut() {
    let fixed = |n: u64, width: usize| {
        let mut out = String::new();
        append_fixed_digits(&mut out, n, width);
        out
    };
    assert_eq!(fixed(7, 2), "07");
    assert_eq!(fixed(0, 2), "00");
    assert_eq!(fixed(42, 2), "42");
    assert_eq!(fixed(2026, 4), "2026");
    assert_eq!(fixed(987, 4), "0987");
    assert_eq!(fixed(12345, 4), "2345");
    assert_eq!(fixed(5, 0), "");
    for n in 0..100u64 {
        assert_eq!(fixed(n, 2), format!("{:02}", n));
    }
}

#[test]
fn digits_are_the_ten_of_the_decimal_system() {
    for c in ['0', '1', '2', '3', '4', '5', '6', '7', '8', '9'] {
        assert!(char_is_digit(c));
    }
    for c in ['/', ':', 'a', ' ', '-', '_', '٣', '２', 'x'] {
        assert!(!char_is_digit(c));
    }
}

#[test]
fn a_moment_is_told_by_its_shape() {
    assert!(chars_have_stamp_shape(&chars("2026-01-13_19-35-06"), 0));
    assert!(chars_have_stamp_shape(&chars("0000-00-00_00-00-00"), 0));
    assert!(chars_have_stamp_shape(&chars("w_2026-01-13_19-35-06"), 2));
    assert!(chars_have_stamp_shape(&chars("2026-01-13_19-35-06_server.log"), 0));
    assert!(!chars_have_stamp_shape(&chars("w_2026-01-13_19-35-06"), 0));
    assert!(!chars_have_stamp_shape(&chars("w_2026-01-13_19-35-06"), 3));
    assert!(!chars_have_stamp_shape(&chars("2026-01-13_19-35-06"), 1));
    assert!(!chars_have_stamp_shape(&chars("2026-01-13_19-35-0"), 0));
    assert!(!chars_have_stamp_shape(&chars(""), 0));
    assert!(!chars_have_stamp_shape(&chars("2026-01-13_19-35-06"), usize::MAX));
    let good: Vec<char> = chars("2026-01-13_19-35-06");
    for place in 0..19 {
        for wrong in ['x', '-', '_', '7', ' ', ':'] {
            let mut text = good.clone();
            if text[place] == wrong || (text[place].is_ascii_digit() && wrong == '7') {
                continue;
            }
            text[place] = wrong;
            assert!(!chars_have_stamp_shape(&text, 0), "{} {:?}", place, wrong);
        }
    }
}
