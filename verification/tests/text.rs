use silm::numerals::{parse_int, render_int};
use silm::text::{
    chars_of, find, join, lines, replace, rfind_char, split, split_whitespace, strip_line_end,
    text_of, trim,
};

fn chars(text: &str) -> Vec<char> {
    text.chars().collect()
}

fn strings(parts: Vec<Vec<char>>) -> Vec<String> {
    parts.iter().map(|part| part.iter().collect::<String>()).collect()
}

#[test]
fn chars_and_back() {
    assert_eq!(chars_of("a\u{e9}\u{4e2d}"), vec!['a', '\u{e9}', '\u{4e2d}']);
    assert_eq!(text_of(&vec!['o', 'k']), "ok");
    assert_eq!(text_of(&chars_of("")), "");
}

#[test]
fn trim_is_the_trim_of_std() {
    for text in ["", " ", "a", "  a b\t\n", "\u{a0}x\u{3000}", "\u{2003}", " \u{85}y z\u{1680} ", "\u{200b}"] {
        assert_eq!(text_of(&trim(&chars(text))), text.trim());
    }
}

#[test]
fn words_are_the_words_of_std() {
    for text in ["", "  ", "a", " a  b\tc\n", "x\u{a0}y", "let x = 1 + 2", "\u{200b} z"] {
        let expected: Vec<String> =
            text.split_whitespace().map(|word| word.to_string()).collect();
        assert_eq!(strings(split_whitespace(&chars(text))), expected);
    }
}

#[test]
fn join_puts_the_separator_between() {
    assert_eq!(text_of(&join(&vec![], &chars(", "))), "");
    assert_eq!(text_of(&join(&vec![chars("a")], &chars(", "))), "a");
    assert_eq!(text_of(&join(&vec![chars("a"), chars(""), chars("c")], &chars(", "))), "a, , c");
}

#[test]
fn split_is_the_split_of_std() {
    for text in ["", "a", "a\\;b", "\\;", "a\\;\\;b\\;", "a\\b;c", "\\\\;"] {
        let expected: Vec<String> = text.split("\\;").map(|piece| piece.to_string()).collect();
        assert_eq!(strings(split(&chars(text), &chars("\\;"))), expected);
    }
    assert_eq!(strings(split(&chars("abc"), &chars(""))), vec!["abc"]);
}

#[test]
fn lines_are_the_lines_of_std() {
    for text in ["", "\n", "a", "a\n", "a\r\n", "a\rb\r\n\r\nc\r", "\n\n", "a\n\nb", "\r\n\r"] {
        let expected: Vec<String> = text.lines().map(|line| line.to_string()).collect();
        assert_eq!(strings(lines(&chars(text))), expected);
    }
}

#[test]
fn replace_is_the_replace_of_std() {
    for (text, from, to) in [
        ("", "{x}", "1"),
        ("{x}", "{x}", "1"),
        ("a{x}b{x}", "{x}", "long"),
        ("aaa", "aa", "b"),
        ("{{x}x}", "{x}", ""),
        ("abc", "d", "e"),
        ("{x", "{x}", "1"),
    ] {
        assert_eq!(text_of(&replace(&chars(text), &chars(from), &chars(to))), text.replace(from, to));
    }
    assert_eq!(text_of(&replace(&chars("abc"), &chars(""), &chars("-"))), "abc");
}

#[test]
fn find_and_rfind() {
    assert_eq!(find(&chars("(a) :: b :: c"), &chars(" :: ")), Some(3));
    assert_eq!(find(&chars("a ::b"), &chars(" :: ")), None);
    assert_eq!(find(&chars("ab"), &chars("abc")), None);
    assert_eq!(find(&chars("ab"), &chars("")), Some(0));
    assert_eq!(find(&chars("xab"), &chars("ab")), Some(1));
    assert_eq!(rfind_char(&chars("a,b,c"), ','), Some(3));
    assert_eq!(rfind_char(&chars("abc"), ','), None);
    assert_eq!(rfind_char(&chars(","), ','), Some(0));
}

#[test]
fn line_ends_are_stripped_once() {
    assert_eq!(text_of(&strip_line_end(&chars("abc\n"))), "abc");
    assert_eq!(text_of(&strip_line_end(&chars("abc \r\n"))), "abc ");
    assert_eq!(text_of(&strip_line_end(&chars("abc"))), "abc");
    assert_eq!(text_of(&strip_line_end(&chars("abc\n\n"))), "abc\n");
    assert_eq!(text_of(&strip_line_end(&chars("abc\r"))), "abc\r");
    assert_eq!(text_of(&strip_line_end(&chars(""))), "");
    assert_eq!(text_of(&strip_line_end(&chars("\n"))), "");
}

#[test]
fn integers_are_read_as_std_reads_them() {
    for text in [
        "0", "7", "-7", "+7", "007", "-0", "2147483647", "2147483648", "-2147483648",
        "-2147483649", "99999999999999999999", "", "-", "+", "1a", "a1", "1.0", " 1", "--1", "1-",
        "00000000000000000000001",
    ] {
        assert_eq!(parse_int(&chars(text)), text.parse::<i32>().ok());
    }
}

#[test]
fn integers_are_written_as_std_writes_them() {
    for value in [0, 1, 9, 10, 11, 99, 100, 12345, -1, -10, -12345, i32::MAX, i32::MIN] {
        assert_eq!(text_of(&render_int(value)), value.to_string());
    }
}
