use minigrep::cut::split_chars;
use minigrep::text::{chars_of, contains_chars, is_whitespace, line_holds, lines, trim};

const SAMPLES: [&str; 16] = [
    "",
    "\n",
    "\r",
    "\r\n",
    "\n\n",
    "a",
    "a\n",
    "a\r\n",
    "a\r",
    "a\rb\r\nc",
    "\r\r\n\r",
    "one\ntwo\nthree",
    "one\r\ntwo\r\n\r\nthree\r\n",
    "  spaced  \n\ttabbed\t\n",
    "héllo\nwörld\u{2028}still the same line\n",
    "\u{feff}bom\n\u{3000}wide\u{3000}\n",
];

#[test]
fn chars_of_gives_the_characters_in_order() {
    assert_eq!(vec!['h', 'é', '\n', '€', '𝄞'], chars_of("hé\n€𝄞"));
    assert_eq!(Vec::<char>::new(), chars_of(""));
}

#[test]
fn whitespace_is_what_the_standard_library_calls_whitespace() {
    for c in '\0'..=char::MAX {
        assert_eq!(c.is_whitespace(), is_whitespace(c), "U+{:04X}", c as u32);
    }
}

#[test]
fn whitespace_by_example() {
    for c in [' ', '\t', '\n', '\u{b}', '\u{c}', '\r', '\u{85}', '\u{a0}', '\u{3000}'] {
        assert!(is_whitespace(c));
    }
    for c in ['a', '0', '\u{8}', '\u{e}', '\u{200b}', '\u{feff}', '_'] {
        assert!(!is_whitespace(c));
    }
}

#[test]
fn lines_are_those_of_the_standard_library() {
    for s in SAMPLES {
        assert_eq!(s.lines().collect::<Vec<&str>>(), lines(s), "{:?}", s);
    }
}

#[test]
fn lines_by_example() {
    assert_eq!(Vec::<&str>::new(), lines(""));
    assert_eq!(vec![""], lines("\n"));
    assert_eq!(vec!["\r"], lines("\r"));
    assert_eq!(vec!["a", "b"], lines("a\nb"));
    assert_eq!(vec!["a", "b"], lines("a\r\nb\r\n"));
    assert_eq!(vec!["a", "", "b"], lines("a\n\nb\n"));
    assert_eq!(vec!["a\rb", "c\r"], lines("a\rb\nc\r"));
    assert_eq!(vec!["a\r", "b"], lines("a\r\r\nb"));
}

#[test]
fn trim_is_that_of_the_standard_library() {
    let more = [" a b ", "\u{a0}x\u{2003}", "   ", "\t\r\n", "a", " \u{200b} ", "é ", " é"];
    for s in SAMPLES.iter().chain(more.iter()) {
        assert_eq!(s.trim(), trim(s), "{:?}", s);
    }
}

#[test]
fn trim_by_example() {
    assert_eq!("a b", trim("  a b\t\n"));
    assert_eq!("", trim(" \u{3000}\t"));
    assert_eq!("", trim(""));
    assert_eq!("x", trim("x"));
    assert_eq!("é è", trim("\u{2009}é è\u{85}"));
}

#[test]
fn contains_is_that_of_the_standard_library() {
    let needles = ["", "a", "\n", "\r\n", "one", "two\r", "é", "llo\nw", "three\r\n", "xyz"];
    for hay in SAMPLES {
        for needle in needles {
            assert_eq!(
                hay.contains(needle),
                contains_chars(&chars_of(hay), &chars_of(needle)),
                "{:?} in {:?}",
                needle,
                hay
            );
        }
    }
}

#[test]
fn contains_by_example() {
    let hay = chars_of("productive");
    assert!(contains_chars(&hay, &chars_of("duct")));
    assert!(contains_chars(&hay, &chars_of("")));
    assert!(contains_chars(&hay, &chars_of("productive")));
    assert!(contains_chars(&hay, &chars_of("e")));
    assert!(!contains_chars(&hay, &chars_of("Duct")));
    assert!(!contains_chars(&hay, &chars_of("productive.")));
    assert!(!contains_chars(&hay, &chars_of("dutc")));
    assert!(contains_chars(&chars_of("aab"), &chars_of("ab")));
    assert!(contains_chars(&[], &[]));
    assert!(!contains_chars(&[], &['a']));
}

#[test]
fn line_holds_by_example() {
    assert!(line_holds("safe, fast, productive.", &chars_of("duct")));
    assert!(!line_holds("Duct tape.", &chars_of("duct")));
    assert!(line_holds("", &[]));
    assert!(line_holds("größer", &['ö', 'ß']));
}

#[test]
fn split_chars_counts_characters() {
    assert_eq!(("hé", "llo"), split_chars("héllo", 2));
    assert_eq!(("", "héllo"), split_chars("héllo", 0));
    assert_eq!(("héllo", ""), split_chars("héllo", 5));
    assert_eq!(("€𝄞", "\n"), split_chars("€𝄞\n", 2));
    assert_eq!(("", ""), split_chars("", 0));
}

#[test]
fn split_chars_gives_slices_of_the_text() {
    let s = String::from("añb");
    let (head, tail) = split_chars(&s, 2);
    assert_eq!(s.as_ptr(), head.as_ptr());
    assert_eq!(s.as_ptr() as usize + 3, tail.as_ptr() as usize);
}

#[test]
fn long_text_is_split_line_by_line() {
    let mut s = String::new();
    for i in 0..20000 {
        s.push_str(&format!("line {} é\r\n", i));
    }
    let found = lines(&s);
    assert_eq!(20000, found.len());
    assert_eq!("line 0 é", found[0]);
    assert_eq!("line 19999 é", found[19999]);
    assert_eq!(s.lines().collect::<Vec<&str>>(), found);
}
