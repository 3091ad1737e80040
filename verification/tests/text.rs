use pf::order::{sort_stably, str_before};
use pf::text::{
    contains_str, dec, dec2, ends_with, has_char, hex, parse_port, split_lines, split_words,
    starts_with, str_eq, trim,
};

const SAMPLES: &[&str] = &[
    "",
    " ",
    "a",
    "a\n",
    "a\r\nb\rc\n\nd",
    "\n",
    "  two  words\t\u{2003}three \u{a0}",
    "été Ω 日本",
    "\u{85}x\u{3000}",
    "\r\n",
    "x\r",
];

#[test]
fn lines_words_and_trimming_are_those_of_std() {
    for s in SAMPLES {
        assert_eq!(split_lines(s), s.lines().collect::<Vec<_>>(), "{s:?}");
        assert_eq!(split_words(s), s.split_whitespace().collect::<Vec<_>>(), "{s:?}");
        assert_eq!(trim(s), s.trim(), "{s:?}");
    }
}

#[test]
fn searching_is_that_of_std() {
    for a in SAMPLES {
        for b in SAMPLES {
            assert_eq!(contains_str(a, b), a.contains(b), "{a:?} {b:?}");
            assert_eq!(starts_with(a, b), a.starts_with(b), "{a:?} {b:?}");
            assert_eq!(ends_with(a, b), a.ends_with(b), "{a:?} {b:?}");
            assert_eq!(str_eq(a, b), a == b);
            assert_eq!(str_before(a, b), a < b, "{a:?} {b:?}");
        }
        assert_eq!(has_char(a, 'x'), a.contains('x'));
    }
}

#[test]
fn ports_are_read_as_std_reads_them() {
    for s in ["0", "80", "65535", "65536", "+7", "+", "-1", "", " 1", "1 ", "007", "１", "99999999999999999999"] {
        assert_eq!(parse_port(s), s.parse::<u16>().ok(), "{s:?}");
    }
}

#[test]
fn numbers_are_written_as_std_writes_them() {
    for n in [0u64, 7, 10, 99, 100, 65_535, u64::MAX] {
        assert_eq!(dec(n), format!("{n}"));
        assert_eq!(dec2(n), format!("{n:02}"));
        assert_eq!(hex(n, 16), format!("{n:016x}"));
    }
}

#[test]
fn texts_sort_as_std_sorts_them() {
    let mut mine: Vec<String> = SAMPLES.iter().map(|s| s.to_string()).collect();
    let mut theirs = mine.clone();
    sort_stably(&mut mine);
    theirs.sort();
    assert_eq!(mine, theirs);
}
