use yardmaster::clock::{rfc3339_from_unix, stamp_of_reading, LAST_SECOND};
use yardmaster::table::Table;
use yardmaster::text::{
    contains_text, eq_ignore_case, hex_string, i32_problem, i64_string, join, lines, padded_i64,
    padded_u64, parse_i32, parse_u32, parse_u64, precedes, replace, split, split_once,
    strip_prefix, to_uppercase, trim, trim_end, trim_end_char, u64_string,
};

const SAMPLES: [&str; 12] = [
    "",
    " ",
    "a",
    " a b ",
    "\u{a0}x\u{2003}",
    "a,b,,c",
    "line\nnext\r\n\nlast",
    "trailing\n",
    "straße ǆ İ",
    "Ünïcode",
    "a\rb",
    "#5",
];

#[test]
fn splitting_and_trimming_follow_the_standard_library() {
    for s in SAMPLES {
        assert_eq!(trim(s), s.trim(), "{s:?}");
        assert_eq!(trim_end(s), s.trim_end(), "{s:?}");
        assert_eq!(split(s, ','), s.split(',').collect::<Vec<_>>(), "{s:?}");
        assert_eq!(lines(s), s.lines().collect::<Vec<_>>(), "{s:?}");
        assert_eq!(to_uppercase(s), s.to_uppercase(), "{s:?}");
        assert_eq!(
            split_once(s, 'b'),
            s.split_once('b').map(|(a, b)| (a.to_owned(), b.to_owned())),
            "{s:?}"
        );
        assert_eq!(trim_end_char(s, 'c'), s.trim_end_matches('c'), "{s:?}");
        assert_eq!(
            strip_prefix(s, "#").as_deref(),
            s.strip_prefix("#"),
            "{s:?}"
        );
        assert_eq!(replace(s, "a", "xx"), s.replace("a", "xx"), "{s:?}");
        for t in SAMPLES {
            assert_eq!(contains_text(s, t), s.contains(t), "{s:?} {t:?}");
            assert_eq!(precedes(s, t), s < t, "{s:?} {t:?}");
            assert_eq!(
                eq_ignore_case(s, t),
                s.eq_ignore_ascii_case(t),
                "{s:?} {t:?}"
            );
        }
    }
    assert_eq!(join(&vec!["a".to_owned(), "b".to_owned()], ", "), "a, b");
}

#[test]
fn numerals_follow_the_standard_library() {
    for n in [0u64, 7, 10, 123, u64::MAX] {
        assert_eq!(u64_string(n), n.to_string());
    }
    for n in [0i64, -1, 42, i64::MIN, i64::MAX] {
        assert_eq!(i64_string(n), n.to_string());
    }
    assert_eq!(padded_u64(7, 3), "007");
    assert_eq!(padded_i64(-7, 4), format!("{:04}", -7));
    assert_eq!(hex_string(0xbeef, 6), "00beef");
    for s in [
        "", "0", "-1", "+5", "007", "4294967295", "4294967296", "99999999999999999999", "1x", "-",
        "+", " 1", "18446744073709551615", "18446744073709551616", "-2147483648", "-2147483649",
    ] {
        assert_eq!(parse_u32(s), s.parse::<u32>().ok(), "{s:?}");
        assert_eq!(parse_u64(s), s.parse::<u64>().ok(), "{s:?}");
        assert_eq!(parse_i32(s), s.parse::<i32>().ok(), "{s:?}");
        if let Err(e) = s.parse::<i32>() {
            assert_eq!(i32_problem(s), e.to_string(), "{s:?}");
        }
    }
}

#[test]
fn tables_walk_their_keys_in_order() {
    let t = Table::new()
        .insert("b".to_owned(), 1)
        .insert("a".to_owned(), 2)
        .insert("b".to_owned(), 3);
    assert_eq!(t.len(), 2);
    assert_eq!(t.key(0), "a");
    assert_eq!(*t.value(1), 3);
    assert_eq!(t.get("a"), Some(&2));
    assert_eq!(t.get("c"), None);
    assert!(t.contains_key("b"));
}

#[test]
fn a_clock_before_the_epoch_reads_as_the_epoch() {
    assert_eq!(stamp_of_reading(None), "1970-01-01T00:00:00Z");
    assert_eq!(stamp_of_reading(Some(86_400)), "1970-01-02T00:00:00Z");
}

#[test]
fn white_space_is_what_unicode_lists() {
    let listed = |c: char| {
        matches!(c, '\u{9}'..='\u{d}' | ' ' | '\u{85}' | '\u{a0}' | '\u{1680}')
            || matches!(c, '\u{2000}'..='\u{200a}' | '\u{2028}' | '\u{2029}' | '\u{202f}')
            || matches!(c, '\u{205f}' | '\u{3000}')
    };
    for c in '\0'..=char::MAX {
        assert_eq!(c.is_whitespace(), listed(c), "{c:?}");
        assert_eq!(trim(&c.to_string()).is_empty(), listed(c), "{c:?}");
    }
}

#[test]
fn clock_readings_are_signed() {
    assert_eq!(stamp_of_reading(Some(u64::MAX)), "1969-12-31T23:59:59Z");
}

#[test]
fn timestamps_sort_as_their_moments_do() {
    let moments = [
        0,
        1,
        59,
        60,
        3_599,
        3_600,
        86_399,
        86_400,
        951_782_399,
        951_782_400,
        4_102_444_799,
        4_102_444_800,
        LAST_SECOND,
    ];
    let stamps: Vec<String> = moments.iter().map(|s| rfc3339_from_unix(*s)).collect();
    for pair in stamps.windows(2) {
        assert!(pair[0] < pair[1], "{pair:?}");
        assert_eq!(pair[0].len(), 20);
    }
    assert_eq!(rfc3339_from_unix(951_782_400), "2000-02-29T00:00:00Z");
    assert_eq!(rfc3339_from_unix(LAST_SECOND), "9999-12-31T23:59:59Z");
    assert_eq!(rfc3339_from_unix(LAST_SECOND + 1), "10000-01-01T00:00:00Z");
}
