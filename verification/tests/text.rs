use koshelf::paths::{extension, stem};
use koshelf::text::{
    chars_of, concat2, concat3, decimal_string, ends_with, eq_ignore_ascii_case, find_char,
    join_texts, lines, owned, parse_u32, replace_char, rfind_char, signed_decimal_string,
    is_whitespace, split_once, starts_with, string_of, string_of_range, strip_suffix, text_eq, text_less,
    to_ascii_lower, trim, trim_end_matches, trim_range, lower_ascii_char, push_decimal,
};
use koshelf::utils::{char_kind, generate_book_id, hyphenate, CharKind};

#[test]
fn characters_and_strings_convert_both_ways() {
    let v = chars_of("héllo");
    assert_eq!(v, vec!['h', 'é', 'l', 'l', 'o']);
    assert_eq!(string_of(&v), "héllo");
    assert_eq!(string_of_range(&v, 1, 3), "él");
    assert_eq!(string_of_range(&v, 2, 2), "");
    assert_eq!(owned("x"), "x");
    assert_eq!(concat2("ab", "cd"), "abcd");
    assert_eq!(concat3("a", "", "c"), "ac");
}

#[test]
fn texts_compare_by_their_characters() {
    assert!(text_eq("abc", "abc"));
    assert!(!text_eq("abc", "abd"));
    assert!(!text_eq("abc", "ab"));
    assert!(text_eq("", ""));
    assert!(starts_with("metadata.epub.lua", "metadata."));
    assert!(!starts_with("meta", "metadata."));
    assert!(starts_with("x", ""));
    assert!(ends_with("a.fb2.zip", ".fb2.zip"));
    assert!(!ends_with("zip", ".fb2.zip"));
    assert_eq!(strip_suffix("book.sdr", ".sdr"), Some("book".to_string()));
    assert_eq!(strip_suffix(".sdr", ".sdr"), Some(String::new()));
    assert_eq!(strip_suffix("book.sd", ".sdr"), None);
}

#[test]
fn characters_are_found_from_either_end() {
    let v = chars_of("a.b.c");
    assert_eq!(find_char(&v, '.'), Some(1));
    assert_eq!(rfind_char(&v, '.'), Some(3));
    assert_eq!(find_char(&v, 'x'), None);
    assert_eq!(rfind_char(&v, 'x'), None);
    assert_eq!(split_once("key = value = more", '='), Some(("key ".to_string(), " value = more".to_string())));
    assert_eq!(split_once("no sign", '='), None);
    assert_eq!(replace_char("pt-BR-x", '-', '_'), "pt_BR_x");
}

#[test]
fn ascii_case_folds_only_ascii() {
    assert_eq!(to_ascii_lower("AbC-É9"), "abc-É9");
    assert_eq!(lower_ascii_char('Z'), 'z');
    assert_eq!(lower_ascii_char('['), '[');
    assert!(eq_ignore_ascii_case("AUTO", "auto"));
    assert!(eq_ignore_ascii_case("Hardcover-Edition", "hardcover-edition"));
    assert!(!eq_ignore_ascii_case("É", "é"));
}

#[test]
fn numbers_are_written_in_decimal() {
    assert_eq!(decimal_string(0), "0");
    assert_eq!(decimal_string(42), "42");
    assert_eq!(decimal_string(u64::MAX), "18446744073709551615");
    assert_eq!(signed_decimal_string(-5), "-5");
    assert_eq!(signed_decimal_string(2024), "2024");
    assert_eq!(signed_decimal_string(i64::MIN), "-9223372036854775808");
    let mut s = String::from("n=");
    push_decimal(&mut s, 100);
    assert_eq!(s, "n=100");
}

#[test]
fn digit_runs_are_read_as_numbers() {
    assert_eq!(parse_u32("0"), Some(0));
    assert_eq!(parse_u32("007"), Some(7));
    assert_eq!(parse_u32("4294967295"), Some(u32::MAX));
    assert_eq!(parse_u32("4294967296"), None);
    assert_eq!(parse_u32("99999999999999999999999"), None);
    assert_eq!(parse_u32(""), None);
    assert_eq!(parse_u32("+5"), None);
    assert_eq!(parse_u32("12a"), None);
    assert_eq!(parse_u32("٣"), None);
}

#[test]
fn texts_are_ordered_like_strings() {
    let samples = ["", "a", "ab", "abc", "b", "B", "é", "z", "aa", "a b"];
    for a in samples {
        for b in samples {
            assert_eq!(text_less(a, b), a < b, "{:?} < {:?}", a, b);
        }
    }
}

#[test]
fn white_space_is_trimmed_at_both_ends() {
    assert_eq!(trim("  a b \t\n"), "a b");
    assert_eq!(trim("\u{a0}x\u{2003}"), "x");
    assert_eq!(trim("   "), "");
    assert_eq!(trim(""), "");
    assert_eq!(trim("x"), "x");
    let v = chars_of("[ ab ]");
    assert_eq!(trim_range(&v, 1, 5), "ab");
}

#[test]
fn white_space_is_what_unicode_says() {
    for code in 0..=0x10ffffu32 {
        if let Some(c) = char::from_u32(code) {
            assert_eq!(is_whitespace(c), c.is_whitespace(), "U+{:04X}", code);
        }
    }
    assert!(is_whitespace('\u{3000}') && is_whitespace('\u{85}') && is_whitespace('\t'));
    assert!(!is_whitespace('\u{200b}') && !is_whitespace('\u{180e}') && !is_whitespace('\u{feff}'));
}

#[test]
fn lines_end_at_line_feeds() {
    assert_eq!(lines("a\nb\r\nc"), vec!["a", "b", "c"]);
    assert_eq!(lines("a\n"), vec!["a"]);
    assert_eq!(lines("a\n\nb"), vec!["a", "", "b"]);
    assert_eq!(lines("\n"), vec![""]);
    assert_eq!(lines(""), Vec::<String>::new());
    assert_eq!(lines("a\rb"), vec!["a\rb"]);
    assert_eq!(lines("a\r"), vec!["a\r"]);
    for sample in ["x\r\n\r\ny", "one", "\r\n", "a\n\r", "tail\n\n"] {
        let expected: Vec<String> = sample.lines().map(|l| l.to_string()).collect();
        assert_eq!(lines(sample), expected);
    }
}

#[test]
fn repeated_endings_are_all_removed() {
    assert_eq!(trim_end_matches("de.ftl", ".ftl"), "de");
    assert_eq!(trim_end_matches("de.ftl.ftl", ".ftl"), "de");
    assert_eq!(trim_end_matches(".ftl", ".ftl"), "");
    assert_eq!(trim_end_matches("de.ft", ".ftl"), "de.ft");
    assert_eq!(trim_end_matches("abc", ""), "abc");
}

#[test]
fn parts_are_joined_with_a_separator() {
    let parts = vec!["a".to_string(), "b".to_string(), "c".to_string()];
    assert_eq!(join_texts(&parts, ", "), "a, b, c");
    assert_eq!(join_texts(&parts[..1].to_vec(), ", "), "a");
    assert_eq!(join_texts(&Vec::new(), ", "), "");
}

#[test]
fn file_names_split_at_their_last_dot() {
    assert_eq!(extension("book.epub"), Some("epub".to_string()));
    assert_eq!(extension("a.fb2.zip"), Some("zip".to_string()));
    assert_eq!(extension("book."), Some(String::new()));
    assert_eq!(extension("book"), None);
    assert_eq!(extension(".hidden"), None);
    assert_eq!(extension("..a"), Some("a".to_string()));
    assert_eq!(stem("book.epub"), "book");
    assert_eq!(stem("a.fb2.zip"), "a.fb2");
    assert_eq!(stem(".hidden"), ".hidden");
    assert_eq!(stem("book"), "book");
    for name in ["book.epub", "a.b.c", ".hidden", "plain", "x.", "..a", ".a.b"] {
        let p = std::path::Path::new(name);
        assert_eq!(extension(name), p.extension().map(|e| e.to_str().unwrap().to_string()), "{}", name);
        assert_eq!(stem(name), p.file_stem().unwrap().to_str().unwrap(), "{}", name);
    }
}

#[test]
fn book_ids_are_the_words_of_the_title() {
    assert_eq!(generate_book_id("Hello, World!"), "hello-world");
    assert_eq!(generate_book_id("  The   Hobbit  "), "the-hobbit");
    assert_eq!(generate_book_id("Dune"), "dune");
    assert_eq!(generate_book_id("1984"), "1984");
    assert_eq!(generate_book_id("Война и мир"), "война-и-мир");
    assert_eq!(generate_book_id("a.b c"), "ab-c");
    assert_eq!(generate_book_id("!!!"), "");
    assert_eq!(generate_book_id(""), "");
    assert_eq!(generate_book_id(" ! x"), "x");
}

#[test]
fn characters_have_kinds() {
    assert_eq!(char_kind('a'), CharKind::Word);
    assert_eq!(char_kind('7'), CharKind::Word);
    assert_eq!(char_kind('é'), CharKind::Word);
    assert_eq!(char_kind(' '), CharKind::Space);
    assert_eq!(char_kind('\n'), CharKind::Space);
    assert_eq!(char_kind('-'), CharKind::Other);
    let chars = vec!['a', ' ', '-', ' ', 'b'];
    let kinds = vec![CharKind::Word, CharKind::Space, CharKind::Other, CharKind::Space, CharKind::Word];
    assert_eq!(hyphenate(&chars, &kinds), "a-b");
    assert_eq!(hyphenate(&chars, &kinds[..4].to_vec()), "");
}
