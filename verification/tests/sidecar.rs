use koshelf::koreader_metadata::DocumentStats;
use koshelf::library_item::BookStatus;
use koshelf::lua_parser::LuaParser;
use koshelf::lua_text::{
    read_escape, read_number, read_scalar, read_string, skip_blank, skip_digits, skip_token,
    skip_word, LuaNumber, Scalar,
};

const SIDECAR: &str = r#"-- we can read Lua syntax here!
return {
    ["annotations"] = {
        [1] = {
            ["chapter"] = "Chapter \"One\"",
            ["datetime"] = "2024-01-05 21:14:03",
            ["pageno"] = 12,
            ["pos0"] = "/body/DocFragment[4]/body/p[3]/text().0",
            ["pos1"] = "/body/DocFragment[4]/body/p[3]/text().72",
            ["text"] = "A line\
and another",
            ["note"] = "mine",
        },
        [2] = {
            ["chapter"] = "Two",
            ["datetime"] = "2024-01-06 08:00:00",
            ["page"] = "/body/DocFragment[5]",
            ["pageno"] = 40,
        },
        [3] = {
            ["pos0"] = { ["x"] = 1.5, ["y"] = 2, ["page"] = 7 },
            ["pageno"] = 7.0,
            ["text"] = 'single \'quoted\'',
        },
    },
    ["cache_file_path"] = "/mnt/onboard/.adds/koreader/cache/x.sdr", -- unknown key
    ["doc_pages"] = 320,
    ["doc_props"] = {
        ["authors"] = "Someone",
        ["nested"] = { { 1, 2, { 3 } }, "deep"; more = true },
    },
    ["partial_md5_checksum"] = "0123456789abcdef0123456789abcdef",
    ["percent_finished"] = 0.53678129,
    ["stats"] = {
        ["highlights"] = 2,
        ["notes"] = 1,
        ["pages"] = 320,
        ["title"] = "The Book",
    },
    ["summary"] = {
        ["modified"] = "2024-01-06",
        ["note"] = "so far so good",
        ["rating"] = 4,
        ["status"] = "reading",
    },
    ["text_lang"] = "en",
    unknown_flag = true,
}
"#;

fn parse(text: &str) -> Option<koshelf::koreader_metadata::KoReaderMetadata> {
    LuaParser::new().parse(text)
}

#[test]
fn a_sidecar_is_read_part_by_part() {
    let m = parse(SIDECAR).unwrap();
    assert_eq!(m.doc_pages, Some(320));
    assert_eq!(m.percent_finished, Some(536_781));
    assert_eq!(m.partial_md5_checksum.as_deref(), Some("0123456789abcdef0123456789abcdef"));
    assert_eq!(m.text_lang.as_deref(), Some("en"));
    assert_eq!(m.stats, Some(DocumentStats { notes: Some(1), highlights: Some(2), pages: Some(320) }));
    let summary = m.summary.unwrap();
    assert_eq!(summary.status, BookStatus::Reading);
    assert_eq!(summary.rating, Some(4));
    assert_eq!(summary.note.as_deref(), Some("so far so good"));
    assert_eq!(summary.modified.as_deref(), Some("2024-01-06"));
    assert_eq!(m.annotations.len(), 3);
    let first = &m.annotations[0];
    assert_eq!(first.chapter.as_deref(), Some("Chapter \"One\""));
    assert_eq!(first.datetime.as_deref(), Some("2024-01-05 21:14:03"));
    assert_eq!(first.pageno, Some(12));
    assert_eq!(first.text.as_deref(), Some("A line\nand another"));
    assert_eq!(first.note.as_deref(), Some("mine"));
    assert_eq!(first.pos0.as_deref(), Some("/body/DocFragment[4]/body/p[3]/text().0"));
    assert!(first.is_highlight());
    let second = &m.annotations[1];
    assert_eq!(second.chapter.as_deref(), Some("Two"));
    assert_eq!(second.text, None);
    assert!(second.is_bookmark());
    let third = &m.annotations[2];
    assert_eq!(third.pos0.as_deref(), Some(""));
    assert_eq!(third.pos1, None);
    assert_eq!(third.pageno, Some(7));
    assert_eq!(third.text.as_deref(), Some("single 'quoted'"));
    assert!(third.is_highlight());
}

#[test]
fn every_part_of_a_sidecar_may_be_missing() {
    let m = parse("return {}").unwrap();
    assert!(m.annotations.is_empty());
    assert!(m.summary.is_none() && m.stats.is_none());
    assert_eq!((m.percent_finished, m.doc_pages), (None, None));
    assert!(m.text_lang.is_none() && m.partial_md5_checksum.is_none());
    let m = parse("{ doc_pages = 5 }").unwrap();
    assert_eq!(m.doc_pages, Some(5));
    let m = parse("  -- only a comment\n return{[\"summary\"]={},[\"annotations\"]={}}").unwrap();
    assert_eq!(m.summary.unwrap().status, BookStatus::Unknown);
    assert!(m.annotations.is_empty());
}

#[test]
fn values_of_another_sort_are_passed_over() {
    let m = parse(
        r#"return {
            ["doc_pages"] = "many",
            ["percent_finished"] = { 1 },
            ["summary"] = "legacy",
            ["stats"] = 3,
            ["text_lang"] = 12,
            ["partial_md5_checksum"] = nil,
            ["annotations"] = { "stray", 7, { text = "kept" }, nil },
        }"#,
    )
    .unwrap();
    assert_eq!(m.doc_pages, None);
    assert_eq!(m.percent_finished, None);
    assert!(m.summary.is_none());
    assert!(m.stats.is_none());
    assert_eq!(m.text_lang, None);
    assert_eq!(m.partial_md5_checksum, None);
    assert_eq!(m.annotations.len(), 1);
    assert_eq!(m.annotations[0].text.as_deref(), Some("kept"));
}

#[test]
fn numbers_are_read_as_counts_and_progress() {
    let progress = |text: &str| parse(&format!("return {{ percent_finished = {} }}", text)).unwrap().percent_finished;
    assert_eq!(progress("1"), Some(1_000_000));
    assert_eq!(progress("1.0"), Some(1_000_000));
    assert_eq!(progress("0"), Some(0));
    assert_eq!(progress("0.5"), Some(500_000));
    assert_eq!(progress("0.0000019"), Some(1));
    assert_eq!(progress("0.123456789"), Some(123_456));
    assert_eq!(progress("-0.5"), Some(0));
    assert_eq!(progress("5000"), Some(u32::MAX));
    assert_eq!(progress("4294.967295"), Some(u32::MAX));
    assert_eq!(progress("4294.967294"), Some(4_294_967_294));
    assert_eq!(progress("99999999999999999999999"), Some(u32::MAX));
    assert_eq!(progress("1e-05"), None);
    assert_eq!(progress("0x10"), None);
    assert_eq!(progress(".5"), None);
    assert_eq!(progress("1."), Some(1_000_000));
    let pages = |text: &str| parse(&format!("return {{ doc_pages = {} }}", text)).unwrap().doc_pages;
    assert_eq!(pages("4294967295"), Some(u32::MAX));
    assert_eq!(pages("4294967296"), None);
    assert_eq!(pages("-1"), None);
    assert_eq!(pages("12.9"), Some(12));
}

#[test]
fn later_entries_replace_earlier_ones() {
    let m = parse(r#"return { doc_pages = 1, doc_pages = 2, doc_pages = "x", text_lang = "a", text_lang = "b" }"#).unwrap();
    assert_eq!(m.doc_pages, Some(2));
    assert_eq!(m.text_lang.as_deref(), Some("b"));
    let m = parse(r#"return { summary = { rating = 5, status = "complete" }, summary = { note = "n" } }"#).unwrap();
    let s = m.summary.unwrap();
    assert_eq!((s.rating, s.status), (None, BookStatus::Unknown));
    assert_eq!(s.note.as_deref(), Some("n"));
    let m = parse(r#"return { summary = { status = "abandoned", status = 3 } }"#).unwrap();
    assert_eq!(m.summary.unwrap().status, BookStatus::Abandoned);
    let m = parse(r#"return { summary = { status = "ABANDONED" } }"#).unwrap();
    assert_eq!(m.summary.unwrap().status, BookStatus::Unknown);
}

#[test]
fn what_is_no_table_is_no_metadata() {
    assert!(parse("").is_none());
    assert!(parse("return").is_none());
    assert!(parse("return 5").is_none());
    assert!(parse("return {").is_none());
    assert!(parse("return { doc_pages = }").is_none());
    assert!(parse("return { [\"a\" = 1 }").is_none());
    assert!(parse("return { [\"a\"] 1 }").is_none());
    assert!(parse("return { a = \"open }").is_none());
    assert!(parse("return { a = \"bad \\q escape\" }").is_none());
    assert!(parse("return { a = \"\\999\" }").is_none());
    assert!(parse("return { a = @ }").is_none());
    assert!(parse("return { a = { b = 1 }").is_none());
    assert!(parse("returned {}").is_none());
    assert!(parse("local x = {}").is_none());
    assert!(parse("return {} trailing words").is_some());
}

#[test]
fn tables_may_lie_32_deep() {
    let nested = |depth: usize| format!("return {{ x = {}1{} }}", "{".repeat(depth), "}".repeat(depth));
    assert!(parse(&nested(32)).is_some());
    assert!(parse(&nested(33)).is_none());
    assert!(parse(&format!("return {{ x = {} }}", "{".repeat(100_000))).is_none());
}

#[test]
fn blanks_and_comments_are_skipped() {
    let v: Vec<char> = "  \t\n-- note\n  -- more\r\nx".chars().collect();
    assert_eq!(skip_blank(&v, 0), v.len() - 1);
    assert_eq!(skip_blank(&v, v.len()), v.len());
    let v: Vec<char> = "-x".chars().collect();
    assert_eq!(skip_blank(&v, 0), 0);
    let v: Vec<char> = "--".chars().collect();
    assert_eq!(skip_blank(&v, 0), 2);
    let v: Vec<char> = "ab_1-2.5e x".chars().collect();
    assert_eq!(skip_word(&v, 0), 4);
    assert_eq!(skip_token(&v, 0), 9);
    assert_eq!(skip_digits(&v, 3), 4);
    assert_eq!(skip_digits(&v, 0), 0);
}

#[test]
fn strings_hold_their_escapes() {
    let read = |text: &str| {
        let v: Vec<char> = text.chars().collect();
        read_string(&v, 1, v[0]).map(|(s, end)| (s.into_iter().collect::<String>(), end))
    };
    assert_eq!(read(r#""plain" rest"#), Some(("plain".to_string(), 7)));
    assert_eq!(read(r#""a\"b\\c\'d""#), Some(("a\"b\\c'd".to_string(), 12)));
    assert_eq!(read(r#""\n\t\r\a\b\f\v""#), Some(("\n\t\r\u{7}\u{8}\u{c}\u{b}".to_string(), 16)));
    assert_eq!(read("\"\\65\\066\\0\\10x\\2556\""), Some(("AB\u{0}\nx\u{ff}6".to_string(), 20)));
    assert_eq!(read("'it''s'"), Some(("it".to_string(), 4)));
    assert_eq!(read("\"ünï\""), Some(("ünï".to_string(), 5)));
    assert_eq!(read("\"open"), None);
    assert_eq!(read("\"\\256\""), None);
    assert_eq!(read("\"\\"), None);
    let v: Vec<char> = "n".chars().collect();
    assert_eq!(read_escape(&v, 0), Some(('\n', 1)));
    assert_eq!(read_escape(&v, 1), None);
}

#[test]
fn words_stand_for_numbers_and_truth() {
    let number = |text: &str| {
        let v: Vec<char> = text.chars().collect();
        read_number(&v, 0, v.len())
    };
    assert_eq!(number("12"), Some(LuaNumber { negative: false, whole: 12, millionths: 0 }));
    assert_eq!(number("-3.25"), Some(LuaNumber { negative: true, whole: 3, millionths: 250_000 }));
    assert_eq!(number("0.000001"), Some(LuaNumber { negative: false, whole: 0, millionths: 1 }));
    assert_eq!(number("18446744073709551615"), Some(LuaNumber { negative: false, whole: u64::MAX, millionths: 0 }));
    assert_eq!(number("18446744073709551616.5"), Some(LuaNumber { negative: false, whole: u64::MAX, millionths: 500_000 }));
    assert_eq!(number("-"), None);
    assert_eq!(number(""), None);
    assert_eq!(number("1.2.3"), None);
    assert_eq!(number("12abc"), None);
    assert_eq!(number("--1"), None);
    let scalar = |text: &str| {
        let v: Vec<char> = text.chars().collect();
        read_scalar(&v, 0)
    };
    assert!(matches!(scalar("true,"), Some((Scalar::Truth(true), 4))));
    assert!(matches!(scalar("false"), Some((Scalar::Truth(false), 5))));
    assert!(matches!(scalar("nil }"), Some((Scalar::Other, 3))));
    assert!(matches!(scalar("True"), Some((Scalar::Other, 4))));
    assert!(matches!(scalar("7 "), Some((Scalar::Number(n), 1)) if n.whole == 7));
    assert!(matches!(scalar("\"t\"x"), Some((Scalar::Text(t), 3)) if t == "t"));
    assert!(scalar("").is_none());
    assert!(scalar("{").is_none());
    assert!(scalar("=").is_none());
}
