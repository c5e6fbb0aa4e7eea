use std::io::Write;

use koshelf::base64::decode_base64;
use koshelf::comic::{image_kind_of, list_items, pages, ComicParser};
use koshelf::epub::{cover_reference, folder, package_facts, read_document, rootfile_path, EpubParser};
use koshelf::fb2::Fb2Parser;
use koshelf::library_item::LibraryItemFormat;
use koshelf::parsers::{is_zipped, parse_book_info};
use koshelf::markup::{
    all_texts_at, attribute, build_nodes, find_path, first_text_at, local_name_of, subtree_end,
    text_of_subtree,
};
use koshelf::mobi::{image_type, read_be16, read_be32, read_layout, read_text, read_values, record_at, MobiParser};
use koshelf::text::sort_texts;
use koshelf::xml::{decode, read_xml, XmlEvent};

fn archive(entries: &[(&str, &[u8], bool)]) -> Vec<u8> {
    let mut writer = zip::ZipWriter::new(std::io::Cursor::new(Vec::new()));
    for (name, content, deflate) in entries {
        let method = if *deflate { zip::CompressionMethod::Deflated } else { zip::CompressionMethod::Stored };
        let options = zip::write::SimpleFileOptions::default().compression_method(method);
        writer.start_file(*name, options).unwrap();
        writer.write_all(content).unwrap();
    }
    writer.finish().unwrap().into_inner()
}

fn nodes(text: &str) -> Vec<koshelf::markup::XmlNode> {
    build_nodes(&read_xml(text).unwrap())
}

fn shown(events: &[XmlEvent]) -> Vec<String> {
    events
        .iter()
        .map(|e| match e {
            XmlEvent::Open { name, attributes } => {
                let a: Vec<String> = attributes.iter().map(|(k, v)| format!("{}={}", k, v)).collect();
                format!("<{} {}>", name, a.join(","))
            }
            XmlEvent::Close { name } => format!("</{}>", name),
            XmlEvent::Text(t) => format!("'{}'", t),
        })
        .collect()
}

const FB2: &str = r##"<?xml version="1.0" encoding="utf-8"?>
<FictionBook xmlns="http://www.gribuser.ru/xml/fictionbook/2.0" xmlns:l="http://www.w3.org/1999/xlink">
 <description>
  <title-info>
   <genre>sf_fantasy</genre>
   <genre> prose </genre>
   <genre/>
   <author><first-name>Leo</first-name><middle-name>N.</middle-name><last-name>Tolstoy</last-name></author>
   <author><last-name>Anonymous</last-name></author>
   <author><nickname>ghost</nickname></author>
   <author><home-page>http://x</home-page></author>
   <book-title>War &amp; Peace</book-title>
   <annotation><p>First paragraph.</p><p>Second &#8212; one.</p></annotation>
   <coverpage><image l:href="#cover.jpg"/></coverpage>
   <lang>ru</lang>
   <sequence name="Classics" number="7"/>
  </title-info>
  <document-info><author><nickname>maker</nickname></author></document-info>
  <publish-info><publisher>The Press</publisher><isbn>978-5-00-000000-0</isbn></publish-info>
 </description>
 <body><section><title><p>Chapter</p></title><p>Text <emphasis>of</emphasis> the book.</p></section></body>
 <binary id="other.png" content-type="image/png">AAAA</binary>
 <binary id="cover.jpg" content-type="image/jpeg">aGVs
   bG8=</binary>
</FictionBook>"##;

const CONTAINER: &str = r#"<?xml version="1.0"?>
<container version="1.0" xmlns="urn:oasis:names:tc:opendocument:xmlns:container">
  <rootfiles><rootfile full-path="OEBPS/content.opf" media-type="application/oebps-package+xml"/></rootfiles>
</container>"#;

const PACKAGE: &str = r#"<?xml version="1.0" encoding="UTF-8"?>
<package xmlns="http://www.idpf.org/2007/opf" version="2.0" unique-identifier="uid">
  <metadata xmlns:dc="http://purl.org/dc/elements/1.1/" xmlns:opf="http://www.idpf.org/2007/opf">
    <dc:title>Dune</dc:title>
    <dc:title>Second Title</dc:title>
    <dc:creator opf:role="aut">Frank Herbert</dc:creator>
    <dc:creator>Another Author</dc:creator>
    <dc:description>&lt;p&gt;Sand.&lt;/p&gt;</dc:description>
    <dc:language>en</dc:language>
    <dc:publisher>Chilton</dc:publisher>
    <dc:identifier id="uid" opf:scheme="ISBN">9780441172719</dc:identifier>
    <dc:identifier>urn:uuid:1234-5678</dc:identifier>
    <dc:identifier>plain-value</dc:identifier>
    <dc:identifier opf:scheme="empty"></dc:identifier>
    <dc:subject>Science Fiction</dc:subject>
    <dc:subject>Classic</dc:subject>
    <meta content="Dune Chronicles" name="calibre:series"/>
    <meta name="calibre:series_index" content="1.0"/>
    <meta name="cover" content="cover-img"/>
  </metadata>
  <manifest>
    <item id="ncx" href="toc.ncx" media-type="application/x-dtbncx+xml"/>
    <item id="cover-img" href="images/cover.jpg" media-type="image/jpeg"/>
    <item id="ch1" href="ch1.xhtml" media-type="application/xhtml+xml" properties="cover-image"/>
  </manifest>
</package>"#;

#[test]
fn markup_is_read_as_events() {
    let events = read_xml("<a x=\"1\" y = 'two words'>text<b/>more</a><!-- c --><?pi?><![CDATA[<raw&>]]>").unwrap();
    assert_eq!(
        shown(&events),
        vec!["<a x=1,y=two words>", "'text'", "<b >", "</b>", "'more'", "</a>", "'<raw&>'"]
    );
    assert_eq!(shown(&read_xml("").unwrap()), Vec::<String>::new());
    assert_eq!(shown(&read_xml("just text").unwrap()), vec!["'just text'"]);
    assert_eq!(shown(&read_xml("<!DOCTYPE html><p >x</p >").unwrap()), vec!["<p >", "'x'", "</p>"]);
    assert_eq!(shown(&read_xml("<ns:a ns:k=\"v\"></ns:a>").unwrap()), vec!["<ns:a ns:k=v>", "</ns:a>"]);
}

#[test]
fn malformed_markup_is_refused() {
    for bad in ["<a", "<a x>", "<a x=1>", "<a x=\"1>", "<>", "</>", "<a></a", "<!-- open", "<![CDATA[ open", "<?pi", "<!DOCTYPE", "< a>", "<a/ >"] {
        assert!(read_xml(bad).is_none(), "{}", bad);
    }
}

#[test]
fn entities_stand_for_their_characters() {
    let decoded = |text: &str| {
        let v: Vec<char> = text.chars().collect();
        decode(&v, 0, v.len())
    };
    assert_eq!(decoded("a &lt; b &gt; c &amp; d &quot;e&quot; &apos;f&apos;"), "a < b > c & d \"e\" 'f'");
    assert_eq!(decoded("&#65;&#x42;&#X43;&#8212;&#x1F600;"), "ABC\u{2014}\u{1F600}");
    assert_eq!(decoded("&unknown; &amp &; & &#; &#x; &#xZZ; &#55296; &#1114112; &#99999999999;"),
        "&unknown; &amp &; & &#; &#x; &#xZZ; &#55296; &#1114112; &#99999999999;");
    assert_eq!(decoded("&amp;amp;"), "&amp;");
    assert_eq!(decoded("&verylongentityname;"), "&verylongentityname;");
    assert_eq!(decoded(""), "");
    let v: Vec<char> = "x&lt;y".chars().collect();
    assert_eq!(decode(&v, 1, 4), "&lt");
    assert_eq!(decode(&v, 1, 5), "<");
}

#[test]
fn elements_know_their_paths() {
    let n = nodes("<r><a k='1'>one<b>two</b>three</a><x:a>four</x:a><c/></r>");
    let paths: Vec<(&str, usize, &str)> = n.iter().map(|n| (n.path.as_str(), n.depth, n.text.as_str())).collect();
    assert_eq!(
        paths,
        vec![("r", 0, ""), ("r/a", 1, "onethree"), ("r/a/b", 2, "two"), ("r/a", 1, "four"), ("r/c", 1, "")]
    );
    assert_eq!(subtree_end(&n, 0), 5);
    assert_eq!(subtree_end(&n, 1), 3);
    assert_eq!(subtree_end(&n, 2), 3);
    assert_eq!(subtree_end(&n, 4), 5);
    assert_eq!(find_path(&n, 0, 5, "r/a"), Some(1));
    assert_eq!(find_path(&n, 2, 5, "r/a"), Some(3));
    assert_eq!(find_path(&n, 0, 5, "a"), None);
    assert_eq!(text_of_subtree(&n, 1), "onethree\ntwo");
    assert_eq!(text_of_subtree(&n, 0), "onethree\ntwo\nfour");
    assert_eq!(first_text_at(&n, 0, 5, "r/a"), Some("onethree\ntwo".to_string()));
    assert_eq!(first_text_at(&n, 0, 5, "r/c"), None);
    assert_eq!(all_texts_at(&n, 0, 5, "r/a"), vec!["onethree\ntwo", "four"]);
    assert_eq!(attribute(&n[1], "k"), Some("1".to_string()));
    assert_eq!(attribute(&n[1], "missing"), None);
    assert_eq!(local_name_of("dc:title"), "title");
    assert_eq!(local_name_of("title"), "title");
    assert_eq!(local_name_of("a:b:c"), "c");
    let loose = nodes("</x>text<a>in</a>after</a></a><b>late</b>");
    let texts: Vec<(&str, &str)> = loose.iter().map(|n| (n.path.as_str(), n.text.as_str())).collect();
    assert_eq!(texts, vec![("a", "in"), ("b", "late")]);
}

#[test]
fn base64_is_decoded_with_or_without_padding() {
    assert_eq!(decode_base64(""), Some(Vec::new()));
    assert_eq!(decode_base64("aGVsbG8="), Some(b"hello".to_vec()));
    assert_eq!(decode_base64("aGVsbG8"), Some(b"hello".to_vec()));
    assert_eq!(decode_base64("aGVs\n bG8g\td29y\r\nbGQ="), Some(b"hello world".to_vec()));
    assert_eq!(decode_base64("TQ=="), Some(b"M".to_vec()));
    assert_eq!(decode_base64("TWE="), Some(b"Ma".to_vec()));
    assert_eq!(decode_base64("TWFu"), Some(b"Man".to_vec()));
    assert_eq!(decode_base64("//79"), Some(vec![0xff, 0xfe, 0xfd]));
    assert_eq!(decode_base64("__79"), Some(vec![0xff, 0xfe, 0xfd]));
    assert_eq!(decode_base64("+-+-"), Some(vec![0xfb, 0xef, 0xbe]));
    assert_eq!(decode_base64("TWFu=ignored!"), Some(b"Man".to_vec()));
    assert_eq!(decode_base64("T"), None);
    assert_eq!(decode_base64("TWFuT"), None);
    assert_eq!(decode_base64("TW!u"), None);
    assert_eq!(decode_base64("é"), None);
}

#[test]
fn a_fictionbook_describes_itself() {
    let info = Fb2Parser::new().parse_text(FB2).unwrap();
    assert_eq!(info.title, "War & Peace");
    assert_eq!(info.authors, vec!["Leo N. Tolstoy", "Anonymous", "ghost"]);
    assert_eq!(info.description.as_deref(), Some("First paragraph.\nSecond \u{2014} one."));
    assert_eq!(info.language.as_deref(), Some("ru"));
    assert_eq!(info.publisher.as_deref(), Some("The Press"));
    assert_eq!(info.subjects, vec!["sf_fantasy", "prose"]);
    assert_eq!(info.series.as_deref(), Some("Classics"));
    assert_eq!(info.series_number.as_deref(), Some("7"));
    assert_eq!(info.pages, None);
    assert_eq!(info.cover_data, Some(b"hello".to_vec()));
    assert_eq!(info.cover_mime_type.as_deref(), Some("image/jpeg"));
    assert_eq!(info.identifiers.len(), 1);
    assert_eq!((info.identifiers[0].scheme.as_str(), info.identifiers[0].value.as_str()), ("isbn", "978-5-00-000000-0"));
    let same = Fb2Parser::new().parse(&FB2.as_bytes().to_vec()).unwrap();
    assert_eq!(same.title, info.title);
    assert_eq!(same.authors, info.authors);
}

#[test]
fn a_fictionbook_needs_a_title() {
    let parser = Fb2Parser::new();
    assert!(parser.parse_text("<FictionBook><description><title-info><lang>en</lang></title-info></description></FictionBook>").is_none());
    assert!(parser.parse_text("<FictionBook><description><title-info><book-title>  </book-title></title-info></description></FictionBook>").is_none());
    assert!(parser.parse_text("<book-title>T</book-title>").is_none());
    assert!(parser.parse_text("<FictionBook><description><title-info><book-title>T</book-title").is_none());
    assert_eq!(parser.parse_text("<FictionBook><description><title-info><book-title>T").unwrap().title, "T");
    assert!(parser.parse_text("").is_none());
    let bare = parser
        .parse_text("<FictionBook><description><title-info><book-title>T</book-title><coverpage><image href='#missing'/></coverpage></title-info></description><binary id='bad'>!!</binary></FictionBook>")
        .unwrap();
    assert_eq!(bare.title, "T");
    assert!(bare.authors.is_empty() && bare.subjects.is_empty() && bare.identifiers.is_empty());
    assert_eq!((bare.cover_data, bare.cover_mime_type, bare.series, bare.description), (None, None, None, None));
    let undecodable = parser
        .parse_text("<FictionBook><description><title-info><book-title>T</book-title><coverpage><image href='#c'/></coverpage></title-info></description><binary id='c' content-type='image/png'>!!</binary></FictionBook>")
        .unwrap();
    assert_eq!((undecodable.cover_data, undecodable.cover_mime_type), (None, None));
}

#[test]
fn a_zipped_fictionbook_is_read_from_its_entry() {
    let zipped = archive(&[("readme.txt", b"hi", false), ("Book.FB2", FB2.as_bytes(), true), ("b.fb2", b"<x/>", false)]);
    let info = Fb2Parser::new().parse_zipped(&zipped).unwrap();
    assert_eq!(info.title, "War & Peace");
    assert!(Fb2Parser::new().parse_zipped(&archive(&[("readme.txt", b"hi", false)])).is_none());
    assert!(Fb2Parser::new().parse_zipped(&b"no archive".to_vec()).is_none());
    let names = vec!["a.txt".to_string(), "x.fb2.bak".to_string(), "dir/y.Fb2".to_string()];
    assert_eq!(Fb2Parser::book_entry(&names), Some(2));
    assert_eq!(Fb2Parser::book_entry(&names[..2].to_vec()), None);
}

#[test]
fn an_epub_describes_itself() {
    let epub = archive(&[
        ("mimetype", b"application/epub+zip", false),
        ("META-INF/container.xml", CONTAINER.as_bytes(), true),
        ("OEBPS/content.opf", PACKAGE.as_bytes(), true),
        ("OEBPS/images/cover.jpg", &[0xff, 0xd8, 0xff, 0xe0, 1, 2, 3], false),
    ]);
    let info = EpubParser::new().parse(&epub).unwrap();
    assert_eq!(info.title, "Dune");
    assert_eq!(info.authors, vec!["Frank Herbert", "Another Author"]);
    assert_eq!(info.description.as_deref(), Some("<p>Sand.</p>"));
    assert_eq!(info.language.as_deref(), Some("en"));
    assert_eq!(info.publisher.as_deref(), Some("Chilton"));
    assert_eq!(info.subjects, vec!["Science Fiction", "Classic"]);
    assert_eq!(info.series.as_deref(), Some("Dune Chronicles"));
    assert_eq!(info.series_number.as_deref(), Some("1.0"));
    assert_eq!(info.pages, None);
    assert_eq!(info.cover_data, Some(vec![0xff, 0xd8, 0xff, 0xe0, 1, 2, 3]));
    assert_eq!(info.cover_mime_type.as_deref(), Some("image/jpeg"));
    let ids: Vec<(&str, &str)> = info.identifiers.iter().map(|i| (i.scheme.as_str(), i.value.as_str())).collect();
    assert_eq!(ids, vec![("ISBN", "9780441172719"), ("uuid", "1234-5678"), ("identifier", "plain-value")]);
}

#[test]
fn an_epub_without_its_parts_is_no_book() {
    let parser = EpubParser::new();
    assert!(parser.parse(&b"no archive".to_vec()).is_none());
    assert!(parser.parse(&archive(&[("mimetype", b"x", false)])).is_none());
    assert!(parser.parse(&archive(&[("META-INF/container.xml", b"<container/>", false)])).is_none());
    assert!(parser.parse(&archive(&[("META-INF/container.xml", CONTAINER.as_bytes(), false)])).is_none());
    assert!(parser
        .parse(&archive(&[("META-INF/container.xml", CONTAINER.as_bytes(), false), ("OEBPS/content.opf", b"<package><metadata/></package>", false)]))
        .is_none());
    assert!(parser
        .parse(&archive(&[("META-INF/container.xml", CONTAINER.as_bytes(), false), ("OEBPS/content.opf", b"<package", false)]))
        .is_none());
    let no_cover = parser
        .parse(&archive(&[("META-INF/container.xml", CONTAINER.as_bytes(), false), ("OEBPS/content.opf", PACKAGE.as_bytes(), false)]))
        .unwrap();
    assert_eq!((no_cover.cover_data, no_cover.cover_mime_type), (None, None));
    assert_eq!(no_cover.title, "Dune");
}

#[test]
fn the_package_names_its_cover() {
    let package = read_document(&PACKAGE.as_bytes().to_vec()).unwrap();
    assert_eq!(cover_reference(&package), Some(("images/cover.jpg".to_string(), Some("image/jpeg".to_string()))));
    assert_eq!(package_facts(&package).unwrap().title, "Dune");
    let marked = read_document(&b"<package><manifest><item id='a' href='a.png'/><item properties='cover-image' href='c.png'/></manifest></package>".to_vec()).unwrap();
    assert_eq!(cover_reference(&marked), Some(("c.png".to_string(), None)));
    let dangling = read_document(&b"<package><metadata><meta name='cover' content='nope'/></metadata><manifest><item properties='cover-image' href='c.png'/></manifest></package>".to_vec()).unwrap();
    assert_eq!(cover_reference(&dangling), None);
    let container = read_document(&CONTAINER.as_bytes().to_vec()).unwrap();
    assert_eq!(rootfile_path(&container), Some("OEBPS/content.opf".to_string()));
    assert_eq!(rootfile_path(&package), None);
    assert_eq!(folder("OEBPS/content.opf"), "OEBPS/");
    assert_eq!(folder("content.opf"), "");
    assert_eq!(folder("a/b/c.opf"), "a/b/");
    assert!(read_document(&b"<open".to_vec()).is_none());
}

#[test]
fn a_comic_counts_its_pages_and_shows_the_first() {
    let comic = archive(&[
        ("art/010.png", b"ten", false),
        ("art/002.JPG", b"two", true),
        ("ComicInfo.xml", b"<ComicInfo><Title>Issue One</Title><Series>Saga</Series><Number>1</Number><Writer>Ann, Bob ,, Cid</Writer><Publisher>Image</Publisher><Summary>Begins.</Summary><LanguageISO>en</LanguageISO><Genre>Space , Opera</Genre></ComicInfo>", true),
        ("art/001.jpeg", b"one", false),
        ("notes.txt", b"x", false),
    ]);
    let info = ComicParser::new().parse(&comic, "fallback").unwrap();
    assert_eq!(info.title, "Issue One");
    assert_eq!(info.authors, vec!["Ann", "Bob", "Cid"]);
    assert_eq!(info.subjects, vec!["Space", "Opera"]);
    assert_eq!(info.series.as_deref(), Some("Saga"));
    assert_eq!(info.series_number.as_deref(), Some("1"));
    assert_eq!(info.publisher.as_deref(), Some("Image"));
    assert_eq!(info.description.as_deref(), Some("Begins."));
    assert_eq!(info.language.as_deref(), Some("en"));
    assert_eq!(info.pages, Some(3));
    assert_eq!(info.cover_data, Some(b"one".to_vec()));
    assert_eq!(info.cover_mime_type.as_deref(), Some("image/jpeg"));
    assert!(info.identifiers.is_empty());
}

#[test]
fn a_comic_without_information_goes_by_its_file_name() {
    let comic = archive(&[("b.gif", b"b", false), ("a.webp", b"a", false), ("c.bmp", b"c", false)]);
    let info = ComicParser::new().parse(&comic, "My Comic").unwrap();
    assert_eq!(info.title, "My Comic");
    assert_eq!(info.pages, Some(3));
    assert_eq!(info.cover_data, Some(b"a".to_vec()));
    assert_eq!(info.cover_mime_type.as_deref(), Some("image/webp"));
    assert!(info.authors.is_empty() && info.subjects.is_empty());
    assert!(ComicParser::new().parse(&archive(&[("readme.txt", b"x", false)]), "t").is_none());
    assert!(ComicParser::new().parse(&b"junk".to_vec(), "t").is_none());
    let broken = archive(&[("p.png", b"p", false), ("comicinfo.XML", b"<ComicInfo><Title>T</Title", false)]);
    assert_eq!(ComicParser::new().parse(&broken, "Fallback").unwrap().title, "Fallback");
    let open = archive(&[("p.png", b"p", false), ("comicinfo.XML", b"<ComicInfo><Title>T", false)]);
    assert_eq!(ComicParser::new().parse(&open, "Fallback").unwrap().title, "T");
}

#[test]
fn pages_are_the_images_in_the_order_of_their_names() {
    let names: Vec<String> = ["z.png", "a.txt", "B.jpg", "a.jpg", "dir/", "10.png", "2.png", "x.PNG.bak"]
        .iter().map(|n| n.to_string()).collect();
    assert_eq!(pages(&names), vec!["10.png", "2.png", "B.jpg", "a.jpg", "z.png"]);
    assert_eq!(image_kind_of("a.JPeG"), Some("image/jpeg".to_string()));
    assert_eq!(image_kind_of("a.tiff"), None);
    assert_eq!(list_items(" a , b,,c "), vec!["a", "b", "c"]);
    assert_eq!(list_items(""), Vec::<String>::new());
    assert_eq!(list_items(" , "), Vec::<String>::new());
    assert_eq!(list_items("one"), vec!["one"]);
    assert_eq!(ComicParser::info_position(&names), None);
    assert_eq!(ComicParser::info_position(&vec!["x".to_string(), "COMICINFO.xml".to_string()]), Some(1));
    let mut expected: Vec<String> = vec!["b", "a", "", "ab", "B", "é", "a"].into_iter().map(String::from).collect();
    let sorted = sort_texts(expected.clone());
    expected.sort();
    assert_eq!(sorted, expected);
}

#[test]
fn each_format_is_read_by_its_reader() {
    let epub = archive(&[
        ("META-INF/container.xml", CONTAINER.as_bytes(), true),
        ("OEBPS/content.opf", PACKAGE.as_bytes(), true),
    ]);
    let zipped = archive(&[("book.fb2", FB2.as_bytes(), true)]);
    let comic = archive(&[("1.png", b"one", false)]);
    let plain = FB2.as_bytes().to_vec();
    let title = |format, name: &str, content: &Vec<u8>| parse_book_info(format, name, content).map(|i| i.title);
    assert_eq!(title(LibraryItemFormat::Epub, "dune.epub", &epub), Some("Dune".to_string()));
    assert_eq!(title(LibraryItemFormat::Fb2, "war.fb2", &plain), Some("War & Peace".to_string()));
    assert_eq!(title(LibraryItemFormat::Fb2, "war.fb2.ZIP", &zipped), Some("War & Peace".to_string()));
    assert_eq!(title(LibraryItemFormat::Fb2, "war.fb2", &zipped), None);
    assert_eq!(title(LibraryItemFormat::Fb2, "war.fb2.zip", &plain), None);
    assert_eq!(title(LibraryItemFormat::Cbz, "Issue 1.v2.cbz", &comic), Some("Issue 1.v2".to_string()));
    assert_eq!(title(LibraryItemFormat::Cbz, "cbz", &comic), Some("cbz".to_string()));
    assert_eq!(title(LibraryItemFormat::Cbr, "issue.cbr", &comic), None);
    assert_eq!(title(LibraryItemFormat::Mobi, "x.mobi", &mobi(65001, b"Name", None, &[])), Some("Name".to_string()));
    assert_eq!(title(LibraryItemFormat::Mobi, "x.mobi", &epub), None);
    assert_eq!(title(LibraryItemFormat::Epub, "x.epub", &plain), None);
    assert!(is_zipped("a.zip") && is_zipped("A.FB2.Zip") && is_zipped(".zip"));
    assert!(!is_zipped("a.fb2") && !is_zipped("zip") && !is_zipped("a.zip.bak") && !is_zipped(""));
}

#[test]
fn damaged_archives_are_refused_without_harm() {
    let good = archive(&[
        ("META-INF/container.xml", CONTAINER.as_bytes(), true),
        ("OEBPS/content.opf", PACKAGE.as_bytes(), false),
        ("001.png", b"page", false),
        ("book.fb2", FB2.as_bytes(), true),
    ]);
    assert!(EpubParser::new().parse(&good).is_some());
    for cut in 0..good.len() {
        let part = good[..cut].to_vec();
        let _ = EpubParser::new().parse(&part);
        let _ = ComicParser::new().parse(&part, "t");
        let _ = Fb2Parser::new().parse_zipped(&part);
    }
    let mut state: u32 = 0x2545_f491;
    for _ in 0..400 {
        let mut damaged = good.clone();
        for _ in 0..3 {
            state ^= state << 13;
            state ^= state >> 17;
            state ^= state << 5;
            let at = state as usize % damaged.len();
            damaged[at] = (state >> 8) as u8;
        }
        let _ = EpubParser::new().parse(&damaged);
        let _ = ComicParser::new().parse(&damaged, "t");
        let _ = Fb2Parser::new().parse_zipped(&damaged);
    }
    for size in [0usize, 1, 21, 22, 23, 64, 4096] {
        for fill in [0u8, 0x50, 0xff] {
            let _ = EpubParser::new().parse(&vec![fill; size]);
        }
    }
}

fn be32(n: u32) -> [u8; 4] {
    n.to_be_bytes()
}

fn exth(records: &[(u32, &[u8])]) -> Vec<u8> {
    let mut body = Vec::new();
    for (kind, data) in records {
        body.extend_from_slice(&be32(*kind));
        body.extend_from_slice(&be32(data.len() as u32 + 8));
        body.extend_from_slice(data);
    }
    let mut out = b"EXTH".to_vec();
    out.extend_from_slice(&be32(body.len() as u32 + 12));
    out.extend_from_slice(&be32(records.len() as u32));
    out.extend_from_slice(&body);
    out
}

fn mobi(encoding: u32, full_name: &[u8], records: Option<&[(u32, &[u8])]>, others: &[&[u8]]) -> Vec<u8> {
    let extended = records.map(exth).unwrap_or_default();
    let mut record0 = vec![0u8; 16];
    let mut header = vec![0u8; 116];
    header[0..4].copy_from_slice(b"MOBI");
    header[4..8].copy_from_slice(&be32(116));
    header[12..16].copy_from_slice(&be32(encoding));
    header[68..72].copy_from_slice(&be32(132 + extended.len() as u32));
    header[72..76].copy_from_slice(&be32(full_name.len() as u32));
    header[92..96].copy_from_slice(&be32(1));
    header[112..116].copy_from_slice(&be32(if records.is_some() { 0x40 } else { 0 }));
    record0.extend_from_slice(&header);
    record0.extend_from_slice(&extended);
    record0.extend_from_slice(full_name);
    let count = 1 + others.len();
    let mut file = vec![0u8; 76];
    file[..4].copy_from_slice(b"Palm");
    file.extend_from_slice(&(count as u16).to_be_bytes());
    let mut offset = 78 + 8 * count as u32;
    let mut bodies: Vec<&[u8]> = vec![&record0];
    bodies.extend_from_slice(others);
    for body in &bodies {
        file.extend_from_slice(&be32(offset));
        file.extend_from_slice(&[0, 0, 0, 0]);
        offset += body.len() as u32;
    }
    for body in &bodies {
        file.extend_from_slice(body);
    }
    file
}

#[test]
fn a_mobipocket_book_describes_itself() {
    let jpeg: &[u8] = &[0xff, 0xd8, 0xff, 0xe0, 9, 9];
    let file = mobi(
        65001,
        "Full Name".as_bytes(),
        Some(&[
            (100, "Jane Austen".as_bytes()),
            (101, "Egerton".as_bytes()),
            (103, "A novel — of manners".as_bytes()),
            (104, b"9780141439518"),
            (105, b"Fiction"),
            (100, b"Second Author"),
            (105, b"Romance"),
            (113, b"B000FC1PJI"),
            (201, &be32(1)),
            (503, "Pride and Prejudice".as_bytes()),
            (524, b"en"),
            (999, b"ignored"),
            (100, b""),
        ]),
        &[b"text record", jpeg, b"tail"],
    );
    let info = MobiParser::new().parse(&file).unwrap();
    assert_eq!(info.title, "Pride and Prejudice");
    assert_eq!(info.authors, vec!["Jane Austen", "Second Author"]);
    assert_eq!(info.publisher.as_deref(), Some("Egerton"));
    assert_eq!(info.description.as_deref(), Some("A novel — of manners"));
    assert_eq!(info.subjects, vec!["Fiction", "Romance"]);
    assert_eq!(info.language.as_deref(), Some("en"));
    assert_eq!(info.cover_data, Some(jpeg.to_vec()));
    assert_eq!(info.cover_mime_type.as_deref(), Some("image/jpeg"));
    let ids: Vec<(&str, &str)> = info.identifiers.iter().map(|i| (i.scheme.as_str(), i.value.as_str())).collect();
    assert_eq!(ids, vec![("isbn", "9780141439518"), ("asin", "B000FC1PJI")]);
    assert_eq!((info.series, info.series_number, info.pages), (None, None, None));
}

#[test]
fn a_mobipocket_book_without_extended_header_goes_by_its_full_name() {
    let file = mobi(1252, &[b'C', b'a', b'f', 0xe9], None, &[b"text"]);
    let info = MobiParser::new().parse(&file).unwrap();
    assert_eq!(info.title, "Café");
    assert!(info.authors.is_empty() && info.identifiers.is_empty());
    assert_eq!((info.cover_data, info.publisher), (None, None));
    assert!(MobiParser::new().parse(&mobi(65001, b"", None, &[])).is_none());
    assert!(MobiParser::new().parse(&mobi(65001, b"", Some(&[(100, b"A")]), &[])).is_none());
    let not_an_image = mobi(65001, b"T", Some(&[(201, &be32(0))]), &[b"plain"]);
    assert_eq!(MobiParser::new().parse(&not_an_image).unwrap().cover_data, None);
    let far_away = mobi(65001, b"T", Some(&[(201, &be32(40))]), &[&[0xff, 0xd8]]);
    assert_eq!(MobiParser::new().parse(&far_away).unwrap().cover_data, None);
    let overflow = mobi(65001, b"T", Some(&[(201, &be32(u32::MAX))]), &[&[0xff, 0xd8]]);
    assert_eq!(MobiParser::new().parse(&overflow).unwrap().cover_data, None);
}

#[test]
fn files_that_are_no_mobipocket_are_refused() {
    let parser = MobiParser::new();
    assert!(parser.parse(&Vec::new()).is_none());
    assert!(parser.parse(&vec![0u8; 77]).is_none());
    assert!(parser.parse(&vec![0u8; 500]).is_none());
    assert!(parser.parse(&vec![0xffu8; 500]).is_none());
    let good = mobi(65001, b"T", None, &[]);
    assert!(parser.parse(&good).is_some());
    let mut wrong_magic = good.clone();
    wrong_magic[78 + 8 + 16] = b'N';
    assert!(parser.parse(&wrong_magic).is_none());
    for cut in 0..good.len() {
        let _ = parser.parse(&good[..cut].to_vec());
    }
    let with_exth = mobi(65001, b"T", Some(&[(100, b"A"), (101, b"P")]), &[b"r"]);
    for cut in 0..with_exth.len() {
        let _ = parser.parse(&with_exth[..cut].to_vec());
    }
    let mut lying = with_exth.clone();
    let exth_at = 78 + 16 + 16 + 116;
    lying[exth_at + 8..exth_at + 12].copy_from_slice(&be32(u32::MAX));
    assert_eq!(parser.parse(&lying).unwrap().authors, vec!["A"]);
    lying[exth_at + 16..exth_at + 20].copy_from_slice(&be32(3));
    assert!(parser.parse(&lying).unwrap().authors.is_empty());
}

#[test]
fn numbers_and_records_are_read_big_end_first() {
    let v = vec![0x12, 0x34, 0x56, 0x78, 0x9a];
    assert_eq!(read_be16(&v, 0), Some(0x1234));
    assert_eq!(read_be16(&v, 3), Some(0x789a));
    assert_eq!(read_be16(&v, 4), None);
    assert_eq!(read_be16(&v, usize::MAX), None);
    assert_eq!(read_be32(&v, 1), Some(0x3456789a));
    assert_eq!(read_be32(&v, 2), None);
    assert_eq!(read_be32(&vec![0xff; 4], 0), Some(u32::MAX));
    let file = mobi(65001, b"Name", Some(&[(100, b"A")]), &[b"one", b"three"]);
    let first = record_at(&file, 0).unwrap();
    assert_eq!(first.0, 78 + 24);
    assert_eq!(record_at(&file, 1), Some((first.1, first.1 + 3)));
    assert_eq!(record_at(&file, 2), Some((first.1 + 3, file.len())));
    assert_eq!(record_at(&file, 3), None);
    assert_eq!(record_at(&file, u64::MAX), None);
    let layout = read_layout(&file).unwrap();
    assert!(layout.utf8);
    assert_eq!(layout.first_image, 1);
    assert_eq!(&file[layout.name_from..layout.name_to], b"Name");
    assert_eq!(read_values(&file, &layout, 100), vec![b"A".to_vec()]);
    assert_eq!(read_values(&file, &layout, 101), Vec::<Vec<u8>>::new());
    assert_eq!(read_text(&vec![0x41, 0xe9, 0xff], false), "Aéÿ");
    assert_eq!(read_text(&"Aé".as_bytes().to_vec(), true), "Aé");
    assert_eq!(read_text(&vec![0x41, 0xff], true), "A\u{fffd}");
    assert_eq!(image_type(&vec![0x89, b'P', b'N', b'G', 0]), Some("image/png".to_string()));
    assert_eq!(image_type(&b"GIF89a".to_vec()), Some("image/gif".to_string()));
    assert_eq!(image_type(&vec![0xff]), None);
}
