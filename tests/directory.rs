use gopher::directory::{Directory, DirectoryItem, GopherError};
use gopher::item::Type;

const SAMPLE: &str = "0About internet Gopher\tStuff:About us\trawBits.micro.umn.edu\t70
1Around University of Minnesota\tZ,5692,AUM\tunderdog.micro.umn.edu\t70
1Microcomputer News & Prices\tPrices/\tpserver.bookstore.umn.edu\t70
1Courses, Schedules, Calendars\t\tevents.ais.umn.edu\t9120
1Student-Staff Directories\t\tuinfo.ais.umn.edu\t70
1Departmental Publications\tStuff:DP:\trawBits.micro.umn.edu\t70
.";

#[test]
fn parse_directory() {
    let directory = Directory::from_str(SAMPLE).expect("failed to parse sample directory");
    let items = directory.items();
    assert_eq!(items.len(), 6);

    let item0 = &items[0];
    assert_eq!(item0.t, Type::File);
    assert_eq!(item0.name, "About internet Gopher");
    assert_eq!(item0.selector, "Stuff:About us");
    assert_eq!(item0.host, "rawBits.micro.umn.edu");
    assert_eq!(item0.port, 70);

    let item3 = &items[3];
    assert_eq!(item3.t, Type::Directory);
    assert_eq!(item3.name, "Courses, Schedules, Calendars");
    assert_eq!(item3.selector, "");
    assert_eq!(item3.host, "events.ais.umn.edu");
    assert_eq!(item3.port, 9120);
}

#[test]
fn format_directory() {
    let directory = Directory::from_str(SAMPLE).expect("failed to parse sample directory");
    let output = directory.to_string();
    assert_eq!(SAMPLE, output);
}

#[test]
fn parse_directory_item() {
    let input = "0A Sample Text File\t/sample.txt\tgopher.example.net\t70";
    let item = DirectoryItem::from_str(input).expect("failed to parse sample directory item");
    assert_eq!(item.t, Type::File);
    assert_eq!(item.name, "A Sample Text File");
    assert_eq!(item.selector, "/sample.txt");
    assert_eq!(item.host, "gopher.example.net");
    assert_eq!(item.port, 70);
}

#[test]
fn format_directory_item() {
    let item = DirectoryItem {
        t: Type::File,
        name: String::from("A Sample Text File"),
        selector: String::from("/sample.txt"),
        host: String::from("gopher.example.net"),
        port: 70,
    };
    let output = item.to_string();
    assert_eq!(output, "0A Sample Text File\t/sample.txt\tgopher.example.net\t70");
}

#[test]
fn short_item_example() {
    let item = DirectoryItem::from_str("0A\t/s\thost.example\t70").unwrap();
    assert_eq!(item.t, Type::File);
    assert_eq!(item.name, "A");
    assert_eq!(item.selector, "/s");
    assert_eq!(item.host, "host.example");
    assert_eq!(item.port, 70);
}

#[test]
fn lines_of_one_char_or_less_are_rejected() {
    for line in ["", "0", "\t"] {
        match DirectoryItem::from_str(line) {
            Err(GopherError::ParseDirectoryItem(l)) => assert_eq!(l, line),
            other => panic!("unexpected {:?}", other),
        }
    }
}

#[test]
fn missing_fields_are_rejected() {
    match DirectoryItem::from_str("0name\tselector\thost") {
        Err(GopherError::ParseDirectoryItem(l)) => assert_eq!(l, "0name\tselector\thost"),
        other => panic!("unexpected {:?}", other),
    }
}

#[test]
fn empty_or_non_numeric_port_is_default() {
    assert_eq!(DirectoryItem::from_str("1x\t/a\th\t").unwrap().port, 70);
    assert_eq!(DirectoryItem::from_str("1x\t/a\th\tgopher").unwrap().port, 70);
    assert_eq!(DirectoryItem::from_str("1x\t/a\th\t99999999999999999999999").unwrap().port, 70);
}

#[test]
fn port_takes_leading_digits() {
    assert_eq!(DirectoryItem::from_str("1x\t/a\th\t7070").unwrap().port, 7070);
    assert_eq!(DirectoryItem::from_str("1x\t/a\th\t12abc").unwrap().port, 12);
    assert_eq!(DirectoryItem::from_str("1x\t/a\th\t0").unwrap().port, 0);
}

#[test]
fn extra_fields_are_ignored() {
    let item = DirectoryItem::from_str("9bin\t/b\th\t71\t+").unwrap();
    assert_eq!(item.t, Type::Binary);
    assert_eq!(item.host, "h");
    assert_eq!(item.port, 71);
}

#[test]
fn unknown_type_is_kept() {
    let item = DirectoryItem::from_str("iHello\tfake\t(NULL)\t0").unwrap();
    assert_eq!(item.t, Type::Unknown('i'));
    assert_eq!(item.t.as_char(), 'i');
    assert!(item.is_info());
}

#[test]
fn unknown_chars_round_trip() {
    for c in ['i', 'h', 'x', 'Z', '\u{e9}', '\t', ' '] {
        assert_eq!(Type::from_char(c), Type::Unknown(c));
        assert_eq!(Type::from_char(c).as_char(), c);
    }
    for c in ['0', '1', '2', '3', '4', '5', '6', '7', '8', '9', '+', 'T', 'g', 'I'] {
        assert_eq!(Type::from_char(c).as_char(), c);
    }
    assert_eq!(Type::from_char('+'), Type::RedundantServer);
    assert_eq!(Type::from_char('T'), Type::Tn3270Session);
}

#[test]
fn type_classification() {
    assert!(Type::Directory.is_directory());
    assert!(!Type::File.is_directory());
    assert!(Type::SearchServer.is_file());
    assert!(Type::Unknown('q').is_file());
    assert!(!Type::File.is_file());
    assert!(!Type::GIF.is_file());
}

#[test]
fn fake_heuristic() {
    let mk = |name: &str, selector: &str, host: &str| DirectoryItem {
        t: Type::File,
        name: name.into(),
        selector: selector.into(),
        host: host.into(),
        port: 70,
    };
    assert!(mk("a", "/x/fake", "h").is_fake());
    assert!(mk("fake", "/x", "h").is_fake());
    assert!(mk("a", "/x", "fake").is_fake());
    assert!(!mk("fakes", "/fak", "fake.org").is_fake());
    assert!(!mk("a", "/x", "h").is_info());
    assert!(mk("a", "fake", "h").is_info());
}

#[test]
fn directory_without_terminator() {
    let d = Directory::from_str("0a\t/a\th\t70\n1b\t/b\th\t71\n").unwrap();
    assert_eq!(d.items().len(), 2);
    assert_eq!(d.items()[1].port, 71);
}

#[test]
fn directory_stops_at_terminator() {
    let d = Directory::from_str("0a\t/a\th\t70\r\n.\r\nnot an item").unwrap();
    assert_eq!(d.items().len(), 1);
    assert_eq!(d.items()[0].port, 70);
}

#[test]
fn empty_directory() {
    assert_eq!(Directory::from_str("").unwrap().items().len(), 0);
    assert_eq!(Directory::from_str(".").unwrap().to_string(), ".");
}

#[test]
fn bad_line_fails_whole_directory() {
    match Directory::from_str("0a\t/a\th\t70\njust text\n.") {
        Err(GopherError::ParseDirectory(l)) => assert_eq!(l, "just text"),
        other => panic!("unexpected {:?}", other),
    }
}

#[test]
fn format_then_parse_gives_same_items() {
    let d = Directory::from_str("0a\t/a\th\t\n7search\t\ts.example\t7070\n").unwrap();
    let text = d.to_string();
    assert_eq!(text, "0a\t/a\th\t70\n7search\t\ts.example\t7070\n.");
    let again = Directory::from_str(&text).unwrap();
    assert_eq!(again.items().len(), 2);
    for (x, y) in d.items().iter().zip(again.items().iter()) {
        assert_eq!(x.t, y.t);
        assert_eq!(x.name, y.name);
        assert_eq!(x.selector, y.selector);
        assert_eq!(x.host, y.host);
        assert_eq!(x.port, y.port);
    }
}

#[test]
fn unknown_type_formats_its_char() {
    let item = DirectoryItem {
        t: Type::Unknown('h'),
        name: "page".into(),
        selector: "URL:x".into(),
        host: "h".into(),
        port: 105,
    };
    assert_eq!(item.to_string(), "hpage\tURL:x\th\t105");
}
