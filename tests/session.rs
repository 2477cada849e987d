use gopher::render::{directory_rows, key_rank, menu_key, scroll_note, text_rows, Row};
use gopher::directory::{Directory, GopherError};
use gopher::item::Type;
use gopher::session::{parse_directory_or_text, Gopher, State};

const LISTING: &str = "iWelcome\tfake\t(NULL)\t0
0About\t/about\tgopher.example\t70
1Docs\t/docs\tdocs.example\t7070
iSee below\tfake\t(NULL)\t0
0Last\t/last\tgopher.example\t70
.";

fn listing_session() -> Gopher {
    Gopher::new("gopher.example", 70, "/", Ok(String::from(LISTING)))
}

fn message_of(g: &Gopher) -> String {
    match g.current_state() {
        State::ShowMessage(m) => m.clone(),
        other => panic!("expected a message, got {:?}", other),
    }
}

fn io_error() -> std::io::Error {
    std::io::Error::new(std::io::ErrorKind::TimedOut, "timed out")
}

#[test]
fn new_session_on_listing() {
    let g = listing_session();
    match g.current_state() {
        State::DisplayDirectory(loc, d, scroll) => {
            assert_eq!(loc, "gopher.example:70//");
            assert_eq!(d.items().len(), 5);
            assert_eq!(*scroll, 0);
        }
        other => panic!("unexpected {:?}", other),
    }
}

#[test]
fn new_session_on_text() {
    let g = Gopher::new("h", 71, "/readme", Ok(String::from("hello\nworld\n")));
    match g.current_state() {
        State::DisplayResource(loc, body, scroll) => {
            assert_eq!(loc, "h:71//readme");
            assert_eq!(body, "hello\nworld\n");
            assert_eq!(*scroll, 0);
        }
        other => panic!("unexpected {:?}", other),
    }
}

#[test]
fn new_session_on_failure() {
    let g = Gopher::new("h", 70, "", Err(io_error()));
    match g.current_state() {
        State::Error(GopherError::Io(e)) => assert_eq!(e.kind(), std::io::ErrorKind::TimedOut),
        other => panic!("unexpected {:?}", other),
    }
}

#[test]
fn go_back_on_root_is_noop() {
    let mut g = listing_session();
    g.pop_state();
    g.pop_state();
    assert!(matches!(g.current_state(), State::DisplayDirectory(..)));
    g.activate_item(99);
    assert_eq!(message_of(&g), "No such item");
    g.pop_state();
    assert!(matches!(g.current_state(), State::DisplayDirectory(..)));
}

#[test]
fn activate_outside_directory() {
    let mut g = Gopher::new("h", 70, "/t", Ok(String::from("plain text")));
    assert!(g.activate_item(0).is_none());
    assert_eq!(message_of(&g), "Not in a directory");
    assert!(g.activate_item(0).is_none());
    assert_eq!(message_of(&g), "Not in a directory");
    g.pop_state();
    g.pop_state();
    assert!(matches!(g.current_state(), State::DisplayResource(..)));
}

#[test]
fn scroll_clamps_at_zero() {
    let mut g = listing_session();
    g.scroll(3);
    g.scroll(-1000);
    match g.current_state() {
        State::DisplayDirectory(_, _, s) => assert_eq!(*s, 0),
        other => panic!("unexpected {:?}", other),
    }
    let mut t = Gopher::new("h", 70, "/t", Ok(String::from("a\nb\nc")));
    t.scroll(10);
    t.scroll(-4);
    match t.current_state() {
        State::DisplayResource(_, _, s) => assert_eq!(*s, 6),
        other => panic!("unexpected {:?}", other),
    }
    t.scroll(-1000);
    match t.current_state() {
        State::DisplayResource(_, _, s) => assert_eq!(*s, 0),
        other => panic!("unexpected {:?}", other),
    }
}

#[test]
fn scroll_leaves_messages_alone() {
    let mut g = Gopher::new("h", 70, "/t", Ok(String::from("text")));
    g.activate_item(0);
    g.scroll(5);
    assert_eq!(message_of(&g), "Not in a directory");
}

#[test]
fn activate_counts_navigable_items_after_scroll() {
    let mut g = listing_session();
    let req = g.activate_item(1).expect("item exists");
    assert_eq!(req.host, "docs.example");
    assert_eq!(req.port, 7070);
    assert_eq!(req.selector, "/docs");
    g.scroll(2);
    let req = g.activate_item(0).expect("item exists");
    assert_eq!(req.selector, "/docs");
    let req = g.activate_item(1).expect("item exists");
    assert_eq!(req.selector, "/last");
}

#[test]
fn activate_past_visible_items() {
    let mut g = listing_session();
    assert!(g.activate_item(3).is_none());
    assert_eq!(message_of(&g), "No such item");
    g.pop_state();
    g.scroll(4);
    assert!(g.activate_item(0).is_some());
    assert!(g.activate_item(1).is_none());
    assert_eq!(message_of(&g), "No such item");
}

#[test]
fn push_response_adds_one_view() {
    let mut g = listing_session();
    let req = g.activate_item(0).unwrap();
    g.push_response(&req, Ok(String::from("1Sub\t/sub\th\t70\n.")));
    match g.current_state() {
        State::DisplayDirectory(loc, d, 0) => {
            assert_eq!(loc, "gopher.example:70//about");
            assert_eq!(d.items()[0].t, Type::Directory);
        }
        other => panic!("unexpected {:?}", other),
    }
    let req = g.activate_item(0).unwrap();
    g.push_response(&req, Err(io_error()));
    assert!(matches!(g.current_state(), State::Error(GopherError::Io(_))));
    g.pop_state();
    let req = g.activate_item(0).unwrap();
    g.push_response(&req, Ok(String::from("not a listing")));
    assert!(matches!(g.current_state(), State::DisplayResource(_, _, 0)));
    g.pop_state();
    g.pop_state();
    assert!(matches!(g.current_state(), State::DisplayDirectory(_, _, _)));
    g.pop_state();
    g.pop_state();
    match g.current_state() {
        State::DisplayDirectory(loc, _, _) => assert_eq!(loc, "gopher.example:70//"),
        other => panic!("unexpected {:?}", other),
    }
}

#[test]
fn rows_of_listing() {
    let d = Directory::from_str(LISTING).unwrap();
    let rows = directory_rows(&d, 0);
    assert_eq!(rows.len(), 5);
    assert!(matches!(&rows[0], Row::Info(t) if t == "Welcome"));
    assert!(matches!(&rows[1], Row::Entry(Some('0'), Type::File, n) if n == "About"));
    assert!(matches!(&rows[2], Row::Entry(Some('1'), Type::Directory, n) if n == "Docs"));
    assert!(matches!(&rows[4], Row::Entry(Some('2'), Type::File, n) if n == "Last"));
    let rows = directory_rows(&d, 2);
    assert_eq!(rows.len(), 3);
    assert!(matches!(&rows[0], Row::Entry(Some('0'), Type::Directory, _)));
    assert!(matches!(&rows[2], Row::Entry(Some('1'), Type::File, _)));
    assert_eq!(directory_rows(&d, 9).len(), 0);
}

#[test]
fn rows_of_text() {
    let rows = text_rows("one\r\ntwo\nthree\n", 1);
    assert_eq!(rows, vec![String::from("two"), String::from("three")]);
    assert_eq!(text_rows("a\n\nb", 0), vec![String::from("a"), String::new(), String::from("b")]);
    assert!(text_rows("a", 5).is_empty());
}

#[test]
fn keys_and_notes() {
    assert_eq!(menu_key(0), Some('0'));
    assert_eq!(menu_key(10), Some('a'));
    assert_eq!(menu_key(36), Some('A'));
    assert_eq!(menu_key(75), Some('='));
    assert_eq!(menu_key(76), None);
    assert_eq!(key_rank('b'), Some(11));
    assert_eq!(key_rank('('), Some(70));
    assert_eq!(key_rank('~'), None);
    assert_eq!(scroll_note(0, 10), None);
    assert_eq!(scroll_note(3, 120), Some(String::from("[3/120]")));
}

#[test]
fn change_current_state_in_place() {
    let mut g = listing_session();
    g.activate_item(40);
    *g.current_state_mut() = State::ShowMessage(String::from("replaced"));
    assert_eq!(message_of(&g), "replaced");
    g.pop_state();
    assert!(matches!(g.current_state(), State::DisplayDirectory(..)));
}

#[test]
fn directory_or_text() {
    match parse_directory_or_text(String::from("1Sub\t/sub\th\t70\n.")) {
        Ok(d) => assert_eq!(d.items()[0].selector, "/sub"),
        Err(t) => panic!("unexpected text {:?}", t),
    }
    match parse_directory_or_text(String::from("just words")) {
        Err(t) => assert_eq!(t, "just words"),
        Ok(d) => panic!("unexpected listing {:?}", d),
    }
    let g = Gopher::new("h", 70, "", Ok(String::from("x")));
    match g.current_state() {
        State::DisplayResource(loc, _, _) => assert_eq!(loc, "h:70/"),
        other => panic!("unexpected {:?}", other),
    }
}
