use hidpp_core::discovery::{
    candidate, descriptor_path, has_hidpp_usage, is_hidraw_name, is_logitech_hidraw, node_path,
    probe_index, retry, try_order, uevent_path, Attempt, Candidate, Hunt, Retry, Search,
};
use hidpp_core::ready::{News, Ready, Watch};
use hidpp_core::text::{
    byte_decimal, byte_hex, contains_text, field, hex_number, option_text, starts_with,
    tagged_line, trimmed,
};

fn node(name: &str, hidpp: bool) -> Candidate {
    Candidate { name: name.to_string(), hidpp }
}

fn failure(search: &Search) -> Option<String> {
    match &search.pending {
        Hunt::Failed(message) => Some(message.clone()),
        _ => None,
    }
}

#[test]
fn numbers_are_spelled() {
    assert_eq!(byte_decimal(0), "0");
    assert_eq!(byte_decimal(10), "10");
    assert_eq!(byte_decimal(255), "255");
    assert_eq!(byte_hex(0), "00");
    assert_eq!(byte_hex(0xa9), "a9");
    assert_eq!(option_text(None), "None");
    assert_eq!(option_text(Some(7)), "Some(7)");
}

#[test]
fn text_is_cut_and_searched() {
    assert_eq!(field("a:bc:d", ':', 1), Some("bc"));
    assert_eq!(field("a:bc:d", ':', 3), None);
    assert_eq!(field("a:", ':', 1), Some(""));
    assert_eq!(field("", ':', 0), Some(""));
    assert!(starts_with("hidraw0", "hidraw"));
    assert!(!starts_with("hid", "hidraw"));
    assert!(contains_text("open x: Permission denied (os error 13)", "Permission denied"));
    assert!(!contains_text("Permission", "Permission denied"));
    assert!(contains_text("abc", ""));
    assert_eq!(trimmed(" \t\u{a0}G Pro\u{3000}\n"), "G Pro");
    assert_eq!(trimmed(" \n"), "");
}

#[test]
fn hexadecimal_numbers_are_read() {
    assert_eq!(hex_number("046D"), Some(0x46d));
    assert_eq!(hex_number("+046d"), Some(0x46d));
    assert_eq!(hex_number("00000000000046d"), Some(0x46d));
    assert_eq!(hex_number("ffffffff"), Some(u32::MAX));
    assert_eq!(hex_number("100000000"), None);
    assert_eq!(hex_number(""), None);
    assert_eq!(hex_number("+"), None);
    assert_eq!(hex_number("-1"), None);
    assert_eq!(hex_number("4_6"), None);
    assert_eq!(hex_number(" 46d"), None);
}

#[test]
fn first_tagged_line_counts() {
    assert_eq!(tagged_line("A=1\nB=2\nB=3\n", "B="), Some("2"));
    assert_eq!(tagged_line("B=2\r\n", "B="), Some("2"));
    assert_eq!(tagged_line("B=2\r", "B="), Some("2\r"));
    assert_eq!(tagged_line("xB=2", "B="), None);
    assert_eq!(tagged_line("", "B="), None);
}

#[test]
fn vendor_is_read_from_the_uevent() {
    let text = "DRIVER=logitech-hidpp-device\nHID_ID=0003:0000046D:0000C547\nHID_NAME=G\n";
    assert!(is_logitech_hidraw(text));
    assert!(is_logitech_hidraw("HID_ID=0003:046d\r\n"));
    assert!(!is_logitech_hidraw("HID_ID=0003:046d\r"));
    assert!(!is_logitech_hidraw("HID_ID=0003:0000045E:0000C547\n"));
    assert!(!is_logitech_hidraw("HID_ID=0003\nHID_ID=0003:046d:1\n"));
    assert!(!is_logitech_hidraw(""));
}

#[test]
fn usage_page_is_found_anywhere() {
    assert!(has_hidpp_usage(&vec![0x06, 0x00, 0xff]));
    assert!(has_hidpp_usage(&vec![1, 0x06, 0x06, 0x00, 0xff, 9]));
    assert!(!has_hidpp_usage(&vec![0x06, 0x00]));
    assert!(!has_hidpp_usage(&vec![0x06, 0x00, 0xfe, 0xff]));
}

#[test]
fn paths_are_built_from_the_name() {
    assert!(is_hidraw_name("hidraw12"));
    assert!(!is_hidraw_name("input0"));
    assert_eq!(node_path("hidraw1"), "/dev/hidraw1");
    assert_eq!(uevent_path("hidraw1"), "/sys/class/hidraw/hidraw1/device/uevent");
    assert_eq!(
        descriptor_path("hidraw1"),
        "/sys/class/hidraw/hidraw1/device/report_descriptor"
    );
}

#[test]
fn candidates_are_the_vendors_nodes() {
    let uevent = || Some("HID_ID=0003:0000046D:0000C547\n".to_string());
    let with_page = candidate("hidraw0".to_string(), uevent(), Some(vec![0x06, 0x00, 0xff]));
    assert!(with_page.is_some_and(|c| c.hidpp && c.name == "hidraw0"));
    assert!(candidate("hidraw0".to_string(), uevent(), None).is_some_and(|c| !c.hidpp));
    assert!(candidate("event0".to_string(), uevent(), None).is_none());
    assert!(candidate("hidraw0".to_string(), None, None).is_none());
    let other = Some("HID_ID=0003:00001532:00000001\n".to_string());
    assert!(candidate("hidraw0".to_string(), other, None).is_none());
}

#[test]
fn nodes_with_the_page_are_tried_first() {
    let sorted = try_order(vec![
        node("hidraw3", false),
        node("hidraw2", true),
        node("hidraw10", true),
        node("hidraw1", false),
    ]);
    let names: Vec<&str> = sorted.iter().map(|c| c.name.as_str()).collect();
    assert_eq!(names, ["hidraw10", "hidraw2", "hidraw1", "hidraw3"]);
}

#[test]
fn order_does_not_depend_on_the_listing() {
    let forth = try_order(vec![node("b", true), node("a", false), node("a", true)]);
    let back = try_order(vec![node("a", true), node("a", false), node("b", true)]);
    let names = |v: &Vec<Candidate>| -> Vec<(String, bool)> {
        v.iter().map(|c| (c.name.clone(), c.hidpp)).collect()
    };
    assert_eq!(names(&forth), names(&back));
}

#[test]
fn probes_cover_the_slots_and_the_direct_device() {
    let all: Vec<u8> = (0..7).map(probe_index).collect();
    assert_eq!(all, [1, 2, 3, 4, 5, 6, 0xff]);
}

#[test]
fn search_stops_at_the_first_answer() {
    let mut search = Search::start(vec![node("hidraw0", true), node("hidraw1", true)]);
    search.step(Attempt::Opened);
    for k in 0..7 {
        assert!(matches!(search.pending, Hunt::Ping(n) if n == k));
        search.step(Attempt::Pinged(false));
    }
    assert_eq!(search.at, 1);
    assert!(matches!(search.pending, Hunt::Open));
    search.step(Attempt::Opened);
    search.step(Attempt::Pinged(false));
    search.step(Attempt::Pinged(true));
    assert!(matches!(search.pending, Hunt::Found(2)));
    assert_eq!(search.at, 1);
}

#[test]
fn search_without_nodes_says_so() {
    let search = Search::start(vec![]);
    assert_eq!(failure(&search).as_deref(), Some("No Logitech HID device present."));
}

#[test]
fn search_without_answers_says_so() {
    let mut search = Search::start(vec![node("hidraw0", true)]);
    search.step(Attempt::NotOpened("No such file or directory (os error 2)".to_string()));
    assert_eq!(failure(&search).as_deref(), Some("No Logitech HID++ device found."));
}

#[test]
fn search_lists_the_nodes_that_denied_access() {
    let mut search = Search::start(vec![
        node("hidraw0", true),
        node("hidraw1", true),
        node("hidraw2", true),
    ]);
    search.step(Attempt::NotOpened("Permission denied (os error 13)".to_string()));
    search.step(Attempt::NotOpened("No such file or directory (os error 2)".to_string()));
    search.step(Attempt::NotOpened("Permission denied (os error 13)".to_string()));
    assert_eq!(
        failure(&search).as_deref(),
        Some(
            "Permission denied opening hidraw0, hidraw2. Your session has no access to the \
             Logitech HID nodes; see the udev setup in the README."
        )
    );
}

#[test]
fn search_is_given_up_after_five_seconds() {
    let early = retry("x".to_string(), 4_999_999_999);
    assert!(matches!(early, Retry::Again));
    match retry("No Logitech HID device present.".to_string(), 5_000_000_000) {
        Retry::GiveUp(message) => assert_eq!(
            message,
            "Logitech receiver did not become ready within 5000ms: No Logitech HID device present."
        ),
        Retry::Again => panic!("should give up"),
    }
}

fn searched(watch: &Watch<u8>) -> bool {
    matches!(watch.pending, Ready::Search)
}

#[test]
fn wait_begins_with_a_search() {
    let mut watch: Watch<u8> = Watch::start();
    assert!(searched(&watch));
    watch.step(News::Found(7));
    assert!(matches!(watch.pending, Ready::Found(7)));
}

#[test]
fn device_found_past_the_limit_counts() {
    let mut watch: Watch<u8> = Watch::start();
    watch.step(News::NotFound("first".to_string(), 4_999_999_999));
    assert!(matches!(watch.pending, Ready::Pause));
    watch.step(News::Paused);
    assert!(searched(&watch));
    // The second search ends after the limit, and a device is a device.
    watch.step(News::Found(9));
    assert!(matches!(watch.pending, Ready::Found(9)));
}

#[test]
fn last_error_is_told_when_the_wait_is_given_up() {
    let mut watch: Watch<u8> = Watch::start();
    watch.step(News::NotFound("first".to_string(), 100_000_000));
    watch.step(News::Paused);
    watch.step(News::NotFound("second".to_string(), 5_000_000_000));
    match &watch.pending {
        Ready::GaveUp(message) => assert_eq!(
            message,
            "Logitech receiver did not become ready within 5000ms: second"
        ),
        _ => panic!("should give up"),
    }
    watch.step(News::Found(1));
    assert!(matches!(watch.pending, Ready::GaveUp(_)));
}

#[test]
fn one_late_search_is_enough_to_give_up() {
    let mut watch: Watch<u8> = Watch::start();
    watch.step(News::NotFound("slow".to_string(), 6_000_000_000));
    assert!(matches!(watch.pending, Ready::GaveUp(_)));
}

#[test]
fn news_of_what_was_not_wanted_changes_nothing() {
    let mut watch: Watch<u8> = Watch::start();
    watch.step(News::Paused);
    assert!(searched(&watch));
    watch.step(News::NotFound("x".to_string(), 0));
    watch.step(News::Found(3));
    assert!(matches!(watch.pending, Ready::Pause));
}
