use hidpp_core::device::{open_failure, ping_request, Device};
use hidpp_core::dialog::Request;
use hidpp_core::exchange::{Event, Exchange, Pending};
use hidpp_core::frame::{judge, next_swid, packet, tag, Address, Verdict};

fn address() -> Address {
    Address { index: 1, feature: 7, function: 2, swid: 5 }
}

fn exchange(tries: u8) -> Exchange {
    let to = address();
    let bytes = packet(to, &vec![9]);
    Exchange::start("/dev/hidraw3".to_string(), to, bytes, tries, 400)
}

fn outcome(x: &Exchange) -> Option<Result<Vec<u8>, String>> {
    match &x.pending {
        Pending::Finished(reply) => Some(reply.clone()),
        _ => None,
    }
}

#[test]
fn packet_has_header_parameters_and_padding() {
    let bytes = packet(address(), &vec![0xaa, 0xbb]);
    let mut expected = vec![0x11, 1, 7, 0x25, 0xaa, 0xbb];
    expected.resize(20, 0);
    assert_eq!(bytes, expected);
}

#[test]
fn packet_drops_parameters_past_the_sixteenth() {
    let params: Vec<u8> = (1..=20).collect();
    let bytes = packet(address(), &params);
    assert_eq!(bytes.len(), 20);
    assert_eq!(bytes[4], 1);
    assert_eq!(bytes[19], 16);
}

#[test]
fn tag_keeps_four_bits_of_the_function() {
    assert_eq!(tag(2, 5), 0x25);
    assert_eq!(tag(0x12, 5), 0x25);
}

#[test]
fn software_ids_cycle() {
    assert_eq!(next_swid(1), 2);
    assert_eq!(next_swid(14), 15);
    assert_eq!(next_swid(15), 1);
}

#[test]
fn reply_gives_its_body_back() {
    match judge(&vec![0x11, 1, 7, 0x25, 3, 4], address()) {
        Verdict::Body(body) => assert_eq!(body, vec![3, 4]),
        _ => panic!("not taken for the reply"),
    }
    match judge(&vec![0x11, 1, 7, 0x25], address()) {
        Verdict::Body(body) => assert!(body.is_empty()),
        _ => panic!("not taken for the reply"),
    }
}

#[test]
fn fault_reports_are_told_apart() {
    for marker in [0x8f, 0xff] {
        let own = vec![0x10, 9, marker, 7, 0x25, 8];
        assert!(matches!(judge(&own, address()), Verdict::Fault(8)));
        let short = vec![0x10, 1, marker, 7, 0x25];
        assert!(matches!(judge(&short, address()), Verdict::Stray));
        let other = vec![0x10, 1, marker, 7, 0x24, 8];
        assert!(matches!(judge(&other, address()), Verdict::Stray));
    }
}

#[test]
fn late_and_foreign_frames_are_noise() {
    assert!(matches!(judge(&vec![0x11, 1, 7, 0x24, 3], address()), Verdict::Noise));
    assert!(matches!(judge(&vec![0x11, 2, 7, 0x25, 3], address()), Verdict::Noise));
    assert!(matches!(judge(&vec![0x11, 1, 8, 0x25, 3], address()), Verdict::Noise));
    assert!(matches!(judge(&vec![0x11, 1, 7, 0x35, 3], address()), Verdict::Noise));
    assert!(matches!(judge(&vec![0x11, 1, 7], address()), Verdict::Noise));
}

#[test]
fn exchange_takes_a_prompt_reply() {
    let mut x = exchange(3);
    assert!(matches!(x.pending, Pending::Drain(0)));
    x.step(Event::Frame(vec![1, 2, 3]));
    assert!(matches!(x.pending, Pending::Drain(1)));
    x.step(Event::Silence);
    assert!(matches!(x.pending, Pending::Write));
    x.step(Event::Written);
    assert!(matches!(x.pending, Pending::Clock));
    x.step(Event::Elapsed(399_999_999));
    assert!(matches!(x.pending, Pending::Read));
    x.step(Event::Silence);
    assert!(matches!(x.pending, Pending::ShortPause));
    x.step(Event::Paused);
    x.step(Event::Elapsed(0));
    x.step(Event::Frame(vec![0x10, 1, 0x8f, 7, 0x24, 8]));
    assert!(matches!(x.pending, Pending::Clock));
    x.step(Event::Elapsed(0));
    x.step(Event::Frame(vec![0x11, 1, 7, 0x25, 42]));
    assert_eq!(outcome(&x), Some(Ok(vec![42])));
    x.step(Event::Paused);
    assert_eq!(outcome(&x), Some(Ok(vec![42])));
}

#[test]
fn drain_stops_after_an_empty_read_or_its_limit() {
    let mut x = exchange(1);
    x.step(Event::Frame(vec![]));
    assert!(matches!(x.pending, Pending::Write));
    let mut x = exchange(1);
    for _ in 0..31 {
        x.step(Event::Frame(vec![1]));
        assert!(matches!(x.pending, Pending::Drain(_)));
    }
    x.step(Event::Frame(vec![1]));
    assert!(matches!(x.pending, Pending::Write));
}

#[test]
fn exchange_gives_up_after_its_tries() {
    let mut x = exchange(2);
    for _ in 0..2 {
        assert_eq!(outcome(&x), None);
        x.step(Event::Silence);
        x.step(Event::Written);
        x.step(Event::Elapsed(400_000_000));
        assert!(matches!(x.pending, Pending::LongPause));
        x.step(Event::Paused);
    }
    assert_eq!(
        outcome(&x),
        Some(Err("no response feat=0x07 fn=2 (last error=None)".to_string()))
    );
}

#[test]
fn exchange_reports_the_latest_error() {
    let mut x = exchange(2);
    for code in [5, 16] {
        x.step(Event::Silence);
        x.step(Event::Written);
        x.step(Event::Elapsed(0));
        x.step(Event::Frame(vec![0x10, 1, 0xff, 7, 0x25, code]));
        assert!(matches!(x.pending, Pending::LongPause));
        x.step(Event::Paused);
    }
    assert_eq!(
        outcome(&x),
        Some(Err("no response feat=0x07 fn=2 (last error=Some(16))".to_string()))
    );
}

#[test]
fn exchange_without_tries_fails_at_once() {
    assert_eq!(
        outcome(&exchange(0)),
        Some(Err("no response feat=0x07 fn=2 (last error=None)".to_string()))
    );
}

#[test]
fn failed_write_ends_the_exchange() {
    let mut x = exchange(3);
    x.step(Event::Silence);
    x.step(Event::WriteFailed("Broken pipe (os error 32)".to_string()));
    assert_eq!(
        outcome(&x),
        Some(Err("write /dev/hidraw3: Broken pipe (os error 32)".to_string()))
    );
}

#[test]
fn events_out_of_turn_change_nothing() {
    let mut x = exchange(3);
    x.step(Event::Paused);
    x.step(Event::Written);
    assert!(matches!(x.pending, Pending::Drain(0)));
}

#[test]
fn requests_take_the_next_id() {
    let mut device = Device::new("/dev/hidraw0".to_string());
    assert_eq!((device.index(), device.swid()), (1, 1));
    let request = Request { feature: 0, function: 0, params: vec![0x22, 0x02], tries: 2, timeout_ms: 150 };
    let x = device.request(&request);
    assert_eq!(device.swid(), 2);
    assert_eq!(x.packet[..6], [0x11, 1, 0, 0x02, 0x22, 0x02]);
    assert_eq!((x.tries_left, x.timeout_ms, x.path.as_str()), (2, 150, "/dev/hidraw0"));
    for _ in 0..13 {
        device.request(&request);
    }
    assert_eq!(device.swid(), 15);
    device.request(&request);
    assert_eq!(device.swid(), 1);
}

#[test]
fn ping_turns_to_a_device_that_replies() {
    let mut device = Device::new("/dev/hidraw0".to_string());
    let (previous, x) = device.ping(4);
    assert_eq!(previous, 1);
    assert_eq!(x.packet[..7], [0x11, 4, 0, 0x12, 0, 0, 0x5a]);
    assert!(!device.end_ping(previous, false));
    assert_eq!((device.index(), device.swid()), (1, 2));
    let (previous, _) = device.ping(0xff);
    assert!(device.end_ping(previous, true));
    assert_eq!((device.index(), device.swid()), (0xff, 3));
}

#[test]
fn ping_request_is_short_and_quick() {
    let r = ping_request();
    assert_eq!((r.feature, r.function, r.tries, r.timeout_ms), (0, 1, 2, 150));
    assert_eq!(r.params, vec![0, 0, 0x5a]);
}

#[test]
fn open_failure_names_the_path() {
    assert_eq!(
        open_failure("/dev/hidraw0", "Permission denied (os error 13)"),
        "open /dev/hidraw0: Permission denied (os error 13)"
    );
}
