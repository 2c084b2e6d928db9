use hidpp_core::battery::battery;
use hidpp_core::button::{button, set_button};
use hidpp_core::dialog::{Reply, Request, Step};
use hidpp_core::dpi::{
    dpi, dpi_presets, legacy_dpi_list, max_dpi, min_dpi, preset_fallback, set_dpi, LegacyDpiList,
};
use hidpp_core::features::{capability, feature_optional, features, Capability};
use hidpp_core::name::{clean_name, device_name};
use hidpp_core::profile::{onboard_mode, prefer_host_profile_mode, set_onboard_mode};
use hidpp_core::rate::{report_rate, report_rates, set_report_rate};

const EXTENDED: Capability = Capability { index: 9, legacy: false };
const LEGACY: Capability = Capability { index: 9, legacy: true };

/// What an operation asked for, and what it came to.
fn run<T>(
    operation: impl Fn(&Vec<Reply>) -> Step<Request, T>,
    device: impl Fn(&Request) -> Reply,
) -> (Vec<(u8, u8, Vec<u8>)>, T) {
    let mut asked = Vec::new();
    let mut replies = Vec::new();
    loop {
        match operation(&replies) {
            Step::Ask(r) => {
                replies.push(device(&r));
                asked.push((r.feature, r.function, r.params));
            }
            Step::Done(result) => return (asked, result),
        }
    }
}

fn silent(_: &Request) -> Reply {
    Err("gone".to_string())
}

fn says(body: Vec<u8>) -> impl Fn(&Request) -> Reply {
    move |_: &Request| Ok(body.clone())
}

#[test]
fn feature_index_of_zero_is_none() {
    let (asked, found) = run(|h| feature_optional(0x1b0c, h), says(vec![4]));
    assert_eq!(asked, vec![(0, 0, vec![0x1b, 0x0c])]);
    assert_eq!(found, Some(4));
    assert_eq!(run(|h| feature_optional(0x1b0c, h), says(vec![0])).1, None);
    assert_eq!(run(|h| feature_optional(0x1b0c, h), says(vec![])).1, None);
    assert_eq!(run(|h| feature_optional(0x1b0c, h), silent).1, None);
}

#[test]
fn feature_lookups_are_quick() {
    match feature_optional(0x0005, &vec![]) {
        Step::Ask(r) => assert_eq!((r.tries, r.timeout_ms), (2, 150)),
        Step::Done(_) => panic!("nothing was asked"),
    }
}

#[test]
fn extended_generation_is_preferred() {
    let (asked, found) = run(|h| capability(0x2202, 0x2201, h), says(vec![6]));
    assert_eq!(asked.len(), 1);
    assert!(found.is_some_and(|c| c.index == 6 && !c.legacy));
    let old = |r: &Request| -> Reply { Ok(vec![if r.params == [0x22, 0x01] { 3 } else { 0 }]) };
    let (asked, found) = run(|h| capability(0x2202, 0x2201, h), old);
    assert_eq!(asked.len(), 2);
    assert!(found.is_some_and(|c| c.index == 3 && c.legacy));
    assert!(run(|h| capability(0x2202, 0x2201, h), silent).1.is_none());
}

#[test]
fn features_are_what_the_device_says() {
    let device = |r: &Request| -> Reply {
        let id = u16::from_be_bytes([r.params[0], r.params[1]]);
        match id {
            0x0005 => Ok(vec![2]),
            0x1000 => Ok(vec![3]),
            0x2202 => Ok(vec![4]),
            0x2201 => Ok(vec![5]),
            0x8100 => Ok(vec![6]),
            0x8061 => Err("gone".to_string()),
            0x8060 => Ok(vec![7]),
            _ => Ok(vec![0]),
        }
    };
    let (asked, f) = run(features, device);
    assert_eq!(asked.len(), 8);
    assert_eq!(f.name, Some(2));
    assert!(f.battery.is_some_and(|c| c.index == 3 && c.legacy));
    assert!(f.dpi.is_some_and(|c| c.index == 4 && !c.legacy));
    assert_eq!(f.hits, None);
    assert_eq!(f.profiles, Some(6));
    assert!(f.report_rate.is_some_and(|c| c.index == 7 && c.legacy));
    assert_eq!(run(features, silent).0.len(), 9);
}

fn named(name: &'static [u8]) -> impl Fn(&Request) -> Reply {
    move |r: &Request| -> Reply {
        if r.function == 0 {
            return Ok(vec![name.len() as u8, 0, 0]);
        }
        let at = r.params[0] as usize;
        let mut piece = name[at..].to_vec();
        piece.resize(16, 0xee);
        Ok(piece)
    }
}

#[test]
fn name_is_read_in_pieces() {
    let (asked, name) = run(|h| device_name(9, h), named(b"G502 X LIGHTSPEED Wireless"));
    assert_eq!(name.as_deref(), Ok("G502 X LIGHTSPEED Wireless"));
    assert_eq!(asked, vec![(9, 0, vec![]), (9, 1, vec![0]), (9, 1, vec![16])]);
}

#[test]
fn name_ends_at_a_zero_and_is_trimmed() {
    assert_eq!(run(|h| device_name(9, h), named(b" G Pro \0junk")).1.as_deref(), Ok("G Pro"));
    assert_eq!(run(|h| device_name(9, h), named(b"")).1.as_deref(), Ok(""));
    assert_eq!(clean_name("\u{2003}a b\0c"), "a b");
}

#[test]
fn name_is_decoded_and_repaired() {
    let umlaut = named("Gr\u{fc}n \u{1f5b1}".as_bytes());
    assert_eq!(run(|h| device_name(9, h), umlaut).1.as_deref(), Ok("Gr\u{fc}n \u{1f5b1}"));
    let broken = named(&[b'a', 0xff, b'b']);
    assert_eq!(run(|h| device_name(9, h), broken).1.as_deref(), Ok("a\u{fffd}b"));
}

#[test]
fn name_is_limited() {
    let long: &'static [u8] = &[b'x'; 200];
    let (asked, name) = run(|h| device_name(9, h), named(long));
    assert_eq!(asked.len(), 9);
    assert_eq!(name.map(|n| n.len()), Ok(128));
}

#[test]
fn repaired_name_is_no_longer_than_told() {
    let invalid: &'static [u8] = &[0xff; 128];
    let name = run(|h| device_name(9, h), named(invalid)).1;
    assert_eq!(name.map(|n| n.chars().count()), Ok(128));
    let cut_short = named(&[b'a', 0xe2, 0x82]);
    assert_eq!(run(|h| device_name(9, h), cut_short).1.as_deref(), Ok("a\u{fffd}"));
}

#[test]
fn pieces_that_reach_into_the_next_are_kept() {
    let long = |r: &Request| -> Reply {
        if r.function == 0 { Ok(vec![20]) } else { Ok(vec![b'x'; 30]) }
    };
    assert_eq!(run(|h| device_name(9, h), long).1.map(|n| n.len()), Ok(24));
}

#[test]
fn name_fails_with_the_request() {
    assert_eq!(run(|h| device_name(9, h), silent).1, Err("gone".to_string()));
    let half = |r: &Request| -> Reply {
        if r.function == 0 { Ok(vec![20]) } else { Err("lost".to_string()) }
    };
    assert_eq!(run(|h| device_name(9, h), half).1, Err("lost".to_string()));
}

#[test]
fn battery_is_read() {
    let (asked, r) = run(|h| battery(EXTENDED, h), says(vec![77, 4, 2]));
    assert_eq!(asked, vec![(9, 1, vec![0, 0, 0])]);
    assert_eq!(r, Ok((77, "good", "charging_slow")));
    let level = |b: u8| run(|h| battery(EXTENDED, h), says(vec![1, b, 0])).1.map(|r| r.1);
    assert_eq!(level(1), Ok("critical"));
    assert_eq!(level(2), Ok("low"));
    assert_eq!(level(8), Ok("full"));
    assert_eq!(level(3), Ok("unknown"));
    let status = |b: u8| run(|h| battery(EXTENDED, h), says(vec![1, 1, b])).1.map(|r| r.2);
    assert_eq!(status(0), Ok("discharging"));
    assert_eq!(status(1), Ok("charging"));
    assert_eq!(status(3), Ok("full"));
    assert_eq!(status(4), Ok("error"));
    assert_eq!(status(5), Ok("unknown"));
    assert_eq!(run(|h| battery(EXTENDED, h), says(vec![])).1, Ok((0, "unknown", "unknown")));
    assert_eq!(run(|h| battery(EXTENDED, h), silent).1, Err("gone".to_string()));
}

#[test]
fn legacy_battery_level_follows_the_percentage() {
    let (asked, r) = run(|h| battery(LEGACY, h), says(vec![30, 20, 4]));
    assert_eq!(asked, vec![(9, 0, vec![])]);
    assert_eq!(r, Ok((30, "low", "charging_slow")));
    let level = |p: u8| run(|h| battery(LEGACY, h), says(vec![p])).1.map(|r| r.1);
    assert_eq!(level(10), Ok("critical"));
    assert_eq!(level(11), Ok("low"));
    assert_eq!(level(31), Ok("good"));
    assert_eq!(level(80), Ok("good"));
    assert_eq!(level(81), Ok("full"));
    let status = |c: u8| run(|h| battery(LEGACY, h), says(vec![1, 1, c])).1.map(|r| r.2);
    assert_eq!(status(0), Ok("discharging"));
    assert_eq!(status(1), Ok("charging"));
    assert_eq!(status(2), Ok("charging"));
    assert_eq!(status(3), Ok("full"));
    assert_eq!(status(5), Ok("error"));
    assert_eq!(status(7), Ok("error"));
    assert_eq!(status(8), Ok("unknown"));
    assert_eq!(run(|h| battery(LEGACY, h), says(vec![])).1, Ok((0, "critical", "unknown")));
    assert_eq!(run(|h| battery(LEGACY, h), silent).1, Err("gone".to_string()));
}

#[test]
fn dpi_is_read() {
    let body = vec![0, 0x06, 0x40, 0x03, 0x20, 0x06, 0x41, 0x03, 0x21, 3];
    let (asked, r) = run(|h| dpi(EXTENDED, h), says(body.clone()));
    assert_eq!(asked, vec![(9, 5, vec![0, 0, 0])]);
    assert_eq!(r, Ok((1600, 800, 1601, 801, "high")));
    let (asked, r) = run(|h| dpi(LEGACY, h), says(body));
    assert_eq!(asked, vec![(9, 2, vec![0])]);
    assert_eq!(r, Ok((1600, 800, 1600, 800, "unsupported")));
    assert_eq!(run(|h| dpi(EXTENDED, h), says(vec![0, 6])).1, Ok((1536, 0, 0, 0, "unknown")));
    assert_eq!(run(|h| dpi(EXTENDED, h), silent).1, Err("gone".to_string()));
}

#[test]
fn lowest_and_highest_of_a_list() {
    let list = LegacyDpiList { values: vec![800, 400, 1600], step: 0 };
    assert_eq!((list.min(), list.max()), (400, 1600));
    let none = LegacyDpiList { values: vec![], step: 0 };
    assert_eq!((none.min(), none.max()), (0, 0));
}

#[test]
fn legacy_list_keeps_values_and_step() {
    // 200, step 50, 12000
    let (asked, list) = run(|h| legacy_dpi_list(9, h), says(vec![0, 0, 200, 0xe0, 50, 0x2e, 0xe0, 0, 0, 7]));
    assert_eq!(asked, vec![(9, 1, vec![0])]);
    let list = list.unwrap();
    assert_eq!((list.values, list.step), (vec![200, 12000], 50));
    assert!(run(|h| legacy_dpi_list(9, h), says(vec![0, 0xe0, 50])).1.is_none());
    assert!(run(|h| legacy_dpi_list(9, h), says(vec![0, 1])).1.is_none());
    assert!(run(|h| legacy_dpi_list(9, h), silent).1.is_none());
}

#[test]
fn presets_are_offered() {
    assert_eq!(preset_fallback(), vec![800, 1200, 1600, 2400, 3200]);
    let range = says(vec![0, 0x04, 0, 0xe0, 50, 0x08, 0]);
    assert_eq!(run(|h| dpi_presets(LEGACY, h), range).1, vec![1200, 1600]);
    let narrow = says(vec![0, 0, 100, 0xe0, 50, 0, 200]);
    assert_eq!(run(|h| dpi_presets(LEGACY, h), narrow).1, vec![100, 200]);
    let listed = says(vec![0, 0x06, 0x40, 0x01, 0x90]);
    assert_eq!(run(|h| dpi_presets(LEGACY, h), listed).1, vec![1600, 400]);
    assert_eq!(run(|h| dpi_presets(LEGACY, h), silent).1, preset_fallback());
    let (asked, named) = run(|h| dpi_presets(EXTENDED, h), says(vec![1, 0, 0, 0, 2]));
    assert_eq!(asked, vec![(9, 3, vec![0, 0, 0])]);
    assert_eq!(named, vec![256, 512]);
    assert_eq!(run(|h| dpi_presets(EXTENDED, h), says(vec![0; 16])).1, preset_fallback());
    assert_eq!(run(|h| dpi_presets(EXTENDED, h), silent).1, preset_fallback());
    let full: Vec<u8> = vec![1; 16];
    assert_eq!(run(|h| dpi_presets(EXTENDED, h), says(full)).1.len(), 7);
}

#[test]
fn range_of_the_sensor_is_found() {
    let range = || says(vec![0, 0, 200, 0xe0, 50, 0x2e, 0xe0]);
    assert_eq!(run(|h| min_dpi(LEGACY, h), range()).1, 200);
    assert_eq!(run(|h| max_dpi(LEGACY, h), range()).1, 12000);
    assert_eq!(run(|h| min_dpi(LEGACY, h), silent).1, 100);
    assert_eq!(run(|h| max_dpi(LEGACY, h), silent).1, 12000);
    assert_eq!(run(|h| min_dpi(EXTENDED, h), silent), (vec![], 100));
    let (asked, top) = run(|h| max_dpi(EXTENDED, h), silent);
    assert_eq!((asked, top), (vec![(9, 2, vec![0, 0, 2])], 32000));
    let top = |w: u16| {
        let mut body = vec![0x64, 0x00];
        body.extend_from_slice(&w.to_be_bytes());
        run(|h| max_dpi(EXTENDED, h), says(body)).1
    };
    assert_eq!(top(44000), 44000);
    assert_eq!(top(45000), 32000);
    assert_eq!(top(43999), 32000);
    assert_eq!(top(25600), 32000);
    assert_eq!(top(33000), 33000);
}

#[test]
fn dpi_is_set_on_the_grid() {
    let ok = |target: u32| run(|h| set_dpi(EXTENDED, target, h), says(vec![]));
    let (asked, r) = ok(1234);
    assert_eq!(r, Ok(()));
    assert_eq!(asked, vec![(9, 6, vec![0, 0x04, 0xb0, 0x04, 0xb0, 2])]);
    assert_eq!(ok(0).0[0].2[1..3], [0, 100]);
    assert_eq!(ok(u32::MAX).0[0].2[1..3], [0x7d, 0x00]);
    assert_eq!(run(|h| set_dpi(EXTENDED, 800, h), silent).1, Err("gone".to_string()));
}

#[test]
fn legacy_dpi_is_set_within_the_list() {
    let set = |body: Vec<u8>, target: u32| run(|h| set_dpi(LEGACY, target, h), says(body)).0;
    // 200 to 12000 by 50
    let range = vec![0, 0, 200, 0xe0, 50, 0x2e, 0xe0];
    let asked = set(range.clone(), 1279);
    assert_eq!(asked, vec![(9, 1, vec![0]), (9, 3, vec![0, 0x04, 0xe2])]);
    assert_eq!(set(range.clone(), 5)[1].2, vec![0, 0, 200]);
    assert_eq!(set(range, 70000)[1].2, vec![0, 0x2e, 0xe0]);
    // a list without a step
    assert_eq!(set(vec![0, 0x01, 0x90, 0x06, 0x40], 801)[1].2, vec![0, 0x03, 0x21]);
    let (asked, r) = run(|h| set_dpi(LEGACY, 130, h), silent);
    assert_eq!(asked[1].2, vec![0, 0, 100]);
    assert_eq!(r, Err("gone".to_string()));
}

#[test]
fn report_rate_is_read() {
    let (asked, r) = run(|h| report_rate(LEGACY, h), says(vec![4]));
    assert_eq!((asked, r), (vec![(9, 1, vec![])], 250));
    assert_eq!(run(|h| report_rate(LEGACY, h), says(vec![3])).1, 333);
    assert_eq!(run(|h| report_rate(LEGACY, h), says(vec![0])).1, 1000);
    assert_eq!(run(|h| report_rate(LEGACY, h), says(vec![])).1, 1000);
    assert_eq!(run(|h| report_rate(LEGACY, h), silent).1, 1000);
    for (code, rate) in [(0, 125), (1, 250), (2, 500), (3, 1000), (4, 2000), (5, 4000), (6, 8000), (7, 1000)] {
        let (asked, r) = run(|h| report_rate(EXTENDED, h), says(vec![code]));
        assert_eq!((asked, r), (vec![(9, 2, vec![1])], rate));
    }
    let wired = |r: &Request| -> Reply {
        if r.params == [0] { Ok(vec![6]) } else { Err("gone".to_string()) }
    };
    let (asked, r) = run(|h| report_rate(EXTENDED, h), wired);
    assert_eq!((asked, r), (vec![(9, 2, vec![1]), (9, 2, vec![0])], 8000));
    assert_eq!(run(|h| report_rate(EXTENDED, h), silent).1, 1000);
    assert_eq!(run(|h| report_rate(EXTENDED, h), says(vec![])).1, 1000);
}

#[test]
fn report_rates_ascend() {
    let (asked, rates) = run(|h| report_rates(EXTENDED, h), silent);
    assert!(asked.is_empty());
    assert_eq!(rates, vec![125, 250, 500, 1000, 2000, 4000, 8000]);
    let (asked, rates) = run(|h| report_rates(LEGACY, h), says(vec![0x8b]));
    assert_eq!(asked, vec![(9, 0, vec![])]);
    assert_eq!(rates, vec![125, 250, 500, 1000]);
    let all = run(|h| report_rates(LEGACY, h), says(vec![0xff])).1;
    assert_eq!(all, vec![125, 142, 166, 200, 250, 333, 500, 1000]);
    assert_eq!(run(|h| report_rates(LEGACY, h), says(vec![0])).1, vec![1000]);
    assert_eq!(run(|h| report_rates(LEGACY, h), silent).1, vec![1000]);
}

#[test]
fn report_rate_is_set_by_code() {
    let (asked, ()) = run(|h| set_report_rate(EXTENDED, 4000, h), silent);
    assert_eq!(asked, vec![(9, 3, vec![5, 0, 0]), (9, 3, vec![5, 1, 0])]);
    let (asked, ()) = run(|h| set_report_rate(EXTENDED, 777, h), says(vec![]));
    assert_eq!(asked, vec![(9, 3, vec![3, 0, 0]), (9, 3, vec![3, 1, 0])]);
}

#[test]
fn legacy_report_rate_is_set_to_the_nearest() {
    let set = |bits: u8, rate: u32| run(|h| set_report_rate(LEGACY, rate, h), says(vec![bits])).0;
    assert_eq!(set(0x8b, 250), vec![(9, 0, vec![]), (9, 2, vec![4])]);
    assert_eq!(set(0x8b, 333)[1].2, vec![2]);
    assert_eq!(set(0x8b, 8000)[1].2, vec![1]);
    assert_eq!(set(0x8b, 0)[1].2, vec![8]);
    assert_eq!(set(0, 250)[1].2, vec![4]);
    assert_eq!(set(0, 0)[1].2, vec![255]);
    let (asked, ()) = run(|h| set_report_rate(LEGACY, 500, h), silent);
    assert_eq!(asked[1].2, vec![2]);
}

#[test]
fn shorter_of_two_equally_near_intervals_is_set() {
    let set = |bits: u8, rate: u32| run(|h| set_report_rate(LEGACY, rate, h), says(vec![bits])).0;
    // An interval of 3 is wanted, and 1 and 5 are named.
    assert_eq!(set(0x11, 333)[1].2, vec![1]);
    // An interval of 5 is wanted, and 3 and 7 are named.
    assert_eq!(set(0x44, 200)[1].2, vec![3]);
}

#[test]
fn offered_legacy_rates_are_set_exactly() {
    for rate in run(|h| report_rates(LEGACY, h), says(vec![0xff])).1 {
        let asked = run(|h| set_report_rate(LEGACY, rate, h), says(vec![0xff])).0;
        let interval = asked[1].2.clone();
        assert_eq!(run(|h| report_rate(LEGACY, h), says(interval)).1, rate);
    }
}

#[test]
fn button_is_read_and_set() {
    let (asked, r) = run(|h| button(9, 1, h), says(vec![1, 40, 21, 255]));
    assert_eq!((asked, r), (vec![(9, 2, vec![1])], Ok((10, 5, 63))));
    assert_eq!(run(|h| button(9, 1, h), says(vec![])).1, Ok((0, 0, 0)));
    assert_eq!(run(|h| button(9, 1, h), silent).1, Err("gone".to_string()));
    let set = |h: &Vec<Reply>| set_button(9, 1, Some(63), None, Some(0), h);
    let (asked, r) = run(set, says(vec![1, 40, 21, 255]));
    assert_eq!(asked, vec![(9, 2, vec![1]), (9, 1, vec![1, 252, 21, 0])]);
    assert_eq!(r, Ok(()));
    assert_eq!(run(|h| button(9, 1, h), says(asked[1].2.clone())).1, Ok((63, 5, 0)));
    assert_eq!(run(set, silent).1, Err("gone".to_string()));
    let stuck = |r: &Request| -> Reply {
        if r.function == 2 { Ok(vec![1, 4, 8, 12]) } else { Err("locked".to_string()) }
    };
    let (asked, r) = run(|h| set_button(9, 1, None, None, None, h), stuck);
    assert_eq!(asked[1].2, vec![1, 4, 8, 12]);
    assert_eq!(r, Err("locked".to_string()));
}

#[test]
fn onboard_mode_is_read() {
    let (asked, r) = run(|h| onboard_mode(9, h), says(vec![1]));
    assert_eq!((asked, r), (vec![(9, 2, vec![])], Ok((1, "onboard"))));
    assert_eq!(run(|h| onboard_mode(9, h), says(vec![2])).1, Ok((2, "host")));
    assert_eq!(run(|h| onboard_mode(9, h), says(vec![3])).1, Ok((3, "unknown")));
    assert_eq!(
        run(|h| onboard_mode(9, h), says(vec![])).1,
        Err("empty onboard-profile mode response".to_string())
    );
    assert_eq!(run(|h| onboard_mode(9, h), silent).1, Err("gone".to_string()));
}

#[test]
fn onboard_mode_is_set() {
    let (asked, r) = run(|h| set_onboard_mode(9, 2, h), says(vec![]));
    assert_eq!((asked, r), (vec![(9, 1, vec![2])], Ok(())));
    assert_eq!(run(|h| set_onboard_mode(9, 1, h), silent).1, Err("gone".to_string()));
    let (asked, r) = run(|h| set_onboard_mode(9, 17, h), says(vec![]));
    assert!(asked.is_empty());
    assert_eq!(r, Err("invalid onboard-profile mode: 17".to_string()));
}

#[test]
fn host_is_put_in_charge_once() {
    let (asked, r) = run(|h| prefer_host_profile_mode(9, h), says(vec![1]));
    assert_eq!((asked, r), (vec![(9, 2, vec![]), (9, 1, vec![2])], Ok(())));
    let (asked, r) = run(|h| prefer_host_profile_mode(9, h), says(vec![2]));
    assert_eq!((asked, r), (vec![(9, 2, vec![])], Ok(())));
    assert_eq!(
        run(|h| prefer_host_profile_mode(9, h), says(vec![])).1,
        Err("empty onboard-profile mode response".to_string())
    );
    let stuck = |r: &Request| -> Reply {
        if r.function == 2 { Ok(vec![1]) } else { Err("locked".to_string()) }
    };
    assert_eq!(run(|h| prefer_host_profile_mode(9, h), stuck).1, Err("locked".to_string()));
}

#[test]
fn operations_are_patient() {
    match battery(LEGACY, &vec![]) {
        Step::Ask(r) => assert_eq!((r.tries, r.timeout_ms), (3, 400)),
        Step::Done(_) => panic!("nothing was asked"),
    }
}
