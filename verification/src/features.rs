//! Which features a device has, and where they stand.
use vstd::prelude::*;

use crate::dialog;
use crate::dialog::{Answer, Call, Reply, Request, Step, PROBE_TIMEOUT_MS, PROBE_TRIES};

verus! {

/// Feature ids.
pub const DEVICE_NAME: u16 = 0x0005;

pub const BATTERY_STATUS: u16 = 0x1000;

pub const UNIFIED_BATTERY: u16 = 0x1004;

pub const HITS: u16 = 0x1b0c;

pub const ADJUSTABLE_DPI: u16 = 0x2201;

pub const EXTENDED_DPI: u16 = 0x2202;

pub const REPORT_RATE: u16 = 0x8060;

pub const EXTENDED_REPORT_RATE: u16 = 0x8061;

pub const ONBOARD_PROFILES: u16 = 0x8100;

/// A capability that comes in two generations. Recent mice have the extended
/// feature; older ones have the legacy feature only, which lays out its
/// functions differently for the same job.
#[derive(Clone, Copy)]
pub struct Capability {
    pub index: u8,
    pub legacy: bool,
}

/// Where the features of a device stand; `None` where it has none.
#[derive(Clone, Copy)]
pub struct Features {
    pub name: Option<u8>,
    pub battery: Option<Capability>,
    pub dpi: Option<Capability>,
    pub hits: Option<u8>,
    pub profiles: Option<u8>,
    pub report_rate: Option<Capability>,
}

impl View for Features {
    type V = Features;

    open spec fn view(&self) -> Features {
        *self
    }
}

/// The question where the feature with this id stands.
pub open spec fn query(id: u16) -> Call {
    Call {
        feature: 0,
        function: 0,
        params: dialog::word_bytes(id),
        tries: PROBE_TRIES,
        timeout_ms: PROBE_TIMEOUT_MS,
    }
}

/// The index that an answer to such a question gives. A device says 0 of a
/// feature that it does not have.
pub open spec fn index_in(a: Answer) -> Option<u8> {
    match a {
        Ok(body) => if body.len() > 0 && body[0] > 0 {
            Some(body[0])
        } else {
            None
        },
        Err(_) => None,
    }
}

/// Where one feature stands.
pub open spec fn spec_feature_optional(id: u16, heard: Seq<Answer>) -> Step<Call, Option<u8>> {
    if heard.len() == 0 {
        Step::Ask(query(id))
    } else {
        Step::Done(index_in(heard[0]))
    }
}

/// Where a capability stands: the extended feature where the device has it,
/// else the legacy one.
pub open spec fn spec_capability(extended: u16, legacy: u16, heard: Seq<Answer>) -> Step<
    Call,
    Option<Capability>,
> {
    if heard.len() == 0 {
        Step::Ask(query(extended))
    } else if let Some(index) = index_in(heard[0]) {
        Step::Done(Some(Capability { index, legacy: false }))
    } else if heard.len() == 1 {
        Step::Ask(query(legacy))
    } else if let Some(index) = index_in(heard[1]) {
        Step::Done(Some(Capability { index, legacy: true }))
    } else {
        Step::Done(None)
    }
}

/// How many answers it takes to know where a capability stands.
pub open spec fn capability_rounds(heard: Seq<Answer>) -> int {
    if heard.len() > 0 && index_in(heard[0]) is Some {
        1
    } else {
        2
    }
}

/// Where all features stand, looked up one after the other.
pub open spec fn spec_features(heard: Seq<Answer>) -> Step<Call, Features> {
    match spec_feature_optional(DEVICE_NAME, heard) {
        Step::Ask(c) => Step::Ask(c),
        Step::Done(name) => from_battery(name, heard.skip(1)),
    }
}

/// The look-up from the battery on.
pub open spec fn from_battery(name: Option<u8>, heard: Seq<Answer>) -> Step<Call, Features> {
    match spec_capability(UNIFIED_BATTERY, BATTERY_STATUS, heard) {
        Step::Ask(c) => Step::Ask(c),
        Step::Done(battery) => from_dpi(name, battery, heard.skip(capability_rounds(heard))),
    }
}

/// The look-up from the sensor on.
pub open spec fn from_dpi(
    name: Option<u8>,
    battery: Option<Capability>,
    heard: Seq<Answer>,
) -> Step<Call, Features> {
    match spec_capability(EXTENDED_DPI, ADJUSTABLE_DPI, heard) {
        Step::Ask(c) => Step::Ask(c),
        Step::Done(dpi) => from_hits(name, battery, dpi, heard.skip(capability_rounds(heard))),
    }
}

/// The look-up from the buttons on.
pub open spec fn from_hits(
    name: Option<u8>,
    battery: Option<Capability>,
    dpi: Option<Capability>,
    heard: Seq<Answer>,
) -> Step<Call, Features> {
    match spec_feature_optional(HITS, heard) {
        Step::Ask(c) => Step::Ask(c),
        Step::Done(hits) => from_profiles(name, battery, dpi, hits, heard.skip(1)),
    }
}

/// The look-up from the profiles on.
pub open spec fn from_profiles(
    name: Option<u8>,
    battery: Option<Capability>,
    dpi: Option<Capability>,
    hits: Option<u8>,
    heard: Seq<Answer>,
) -> Step<Call, Features> {
    match spec_feature_optional(ONBOARD_PROFILES, heard) {
        Step::Ask(c) => Step::Ask(c),
        Step::Done(profiles) => from_rate(name, battery, dpi, hits, profiles, heard.skip(1)),
    }
}

/// The look-up of the report rate, the last one.
pub open spec fn from_rate(
    name: Option<u8>,
    battery: Option<Capability>,
    dpi: Option<Capability>,
    hits: Option<u8>,
    profiles: Option<u8>,
    heard: Seq<Answer>,
) -> Step<Call, Features> {
    match spec_capability(EXTENDED_REPORT_RATE, REPORT_RATE, heard) {
        Step::Ask(c) => Step::Ask(c),
        Step::Done(report_rate) => Step::Done(
            Features { name, battery, dpi, hits, profiles, report_rate },
        ),
    }
}

/// The question where the feature with this id stands.
fn query_request(id: u16) -> (r: Request)
    ensures
        r@ == query(id),
{
    let params: Vec<u8> = vec![(id / 256) as u8, (id % 256) as u8];
    assert(params@ == dialog::word_bytes(id));
    Request {
        feature: 0,
        function: 0,
        params,
        tries: PROBE_TRIES,
        timeout_ms: PROBE_TIMEOUT_MS,
    }
}

/// The index that an answer gives.
fn index_of(reply: &Reply) -> (index: Option<u8>)
    ensures
        index == index_in(dialog::answer(*reply)),
{
    match reply {
        Ok(body) => if body.len() > 0 && body[0] > 0 {
            Some(body[0])
        } else {
            None
        },
        Err(_) => None,
    }
}

/// One look-up in a row of them, from reply number `at` on.
fn feature_at(id: u16, replies: &Vec<Reply>, at: usize) -> (step: Step<Request, Option<u8>>)
    requires
        at <= replies.len(),
    ensures
        dialog::shown(step) == spec_feature_optional(id, dialog::heard(replies@).skip(at as int)),
{
    if at == replies.len() {
        Step::Ask(query_request(id))
    } else {
        Step::Done(index_of(&replies[at]))
    }
}

/// One look-up of a capability in a row of them, from reply number `at` on,
/// with the number of the reply that follows.
fn capability_at(extended: u16, legacy: u16, replies: &Vec<Reply>, at: usize) -> (r: (
    Step<Request, Option<Capability>>,
    usize,
))
    requires
        at <= replies.len(),
    ensures
        dialog::shown(r.0) == spec_capability(
            extended,
            legacy,
            dialog::heard(replies@).skip(at as int),
        ),
        r.0 is Done ==> r.1 <= replies.len() && r.1 == at + capability_rounds(
            dialog::heard(replies@).skip(at as int),
        ),
{
    if at == replies.len() {
        return (Step::Ask(query_request(extended)), at);
    }
    if let Some(index) = index_of(&replies[at]) {
        return (Step::Done(Some(Capability { index, legacy: false })), at + 1);
    }
    if at + 1 == replies.len() {
        return (Step::Ask(query_request(legacy)), at);
    }
    match index_of(&replies[at + 1]) {
        Some(index) => (Step::Done(Some(Capability { index, legacy: true })), at + 2),
        None => (Step::Done(None), at + 2),
    }
}

/// Looks up where one feature stands.
pub fn feature_optional(id: u16, replies: &Vec<Reply>) -> (step: Step<Request, Option<u8>>)
    ensures
        replies@.len() >= 1 ==> step is Done,
        dialog::shown(step) == spec_feature_optional(id, dialog::heard(replies@)),
{
    assert(dialog::heard(replies@).skip(0) == dialog::heard(replies@));
    feature_at(id, replies, 0)
}

/// Looks up where a capability stands, preferring the extended generation. A
/// feature that the device does not have stays `None`: some other feature has
/// the index that one might guess.
pub fn capability(extended: u16, legacy: u16, replies: &Vec<Reply>) -> (step: Step<
    Request,
    Option<Capability>,
>)
    ensures
        replies@.len() >= 2 ==> step is Done,
        dialog::shown(step) == spec_capability(extended, legacy, dialog::heard(replies@)),
{
    assert(dialog::heard(replies@).skip(0) == dialog::heard(replies@));
    capability_at(extended, legacy, replies, 0).0
}

/// Looks up where all features stand.
pub fn features(replies: &Vec<Reply>) -> (step: Step<Request, Features>)
    ensures
        replies@.len() >= 9 ==> step is Done,
        dialog::shown(step) == spec_features(dialog::heard(replies@)),
{
    let ghost h = dialog::heard(replies@);
    assert(h.skip(0) == h);
    let name = match feature_at(DEVICE_NAME, replies, 0) {
        Step::Ask(r) => {
            return Step::Ask(r);
        },
        Step::Done(found) => found,
    };
    let (step, at) = capability_at(UNIFIED_BATTERY, BATTERY_STATUS, replies, 1);
    let battery = match step {
        Step::Ask(r) => {
            return Step::Ask(r);
        },
        Step::Done(found) => found,
    };
    let ghost h1 = h.skip(1);
    assert(h1.skip(capability_rounds(h1)) == h.skip(at as int));
    let ghost h2 = h.skip(at as int);
    let (step, at) = capability_at(EXTENDED_DPI, ADJUSTABLE_DPI, replies, at);
    let dpi = match step {
        Step::Ask(r) => {
            return Step::Ask(r);
        },
        Step::Done(found) => found,
    };
    assert(h2.skip(capability_rounds(h2)) == h.skip(at as int));
    let hits = match feature_at(HITS, replies, at) {
        Step::Ask(r) => {
            return Step::Ask(r);
        },
        Step::Done(found) => found,
    };
    assert(h.skip(at as int).skip(1) == h.skip(at + 1));
    let profiles = match feature_at(ONBOARD_PROFILES, replies, at + 1) {
        Step::Ask(r) => {
            return Step::Ask(r);
        },
        Step::Done(found) => found,
    };
    assert(h.skip(at + 1).skip(1) == h.skip(at + 2));
    let (step, at) = capability_at(EXTENDED_REPORT_RATE, REPORT_RATE, replies, at + 2);
    match step {
        Step::Ask(r) => Step::Ask(r),
        Step::Done(report_rate) => Step::Done(
            Features { name, battery, dpi, hits, profiles, report_rate },
        ),
    }
}

/// Where a feature stands on a device.
pub open spec fn place_of(device: spec_fn(Call) -> Answer, id: u16) -> Option<u8> {
    index_in(device(query(id)))
}

/// Where a capability stands on a device: the extended feature where there is
/// one, else the legacy one, else nowhere.
pub open spec fn capability_of(
    device: spec_fn(Call) -> Answer,
    extended: u16,
    legacy: u16,
) -> Option<Capability> {
    match (place_of(device, extended), place_of(device, legacy)) {
        (Some(index), _) => Some(Capability { index, legacy: false }),
        (None, Some(index)) => Some(Capability { index, legacy: true }),
        (None, None) => None,
    }
}

/// The look-up takes at most nine requests, and finds of every feature what
/// the device says of it.
pub proof fn law_features_are_what_the_device_says(device: spec_fn(Call) -> Answer)
    ensures
        dialog::run(|h: Seq<Answer>| spec_features(h), device, Seq::empty(), 9) == Some(
            Features {
                name: place_of(device, DEVICE_NAME),
                battery: capability_of(device, UNIFIED_BATTERY, BATTERY_STATUS),
                dpi: capability_of(device, EXTENDED_DPI, ADJUSTABLE_DPI),
                hits: place_of(device, HITS),
                profiles: place_of(device, ONBOARD_PROFILES),
                report_rate: capability_of(device, EXTENDED_REPORT_RATE, REPORT_RATE),
            },
        ),
{
    let name = place_of(device, DEVICE_NAME);
    let battery = capability_of(device, UNIFIED_BATTERY, BATTERY_STATUS);
    let dpi = capability_of(device, EXTENDED_DPI, ADJUSTABLE_DPI);
    let hits = place_of(device, HITS);
    let profiles = place_of(device, ONBOARD_PROFILES);
    lemma_capability_first(
        EXTENDED_REPORT_RATE,
        REPORT_RATE,
        |h: Seq<Answer>| from_rate(name, battery, dpi, hits, profiles, h),
        |report_rate: Option<Capability>|
            |h: Seq<Answer>|
                Step::<Call, Features>::Done(
                    Features { name, battery, dpi, hits, profiles, report_rate },
                ),
        device,
        0,
    );
    lemma_feature_first(
        ONBOARD_PROFILES,
        |h: Seq<Answer>| from_profiles(name, battery, dpi, hits, h),
        |profiles: Option<u8>|
            |h: Seq<Answer>| from_rate(name, battery, dpi, hits, profiles, h),
        device,
        2,
    );
    lemma_feature_first(
        HITS,
        |h: Seq<Answer>| from_hits(name, battery, dpi, h),
        |hits: Option<u8>| |h: Seq<Answer>| from_profiles(name, battery, dpi, hits, h),
        device,
        3,
    );
    lemma_capability_first(
        EXTENDED_DPI,
        ADJUSTABLE_DPI,
        |h: Seq<Answer>| from_dpi(name, battery, h),
        |dpi: Option<Capability>| |h: Seq<Answer>| from_hits(name, battery, dpi, h),
        device,
        4,
    );
    lemma_capability_first(
        UNIFIED_BATTERY,
        BATTERY_STATUS,
        |h: Seq<Answer>| from_battery(name, h),
        |battery: Option<Capability>| |h: Seq<Answer>| from_dpi(name, battery, h),
        device,
        6,
    );
    lemma_feature_first(
        DEVICE_NAME,
        |h: Seq<Answer>| spec_features(h),
        |name: Option<u8>| |h: Seq<Answer>| from_battery(name, h),
        device,
        8,
    );
}

/// An operation that looks up one feature first.
proof fn lemma_feature_first<T>(
    id: u16,
    whole: spec_fn(Seq<Answer>) -> Step<Call, T>,
    rest: spec_fn(Option<u8>) -> spec_fn(Seq<Answer>) -> Step<Call, T>,
    device: spec_fn(Call) -> Answer,
    rounds: nat,
)
    requires
        forall|h: Seq<Answer>| #[trigger]
            whole(h) == match spec_feature_optional(id, h) {
                Step::Ask(c) => Step::Ask(c),
                Step::Done(found) => rest(found)(h.skip(1)),
            },
    ensures
        dialog::run(whole, device, Seq::empty(), rounds + 1) == dialog::run(
            rest(place_of(device, id)),
            device,
            Seq::empty(),
            rounds,
        ),
{
    let a = device(query(id));
    let past = seq![a];
    assert(Seq::<Answer>::empty().push(a) =~= past + Seq::empty());
    assert forall|h: Seq<Answer>| #[trigger] whole(past + h) == rest(place_of(device, id))(h) by {
        assert((past + h).skip(1) =~= h);
    }
    dialog::lemma_run_shift(
        whole,
        rest(place_of(device, id)),
        device,
        past,
        Seq::empty(),
        rounds,
    );
}

/// An operation that looks up one capability first.
proof fn lemma_capability_first<T>(
    extended: u16,
    legacy: u16,
    whole: spec_fn(Seq<Answer>) -> Step<Call, T>,
    rest: spec_fn(Option<Capability>) -> spec_fn(Seq<Answer>) -> Step<Call, T>,
    device: spec_fn(Call) -> Answer,
    rounds: nat,
)
    requires
        forall|h: Seq<Answer>| #[trigger]
            whole(h) == match spec_capability(extended, legacy, h) {
                Step::Ask(c) => Step::Ask(c),
                Step::Done(found) => rest(found)(h.skip(capability_rounds(h))),
            },
        dialog::run(
            rest(capability_of(device, extended, legacy)),
            device,
            Seq::empty(),
            rounds,
        ) is Some,
    ensures
        dialog::run(whole, device, Seq::empty(), rounds + 2) == dialog::run(
            rest(capability_of(device, extended, legacy)),
            device,
            Seq::empty(),
            rounds,
        ),
{
    let after = rest(capability_of(device, extended, legacy));
    let a = device(query(extended));
    let b = device(query(legacy));
    let one = Seq::<Answer>::empty().push(a);
    let past = if place_of(device, extended) is Some {
        seq![a]
    } else {
        seq![a, b]
    };
    assert forall|h: Seq<Answer>| #[trigger] whole(past + h) == after(h) by {
        assert((past + h).skip(past.len() as int) =~= h);
    }
    reveal_with_fuel(dialog::run, 3);
    if place_of(device, extended) is Some {
        assert(one =~= past + Seq::empty());
        dialog::lemma_run_shift(whole, after, device, past, Seq::empty(), rounds + 1);
        dialog::lemma_run_more(after, device, Seq::empty(), rounds, rounds + 1);
    } else {
        assert(one.push(b) =~= past + Seq::empty());
        dialog::lemma_run_shift(whole, after, device, past, Seq::empty(), rounds);
    }
}

/// No place is made up: an index is never 0, and the device gave it.
pub proof fn law_no_index_is_guessed(device: spec_fn(Call) -> Answer, extended: u16, legacy: u16)
    ensures
        match capability_of(device, extended, legacy) {
            Some(c) => {
                let a = device(query(if c.legacy { legacy } else { extended }));
                &&& c.index > 0
                &&& a matches Ok(body)
                &&& body.len() > 0
                &&& body[0] == c.index
                &&& c.legacy ==> place_of(device, extended) is None
            },
            None => place_of(device, extended) is None && place_of(device, legacy) is None,
        },
{
}

/// A feature is found wherever it stands. The root feature is asked for it by
/// its id, high byte first, twice at most and 150 milliseconds each time; the
/// first byte of the reply is its index, whatever that is; and it is missing
/// only where the request failed, the reply is empty, or that byte is 0.
pub proof fn law_feature_is_found_wherever_it_stands(id: u16, heard: Seq<Answer>)
    ensures
        heard.len() == 0 ==> (spec_feature_optional(id, heard) matches Step::Ask(c) && {
            &&& c.feature == 0
            &&& c.function == 0
            &&& c.params.len() == 2
            &&& 256 * c.params[0] + c.params[1] == id
            &&& c.tries == 2
            &&& c.timeout_ms == 150
        }),
        heard.len() > 0 ==> (spec_feature_optional(id, heard) matches Step::Done(found) && {
            &&& found matches Some(index) ==> index > 0 && heard[0]->Ok_0[0] == index
            &&& found is None <==> (heard[0] is Err || heard[0]->Ok_0.len() == 0
                || heard[0]->Ok_0[0] == 0)
        }),
{
}

/// The first byte of a device's answer to the question for a feature; 0 where
/// there is none.
pub open spec fn told_index(device: spec_fn(Call) -> Answer, id: u16) -> u8 {
    let question = Call {
        feature: 0,
        function: 0,
        params: seq![(id / 256) as u8, (id % 256) as u8],
        tries: 2,
        timeout_ms: 150,
    };
    match device(question) {
        Ok(body) => if body.len() > 0 {
            body[0]
        } else {
            0
        },
        Err(_) => 0,
    }
}

/// Nothing is lost and nothing is made up: every feature is found exactly where
/// the device says that it stands, the extended generation before the legacy
/// one, and none is found that the device does not have.
pub proof fn law_every_feature_is_found(device: spec_fn(Call) -> Answer)
    ensures
        dialog::run(|h: Seq<Answer>| spec_features(h), device, Seq::empty(), 9) matches Some(f) && {
            &&& found_alone(device, 0x0005, f.name)
            &&& found_in_two(device, 0x1004, 0x1000, f.battery)
            &&& found_in_two(device, 0x2202, 0x2201, f.dpi)
            &&& found_alone(device, 0x1b0c, f.hits)
            &&& found_alone(device, 0x8100, f.profiles)
            &&& found_in_two(device, 0x8061, 0x8060, f.report_rate)
        },
{
    law_features_are_what_the_device_says(device);
}

/// A feature with this id was found where the device says, or not at all.
pub open spec fn found_alone(device: spec_fn(Call) -> Answer, id: u16, found: Option<u8>) -> bool {
    match found {
        Some(index) => index > 0 && index == told_index(device, id),
        None => told_index(device, id) == 0,
    }
}

/// A capability was found as the extended feature where the device says, else
/// as the legacy one, or not at all.
pub open spec fn found_in_two(
    device: spec_fn(Call) -> Answer,
    extended: u16,
    legacy: u16,
    found: Option<Capability>,
) -> bool {
    match found {
        Some(c) => {
            &&& c.index > 0
            &&& !c.legacy ==> c.index == told_index(device, extended)
            &&& c.legacy ==> c.index == told_index(device, legacy) && told_index(device, extended)
                == 0
        },
        None => told_index(device, extended) == 0 && told_index(device, legacy) == 0,
    }
}

/// A capability is looked up in at most two requests: for the legacy feature
/// only where the extended one is missing.
pub proof fn law_capability_is_found(
    device: spec_fn(Call) -> Answer,
    extended: u16,
    legacy: u16,
)
    ensures
        dialog::run(
            |h: Seq<Answer>| spec_capability(extended, legacy, h),
            device,
            Seq::empty(),
            2,
        ) matches Some(found) && found_in_two(device, extended, legacy, found),
        told_index(device, extended) > 0 ==> dialog::run(
            |h: Seq<Answer>| spec_capability(extended, legacy, h),
            device,
            Seq::empty(),
            1,
        ) == Some(
            Some(Capability { index: told_index(device, extended), legacy: false }),
        ),
{
    reveal_with_fuel(dialog::run, 3);
    let a = device(query(extended));
    let b = device(query(legacy));
    let one = Seq::<Answer>::empty().push(a);
    assert(one[0] == a);
    assert(one.push(b)[0] == a && one.push(b)[1] == b);
}

/// An answer says nothing of where a feature stands.
pub open spec fn says_nothing(a: Answer) -> bool {
    match a {
        Ok(body) => body.len() == 0 || body[0] == 0,
        Err(_) => true,
    }
}

/// A step asks for the feature with this id.
pub open spec fn asks_for_id<T>(step: Step<Call, T>, id: u16) -> bool {
    step matches Step::Ask(c) && c.feature == 0 && c.function == 0 && c.params == seq![
        (id / 256) as u8,
        (id % 256) as u8,
    ] && c.tries == 2 && c.timeout_ms == 150
}

/// Features are asked for in a fixed order: the name, the battery, the sensor,
/// the buttons, the profiles, the report rate. A legacy feature is asked for
/// right after its extended one where that is missing, and not at all where it
/// is there.
pub proof fn law_order_of_questions(heard: Seq<Answer>)
    ensures
        ({
            let step = spec_features(heard);
            let n = heard.len();
            &&& (forall|i: int| 0 <= i < n ==> says_nothing(#[trigger] heard[i])) ==> {
                &&& n == 0 ==> asks_for_id(step, 0x0005)
                &&& n == 1 ==> asks_for_id(step, 0x1004)
                &&& n == 2 ==> asks_for_id(step, 0x1000)
                &&& n == 3 ==> asks_for_id(step, 0x2202)
                &&& n == 4 ==> asks_for_id(step, 0x2201)
                &&& n == 5 ==> asks_for_id(step, 0x1b0c)
                &&& n == 6 ==> asks_for_id(step, 0x8100)
                &&& n == 7 ==> asks_for_id(step, 0x8061)
                &&& n == 8 ==> asks_for_id(step, 0x8060)
                &&& n >= 9 ==> step is Done
            }
            &&& (forall|i: int| 0 <= i < n ==> !says_nothing(#[trigger] heard[i])) ==> {
                &&& n == 0 ==> asks_for_id(step, 0x0005)
                &&& n == 1 ==> asks_for_id(step, 0x1004)
                &&& n == 2 ==> asks_for_id(step, 0x2202)
                &&& n == 3 ==> asks_for_id(step, 0x1b0c)
                &&& n == 4 ==> asks_for_id(step, 0x8100)
                &&& n == 5 ==> asks_for_id(step, 0x8061)
                &&& n >= 6 ==> step is Done
            }
        }),
{
    let n = heard.len();
    assert forall|i: int| 0 <= i < n implies says_nothing(#[trigger] heard[i]) <==> index_in(
        heard[i],
    ) is None by {}
    if forall|i: int| 0 <= i < n ==> says_nothing(#[trigger] heard[i]) {
        if n > 0 {
            let h1 = heard.skip(1);
            if n > 2 {
                let h3 = h1.skip(2);
                assert(h3 =~= heard.skip(3));
                if n > 4 {
                    let h5 = h3.skip(2);
                    assert(h5 =~= heard.skip(5));
                    if n > 5 {
                        let h6 = h5.skip(1);
                        assert(h6 =~= heard.skip(6));
                        if n > 6 {
                            assert(h6.skip(1) =~= heard.skip(7));
                        }
                    }
                }
            }
        }
    }
    if n > 0 && forall|i: int| 0 <= i < n ==> !says_nothing(#[trigger] heard[i]) {
        let h1 = heard.skip(1);
        if n > 1 {
            let h2 = h1.skip(1);
            assert(h2 =~= heard.skip(2));
            if n > 2 {
                let h3 = h2.skip(1);
                assert(h3 =~= heard.skip(3));
                if n > 3 {
                    let h4 = h3.skip(1);
                    assert(h4 =~= heard.skip(4));
                    if n > 4 {
                        assert(h4.skip(1) =~= heard.skip(5));
                    }
                }
            }
        }
    }
}

} // verus!
