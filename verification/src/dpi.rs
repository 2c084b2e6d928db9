//! The resolution of the sensor.
use vstd::prelude::*;

use crate::dialog;
use crate::dialog::{byte_if_any, request, word_at, Answer, Call, Reply, Request, Step};
use crate::features::Capability;

verus! {

/// The resolutions that are offered where a device names none.
pub const DPI_PRESETS: [u32; 5] = [800, 1200, 1600, 2400, 3200];

/// Ceiling of a legacy sensor whose list of resolutions cannot be read.
pub const LEGACY_MAX_DPI: u32 = 12000;

/// Floor of a sensor that names none.
pub const MIN_DPI: u32 = 100;

/// Ceiling of an extended sensor that names none, and the highest resolution
/// that such a sensor is set to.
pub const MAX_DPI: u32 = 32000;

/// The grid on which resolutions are set where a device names none.
pub const DPI_STEP: u32 = 50;

/// The first number that marks a step rather than a resolution.
pub const STEP_MARK: u16 = 0xe000;

/// How many resolutions a reply of the extended feature has room for.
pub const ENTRIES: usize = 7;

/// The presets, as values.
pub open spec fn presets() -> Seq<u16> {
    seq![800u16, 1200u16, 1600u16, 2400u16, 3200u16]
}

/// The lift-off distance that a code stands for.
pub open spec fn lift_off(code: Option<u8>) -> Seq<char> {
    match code {
        Some(0) => "unsupported"@,
        Some(1) => "low"@,
        Some(2) => "medium"@,
        Some(3) => "high"@,
        _ => "unknown"@,
    }
}

/// What a reply tells of the sensor: current and default resolution of one
/// axis, the same of the other axis, and the lift-off distance. A legacy sensor
/// has one axis and tells no distance.
pub open spec fn dpi_reading(legacy: bool, body: Seq<u8>) -> (u16, u16, u16, u16, Seq<char>) {
    let current = dialog::spec_word_at(body, 1);
    let default = dialog::spec_word_at(body, 3);
    if legacy {
        (current, default, current, default, "unsupported"@)
    } else {
        (
            current,
            default,
            dialog::spec_word_at(body, 5),
            dialog::spec_word_at(body, 7),
            lift_off(dialog::spec_byte_if_any(body, 9)),
        )
    }
}

/// The question for the state of the sensor.
pub open spec fn dpi_call(capability: Capability) -> Call {
    if capability.legacy {
        dialog::call(capability.index, 2, seq![0u8])
    } else {
        dialog::call(capability.index, 5, seq![0u8, 0u8, 0u8])
    }
}

/// Reading the sensor.
pub open spec fn spec_dpi(capability: Capability, heard: Seq<Answer>) -> Step<
    Call,
    Result<(u16, u16, u16, u16, Seq<char>), Seq<char>>,
> {
    if heard.len() == 0 {
        Step::Ask(dpi_call(capability))
    } else {
        match heard[0] {
            Ok(body) => Step::Done(Ok(dpi_reading(capability.legacy, body))),
            Err(message) => Step::Done(Err(message)),
        }
    }
}

/// Reads the sensor: resolutions and lift-off distance.
pub fn dpi(capability: Capability, replies: &Vec<Reply>) -> (step: Step<
    Request,
    Result<(u16, u16, u16, u16, &'static str), String>,
>)
    ensures
        replies@.len() >= 1 ==> step is Done,
        dialog::shown_result(step) == spec_dpi(capability, dialog::heard(replies@)),
{
    if replies.len() == 0 {
        if capability.legacy {
            let params: Vec<u8> = vec![0u8];
            assert(params@ == seq![0u8]);
            return Step::Ask(request(capability.index, 2, params));
        }
        let params: Vec<u8> = vec![0u8, 0u8, 0u8];
        assert(params@ == seq![0u8, 0u8, 0u8]);
        return Step::Ask(request(capability.index, 5, params));
    }
    match &replies[0] {
        Ok(body) => {
            let current: u16 = word_at(body, 1);
            let default: u16 = word_at(body, 3);
            if capability.legacy {
                return Step::Done(Ok((current, default, current, default, "unsupported")));
            }
            let lod = match byte_if_any(body, 9) {
                Some(0) => "unsupported",
                Some(1) => "low",
                Some(2) => "medium",
                Some(3) => "high",
                _ => "unknown",
            };
            Step::Done(Ok((current, default, word_at(body, 5), word_at(body, 7), lod)))
        },
        Err(message) => Step::Done(Err(message.clone())),
    }
}

/// What a legacy sensor says of its resolutions: a list of them, or the two
/// ends of a range and a step.
pub struct LegacyDpiList {
    pub values: Vec<u16>,
    pub step: u16,
}

/// What a legacy sensor says of its resolutions, as values.
pub struct DpiList {
    pub values: Seq<u16>,
    pub step: u16,
}

impl View for LegacyDpiList {
    type V = DpiList;

    open spec fn view(&self) -> DpiList {
        DpiList { values: self.values@, step: self.step }
    }
}

/// The least of some numbers; 0 where there is none.
pub open spec fn least(s: Seq<u16>) -> u16
    decreases s.len(),
{
    if s.len() == 0 {
        0
    } else if s.len() == 1 || s.last() < least(s.drop_last()) {
        s.last()
    } else {
        least(s.drop_last())
    }
}

/// The greatest of some numbers; 0 where there is none.
pub open spec fn greatest(s: Seq<u16>) -> u16
    decreases s.len(),
{
    if s.len() == 0 {
        0
    } else if s.last() > greatest(s.drop_last()) {
        s.last()
    } else {
        greatest(s.drop_last())
    }
}

/// The least and the greatest of some numbers are among them, and nothing lies
/// beyond the two.
pub proof fn law_least_and_greatest(s: Seq<u16>)
    ensures
        s.len() > 0 ==> s.contains(least(s)) && s.contains(greatest(s)),
        forall|i: int| 0 <= i < s.len() ==> least(s) <= #[trigger] s[i] <= greatest(s),
        least(s) <= greatest(s),
    decreases s.len(),
{
    if s.len() > 0 {
        let rest = s.drop_last();
        law_least_and_greatest(rest);
        assert(s[s.len() - 1] == s.last());
        assert forall|i: int| 0 <= i < s.len() implies least(s) <= #[trigger] s[i] <= greatest(
            s,
        ) by {
            if i < rest.len() {
                assert(rest[i] == s[i]);
            }
        }
        if rest.len() > 0 {
            let i = choose|i: int| 0 <= i < rest.len() && rest[i] == least(rest);
            let j = choose|j: int| 0 <= j < rest.len() && rest[j] == greatest(rest);
            assert(s[i] == least(rest));
            assert(s[j] == greatest(rest));
        }
    }
}

impl LegacyDpiList {
    /// The lowest resolution; 0 where there is none.
    pub fn min(&self) -> (lowest: u16)
        ensures
            lowest == least(self.values@),
            self.values@.len() > 0 ==> self.values@.contains(lowest),
            forall|i: int| 0 <= i < self.values@.len() ==> lowest <= #[trigger] self.values@[i],
    {
        proof {
            law_least_and_greatest(self.values@);
        }
        if self.values.len() == 0 {
            return 0;
        }
        let mut lowest: u16 = self.values[0];
        let mut i: usize = 1;
        assert(self.values@.take(1).last() == self.values@[0]);
        while i < self.values.len()
            invariant
                1 <= i <= self.values.len(),
                lowest == least(self.values@.take(i as int)),
            decreases self.values.len() - i,
        {
            assert(self.values@.take(i + 1).drop_last() == self.values@.take(i as int));
            if self.values[i] < lowest {
                lowest = self.values[i];
            }
            i = i + 1;
        }
        assert(self.values@.take(i as int) == self.values@);
        lowest
    }

    /// The highest resolution; 0 where there is none.
    pub fn max(&self) -> (highest: u16)
        ensures
            highest == greatest(self.values@),
            self.values@.len() > 0 ==> self.values@.contains(highest),
            forall|i: int| 0 <= i < self.values@.len() ==> #[trigger] self.values@[i] <= highest,
    {
        proof {
            law_least_and_greatest(self.values@);
        }
        let mut highest: u16 = 0;
        let mut i: usize = 0;
        while i < self.values.len()
            invariant
                i <= self.values.len(),
                highest == greatest(self.values@.take(i as int)),
            decreases self.values.len() - i,
        {
            assert(self.values@.take(i + 1).drop_last() == self.values@.take(i as int));
            if self.values[i] > highest {
                highest = self.values[i];
            }
            i = i + 1;
        }
        assert(self.values@.take(i as int) == self.values@);
        highest
    }
}

/// The whole big-endian numbers in a body after its first byte, which names
/// the sensor.
pub open spec fn list_words(body: Seq<u8>) -> Seq<u16> {
    Seq::new(
        if body.len() == 0 {
            0nat
        } else {
            ((body.len() - 1) / 2) as nat
        },
        |k: int| dialog::spec_word_at(body, 1 + 2 * k),
    )
}

/// A number in a list that is a resolution.
pub open spec fn is_resolution(w: u16) -> bool {
    0 < w < STEP_MARK
}

/// The step that some numbers mark: the last of them that marks one, less the
/// mark; 0 where none does.
pub open spec fn marked_step(words: Seq<u16>) -> u16
    decreases words.len(),
{
    if words.len() == 0 {
        0
    } else if words.last() >= STEP_MARK {
        (words.last() - STEP_MARK) as u16
    } else {
        marked_step(words.drop_last())
    }
}

/// What an answer says of the resolutions; `None` where it names none.
pub open spec fn list_in(a: Answer) -> Option<DpiList> {
    match a {
        Ok(body) => {
            let values = list_words(body).filter(|w: u16| is_resolution(w));
            if values.len() > 0 {
                Some(DpiList { values, step: marked_step(list_words(body)) })
            } else {
                None
            }
        },
        Err(_) => None,
    }
}

/// The question for the resolutions of a legacy sensor.
pub open spec fn list_call(feature: u8) -> Call {
    dialog::call(feature, 1, seq![0u8])
}

/// The question for the resolutions of a legacy sensor.
fn list_request(feature: u8) -> (r: Request)
    ensures
        r@ == list_call(feature),
{
    let params: Vec<u8> = vec![0u8];
    assert(params@ == seq![0u8]);
    request(feature, 1, params)
}

/// What a list says, as values, where there is one.
pub open spec fn shown_list(list: Option<LegacyDpiList>) -> Option<DpiList> {
    match list {
        Some(l) => Some(l@),
        None => None,
    }
}

/// What a reply says of the resolutions of a legacy sensor.
pub fn read_list(reply: &Reply) -> (list: Option<LegacyDpiList>)
    ensures
        shown_list(list) == list_in(dialog::answer(*reply)),
{
    let body = match reply {
        Ok(body) => body,
        Err(_) => {
            return None;
        },
    };
    let ghost words = list_words(body@);
    let ghost keep = |w: u16| is_resolution(w);
    let mut values: Vec<u16> = Vec::new();
    let mut step: u16 = 0;
    let mut k: usize = 0;
    let count: usize = if body.len() == 0 {
        0
    } else {
        (body.len() - 1) / 2
    };
    while k < count
        invariant
            k <= count,
            count == words.len(),
            count <= body.len() / 2,
            words == list_words(body@),
            keep == (|w: u16| is_resolution(w)),
            values@ == words.take(k as int).filter(keep),
            step == marked_step(words.take(k as int)),
        decreases count - k,
    {
        let word: u16 = word_at(body, 1 + 2 * k);
        proof {
            assert(words.take(k + 1).drop_last() == words.take(k as int));
            assert(words.take(k + 1).last() == word);
            assert(word & 0xe000 == 0xe000 <==> word >= 0xe000) by (bit_vector);
            assert(word >= 0xe000 ==> word & 0x1fff == word - 0xe000) by (bit_vector);
            reveal(Seq::filter);
        }
        if word != 0 {
            if word & 0xe000 == 0xe000 {
                step = word & 0x1fff;
            } else {
                values.push(word);
            }
        }
        k = k + 1;
    }
    assert(words.take(k as int) == words);
    if values.len() == 0 {
        None
    } else {
        Some(LegacyDpiList { values, step })
    }
}

/// Asks a legacy sensor for its resolutions.
pub fn legacy_dpi_list(feature: u8, replies: &Vec<Reply>) -> (step: Step<
    Request,
    Option<LegacyDpiList>,
>)
    ensures
        match step {
            Step::Ask(r) => replies@.len() == 0 && r@ == list_call(feature),
            Step::Done(list) => replies@.len() > 0 && shown_list(list) == list_in(
                dialog::answer(replies@[0]),
            ),
        },
{
    if replies.len() == 0 {
        return Step::Ask(list_request(feature));
    }
    Step::Done(read_list(&replies[0]))
}

/// The resolutions that are offered where a device names none.
pub fn preset_fallback() -> (v: Vec<u16>)
    ensures
        v@ == presets(),
{
    let mut v: Vec<u16> = Vec::new();
    let mut i: usize = 0;
    while i < 5
        invariant
            i <= 5,
            v@ == presets().take(i as int),
        decreases 5 - i,
    {
        v.push(DPI_PRESETS[i] as u16);
        i = i + 1;
    }
    v
}

/// The numbers in a reply of the extended feature, a missing byte counting as
/// 0.
pub open spec fn entry_words(body: Seq<u8>) -> Seq<u16> {
    Seq::new(ENTRIES as nat, |k: int| dialog::spec_word_at(body, 2 * k))
}

/// The resolutions to offer on a legacy sensor: those that it lists, or the
/// presets in its range, or the two ends of a range that holds no preset.
pub open spec fn legacy_presets(list: Option<DpiList>) -> Seq<u16> {
    match list {
        None => presets(),
        Some(l) => if l.step == 0 {
            l.values
        } else {
            let inside = presets().filter(
                |w: u16| least(l.values) <= w <= greatest(l.values),
            );
            if inside.len() > 0 {
                inside
            } else {
                seq![least(l.values), greatest(l.values)]
            }
        },
    }
}

/// The resolutions to offer on an extended sensor: those that it names, or the
/// presets where it names none.
pub open spec fn extended_presets(a: Answer) -> Seq<u16> {
    match a {
        Ok(body) => {
            let named = entry_words(body).filter(|w: u16| w > 0);
            if named.len() > 0 {
                named
            } else {
                presets()
            }
        },
        Err(_) => presets(),
    }
}

/// Finding the resolutions to offer.
pub open spec fn spec_dpi_presets(capability: Capability, heard: Seq<Answer>) -> Step<
    Call,
    Seq<u16>,
> {
    if heard.len() == 0 {
        if capability.legacy {
            Step::Ask(list_call(capability.index))
        } else {
            Step::Ask(dialog::call(capability.index, 3, seq![0u8, 0u8, 0u8]))
        }
    } else if capability.legacy {
        Step::Done(legacy_presets(list_in(heard[0])))
    } else {
        Step::Done(extended_presets(heard[0]))
    }
}

/// The presets from `low` to `high`.
fn presets_within(low: u16, high: u16) -> (v: Vec<u16>)
    ensures
        v@ == presets().filter(|w: u16| low <= w <= high),
{
    let all = preset_fallback();
    let ghost keep = |w: u16| low <= w <= high;
    let mut v: Vec<u16> = Vec::new();
    let mut i: usize = 0;
    while i < all.len()
        invariant
            i <= all.len(),
            all@ == presets(),
            keep == (|w: u16| low <= w <= high),
            v@ == presets().take(i as int).filter(keep),
        decreases all.len() - i,
    {
        proof {
            assert(presets().take(i + 1).drop_last() == presets().take(i as int));
            reveal(Seq::filter);
        }
        if all[i] >= low && all[i] <= high {
            v.push(all[i]);
        }
        i = i + 1;
    }
    assert(presets().take(i as int) == presets());
    v
}

/// The numbers of a reply of the extended feature that are not 0.
fn named_resolutions(body: &Vec<u8>) -> (v: Vec<u16>)
    ensures
        v@ == entry_words(body@).filter(|w: u16| w > 0),
{
    let ghost words = entry_words(body@);
    let ghost keep = |w: u16| w > 0;
    let mut v: Vec<u16> = Vec::new();
    let mut k: usize = 0;
    while k < ENTRIES
        invariant
            k <= ENTRIES,
            words == entry_words(body@),
            keep == (|w: u16| w > 0),
            v@ == words.take(k as int).filter(keep),
        decreases ENTRIES - k,
    {
        let word: u16 = word_at(body, 2 * k);
        proof {
            assert(words.take(k + 1).drop_last() == words.take(k as int));
            assert(words.take(k + 1).last() == word);
            reveal(Seq::filter);
        }
        if word > 0 {
            v.push(word);
        }
        k = k + 1;
    }
    assert(words.take(k as int) == words);
    v
}

/// Finds the resolutions to offer.
pub fn dpi_presets(capability: Capability, replies: &Vec<Reply>) -> (step: Step<
    Request,
    Vec<u16>,
>)
    ensures
        replies@.len() >= 1 ==> step is Done,
        dialog::shown(step) == spec_dpi_presets(capability, dialog::heard(replies@)),
{
    if capability.legacy {
        let list = match legacy_dpi_list(capability.index, replies) {
            Step::Ask(r) => {
                return Step::Ask(r);
            },
            Step::Done(list) => list,
        };
        return match list {
            None => Step::Done(preset_fallback()),
            Some(list) => {
                if list.step == 0 {
                    return Step::Done(list.values);
                }
                let low: u16 = list.min();
                let high: u16 = list.max();
                let inside = presets_within(low, high);
                if inside.len() == 0 {
                    let ends: Vec<u16> = vec![low, high];
                    assert(ends@ == seq![low, high]);
                    Step::Done(ends)
                } else {
                    Step::Done(inside)
                }
            },
        };
    }
    if replies.len() == 0 {
        let params: Vec<u8> = vec![0u8, 0u8, 0u8];
        assert(params@ == seq![0u8, 0u8, 0u8]);
        return Step::Ask(request(capability.index, 3, params));
    }
    match &replies[0] {
        Err(_) => Step::Done(preset_fallback()),
        Ok(body) => {
            let named = named_resolutions(body);
            if named.len() == 0 {
                Step::Done(preset_fallback())
            } else {
                Step::Done(named)
            }
        },
    }
}

/// The lowest resolution of a legacy sensor.
pub open spec fn legacy_floor(list: Option<DpiList>) -> u16 {
    match list {
        Some(l) => least(l.values),
        None => MIN_DPI as u16,
    }
}

/// The highest resolution of a legacy sensor.
pub open spec fn legacy_ceiling(list: Option<DpiList>) -> u16 {
    match list {
        Some(l) => greatest(l.values),
        None => LEGACY_MAX_DPI as u16,
    }
}

/// The grid on which a legacy sensor is set.
pub open spec fn legacy_step(list: Option<DpiList>) -> u16 {
    match list {
        Some(l) => if l.step == 0 {
            1
        } else {
            l.step
        },
        None => DPI_STEP as u16,
    }
}

/// Finding the lowest resolution.
pub open spec fn spec_min_dpi(capability: Capability, heard: Seq<Answer>) -> Step<Call, u32> {
    if !capability.legacy {
        Step::Done(MIN_DPI)
    } else if heard.len() == 0 {
        Step::Ask(list_call(capability.index))
    } else {
        Step::Done(legacy_floor(list_in(heard[0])) as u32)
    }
}

/// Finds the lowest resolution.
pub fn min_dpi(capability: Capability, replies: &Vec<Reply>) -> (step: Step<Request, u32>)
    ensures
        replies@.len() >= 1 ==> step is Done,
        dialog::shown(step) == spec_min_dpi(capability, dialog::heard(replies@)),
{
    if !capability.legacy {
        return Step::Done(MIN_DPI);
    }
    match legacy_dpi_list(capability.index, replies) {
        Step::Ask(r) => Step::Ask(r),
        Step::Done(Some(list)) => Step::Done(list.min() as u32),
        Step::Done(None) => Step::Done(MIN_DPI),
    }
}

/// A number that can be the ceiling of an extended sensor.
pub open spec fn is_ceiling(w: u16) -> bool {
    1000 < w <= 44000 && (w % 1000 == 0 || w == 25600)
}

/// The highest resolution that an answer gives an extended sensor.
pub open spec fn extended_ceiling(a: Answer) -> u32 {
    match a {
        Ok(body) => {
            let top = greatest(entry_words(body).filter(|w: u16| is_ceiling(w)));
            if top > MAX_DPI {
                top as u32
            } else {
                MAX_DPI
            }
        },
        Err(_) => MAX_DPI,
    }
}

/// Finding the highest resolution.
pub open spec fn spec_max_dpi(capability: Capability, heard: Seq<Answer>) -> Step<Call, u32> {
    if heard.len() == 0 {
        if capability.legacy {
            Step::Ask(list_call(capability.index))
        } else {
            Step::Ask(dialog::call(capability.index, 2, seq![0u8, 0u8, 2u8]))
        }
    } else if capability.legacy {
        Step::Done(legacy_ceiling(list_in(heard[0])) as u32)
    } else {
        Step::Done(extended_ceiling(heard[0]))
    }
}

/// The greatest number of a reply that can be a ceiling; 0 where none can.
fn top_entry(body: &Vec<u8>) -> (top: u16)
    ensures
        top == greatest(entry_words(body@).filter(|w: u16| is_ceiling(w))),
{
    let ghost words = entry_words(body@);
    let ghost keep = |w: u16| is_ceiling(w);
    let mut top: u16 = 0;
    let mut k: usize = 0;
    assert(words.take(0).filter(keep) == Seq::<u16>::empty()) by {
        reveal(Seq::filter);
    }
    while k < ENTRIES
        invariant
            k <= ENTRIES,
            words == entry_words(body@),
            keep == (|w: u16| is_ceiling(w)),
            top == greatest(words.take(k as int).filter(keep)),
        decreases ENTRIES - k,
    {
        let word: u16 = word_at(body, 2 * k);
        proof {
            let before = words.take(k as int).filter(keep);
            assert(words.take(k + 1).drop_last() == words.take(k as int));
            assert(words.take(k + 1).last() == word);
            reveal(Seq::filter);
            assert(before.push(word).drop_last() == before);
        }
        if word > 1000 && word <= 44000 && (word % 1000 == 0 || word == 25600) {
            if word > top {
                top = word;
            }
        }
        k = k + 1;
    }
    assert(words.take(k as int) == words);
    top
}

/// Finds the highest resolution.
pub fn max_dpi(capability: Capability, replies: &Vec<Reply>) -> (step: Step<Request, u32>)
    ensures
        replies@.len() >= 1 ==> step is Done,
        dialog::shown(step) == spec_max_dpi(capability, dialog::heard(replies@)),
{
    if capability.legacy {
        return match legacy_dpi_list(capability.index, replies) {
            Step::Ask(r) => Step::Ask(r),
            Step::Done(Some(list)) => Step::Done(list.max() as u32),
            Step::Done(None) => Step::Done(LEGACY_MAX_DPI),
        };
    }
    if replies.len() == 0 {
        let params: Vec<u8> = vec![0u8, 0u8, 2u8];
        assert(params@ == seq![0u8, 0u8, 2u8]);
        return Step::Ask(request(capability.index, 2, params));
    }
    match &replies[0] {
        Err(_) => Step::Done(MAX_DPI),
        Ok(body) => {
            let top: u32 = top_entry(body) as u32;
            if top > MAX_DPI {
                Step::Done(top)
            } else {
                Step::Done(MAX_DPI)
            }
        },
    }
}

/// The number from `low` to `high` that is nearest to `target`.
pub open spec fn clamped(target: int, low: int, high: int) -> int {
    if target < low {
        low
    } else if target > high {
        high
    } else {
        target
    }
}

/// The resolution that a legacy sensor is set to: the target, brought into the
/// sensor's range and then down onto the grid that starts at its lower end.
pub open spec fn legacy_setting(list: Option<DpiList>, target: u32) -> u16 {
    let low = legacy_floor(list) as int;
    let step = legacy_step(list) as int;
    let within = clamped(target as int, low, legacy_ceiling(list) as int);
    (low + (within - low) / step * step) as u16
}

/// The resolution that an extended sensor is set to: the target, brought into
/// range and then down to a multiple of the grid.
pub open spec fn extended_setting(target: u32) -> u16 {
    (clamped(target as int, MIN_DPI as int, MAX_DPI as int) / DPI_STEP as int
        * DPI_STEP as int) as u16
}

/// What is written to set a legacy sensor.
pub open spec fn legacy_params(value: u16) -> Seq<u8> {
    seq![0u8] + dialog::word_bytes(value)
}

/// What is written to set both axes of an extended sensor.
pub open spec fn extended_params(value: u16) -> Seq<u8> {
    seq![0u8] + dialog::word_bytes(value) + dialog::word_bytes(value) + seq![2u8]
}

/// What an answer to a setting means.
pub open spec fn set_outcome(a: Answer) -> Step<Call, Result<(), Seq<char>>> {
    match a {
        Ok(_) => Step::Done(Ok(())),
        Err(message) => Step::Done(Err(message)),
    }
}

/// Setting the resolution.
pub open spec fn spec_set_dpi(capability: Capability, target: u32, heard: Seq<Answer>) -> Step<
    Call,
    Result<(), Seq<char>>,
> {
    if capability.legacy {
        if heard.len() == 0 {
            Step::Ask(list_call(capability.index))
        } else if heard.len() == 1 {
            let value = legacy_setting(list_in(heard[0]), target);
            Step::Ask(dialog::call(capability.index, 3, legacy_params(value)))
        } else {
            set_outcome(heard[1])
        }
    } else if heard.len() == 0 {
        Step::Ask(
            dialog::call(capability.index, 6, extended_params(extended_setting(target))),
        )
    } else {
        set_outcome(heard[0])
    }
}

/// Where a legacy sensor is set: in its range, on its grid, and less than a
/// step below the target as far as the range allows.
pub proof fn law_legacy_setting_is_on_the_grid(list: Option<DpiList>, target: u32)
    requires
        list matches Some(l) ==> l.values.len() > 0,
    ensures
        ({
            let value = legacy_setting(list, target);
            let low = legacy_floor(list);
            let high = legacy_ceiling(list);
            let step = legacy_step(list);
            let within = clamped(target as int, low as int, high as int);
            &&& step > 0
            &&& low <= value <= high
            &&& (value - low) % step as int == 0
            &&& value <= within < value + step
        }),
{
    if let Some(l) = list {
        law_least_and_greatest(l.values);
    }
    let low = legacy_floor(list) as int;
    let step = legacy_step(list) as int;
    let within = clamped(target as int, low, legacy_ceiling(list) as int);
    let q = (within - low) / step;
    assert(0 <= q * step <= within - low < q * step + step && (q * step) % step == 0)
        by (nonlinear_arith)
        requires
            q == (within - low) / step,
            step > 0,
            within >= low,
    ;
}

/// Where an extended sensor is set: in range, on a multiple of the grid, and
/// less than a step below the target as far as the range allows.
pub proof fn law_extended_setting_is_on_the_grid(target: u32)
    ensures
        ({
            let value = extended_setting(target);
            let within = clamped(target as int, MIN_DPI as int, MAX_DPI as int);
            &&& MIN_DPI <= value <= MAX_DPI
            &&& value as int % DPI_STEP as int == 0
            &&& value <= within < value + DPI_STEP
        }),
{
}

/// What is written to a legacy sensor, told back by it, reads as the resolution
/// that was set; and an extended sensor is told that resolution for each of its
/// two axes.
pub proof fn law_dpi_reads_back(value: u16, rest: Seq<u8>)
    ensures
        dpi_reading(true, legacy_params(value) + rest).0 == value,
        dialog::spec_word_at(extended_params(value), 1) == value,
        dialog::spec_word_at(extended_params(value), 3) == value,
{
    let legacy = legacy_params(value) + rest;
    assert(legacy.subrange(1, 3) =~= dialog::word_bytes(value));
    dialog::law_word_round_trip(legacy, 1, value);
    let extended = extended_params(value);
    assert(extended.subrange(1, 3) =~= dialog::word_bytes(value));
    dialog::law_word_round_trip(extended, 1, value);
    assert(extended.subrange(3, 5) =~= dialog::word_bytes(value));
    dialog::law_word_round_trip(extended, 3, value);
}

/// There is always a resolution to offer, and 0 is never offered.
pub proof fn law_presets_are_offered(capability: Capability, heard: Seq<Answer>)
    requires
        heard.len() > 0,
    ensures
        spec_dpi_presets(capability, heard) matches Step::Done(offer) && {
            &&& offer.len() > 0
            &&& forall|i: int| 0 <= i < offer.len() ==> #[trigger] offer[i] > 0
        },
{
    broadcast use vstd::seq_lib::group_filter_ensures;

    if let Ok(body) = heard[0] {
        if capability.legacy {
            let words = list_words(body);
            let values = words.filter(|w: u16| is_resolution(w));
            assert forall|i: int| 0 <= i < values.len() implies #[trigger] values[i] > 0 by {
                assert(is_resolution(values[i]));
            }
            law_least_and_greatest(values);
            let inside = presets().filter(|w: u16| least(values) <= w <= greatest(values));
            assert forall|i: int| values.len() > 0 && 0 <= i < inside.len() implies #[trigger]
            inside[i] > 0 by {
                assert(least(values) <= inside[i]);
                assert(values.contains(least(values)));
            }
        }
    }
}

/// What is offered on a legacy sensor lies in its range.
pub proof fn law_legacy_presets_are_in_range(list: DpiList)
    requires
        list.values.len() > 0,
    ensures
        forall|i: int|
            0 <= i < legacy_presets(Some(list)).len() ==> legacy_floor(Some(list))
                <= #[trigger] legacy_presets(Some(list))[i] <= legacy_ceiling(Some(list)),
{
    broadcast use vstd::seq_lib::group_filter_ensures;

    let values = list.values;
    law_least_and_greatest(values);
    let inside = presets().filter(|w: u16| least(values) <= w <= greatest(values));
    assert forall|i: int| 0 <= i < inside.len() implies least(values) <= #[trigger] inside[i]
        <= greatest(values) by {}
}

/// A resolution that a legacy sensor lists, with no step, is set exactly.
pub proof fn law_listed_resolution_is_set_exactly(list: DpiList, target: u16)
    requires
        list.step == 0,
        list.values.contains(target),
    ensures
        legacy_setting(Some(list), target as u32) == target,
{
    law_least_and_greatest(list.values);
    let i = choose|i: int| 0 <= i < list.values.len() && list.values[i] == target;
    assert(least(list.values) <= list.values[i] <= greatest(list.values));
    assert((target - least(list.values)) / 1 * 1 == target - least(list.values))
        by (nonlinear_arith);
}

/// A resolution in range and on the grid is set exactly.
pub proof fn law_resolution_on_the_grid_is_set_exactly(list: Option<DpiList>, target: u32)
    requires
        list matches Some(l) ==> l.values.len() > 0,
    ensures
        MIN_DPI <= target <= MAX_DPI && target as int % DPI_STEP as int == 0 ==> extended_setting(
            target,
        ) == target,
        legacy_floor(list) <= target <= legacy_ceiling(list) && (target - legacy_floor(list))
            % legacy_step(list) as int == 0 ==> legacy_setting(list, target) == target,
{
    law_legacy_setting_is_on_the_grid(list, target);
    let low = legacy_floor(list) as int;
    let step = legacy_step(list) as int;
    assert((target - low) % step == 0 ==> (target - low) / step * step == target - low)
        by (nonlinear_arith)
        requires
            step > 0,
    ;
}

/// The lowest resolution is no higher than the highest, whatever a device
/// answers to the two questions for them.
pub proof fn law_range_is_not_empty(capability: Capability, low: Seq<Answer>, high: Seq<Answer>)
    requires
        low.len() > 0,
        high.len() > 0,
        capability.legacy ==> low[0] == high[0],
    ensures
        spec_min_dpi(capability, low) matches Step::Done(least) && spec_max_dpi(
            capability,
            high,
        ) matches Step::Done(most) && least <= most,
        !capability.legacy ==> (spec_max_dpi(capability, high) matches Step::Done(most) && MAX_DPI
            <= most <= 44000),
{
    if capability.legacy {
        if let Some(l) = list_in(low[0]) {
            law_least_and_greatest(l.values);
        }
    } else if let Ok(body) = high[0] {
        broadcast use vstd::seq_lib::group_filter_ensures;

        let tops = entry_words(body).filter(|w: u16| is_ceiling(w));
        law_least_and_greatest(tops);
        if tops.len() > 0 {
            assert(tops.contains(greatest(tops)));
        }
    }
}

/// Sets the resolution as near below `target` as the sensor allows.
pub fn set_dpi(capability: Capability, target: u32, replies: &Vec<Reply>) -> (step: Step<
    Request,
    Result<(), String>,
>)
    ensures
        replies@.len() >= 2 ==> step is Done,
        dialog::shown_result(step) == spec_set_dpi(capability, target, dialog::heard(replies@)),
{
    if capability.legacy {
        if replies.len() < 2 {
            return match legacy_dpi_list(capability.index, replies) {
                Step::Ask(r) => Step::Ask(r),
                Step::Done(list) => {
                    let value: u16 = legacy_value(&list, target);
                    Step::Ask(request(capability.index, 3, legacy_bytes(value)))
                },
            };
        }
        return outcome(&replies[1]);
    }
    if replies.len() == 0 {
        let value: u16 = (clamp(target, MIN_DPI, MAX_DPI) / DPI_STEP * DPI_STEP) as u16;
        let params: Vec<u8> = vec![
            0u8,
            (value / 256) as u8,
            (value % 256) as u8,
            (value / 256) as u8,
            (value % 256) as u8,
            2u8,
        ];
        assert(params@ == extended_params(value));
        return Step::Ask(request(capability.index, 6, params));
    }
    outcome(&replies[0])
}

/// The number from `low` to `high` that is nearest to `target`.
fn clamp(target: u32, low: u32, high: u32) -> (n: u32)
    ensures
        n == clamped(target as int, low as int, high as int),
{
    if target < low {
        low
    } else if target > high {
        high
    } else {
        target
    }
}

/// The resolution that a legacy sensor is set to.
fn legacy_value(list: &Option<LegacyDpiList>, target: u32) -> (value: u16)
    requires
        list matches Some(l) ==> l.values@.len() > 0,
    ensures
        value == legacy_setting(shown_list(*list), target),
{
    let (low, high, step): (u16, u16, u16) = match list {
        Some(list) => (
            list.min(),
            list.max(),
            if list.step == 0 {
                1
            } else {
                list.step
            },
        ),
        None => (MIN_DPI as u16, LEGACY_MAX_DPI as u16, DPI_STEP as u16),
    };
    proof {
        law_legacy_setting_is_on_the_grid(shown_list(*list), target);
        if let Some(l) = list {
            law_least_and_greatest(l.values@);
        }
    }
    let within: u16 = clamp(target, low as u32, high as u32) as u16;
    let steps: u16 = (within - low) / step;
    assert(0 <= steps * step <= within - low) by (nonlinear_arith)
        requires
            steps == (within - low) / step as int,
            step > 0,
            within >= low,
    ;
    low + steps * step
}

/// What is written to set a legacy sensor.
fn legacy_bytes(value: u16) -> (params: Vec<u8>)
    ensures
        params@ == legacy_params(value),
{
    let params: Vec<u8> = vec![0u8, (value / 256) as u8, (value % 256) as u8];
    assert(params@ == legacy_params(value));
    params
}

/// What a reply to a setting means.
fn outcome(reply: &Reply) -> (step: Step<Request, Result<(), String>>)
    ensures
        dialog::shown_result(step) == set_outcome(dialog::answer(*reply)),
{
    match reply {
        Ok(_) => Step::Done(Ok(())),
        Err(message) => Step::Done(Err(message.clone())),
    }
}

/// A list has an entry with this number: both of its bytes are there, after the
/// byte that names the sensor.
pub open spec fn has_entry(body: Seq<u8>, j: int) -> bool {
    0 <= j && 2 + 2 * j < body.len()
}

/// The entry with this number, high byte first.
pub open spec fn entry(body: Seq<u8>, j: int) -> int {
    256 * body[1 + 2 * j] + body[2 + 2 * j]
}

/// A list has this number among its entries.
pub open spec fn is_listed(body: Seq<u8>, w: int) -> bool {
    exists|j: int| #[trigger] has_entry(body, j) && entry(body, j) == w
}

/// What a list says. Its resolutions are its entries from 1 up to the first
/// mark, all of them and no others; there is no list where it has none, or where
/// the request failed. Its step is what the last marked entry holds below its
/// top three bits, and 0 where none is marked.
pub proof fn law_list_says_what_its_entries_say(body: Seq<u8>, message: Seq<char>)
    ensures
        match list_in(Ok(body)) {
            None => forall|j: int| #[trigger]
                has_entry(body, j) ==> entry(body, j) == 0 || entry(body, j) >= 0xe000,
            Some(l) => {
                &&& l.values.len() > 0
                &&& forall|j: int| #[trigger]
                    has_entry(body, j) && 0 < entry(body, j) < 0xe000 ==> l.values.contains(
                        entry(body, j) as u16,
                    )
                &&& forall|i: int|
                    0 <= i < l.values.len() ==> 0 < #[trigger] l.values[i] < 0xe000 && is_listed(
                        body,
                        l.values[i] as int,
                    )
                &&& forall|j: int|
                    (#[trigger] has_entry(body, j) && entry(body, j) >= 0xe000 && forall|m: int|
                        m > j && #[trigger] has_entry(body, m) ==> entry(body, m) < 0xe000)
                        ==> l.step == entry(body, j) - 0xe000
                &&& (forall|j: int| #[trigger] has_entry(body, j) ==> entry(body, j) < 0xe000)
                    ==> l.step == 0
            },
        },
        list_in(Err(message)) is None,
{
    broadcast use vstd::seq_lib::group_filter_ensures;

    let words = list_words(body);
    let keep = |w: u16| is_resolution(w);
    let values = words.filter(keep);
    assert forall|j: int| #[trigger] has_entry(body, j) implies 0 <= j < words.len() && words[j]
        == entry(body, j) by {}
    assert forall|j: int| #[trigger] has_entry(body, j) && 0 < entry(body, j) < 0xe000 implies
    values.contains(entry(body, j) as u16) by {
        assert(words.contains(words[j]));
        assert(keep(words[j]));
    }
    assert forall|i: int| 0 <= i < values.len() implies 0 < #[trigger] values[i] < 0xe000
        && is_listed(body, values[i] as int) by {
        assert(keep(values[i]));
        lemma_kept_was_there(words, keep, i);
        let j = choose|j: int| 0 <= j < words.len() && words[j] == values[i];
        assert(has_entry(body, j));
    }
    if values.len() == 0 {
        assert forall|j: int| #[trigger] has_entry(body, j) implies entry(body, j) == 0 || entry(
            body,
            j,
        ) >= 0xe000 by {
            if 0 < entry(body, j) < 0xe000 {
                assert(values.contains(entry(body, j) as u16));
            }
        }
    }
    assert forall|j: int|
        (#[trigger] has_entry(body, j) && entry(body, j) >= 0xe000 && forall|m: int|
            m > j && #[trigger] has_entry(body, m) ==> entry(body, m)
                < 0xe000) implies marked_step(words) == entry(body, j) - 0xe000 by {
        assert forall|m: int| j < m < words.len() implies #[trigger] words[m] < STEP_MARK by {
            assert(has_entry(body, m));
        }
        lemma_last_mark(words, j);
    }
    if forall|j: int| #[trigger] has_entry(body, j) ==> entry(body, j) < 0xe000 {
        assert forall|m: int| -1 < m < words.len() implies #[trigger] words[m] < STEP_MARK by {
            assert(has_entry(body, m));
        }
        lemma_last_mark(words, -1);
    }
}

/// What is kept of some numbers was among them.
proof fn lemma_kept_was_there(s: Seq<u16>, keep: spec_fn(u16) -> bool, i: int)
    requires
        0 <= i < s.filter(keep).len(),
    ensures
        s.contains(s.filter(keep)[i]),
    decreases s.len(),
{
    reveal(Seq::filter);
    if s.len() > 0 {
        let rest = s.drop_last();
        assert(s[s.len() - 1] == s.last());
        if i < rest.filter(keep).len() {
            lemma_kept_was_there(rest, keep, i);
            let j = choose|j: int| 0 <= j < rest.len() && rest[j] == rest.filter(keep)[i];
            assert(s[j] == rest[j]);
        }
    }
}

/// The last mark decides; -1 stands for none.
proof fn lemma_last_mark(words: Seq<u16>, j: int)
    requires
        -1 <= j < words.len(),
        j >= 0 ==> words[j] >= STEP_MARK,
        forall|m: int| j < m < words.len() ==> #[trigger] words[m] < STEP_MARK,
    ensures
        marked_step(words) == (if j >= 0 {
            words[j] - STEP_MARK
        } else {
            0
        }),
    decreases words.len(),
{
    if words.len() > 0 && j < words.len() - 1 {
        assert(words[words.len() - 1] < STEP_MARK);
        let rest = words.drop_last();
        assert forall|m: int| j < m < rest.len() implies #[trigger] rest[m] < STEP_MARK by {
            assert(rest[m] == words[m]);
        }
        lemma_last_mark(rest, j);
    }
}

/// The resolutions of a list, none where there is no list.
pub open spec fn values_of(list: Option<DpiList>) -> Seq<u16> {
    match list {
        Some(l) => l.values,
        None => Seq::empty(),
    }
}

/// The resolutions of a list come in the order of its entries, each as often as
/// it is listed: one more entry adds itself at the end where it is a resolution,
/// and nothing where it is not. Half an entry adds nothing.
pub proof fn law_one_more_entry(body: Seq<u8>, high: u8, low: u8)
    requires
        body.len() % 2 == 1,
    ensures
        ({
            let w = 256 * high + low;
            let before = values_of(list_in(Ok(body)));
            let after = values_of(list_in(Ok(body.push(high).push(low))));
            &&& 0 < w < 0xe000 ==> after == before.push(w as u16)
            &&& w == 0 || w >= 0xe000 ==> after == before
            &&& values_of(list_in(Ok(body.push(high)))) == before
            &&& body.len() == 1 ==> before.len() == 0
        }),
{
    reveal(Seq::filter);
    let keep = |w: u16| is_resolution(w);
    let words = list_words(body);
    let more = list_words(body.push(high).push(low));
    assert(more.drop_last() =~= words);
    assert(more.last() == 256 * high + low);
    assert(list_words(body.push(high)) =~= words);
    assert(values_of(list_in(Ok(body))) =~= words.filter(keep));
    assert(values_of(list_in(Ok(body.push(high).push(low)))) =~= more.filter(keep));
    assert(values_of(list_in(Ok(body.push(high)))) =~= words.filter(keep));
}

/// The range and the grid of a legacy sensor, by what its list says: the lowest
/// and the highest of its resolutions and its step, 1 where it has none; and
/// 100 to 12000 by 50 where there is no list.
pub open spec fn has_range(list: Option<DpiList>, low: int, high: int, step: int) -> bool {
    match list {
        None => low == 100 && high == 12000 && step == 50,
        Some(l) => {
            &&& exists|i: int| 0 <= i < l.values.len() && #[trigger] l.values[i] == low
            &&& exists|i: int| 0 <= i < l.values.len() && #[trigger] l.values[i] == high
            &&& forall|i: int| 0 <= i < l.values.len() ==> low <= #[trigger] l.values[i] <= high
            &&& l.step > 0 ==> step == l.step
            &&& l.step == 0 ==> step == 1
        },
    }
}

/// The range of a sensor is what the limits of its list say.
proof fn lemma_range(list: Option<DpiList>, low: int, high: int, step: int)
    requires
        has_range(list, low, high, step),
    ensures
        low == legacy_floor(list),
        high == legacy_ceiling(list),
        step == legacy_step(list),
        step > 0,
        list matches Some(l) ==> l.values.len() > 0,
{
    if let Some(l) = list {
        law_least_and_greatest(l.values);
        let i = choose|i: int| 0 <= i < l.values.len() && #[trigger] l.values[i] == low;
        let j = choose|j: int| 0 <= j < l.values.len() && #[trigger] l.values[j] == high;
        let m = choose|m: int| 0 <= m < l.values.len() && l.values[m] == least(l.values);
        let n = choose|n: int| 0 <= n < l.values.len() && l.values[n] == greatest(l.values);
        assert(low <= l.values[m] && l.values[n] <= high);
        assert(least(l.values) <= l.values[i] && l.values[j] <= greatest(l.values));
    }
}

/// What setting a legacy sensor writes. Its list is asked for first. Then its
/// resolution is written after a zero byte: the target, brought into the
/// sensor's own range and down onto the grid from its lowest resolution, and
/// less than a step below; so a target in range and on the grid is written as it
/// is. The outcome is that of this second request.
pub proof fn law_legacy_sensor_is_set(
    index: u8,
    target: u32,
    heard: Seq<Answer>,
    low: int,
    high: int,
    step: int,
)
    requires
        heard.len() > 0 ==> has_range(list_in(heard[0]), low, high, step),
    ensures
        ({
            let next = spec_set_dpi(Capability { index, legacy: true }, target, heard);
            let within = if target < low {
                low
            } else if target > high {
                high
            } else {
                target as int
            };
            &&& heard.len() == 0 ==> next == Step::<Call, Result<(), Seq<char>>>::Ask(
                Call {
                    feature: index,
                    function: 1,
                    params: seq![0u8],
                    tries: 3,
                    timeout_ms: 400,
                },
            )
            &&& heard.len() == 1 ==> (next matches Step::Ask(c) && {
                let value = 256 * c.params[1] + c.params[2];
                &&& c.feature == index
                &&& c.function == 3
                &&& c.params.len() == 3
                &&& c.params[0] == 0
                &&& c.tries == 3
                &&& c.timeout_ms == 400
                &&& low <= value <= within < value + step
                &&& (value - low) % step == 0
                &&& low <= target <= high && (target - low) % step == 0 ==> value == target
            })
            &&& heard.len() >= 2 ==> match heard[1] {
                Ok(_) => next == Step::<Call, Result<(), Seq<char>>>::Done(Ok(())),
                Err(message) => next == Step::<Call, Result<(), Seq<char>>>::Done(Err(message)),
            }
        }),
{
    if heard.len() == 1 {
        let list = list_in(heard[0]);
        lemma_range(list, low, high, step);
        law_legacy_setting_is_on_the_grid(list, target);
        law_resolution_on_the_grid_is_set_exactly(list, target);
        let value = legacy_setting(list, target);
        assert(legacy_params(value) =~= seq![0u8, (value / 256) as u8, (value % 256) as u8]);
    }
}

/// What setting an extended sensor writes: once for each axis the target,
/// brought into 100 to 32000 and down to a multiple of 50, less than 50 below.
/// The outcome is that of the one request.
pub proof fn law_extended_sensor_is_set(index: u8, target: u32, heard: Seq<Answer>)
    ensures
        ({
            let next = spec_set_dpi(Capability { index, legacy: false }, target, heard);
            let within = if target < 100 {
                100
            } else if target > 32000 {
                32000
            } else {
                target as int
            };
            &&& heard.len() == 0 ==> (next matches Step::Ask(c) && {
                let value = 256 * c.params[1] + c.params[2];
                &&& c.feature == index
                &&& c.function == 6
                &&& c.params.len() == 6
                &&& c.params[0] == 0
                &&& c.params[3] == c.params[1]
                &&& c.params[4] == c.params[2]
                &&& c.params[5] == 2
                &&& c.tries == 3
                &&& c.timeout_ms == 400
                &&& value % 50 == 0
                &&& value <= within < value + 50
            })
            &&& heard.len() > 0 ==> match heard[0] {
                Ok(_) => next == Step::<Call, Result<(), Seq<char>>>::Done(Ok(())),
                Err(message) => next == Step::<Call, Result<(), Seq<char>>>::Done(Err(message)),
            }
        }),
{
    law_extended_setting_is_on_the_grid(target);
    let value = extended_setting(target);
    let high = (value / 256) as u8;
    let low = (value % 256) as u8;
    assert(extended_params(value) =~= seq![0u8, high, low, high, low, 2u8]);
}

/// A legacy sensor whose list is the two ends of a range with a marked step
/// between them has that range and that step.
pub proof fn law_range_is_understood(sensor: u8, low: u16, step: u16, high: u16)
    requires
        0 < low <= high < 0xe000,
        0 < step < 0x2000,
    ensures
        has_range(
            list_in(
                Ok(
                    seq![sensor] + dialog::word_bytes(low) + dialog::word_bytes(
                        (0xe000 + step) as u16,
                    ) + dialog::word_bytes(high),
                ),
            ),
            low as int,
            high as int,
            step as int,
        ),
{
    let mark = (0xe000 + step) as u16;
    let body = seq![sensor] + dialog::word_bytes(low) + dialog::word_bytes(mark)
        + dialog::word_bytes(high);
    law_list_says_what_its_entries_say(body, Seq::empty());
    assert(has_entry(body, 0) && has_entry(body, 1) && has_entry(body, 2) && !has_entry(body, 3));
    assert(entry(body, 0) == low && entry(body, 1) == mark && entry(body, 2) == high);
    let l = list_in(Ok(body))->0;
    assert(l.values.contains(entry(body, 0) as u16));
    assert(l.values.contains(entry(body, 2) as u16));
    let i = choose|i: int| 0 <= i < l.values.len() && l.values[i] == low;
    let k = choose|k: int| 0 <= k < l.values.len() && l.values[k] == high;
    assert(l.values[i] == low && l.values[k] == high);
    assert forall|i: int| 0 <= i < l.values.len() implies low <= #[trigger] l.values[i] <= high by {
        let j = choose|j: int| #[trigger] has_entry(body, j) && entry(body, j) == l.values[i];
        assert(j == 0 || j == 1 || j == 2);
    }
    assert(l.step == step) by {
        assert forall|m: int| m > 1 && #[trigger] has_entry(body, m) implies entry(body, m)
            < 0xe000 by {
            assert(m == 2);
        }
        assert(has_entry(body, 1));
    }
}

/// What is read of a sensor: two numbers, the current and the default
/// resolution, after the byte that names the sensor; from an extended sensor two
/// more for the other axis, and the lift-off distance after them.
pub proof fn law_sensor_is_read(capability: Capability, heard: Seq<Answer>)
    ensures
        ({
            let step = spec_dpi(capability, heard);
            &&& heard.len() == 0 ==> (step matches Step::Ask(c) && {
                &&& c.feature == capability.index
                &&& capability.legacy ==> c.function == 2 && c.params == seq![0u8]
                &&& !capability.legacy ==> c.function == 5 && c.params == seq![0u8, 0u8, 0u8]
                &&& c.tries == 3
                &&& c.timeout_ms == 400
            })
            &&& heard.len() > 0 ==> match heard[0] {
                Err(message) => step == Step::<
                    Call,
                    Result<(u16, u16, u16, u16, Seq<char>), Seq<char>>,
                >::Done(Err(message)),
                Ok(body) => step matches Step::Done(Ok(r)) && {
                    &&& is_number_at(r.0, body, 1)
                    &&& is_number_at(r.1, body, 3)
                    &&& capability.legacy ==> r.2 == r.0 && r.3 == r.1 && r.4 == "unsupported"@
                    &&& !capability.legacy ==> {
                        let code = if body.len() > 9 {
                            body[9] as int
                        } else {
                            -1
                        };
                        &&& is_number_at(r.2, body, 5)
                        &&& is_number_at(r.3, body, 7)
                        &&& code == 0 ==> r.4 == "unsupported"@
                        &&& code == 1 ==> r.4 == "low"@
                        &&& code == 2 ==> r.4 == "medium"@
                        &&& code == 3 ==> r.4 == "high"@
                        &&& code < 0 || code > 3 ==> r.4 == "unknown"@
                    }
                },
            }
        }),
{
}

/// `n` stands at `i` with its high byte first, bytes past the end counting as 0.
pub open spec fn is_number_at(n: u16, body: Seq<u8>, i: int) -> bool {
    n == 256 * (if i < body.len() {
        body[i] as int
    } else {
        0
    }) + (if i + 1 < body.len() {
        body[i + 1] as int
    } else {
        0
    })
}

/// A sensor that keeps what setting it wrote reads back with the resolution that
/// was written.
pub proof fn law_set_sensor_reads_back(
    index: u8,
    target: u32,
    list: Answer,
    low: int,
    high: int,
    step: int,
)
    requires
        has_range(list_in(list), low, high, step),
    ensures
        ({
            let legacy = Capability { index, legacy: true };
            &&& spec_set_dpi(legacy, target, seq![list]) matches Step::Ask(c)
            &&& spec_dpi(legacy, seq![Ok(c.params)]) matches Step::Done(Ok(r))
            &&& low <= r.0 <= high
            &&& low <= target <= high && (target - low) % step == 0 ==> r.0 == target
        }),
{
    let legacy = Capability { index, legacy: true };
    let heard: Seq<Answer> = seq![list];
    assert(heard[0] == list);
    law_legacy_sensor_is_set(index, target, heard, low, high, step);
    lemma_range(list_in(list), low, high, step);
    law_legacy_setting_is_on_the_grid(list_in(list), target);
    let c = spec_set_dpi(legacy, target, heard)->Ask_0;
    let kept: Seq<Answer> = seq![Ok(c.params)];
    assert(kept[0] == Ok::<Seq<u8>, Seq<char>>(c.params));
    law_sensor_is_read(legacy, kept);
}

/// One of the five presets.
pub open spec fn is_preset(w: int) -> bool {
    w == 800 || w == 1200 || w == 1600 || w == 2400 || w == 3200
}

/// Resolutions that rise from one to the next.
pub open spec fn rising(s: Seq<u16>) -> bool {
    forall|i: int, j: int| 0 <= i < j < s.len() ==> #[trigger] s[i] < #[trigger] s[j]
}

/// What is offered on a legacy sensor: what it lists, where it lists single
/// resolutions; where it has a range, the presets in it, all of them and in
/// rising order, or its two ends where it holds none; and all presets where it
/// has no list.
pub proof fn law_offer_on_a_legacy_sensor(
    index: u8,
    heard: Seq<Answer>,
    low: int,
    high: int,
    step: int,
)
    requires
        heard.len() > 0 ==> has_range(list_in(heard[0]), low, high, step),
    ensures
        ({
            let next = spec_dpi_presets(Capability { index, legacy: true }, heard);
            &&& heard.len() == 0 ==> next == Step::<Call, Seq<u16>>::Ask(
                Call {
                    feature: index,
                    function: 1,
                    params: seq![0u8],
                    tries: 3,
                    timeout_ms: 400,
                },
            )
            &&& heard.len() > 0 ==> (next matches Step::Done(offer) && match list_in(heard[0]) {
                None => rising(offer) && forall|w: u16| #[trigger]
                    offer.contains(w) <==> is_preset(w as int),
                Some(l) => if l.step == 0 {
                    offer == l.values
                } else if exists|w: int| #[trigger] is_preset(w) && low <= w <= high {
                    rising(offer) && forall|w: u16| #[trigger]
                        offer.contains(w) <==> is_preset(w as int) && low <= w <= high
                } else {
                    offer == seq![low as u16, high as u16]
                },
            })
        }),
{
    if heard.len() > 0 {
        lemma_range(list_in(heard[0]), low, high, step);
        lemma_presets_within(low as u16, high as u16);
        lemma_presets_within(0, u16::MAX);
        let all = presets().filter(|w: u16| 0 <= w <= u16::MAX);
        assert(all =~= presets()) by {
            reveal(Seq::filter);
            lemma_all_kept(presets(), |w: u16| 0 <= w <= u16::MAX);
        }
        if let Some(l) = list_in(heard[0]) {
            if l.step != 0 {
                let inside = presets().filter(
                    |w: u16| least(l.values) <= w <= greatest(l.values),
                );
                let same = presets().filter(|w: u16| low as u16 <= w <= high as u16);
                assert(inside == same);
                if exists|w: int| #[trigger] is_preset(w) && low <= w <= high {
                    let w = choose|w: int| #[trigger] is_preset(w) && low <= w <= high;
                    assert(same.contains(w as u16));
                } else if same.len() > 0 {
                    assert(same.contains(same[0]));
                    assert(is_preset(same[0] as int));
                }
            }
        }
    }
}

proof fn lemma_all_kept(s: Seq<u16>, keep: spec_fn(u16) -> bool)
    requires
        forall|i: int| 0 <= i < s.len() ==> keep(#[trigger] s[i]),
    ensures
        s.filter(keep) == s,
    decreases s.len(),
{
    reveal(Seq::filter);
    if s.len() > 0 {
        let rest = s.drop_last();
        assert forall|i: int| 0 <= i < rest.len() implies keep(#[trigger] rest[i]) by {
            assert(rest[i] == s[i]);
        }
        lemma_all_kept(rest, keep);
        assert(keep(s[s.len() - 1]));
        assert(s =~= rest.push(s.last()));
    } else {
        assert(s.filter(keep) =~= s);
    }
}

/// The presets between two limits.
proof fn lemma_presets_within(low: u16, high: u16)
    ensures
        ({
            let inside = presets().filter(|w: u16| low <= w <= high);
            &&& rising(inside)
            &&& forall|w: u16| #[trigger]
                inside.contains(w) <==> is_preset(w as int) && low <= w <= high
        }),
{
    broadcast use vstd::seq_lib::group_filter_ensures;

    let keep = |w: u16| low <= w <= high;
    let all = presets();
    let inside = all.filter(keep);
    assert(all[0] == 800 && all[1] == 1200 && all[2] == 1600 && all[3] == 2400 && all[4] == 3200);
    assert forall|w: u16| #[trigger] inside.contains(w) <==> is_preset(w as int) && low <= w
        <= high by {
        if inside.contains(w) {
            let i = choose|i: int| 0 <= i < inside.len() && inside[i] == w;
            assert(keep(inside[i]));
            lemma_kept_was_there(all, keep, i);
        }
        if is_preset(w as int) && low <= w <= high {
            assert(all.contains(w));
            assert(keep(w));
        }
    }
    lemma_filter_rises(all, keep);
}

/// What is kept of rising resolutions rises.
proof fn lemma_filter_rises(s: Seq<u16>, keep: spec_fn(u16) -> bool)
    requires
        rising(s),
    ensures
        rising(s.filter(keep)),
        s.len() > 0 ==> forall|i: int|
            0 <= i < s.filter(keep).len() ==> #[trigger] s.filter(keep)[i] <= s.last(),
        s.len() == 0 ==> s.filter(keep).len() == 0,
    decreases s.len(),
{
    reveal(Seq::filter);
    if s.len() > 0 {
        let rest = s.drop_last();
        assert(rising(rest)) by {
            assert forall|i: int, j: int| 0 <= i < j < rest.len() implies #[trigger] rest[i]
                < #[trigger] rest[j] by {
                assert(s[i] < s[j]);
            }
        }
        lemma_filter_rises(rest, keep);
        if rest.len() > 0 {
            assert(s[s.len() - 2] < s[s.len() - 1]);
        }
    }
}

/// What is offered on an extended sensor: the numbers that it names, of the
/// seven that its reply has room for, in its own order and without those that
/// are 0; and the presets where it names none or does not answer.
pub proof fn law_offer_on_an_extended_sensor(index: u8, heard: Seq<Answer>)
    ensures
        ({
            let next = spec_dpi_presets(Capability { index, legacy: false }, heard);
            &&& heard.len() == 0 ==> next == Step::<Call, Seq<u16>>::Ask(
                Call {
                    feature: index,
                    function: 3,
                    params: seq![0u8, 0u8, 0u8],
                    tries: 3,
                    timeout_ms: 400,
                },
            )
            &&& heard.len() > 0 ==> (next matches Step::Done(offer) && match heard[0] {
                Err(_) => offer == seq![800u16, 1200u16, 1600u16, 2400u16, 3200u16],
                Ok(body) => exists|words: Seq<u16>|
                    {
                        &&& #[trigger] are_entries(words, body)
                        &&& (forall|k: int| 0 <= k < 7 ==> #[trigger] words[k] == 0) ==> offer
                            == seq![800u16, 1200u16, 1600u16, 2400u16, 3200u16]
                        &&& (exists|k: int| 0 <= k < 7 && #[trigger] words[k] > 0) ==> offer
                            == words.filter(|w: u16| w > 0)
                    },
            })
        }),
{
    broadcast use vstd::seq_lib::group_filter_ensures;

    if heard.len() > 0 {
        if let Ok(body) = heard[0] {
            let words = entry_words(body);
            let keep = |w: u16| w > 0;
            let named = words.filter(keep);
            assert(are_entries(words, body));
            if exists|k: int| 0 <= k < 7 && #[trigger] words[k] > 0 {
                let k = choose|k: int| 0 <= k < 7 && #[trigger] words[k] > 0;
                assert(words.contains(words[k]) && keep(words[k]));
                assert(named.contains(words[k]));
            }
            if named.len() > 0 {
                assert(keep(named[0]));
                lemma_kept_was_there(words, keep, 0);
            }
        }
    }
}

/// The seven numbers of a reply, high bytes first, bytes past its end counting
/// as 0.
pub open spec fn are_entries(words: Seq<u16>, body: Seq<u8>) -> bool {
    &&& words.len() == 7
    &&& forall|k: int| 0 <= k < 7 ==> is_number_at(#[trigger] words[k], body, 2 * k)
}

/// The limits of a sensor. Those of a legacy sensor are the ends of its range.
/// An extended sensor goes from 100 up to 32000, or to the greatest number above
/// it that the reply names, up to 44000, in whole thousands.
pub proof fn law_limits_of_a_sensor(
    capability: Capability,
    heard: Seq<Answer>,
    low: int,
    high: int,
    step: int,
)
    requires
        capability.legacy && heard.len() > 0 ==> has_range(list_in(heard[0]), low, high, step),
    ensures
        ({
            let least = spec_min_dpi(capability, heard);
            let most = spec_max_dpi(capability, heard);
            let list = Call {
                feature: capability.index,
                function: 1,
                params: seq![0u8],
                tries: 3,
                timeout_ms: 400,
            };
            &&& capability.legacy && heard.len() == 0 ==> least == Step::<Call, u32>::Ask(list)
                && most == Step::<Call, u32>::Ask(list)
            &&& capability.legacy && heard.len() > 0 ==> least == Step::<Call, u32>::Done(
                low as u32,
            ) && most == Step::<Call, u32>::Done(high as u32)
            &&& !capability.legacy ==> least == Step::<Call, u32>::Done(100)
            &&& !capability.legacy && heard.len() == 0 ==> most == Step::<Call, u32>::Ask(
                Call {
                    feature: capability.index,
                    function: 2,
                    params: seq![0u8, 0u8, 2u8],
                    tries: 3,
                    timeout_ms: 400,
                },
            )
            &&& !capability.legacy && heard.len() > 0 ==> (most matches Step::Done(top) && {
                &&& top >= 32000
                &&& heard[0] is Err ==> top == 32000
                &&& heard[0] matches Ok(body) ==> exists|words: Seq<u16>|
                    {
                        &&& #[trigger] are_entries(words, body)
                        &&& forall|k: int|
                            0 <= k < 7 && 32000 < #[trigger] words[k] <= 44000 && words[k] as int
                                % 1000 == 0 ==> words[k] <= top
                        &&& top > 32000 ==> exists|k: int|
                            0 <= k < 7 && #[trigger] words[k] == top && top <= 44000 && top as int
                                % 1000 == 0
                    }
            })
        }),
{
    broadcast use vstd::seq_lib::group_filter_ensures;

    if heard.len() > 0 {
        if capability.legacy {
            lemma_range(list_in(heard[0]), low, high, step);
        } else if let Ok(body) = heard[0] {
            let words = entry_words(body);
            let keep = |w: u16| is_ceiling(w);
            let tops = words.filter(keep);
            law_least_and_greatest(tops);
            assert(are_entries(words, body));
            assert forall|k: int|
                0 <= k < 7 && 32000 < #[trigger] words[k] <= 44000 && words[k] as int % 1000
                    == 0 implies words[k] <= extended_ceiling(heard[0]) by {
                assert(words.contains(words[k]) && keep(words[k]));
                assert(tops.contains(words[k]));
                let i = choose|i: int| 0 <= i < tops.len() && tops[i] == words[k];
                assert(tops[i] <= greatest(tops));
            }
            let top = extended_ceiling(heard[0]);
            if top > 32000 {
                assert(tops.len() > 0);
                let i = choose|i: int| 0 <= i < tops.len() && tops[i] == greatest(tops);
                assert(keep(tops[i]));
                lemma_kept_was_there(words, keep, i);
                let k = choose|k: int| 0 <= k < words.len() && words[k] == tops[i];
                assert(words[k] == top);
            }
        }
    }
}

/// A list is what its fields hold where contracts speak of it.
pub proof fn law_list_is_what_it_holds(list: LegacyDpiList)
    ensures
        list@.values == list.values@,
        list@.step == list.step,
        shown_list(Some(list)) == Some(list@),
        shown_list(None) is None,
{
}

} // verus!
