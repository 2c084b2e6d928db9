//! The battery: how full it is, in numbers and words.
use vstd::prelude::*;

use crate::dialog;
use crate::dialog::{byte_at, byte_if_any, request, Answer, Call, Reply, Request, Step};
use crate::features::Capability;

verus! {

/// The level that the extended feature tells as one bit of four.
pub open spec fn level_of_bits(bits: Option<u8>) -> Seq<char> {
    match bits {
        Some(1) => "critical"@,
        Some(2) => "low"@,
        Some(4) => "good"@,
        Some(8) => "full"@,
        _ => "unknown"@,
    }
}

/// The charging state that the extended feature tells.
pub open spec fn charging_state(code: Option<u8>) -> Seq<char> {
    match code {
        Some(0) => "discharging"@,
        Some(1) => "charging"@,
        Some(2) => "charging_slow"@,
        Some(3) => "full"@,
        Some(4) => "error"@,
        _ => "unknown"@,
    }
}

/// The level that goes with a percentage.
pub open spec fn level_of_percentage(percentage: u8) -> Seq<char> {
    if percentage <= 10 {
        "critical"@
    } else if percentage <= 30 {
        "low"@
    } else if percentage <= 80 {
        "good"@
    } else {
        "full"@
    }
}

/// The charging state that the legacy feature tells.
pub open spec fn legacy_charging_state(code: Option<u8>) -> Seq<char> {
    match code {
        Some(c) => if c == 0 {
            "discharging"@
        } else if c <= 2 {
            "charging"@
        } else if c == 3 {
            "full"@
        } else if c == 4 {
            "charging_slow"@
        } else if c <= 7 {
            "error"@
        } else {
            "unknown"@
        },
        None => "unknown"@,
    }
}

/// What a reply tells of the battery: percentage, level, charging state. The
/// legacy feature tells no level, so the percentage gives it.
pub open spec fn battery_reading(legacy: bool, body: Seq<u8>) -> (u8, Seq<char>, Seq<char>) {
    let percentage = dialog::spec_byte_at(body, 0);
    if legacy {
        (
            percentage,
            level_of_percentage(percentage),
            legacy_charging_state(dialog::spec_byte_if_any(body, 2)),
        )
    } else {
        (
            percentage,
            level_of_bits(dialog::spec_byte_if_any(body, 1)),
            charging_state(dialog::spec_byte_if_any(body, 2)),
        )
    }
}

/// The question for the state of the battery.
pub open spec fn battery_call(capability: Capability) -> Call {
    if capability.legacy {
        dialog::call(capability.index, 0, Seq::empty())
    } else {
        dialog::call(capability.index, 1, seq![0u8, 0u8, 0u8])
    }
}

/// Reading the battery.
pub open spec fn spec_battery(capability: Capability, heard: Seq<Answer>) -> Step<
    Call,
    Result<(u8, Seq<char>, Seq<char>), Seq<char>>,
> {
    if heard.len() == 0 {
        Step::Ask(battery_call(capability))
    } else {
        match heard[0] {
            Ok(body) => Step::Done(Ok(battery_reading(capability.legacy, body))),
            Err(message) => Step::Done(Err(message)),
        }
    }
}

/// Reads the battery: percentage, level, charging state.
pub fn battery(capability: Capability, replies: &Vec<Reply>) -> (step: Step<
    Request,
    Result<(u8, &'static str, &'static str), String>,
>)
    ensures
        replies@.len() >= 1 ==> step is Done,
        dialog::shown_result(step) == spec_battery(capability, dialog::heard(replies@)),
{
    if capability.legacy {
        return legacy_battery(capability.index, replies);
    }
    if replies.len() == 0 {
        let params: Vec<u8> = vec![0u8, 0u8, 0u8];
        assert(params@ == seq![0u8, 0u8, 0u8]);
        return Step::Ask(request(capability.index, 1, params));
    }
    match &replies[0] {
        Ok(body) => {
            let level = match byte_if_any(body, 1) {
                Some(1) => "critical",
                Some(2) => "low",
                Some(4) => "good",
                Some(8) => "full",
                _ => "unknown",
            };
            let status = match byte_if_any(body, 2) {
                Some(0) => "discharging",
                Some(1) => "charging",
                Some(2) => "charging_slow",
                Some(3) => "full",
                Some(4) => "error",
                _ => "unknown",
            };
            Step::Done(Ok((byte_at(body, 0), level, status)))
        },
        Err(message) => Step::Done(Err(message.clone())),
    }
}

/// Reads the battery of a device that has the legacy feature only.
pub fn legacy_battery(feature: u8, replies: &Vec<Reply>) -> (step: Step<
    Request,
    Result<(u8, &'static str, &'static str), String>,
>)
    ensures
        replies@.len() >= 1 ==> step is Done,
        dialog::shown_result(step) == spec_battery(
            Capability { index: feature, legacy: true },
            dialog::heard(replies@),
        ),
{
    if replies.len() == 0 {
        let params: Vec<u8> = Vec::new();
        return Step::Ask(request(feature, 0, params));
    }
    match &replies[0] {
        Ok(body) => {
            let percentage: u8 = byte_at(body, 0);
            let status = match byte_if_any(body, 2) {
                Some(0) => "discharging",
                Some(1 | 2) => "charging",
                Some(3) => "full",
                Some(4) => "charging_slow",
                Some(5..=7) => "error",
                _ => "unknown",
            };
            let level = match percentage {
                0..=10 => "critical",
                11..=30 => "low",
                31..=80 => "good",
                _ => "full",
            };
            Step::Done(Ok((percentage, level, status)))
        },
        Err(message) => Step::Done(Err(message.clone())),
    }
}

/// What is asked for and what comes of it: the extended feature is asked by
/// function 1 with three zeros, the legacy one by function 0, and a request that
/// fails ends it with that failure. The percentage is the first byte as it is.
pub proof fn law_battery_is_read(capability: Capability, heard: Seq<Answer>)
    ensures
        ({
            let step = spec_battery(capability, heard);
            &&& heard.len() == 0 ==> (step matches Step::Ask(c) && {
                &&& c.feature == capability.index
                &&& capability.legacy ==> c.function == 0 && c.params.len() == 0
                &&& !capability.legacy ==> c.function == 1 && c.params == seq![0u8, 0u8, 0u8]
                &&& c.tries == 3
                &&& c.timeout_ms == 400
            })
            &&& heard.len() > 0 ==> match heard[0] {
                Err(message) => step == Step::<
                    Call,
                    Result<(u8, Seq<char>, Seq<char>), Seq<char>>,
                >::Done(Err(message)),
                Ok(body) => step matches Step::Done(Ok((percentage, level, status))) && {
                    &&& body.len() > 0 ==> percentage == body[0]
                    &&& body.len() == 0 ==> percentage == 0
                    &&& capability.legacy ==> level_words(percentage, level)
                    &&& !capability.legacy ==> bit_words(
                        if body.len() > 1 {
                            body[1] as int
                        } else {
                            -1
                        },
                        level,
                    )
                    &&& state_words(
                        capability.legacy,
                        if body.len() > 2 {
                            body[2] as int
                        } else {
                            -1
                        },
                        status,
                    )
                },
            }
        }),
{
}

/// The word for a percentage: critical up to 10, low up to 30, good up to 80,
/// and full above.
pub open spec fn level_words(percentage: u8, level: Seq<char>) -> bool {
    &&& percentage <= 10 ==> level == "critical"@
    &&& 10 < percentage <= 30 ==> level == "low"@
    &&& 30 < percentage <= 80 ==> level == "good"@
    &&& 80 < percentage ==> level == "full"@
}

/// The word for a level that is told as one bit of four; -1 stands for a level
/// that is not told.
pub open spec fn bit_words(bits: int, level: Seq<char>) -> bool {
    &&& bits == 1 ==> level == "critical"@
    &&& bits == 2 ==> level == "low"@
    &&& bits == 4 ==> level == "good"@
    &&& bits == 8 ==> level == "full"@
    &&& bits != 1 && bits != 2 && bits != 4 && bits != 8 ==> level == "unknown"@
}

/// The word for a charging state, which the two generations number differently;
/// -1 stands for a state that is not told.
pub open spec fn state_words(legacy: bool, code: int, status: Seq<char>) -> bool {
    &&& code == 0 ==> status == "discharging"@
    &&& code == 1 || legacy && code == 2 ==> status == "charging"@
    &&& code == (if legacy {
        4int
    } else {
        2
    }) ==> status == "charging_slow"@
    &&& code == 3 ==> status == "full"@
    &&& (if legacy {
        5 <= code <= 7
    } else {
        code == 4
    }) ==> status == "error"@
    &&& code < 0 || code > (if legacy {
        7int
    } else {
        4
    }) ==> status == "unknown"@
}

/// How well a level is filled.
pub open spec fn rank(level: Seq<char>) -> int {
    if level == "critical"@ {
        0
    } else if level == "low"@ {
        1
    } else if level == "good"@ {
        2
    } else {
        3
    }
}

/// A fuller battery never has a lower level, and each of the four levels is
/// reached.
pub proof fn law_level_rises_with_the_percentage(less: u8, more: u8)
    requires
        less <= more,
    ensures
        rank(level_of_percentage(less)) <= rank(level_of_percentage(more)),
        less <= 10 < more ==> rank(level_of_percentage(less)) < rank(level_of_percentage(more)),
        less <= 30 < more ==> rank(level_of_percentage(less)) < rank(level_of_percentage(more)),
        less <= 80 < more ==> rank(level_of_percentage(less)) < rank(level_of_percentage(more)),
{
    reveal_strlit("critical");
    reveal_strlit("low");
    reveal_strlit("good");
    reveal_strlit("full");
    assert("critical"@.len() == 8 && "low"@.len() == 3 && "good"@.len() == 4 && "full"@.len() == 4);
    assert("good"@[0] != "full"@[0]);
}

} // verus!
