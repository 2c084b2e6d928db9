//! The buttons: how far they travel before they act, and how they feel.
use vstd::prelude::*;

use crate::dialog;
use crate::dialog::{byte_at, request, Answer, Call, Reply, Request, Step};

verus! {

/// The largest setting of a button.
pub const SETTING_MAX: u8 = 63;

/// What a reply tells of a button: actuation, rapid trigger, haptics. The
/// device keeps each setting four times as large.
pub open spec fn button_reading(body: Seq<u8>) -> (u8, u8, u8) {
    (
        dialog::spec_byte_at(body, 1) / 4,
        dialog::spec_byte_at(body, 2) / 4,
        dialog::spec_byte_at(body, 3) / 4,
    )
}

/// The byte that a setting is kept as: the new setting where there is one,
/// else what the device has now.
pub open spec fn kept_as(setting: Option<u8>, current: Seq<u8>, i: int) -> u8 {
    match setting {
        Some(v) => (v * 4) as u8,
        None => dialog::spec_byte_at(current, i),
    }
}

/// What is written for a button, given what the device has now.
pub open spec fn button_params(
    index: u8,
    actuation: Option<u8>,
    rapid_trigger: Option<u8>,
    haptics: Option<u8>,
    current: Seq<u8>,
) -> Seq<u8> {
    seq![
        index,
        kept_as(actuation, current, 1),
        kept_as(rapid_trigger, current, 2),
        kept_as(haptics, current, 3),
    ]
}

/// A setting is one that the device can keep.
pub open spec fn fits(setting: Option<u8>) -> bool {
    setting matches Some(v) ==> v <= SETTING_MAX
}

/// Reading a button.
pub open spec fn spec_button(feature: u8, index: u8, heard: Seq<Answer>) -> Step<
    Call,
    Result<(u8, u8, u8), Seq<char>>,
> {
    if heard.len() == 0 {
        Step::Ask(dialog::call(feature, 2, seq![index]))
    } else {
        match heard[0] {
            Ok(body) => Step::Done(Ok(button_reading(body))),
            Err(message) => Step::Done(Err(message)),
        }
    }
}

/// Setting a button: what it has now is read first, and settings that are not
/// given stay.
pub open spec fn spec_set_button(
    feature: u8,
    index: u8,
    actuation: Option<u8>,
    rapid_trigger: Option<u8>,
    haptics: Option<u8>,
    heard: Seq<Answer>,
) -> Step<Call, Result<(), Seq<char>>> {
    if heard.len() == 0 {
        Step::Ask(dialog::call(feature, 2, seq![index]))
    } else {
        match heard[0] {
            Err(message) => Step::Done(Err(message)),
            Ok(current) => if heard.len() == 1 {
                Step::Ask(
                    dialog::call(
                        feature,
                        1,
                        button_params(index, actuation, rapid_trigger, haptics, current),
                    ),
                )
            } else {
                match heard[1] {
                    Err(message) => Step::Done(Err(message)),
                    Ok(_) => Step::Done(Ok(())),
                }
            },
        }
    }
}

/// Reads a button: actuation, rapid trigger, haptics.
pub fn button(feature: u8, index: u8, replies: &Vec<Reply>) -> (step: Step<
    Request,
    Result<(u8, u8, u8), String>,
>)
    ensures
        replies@.len() >= 1 ==> step is Done,
        dialog::shown_result(step) == spec_button(feature, index, dialog::heard(replies@)),
{
    if replies.len() == 0 {
        let params: Vec<u8> = vec![index];
        assert(params@ == seq![index]);
        return Step::Ask(request(feature, 2, params));
    }
    match &replies[0] {
        Ok(body) => Step::Done(
            Ok((byte_at(body, 1) / 4, byte_at(body, 2) / 4, byte_at(body, 3) / 4)),
        ),
        Err(message) => Step::Done(Err(message.clone())),
    }
}

/// The byte that a setting is kept as.
fn kept_byte(setting: Option<u8>, current: &Vec<u8>, i: usize) -> (b: u8)
    requires
        fits(setting),
    ensures
        b == kept_as(setting, current@, i as int),
{
    match setting {
        Some(v) => v * 4,
        None => byte_at(current, i),
    }
}

/// Sets what is given of a button and leaves the rest as it is.
pub fn set_button(
    feature: u8,
    index: u8,
    actuation: Option<u8>,
    rapid_trigger: Option<u8>,
    haptics: Option<u8>,
    replies: &Vec<Reply>,
) -> (step: Step<Request, Result<(), String>>)
    requires
        replies@.len() > 0 && replies@[0] is Ok ==> fits(actuation) && fits(rapid_trigger) && fits(
            haptics,
        ),
    ensures
        replies@.len() >= 2 ==> step is Done,
        dialog::shown_result(step) == spec_set_button(
            feature,
            index,
            actuation,
            rapid_trigger,
            haptics,
            dialog::heard(replies@),
        ),
{
    if replies.len() == 0 {
        let params: Vec<u8> = vec![index];
        assert(params@ == seq![index]);
        return Step::Ask(request(feature, 2, params));
    }
    match &replies[0] {
        Err(message) => Step::Done(Err(message.clone())),
        Ok(current) => {
            let params: Vec<u8> = vec![
                index,
                kept_byte(actuation, current, 1),
                kept_byte(rapid_trigger, current, 2),
                kept_byte(haptics, current, 3),
            ];
            assert(params@ == button_params(index, actuation, rapid_trigger, haptics, current@));
            if replies.len() == 1 {
                return Step::Ask(request(feature, 1, params));
            }
            match &replies[1] {
                Err(message) => Step::Done(Err(message.clone())),
                Ok(_) => Step::Done(Ok(())),
            }
        },
    }
}

/// A button reads back as it was set: what was given is there, and what was
/// not given is as it was before.
pub proof fn law_button_reads_back(
    index: u8,
    actuation: Option<u8>,
    rapid_trigger: Option<u8>,
    haptics: Option<u8>,
    current: Seq<u8>,
)
    requires
        fits(actuation),
        fits(rapid_trigger),
        fits(haptics),
    ensures
        ({
            let now = button_reading(
                button_params(index, actuation, rapid_trigger, haptics, current),
            );
            let before = button_reading(current);
            &&& now.0 == actuation.unwrap_or(before.0)
            &&& now.1 == rapid_trigger.unwrap_or(before.1)
            &&& now.2 == haptics.unwrap_or(before.2)
        }),
{
}

/// Setting nothing writes back what the device has.
pub proof fn law_setting_nothing_changes_nothing(index: u8, current: Seq<u8>)
    requires
        current.len() == 4,
        current[0] == index,
    ensures
        button_params(index, None, None, None, current) == current,
{
}

/// A button is asked for by its number, and each of its three settings is a
/// quarter of the byte that the device keeps for it, 0 where it keeps none.
pub proof fn law_button_is_read(feature: u8, index: u8, heard: Seq<Answer>)
    ensures
        heard.len() == 0 ==> spec_button(feature, index, heard) == Step::<
            Call,
            Result<(u8, u8, u8), Seq<char>>,
        >::Ask(Call { feature, function: 2, params: seq![index], tries: 3, timeout_ms: 400 }),
        heard.len() > 0 ==> match heard[0] {
            Err(message) => spec_button(feature, index, heard) == Step::<
                Call,
                Result<(u8, u8, u8), Seq<char>>,
            >::Done(Err(message)),
            Ok(body) => spec_button(feature, index, heard) matches Step::Done(Ok(r)) && {
                &&& is_quarter(r.0, body, 1)
                &&& is_quarter(r.1, body, 2)
                &&& is_quarter(r.2, body, 3)
            },
        },
{
}

/// `n` is a quarter of the byte at `i`, rounded down; of 0 where there is none.
pub open spec fn is_quarter(n: u8, body: Seq<u8>, i: int) -> bool {
    if i < body.len() {
        4 * n <= body[i] < 4 * n + 4
    } else {
        n == 0
    }
}

/// What setting a button does. The button is read first. Then its number and
/// three bytes are written: four times what was given, and what the device has
/// where nothing was given. A request that fails ends it with that failure.
pub proof fn law_button_is_set_as_given(
    feature: u8,
    index: u8,
    actuation: Option<u8>,
    rapid_trigger: Option<u8>,
    haptics: Option<u8>,
    heard: Seq<Answer>,
)
    requires
        actuation matches Some(v) ==> v <= 63,
        rapid_trigger matches Some(v) ==> v <= 63,
        haptics matches Some(v) ==> v <= 63,
    ensures
        ({
            let step = spec_set_button(
                feature,
                index,
                actuation,
                rapid_trigger,
                haptics,
                heard,
            );
            &&& heard.len() == 0 ==> step == Step::<Call, Result<(), Seq<char>>>::Ask(
                Call { feature, function: 2, params: seq![index], tries: 3, timeout_ms: 400 },
            )
            &&& heard.len() > 0 ==> (heard[0] matches Err(message) ==> step == Step::<
                Call,
                Result<(), Seq<char>>,
            >::Done(Err(message)))
            &&& heard.len() == 1 ==> (heard[0] matches Ok(current) ==> (step matches Step::Ask(c)
                && {
                &&& c.feature == feature
                &&& c.function == 1
                &&& c.params.len() == 4
                &&& c.params[0] == index
                &&& is_kept(c.params[1], actuation, current, 1)
                &&& is_kept(c.params[2], rapid_trigger, current, 2)
                &&& is_kept(c.params[3], haptics, current, 3)
                &&& c.tries == 3
                &&& c.timeout_ms == 400
            }))
            &&& heard.len() > 1 && heard[0] is Ok ==> match heard[1] {
                Ok(_) => step == Step::<Call, Result<(), Seq<char>>>::Done(Ok(())),
                Err(message) => step == Step::<Call, Result<(), Seq<char>>>::Done(Err(message)),
            }
        }),
{
}

/// A byte is four times what was given, or what the device has at `i` where
/// nothing was given.
pub open spec fn is_kept(b: u8, given: Option<u8>, current: Seq<u8>, i: int) -> bool {
    match given {
        Some(v) => b == 4 * v,
        None => if i < current.len() {
            b == current[i]
        } else {
            b == 0
        },
    }
}

/// A device that keeps what setting a button wrote reads back with what was
/// given, and with what it had before where nothing was.
pub proof fn law_set_button_reads_back(
    feature: u8,
    index: u8,
    actuation: Option<u8>,
    rapid_trigger: Option<u8>,
    haptics: Option<u8>,
    current: Seq<u8>,
)
    requires
        actuation matches Some(v) ==> v <= 63,
        rapid_trigger matches Some(v) ==> v <= 63,
        haptics matches Some(v) ==> v <= 63,
    ensures
        ({
            let read: Seq<Answer> = seq![Ok(current)];
            &&& spec_set_button(
                feature,
                index,
                actuation,
                rapid_trigger,
                haptics,
                read,
            ) matches Step::Ask(c)
            &&& spec_button(feature, index, read) matches Step::Done(Ok(before))
            &&& spec_button(feature, index, seq![Ok(c.params)]) matches Step::Done(Ok(now))
            &&& now.0 == actuation.unwrap_or(before.0)
            &&& now.1 == rapid_trigger.unwrap_or(before.1)
            &&& now.2 == haptics.unwrap_or(before.2)
        }),
{
    let read: Seq<Answer> = seq![Ok(current)];
    law_button_is_set_as_given(feature, index, actuation, rapid_trigger, haptics, read);
    law_button_is_read(feature, index, read);
    let c = spec_set_button(feature, index, actuation, rapid_trigger, haptics, read)->Ask_0;
    let kept: Seq<Answer> = seq![Ok(c.params)];
    law_button_is_read(feature, index, kept);
    assert(read[0] == Ok::<Seq<u8>, Seq<char>>(current));
    assert(kept[0] == Ok::<Seq<u8>, Seq<char>>(c.params));
}

} // verus!
