//! Who is in charge of the settings: the profiles on board or the host.
use vstd::prelude::*;

use crate::dialog;
use crate::dialog::{request, Answer, Call, Reply, Request, Step};
use crate::text;
use crate::text::byte_decimal;

verus! {

/// The mode in which the profiles on board are in charge.
pub const ONBOARD: u8 = 1;

/// The mode in which the host is in charge.
pub const HOST: u8 = 2;

/// The name of a mode.
pub open spec fn mode_label(mode: u8) -> Seq<char> {
    if mode == ONBOARD {
        "onboard"@
    } else if mode == HOST {
        "host"@
    } else {
        "unknown"@
    }
}

/// The message of a mode that cannot be set.
pub open spec fn invalid_mode(mode: u8) -> Seq<char> {
    "invalid onboard-profile mode: "@ + text::decimal_text(mode as nat)
}

/// The mode that an answer tells, with its name.
pub open spec fn mode_in(a: Answer) -> Result<(u8, Seq<char>), Seq<char>> {
    match a {
        Ok(body) => if body.len() > 0 {
            Ok((body[0], mode_label(body[0])))
        } else {
            Err("empty onboard-profile mode response"@)
        },
        Err(message) => Err(message),
    }
}

/// Reading the mode.
pub open spec fn spec_onboard_mode(feature: u8, heard: Seq<Answer>) -> Step<
    Call,
    Result<(u8, Seq<char>), Seq<char>>,
> {
    if heard.len() == 0 {
        Step::Ask(dialog::call(feature, 2, Seq::empty()))
    } else {
        Step::Done(mode_in(heard[0]))
    }
}

/// Setting the mode. A mode that there is not is refused without a request.
pub open spec fn spec_set_onboard_mode(feature: u8, mode: u8, heard: Seq<Answer>) -> Step<
    Call,
    Result<(), Seq<char>>,
> {
    if mode != ONBOARD && mode != HOST {
        Step::Done(Err(invalid_mode(mode)))
    } else if heard.len() == 0 {
        Step::Ask(dialog::call(feature, 1, seq![mode]))
    } else {
        match heard[0] {
            Ok(_) => Step::Done(Ok(())),
            Err(message) => Step::Done(Err(message)),
        }
    }
}

/// Putting the host in charge where the profiles on board are; any other mode
/// stays.
pub open spec fn spec_prefer_host_profile_mode(feature: u8, heard: Seq<Answer>) -> Step<
    Call,
    Result<(), Seq<char>>,
> {
    if heard.len() == 0 {
        Step::Ask(dialog::call(feature, 2, Seq::empty()))
    } else {
        match mode_in(heard[0]) {
            Err(message) => Step::Done(Err(message)),
            Ok((mode, _)) => if mode != ONBOARD {
                Step::Done(Ok(()))
            } else {
                spec_set_onboard_mode(feature, HOST, heard.skip(1))
            },
        }
    }
}

/// The mode that a reply tells, with its name.
fn mode_of(reply: &Reply) -> (r: Result<(u8, &'static str), String>)
    ensures
        match r {
            Ok((mode, label)) => mode_in(dialog::answer(*reply)) == Ok::<(u8, Seq<char>), Seq<char>>(
                (mode, label@),
            ),
            Err(message) => mode_in(dialog::answer(*reply)) == Err::<(u8, Seq<char>), Seq<char>>(
                message@,
            ),
        },
{
    match reply {
        Ok(body) => if body.len() > 0 {
            let mode: u8 = body[0];
            let label = match mode {
                ONBOARD => "onboard",
                HOST => "host",
                _ => "unknown",
            };
            Ok((mode, label))
        } else {
            Err("empty onboard-profile mode response".to_owned())
        },
        Err(message) => Err(message.clone()),
    }
}

/// Reads the mode, with its name.
pub fn onboard_mode(feature: u8, replies: &Vec<Reply>) -> (step: Step<
    Request,
    Result<(u8, &'static str), String>,
>)
    ensures
        replies@.len() >= 1 ==> step is Done,
        dialog::shown_result(step) == spec_onboard_mode(feature, dialog::heard(replies@)),
{
    if replies.len() == 0 {
        let params: Vec<u8> = Vec::new();
        return Step::Ask(request(feature, 2, params));
    }
    Step::Done(mode_of(&replies[0]))
}

/// Sets the mode, from reply number `at` on.
fn set_mode_at(feature: u8, mode: u8, replies: &Vec<Reply>, at: usize) -> (step: Step<
    Request,
    Result<(), String>,
>)
    requires
        at <= replies.len(),
    ensures
        dialog::shown_result(step) == spec_set_onboard_mode(
            feature,
            mode,
            dialog::heard(replies@).skip(at as int),
        ),
{
    if mode != ONBOARD && mode != HOST {
        let mut message: String = "invalid onboard-profile mode: ".to_owned();
        message.append(byte_decimal(mode).as_str());
        return Step::Done(Err(message));
    }
    if at == replies.len() {
        let params: Vec<u8> = vec![mode];
        assert(params@ == seq![mode]);
        return Step::Ask(request(feature, 1, params));
    }
    match &replies[at] {
        Ok(_) => Step::Done(Ok(())),
        Err(message) => Step::Done(Err(message.clone())),
    }
}

/// Sets the mode.
pub fn set_onboard_mode(feature: u8, mode: u8, replies: &Vec<Reply>) -> (step: Step<
    Request,
    Result<(), String>,
>)
    ensures
        replies@.len() >= 1 ==> step is Done,
        dialog::shown_result(step) == spec_set_onboard_mode(feature, mode, dialog::heard(replies@)),
{
    assert(dialog::heard(replies@).skip(0) == dialog::heard(replies@));
    set_mode_at(feature, mode, replies, 0)
}

/// Puts the host in charge where the profiles on board are.
pub fn prefer_host_profile_mode(feature: u8, replies: &Vec<Reply>) -> (step: Step<
    Request,
    Result<(), String>,
>)
    ensures
        replies@.len() >= 2 ==> step is Done,
        dialog::shown_result(step) == spec_prefer_host_profile_mode(
            feature,
            dialog::heard(replies@),
        ),
{
    if replies.len() == 0 {
        let params: Vec<u8> = Vec::new();
        return Step::Ask(request(feature, 2, params));
    }
    match mode_of(&replies[0]) {
        Err(message) => Step::Done(Err(message)),
        Ok((mode, _)) => if mode != ONBOARD {
            Step::Done(Ok(()))
        } else {
            set_mode_at(feature, HOST, replies, 1)
        },
    }
}

/// A mode that there is not never reaches the device, whatever it has said.
pub proof fn law_invalid_mode_is_refused(feature: u8, mode: u8, heard: Seq<Answer>)
    requires
        mode != ONBOARD,
        mode != HOST,
    ensures
        spec_set_onboard_mode(feature, mode, heard) == Step::<Call, Result<(), Seq<char>>>::Done(
            Err(invalid_mode(mode)),
        ),
{
}

/// The one thing that is ever written to put the host in charge is the host
/// mode, and only to a device that said that its profiles were.
pub proof fn law_only_onboard_is_switched(feature: u8, heard: Seq<Answer>)
    requires
        heard.len() > 0,
        spec_prefer_host_profile_mode(feature, heard) is Ask,
    ensures
        spec_prefer_host_profile_mode(feature, heard) == Step::<Call, Result<(), Seq<char>>>::Ask(
            dialog::call(feature, 1, seq![HOST]),
        ),
        heard.len() == 1,
        heard[0] matches Ok(body) && body.len() > 0 && body[0] == ONBOARD,
{
}

/// The mode that is set is the one that was given: the one request is function
/// 1 of the feature with that mode, its outcome is the outcome, and a device
/// that keeps the byte that it was sent reads back in that mode.
pub proof fn law_given_mode_is_set(feature: u8, mode: u8, heard: Seq<Answer>)
    requires
        mode == 1 || mode == 2,
    ensures
        heard.len() == 0 ==> (spec_set_onboard_mode(feature, mode, heard) matches Step::Ask(c) && {
            &&& c == (Call { feature, function: 1, params: seq![mode], tries: 3, timeout_ms: 400 })
            &&& spec_onboard_mode(feature, seq![Ok(c.params)]) matches Step::Done(Ok(now))
            &&& now.0 == mode
        }),
        heard.len() > 0 ==> match heard[0] {
            Ok(_) => spec_set_onboard_mode(feature, mode, heard) == Step::<
                Call,
                Result<(), Seq<char>>,
            >::Done(Ok(())),
            Err(message) => spec_set_onboard_mode(feature, mode, heard) == Step::<
                Call,
                Result<(), Seq<char>>,
            >::Done(Err(message)),
        },
{
    let kept: Seq<Answer> = seq![Ok(seq![mode])];
    assert(kept[0] == Ok::<Seq<u8>, Seq<char>>(seq![mode]));
}

/// Any mode but 1 and 2 is refused without a request, and the message tells
/// that mode in decimal.
pub proof fn law_other_modes_are_refused(feature: u8, mode: u8, heard: Seq<Answer>)
    requires
        mode != 1,
        mode != 2,
    ensures
        spec_set_onboard_mode(feature, mode, heard) matches Step::Done(Err(message)) && exists|
            digits: Seq<char>,
        |
            {
                &&& message == "invalid onboard-profile mode: "@ + digits
                &&& #[trigger] text::is_plain_decimal(digits)
                &&& text::decimal_value(digits) == Some(mode as nat)
            },
{
    text::law_number_is_told_in_decimal(mode as nat);
    assert(text::is_plain_decimal(text::decimal_text(mode as nat)));
}

/// The mode is the first byte of the reply, whatever it is, with its name: 1 is
/// onboard, 2 is host, and no other mode has one. An empty reply is a failure of
/// its own, and a request that fails ends it with that failure.
pub proof fn law_mode_is_read(feature: u8, heard: Seq<Answer>)
    ensures
        ({
            let step = spec_onboard_mode(feature, heard);
            &&& heard.len() == 0 ==> step == Step::<
                Call,
                Result<(u8, Seq<char>), Seq<char>>,
            >::Ask(
                Call { feature, function: 2, params: Seq::empty(), tries: 3, timeout_ms: 400 },
            )
            &&& heard.len() > 0 ==> (heard[0] matches Err(message) ==> step == Step::<
                Call,
                Result<(u8, Seq<char>), Seq<char>>,
            >::Done(Err(message)))
            &&& heard.len() > 0 ==> (heard[0] matches Ok(body) ==> body.len() == 0 ==> step
                == Step::<Call, Result<(u8, Seq<char>), Seq<char>>>::Done(
                Err("empty onboard-profile mode response"@),
            ))
            &&& heard.len() > 0 ==> (heard[0] matches Ok(body) ==> body.len() > 0 ==> (
            step matches Step::Done(Ok((mode, label))) && {
                &&& mode == body[0]
                &&& mode == 1 ==> label == "onboard"@
                &&& mode == 2 ==> label == "host"@
                &&& mode != 1 && mode != 2 ==> label == "unknown"@
            }))
        }),
{
}

/// Putting the host in charge reads the mode and, where it is 1, sets 2; any
/// other mode stays, with nothing written. Whatever fails is the outcome.
pub proof fn law_host_is_preferred(feature: u8, heard: Seq<Answer>)
    ensures
        ({
            let step = spec_prefer_host_profile_mode(feature, heard);
            &&& heard.len() == 0 ==> step == Step::<Call, Result<(), Seq<char>>>::Ask(
                Call { feature, function: 2, params: Seq::empty(), tries: 3, timeout_ms: 400 },
            )
            &&& heard.len() > 0 ==> match heard[0] {
                Err(message) => step == Step::<Call, Result<(), Seq<char>>>::Done(Err(message)),
                Ok(body) => if body.len() == 0 {
                    step == Step::<Call, Result<(), Seq<char>>>::Done(
                        Err("empty onboard-profile mode response"@),
                    )
                } else if body[0] != 1 {
                    step == Step::<Call, Result<(), Seq<char>>>::Done(Ok(()))
                } else if heard.len() == 1 {
                    step == Step::<Call, Result<(), Seq<char>>>::Ask(
                        Call { feature, function: 1, params: seq![2u8], tries: 3, timeout_ms: 400 },
                    )
                } else {
                    match heard[1] {
                        Ok(_) => step == Step::<Call, Result<(), Seq<char>>>::Done(Ok(())),
                        Err(message) => step == Step::<Call, Result<(), Seq<char>>>::Done(
                            Err(message),
                        ),
                    }
                },
            }
        }),
{
}

} // verus!
