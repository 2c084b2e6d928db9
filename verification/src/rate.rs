//! How often a device reports.
use vstd::arithmetic::power2::*;
use vstd::prelude::*;

use crate::dialog;
use crate::dialog::{byte_if_any, request, Answer, Call, Reply, Request, Step};
use crate::features::Capability;

verus! {

/// The report rates of a device that names none, in reports per second.
pub const REPORT_RATES: [u32; 7] = [125, 250, 500, 1000, 2000, 4000, 8000];

/// The report rate of a device that tells none.
pub const USUAL_RATE: u32 = 1000;

/// The code of [`USUAL_RATE`].
pub const USUAL_CODE: u8 = 3;

/// The longest interval between two reports that a device can name, in
/// milliseconds.
pub const LONGEST_INTERVAL: u8 = 8;

/// The report rates, as values.
pub open spec fn ladder() -> Seq<u32> {
    seq![125u32, 250u32, 500u32, 1000u32, 2000u32, 4000u32, 8000u32]
}

/// The rate that a code of the extended feature stands for: its place on the
/// ladder, or the usual rate.
pub open spec fn rate_of_code(code: Option<u8>) -> u32 {
    match code {
        Some(c) => if c < ladder().len() {
            ladder()[c as int]
        } else {
            USUAL_RATE
        },
        None => USUAL_RATE,
    }
}

/// The code of the extended feature that a rate is set with: its place on the
/// ladder, or that of the usual rate.
pub open spec fn spec_code_of_rate(rate: u32) -> u8 {
    if ladder().contains(rate) {
        ladder().index_of(rate) as u8
    } else {
        USUAL_CODE
    }
}

/// The codes, written out rate by rate.
pub open spec fn code_table(rate: u32) -> u8 {
    match rate {
        125 => 0,
        250 => 1,
        500 => 2,
        1000 => 3,
        2000 => 4,
        4000 => 5,
        8000 => 6,
        _ => USUAL_CODE,
    }
}

/// The table gives every rate the code of its place on the ladder.
pub proof fn law_code_table(rate: u32)
    ensures
        spec_code_of_rate(rate) == code_table(rate),
{
    if ladder().contains(rate) {
        let i = ladder().index_of(rate);
        assert(0 <= i < ladder().len() && ladder()[i] == rate);
        assert(i == 0 || i == 1 || i == 2 || i == 3 || i == 4 || i == 5 || i == 6);
    } else {
        assert(forall|i: int| 0 <= i < ladder().len() ==> #[trigger] ladder()[i] != rate);
        assert(ladder()[0] == 125 && ladder()[1] == 250 && ladder()[2] == 500 && ladder()[3] == 1000
            && ladder()[4] == 2000 && ladder()[5] == 4000 && ladder()[6] == 8000);
    }
}

/// The reports per second with this interval between them, in milliseconds.
pub open spec fn per_second(interval: u8) -> int {
    1000int / interval as int
}

/// The rate that an answer of the legacy feature tells: the feature speaks of
/// the interval between two reports.
pub open spec fn legacy_rate(a: Answer) -> u32 {
    match a {
        Ok(body) => if body.len() > 0 && body[0] > 0 {
            per_second(body[0]) as u32
        } else {
            USUAL_RATE
        },
        Err(_) => USUAL_RATE,
    }
}

/// Reading the rate. An extended device is asked for its rate in mode 1, and
/// where it does not answer, for its rate in mode 0.
pub open spec fn spec_report_rate(capability: Capability, heard: Seq<Answer>) -> Step<Call, u32> {
    if capability.legacy {
        if heard.len() == 0 {
            Step::Ask(dialog::call(capability.index, 1, Seq::empty()))
        } else {
            Step::Done(legacy_rate(heard[0]))
        }
    } else if heard.len() == 0 {
        Step::Ask(dialog::call(capability.index, 2, seq![1u8]))
    } else if let Ok(body) = heard[0] {
        Step::Done(rate_of_code(dialog::spec_byte_if_any(body, 0)))
    } else if heard.len() == 1 {
        Step::Ask(dialog::call(capability.index, 2, seq![0u8]))
    } else if let Ok(body) = heard[1] {
        Step::Done(rate_of_code(dialog::spec_byte_if_any(body, 0)))
    } else {
        Step::Done(USUAL_RATE)
    }
}

/// The rate that a code of the extended feature stands for.
fn decode_rate(code: Option<u8>) -> (rate: u32)
    ensures
        rate == rate_of_code(code),
{
    match code {
        Some(0) => 125,
        Some(1) => 250,
        Some(2) => 500,
        Some(3) => 1000,
        Some(4) => 2000,
        Some(5) => 4000,
        Some(6) => 8000,
        _ => 1000,
    }
}

/// Reads the rate.
pub fn report_rate(capability: Capability, replies: &Vec<Reply>) -> (step: Step<Request, u32>)
    ensures
        replies@.len() >= 2 ==> step is Done,
        dialog::shown(step) == spec_report_rate(capability, dialog::heard(replies@)),
{
    if capability.legacy {
        if replies.len() == 0 {
            let params: Vec<u8> = Vec::new();
            return Step::Ask(request(capability.index, 1, params));
        }
        return match &replies[0] {
            Ok(body) => if body.len() > 0 && body[0] > 0 {
                Step::Done(1000 / body[0] as u32)
            } else {
                Step::Done(USUAL_RATE)
            },
            Err(_) => Step::Done(USUAL_RATE),
        };
    }
    if replies.len() == 0 {
        let params: Vec<u8> = vec![1u8];
        assert(params@ == seq![1u8]);
        return Step::Ask(request(capability.index, 2, params));
    }
    if let Ok(body) = &replies[0] {
        return Step::Done(decode_rate(byte_if_any(body, 0)));
    }
    if replies.len() == 1 {
        let params: Vec<u8> = vec![0u8];
        assert(params@ == seq![0u8]);
        return Step::Ask(request(capability.index, 2, params));
    }
    match &replies[1] {
        Ok(body) => Step::Done(decode_rate(byte_if_any(body, 0))),
        Err(_) => Step::Done(USUAL_RATE),
    }
}

/// The intervals that a device can name.
pub open spec fn all_intervals() -> Seq<u8> {
    Seq::new(LONGEST_INTERVAL as nat, |i: int| (i + 1) as u8)
}

/// Bit number `n` of a byte is set.
pub open spec fn bit_set(bits: u8, n: u8) -> bool {
    bits & (1u8 << n) != 0
}

/// An answer names an interval: the bit with a number one less is set.
pub open spec fn supports(a: Answer, interval: u8) -> bool {
    &&& a matches Ok(body)
    &&& body.len() > 0
    &&& bit_set(body[0], (interval - 1) as u8)
}

/// The intervals that an answer names, shortest first.
pub open spec fn intervals_in(a: Answer) -> Seq<u8> {
    all_intervals().filter(|interval: u8| supports(a, interval))
}

/// The question for the intervals.
pub open spec fn intervals_call(feature: u8) -> Call {
    dialog::call(feature, 0, Seq::empty())
}

/// Finding the intervals of a legacy device.
pub open spec fn spec_legacy_supported_intervals(feature: u8, heard: Seq<Answer>) -> Step<
    Call,
    Seq<u8>,
> {
    if heard.len() == 0 {
        Step::Ask(intervals_call(feature))
    } else {
        Step::Done(intervals_in(heard[0]))
    }
}

/// Finds the intervals between two reports that a legacy device supports.
pub fn legacy_supported_intervals(feature: u8, replies: &Vec<Reply>) -> (step: Step<
    Request,
    Vec<u8>,
>)
    ensures
        replies@.len() >= 1 ==> step is Done,
        dialog::shown(step) == spec_legacy_supported_intervals(feature, dialog::heard(replies@)),
{
    if replies.len() == 0 {
        let params: Vec<u8> = Vec::new();
        return Step::Ask(request(feature, 0, params));
    }
    Step::Done(named_intervals(&replies[0]))
}

/// The intervals that a reply names, shortest first.
fn named_intervals(reply: &Reply) -> (v: Vec<u8>)
    ensures
        v@ == intervals_in(dialog::answer(*reply)),
{
    let ghost a = dialog::answer(*reply);
    let ghost all = all_intervals();
    let ghost keep = |interval: u8| supports(a, interval);
    let bits: u8 = match reply {
        Ok(body) => if body.len() > 0 {
            body[0]
        } else {
            0
        },
        Err(_) => 0,
    };
    let mut v: Vec<u8> = Vec::new();
    let mut n: u8 = 0;
    while n < LONGEST_INTERVAL
        invariant
            n <= LONGEST_INTERVAL,
            a == dialog::answer(*reply),
            all == all_intervals(),
            keep == (|interval: u8| supports(a, interval)),
            match a {
                Ok(body) => bits == (if body.len() > 0 {
                    body[0]
                } else {
                    0
                }),
                Err(_) => bits == 0,
            },
            v@ == all.take(n as int).filter(keep),
        decreases LONGEST_INTERVAL - n,
    {
        proof {
            assert(all.take(n + 1).drop_last() == all.take(n as int));
            assert(all.take(n + 1).last() == n + 1);
            assert(0u8 & (1u8 << n) == 0) by (bit_vector);
            reveal(Seq::filter);
        }
        if bits & (1u8 << n) != 0 {
            v.push(n + 1);
        }
        n = n + 1;
    }
    assert(all.take(n as int) == all);
    v
}

/// The rates that go with intervals, slowest first; the usual rate where there
/// is none.
pub open spec fn rates_of(intervals: Seq<u8>) -> Seq<u32> {
    if intervals.len() == 0 {
        seq![USUAL_RATE]
    } else {
        Seq::new(
            intervals.len(),
            |i: int| per_second(intervals[intervals.len() - 1 - i]) as u32,
        )
    }
}

/// Finding the rates to offer. Only a legacy device names any.
pub open spec fn spec_report_rates(capability: Capability, heard: Seq<Answer>) -> Step<
    Call,
    Seq<u32>,
> {
    if !capability.legacy {
        Step::Done(ladder())
    } else if heard.len() == 0 {
        Step::Ask(intervals_call(capability.index))
    } else {
        Step::Done(rates_of(intervals_in(heard[0])))
    }
}

/// The intervals that are found are exactly those that the device names, from
/// one millisecond to the longest; they ascend, and none comes twice.
pub proof fn law_intervals_are_those_named(a: Answer)
    ensures
        forall|i: int|
            0 <= i < intervals_in(a).len() ==> 1 <= #[trigger] intervals_in(a)[i]
                <= LONGEST_INTERVAL && supports(a, intervals_in(a)[i]),
        forall|i: int, j: int|
            0 <= i < j < intervals_in(a).len() ==> #[trigger] intervals_in(a)[i]
                < #[trigger] intervals_in(a)[j],
        forall|n: u8|
            1 <= n <= LONGEST_INTERVAL && #[trigger] supports(a, n) ==> intervals_in(a).contains(n),
{
    lemma_intervals_up_to(a, LONGEST_INTERVAL as int);
    assert(all_intervals().take(LONGEST_INTERVAL as int) =~= all_intervals());
}

proof fn lemma_intervals_up_to(a: Answer, k: int)
    requires
        0 <= k <= LONGEST_INTERVAL,
    ensures
        ({
            let s = all_intervals().take(k).filter(|interval: u8| supports(a, interval));
            &&& forall|i: int|
                0 <= i < s.len() ==> 1 <= #[trigger] s[i] <= k && supports(a, s[i])
            &&& forall|i: int, j: int| 0 <= i < j < s.len() ==> #[trigger] s[i] < #[trigger] s[j]
            &&& forall|n: u8| 1 <= n <= k && #[trigger] supports(a, n) ==> s.contains(n)
        }),
    decreases k,
{
    reveal(Seq::filter);
    let keep = |interval: u8| supports(a, interval);
    let s = all_intervals().take(k).filter(keep);
    if k > 0 {
        lemma_intervals_up_to(a, k - 1);
        assert(all_intervals().take(k).drop_last() =~= all_intervals().take(k - 1));
        let rest = all_intervals().take(k - 1).filter(keep);
        assert(all_intervals().take(k).last() == k);
        assert forall|n: u8| 1 <= n <= k && #[trigger] supports(a, n) implies s.contains(n) by {
            if n < k {
                assert(rest.contains(n));
                let i = choose|i: int| 0 <= i < rest.len() && rest[i] == n;
                assert(s[i] == n);
            } else {
                assert(s[s.len() - 1] == n);
            }
        }
    }
}

/// Finds the rates to offer, slowest first.
pub fn report_rates(capability: Capability, replies: &Vec<Reply>) -> (step: Step<
    Request,
    Vec<u32>,
>)
    ensures
        replies@.len() >= 1 ==> step is Done,
        dialog::shown(step) == spec_report_rates(capability, dialog::heard(replies@)),
{
    if !capability.legacy {
        return Step::Done(standard_rates());
    }
    let intervals = match legacy_supported_intervals(capability.index, replies) {
        Step::Ask(r) => {
            return Step::Ask(r);
        },
        Step::Done(intervals) => intervals,
    };
    if intervals.len() == 0 {
        let usual: Vec<u32> = vec![USUAL_RATE];
        assert(usual@ == rates_of(intervals@));
        return Step::Done(usual);
    }
    proof {
        law_intervals_are_those_named(dialog::heard(replies@)[0]);
    }
    let mut rates: Vec<u32> = Vec::new();
    let mut i: usize = intervals.len();
    while i > 0
        invariant
            i <= intervals.len(),
            intervals.len() > 0,
            forall|k: int| 0 <= k < intervals.len() ==> intervals@[k] > 0,
            rates@ == rates_of(intervals@).take(intervals.len() - i),
        decreases i,
    {
        i = i - 1;
        rates.push(1000 / intervals[i] as u32);
    }
    assert(rates@ == rates_of(intervals@));
    Step::Done(rates)
}

/// The rates of a device that names none.
fn standard_rates() -> (v: Vec<u32>)
    ensures
        v@ == ladder(),
{
    let mut v: Vec<u32> = Vec::new();
    let mut i: usize = 0;
    while i < 7
        invariant
            i <= 7,
            v@ == ladder().take(i as int),
        decreases 7 - i,
    {
        v.push(REPORT_RATES[i]);
        i = i + 1;
    }
    v
}

/// The interval that goes best with a rate.
pub open spec fn wanted_interval(rate: u32) -> int {
    if rate <= 1 {
        1000
    } else if rate >= 1000 {
        1
    } else {
        1000int / rate as int
    }
}

/// How far two numbers lie apart.
pub open spec fn apart(a: int, b: int) -> int {
    if a < b {
        b - a
    } else {
        a - b
    }
}

/// The first of some intervals that lies nearest to the one wanted.
pub open spec fn nearest(intervals: Seq<u8>, wanted: int) -> u8
    decreases intervals.len(),
{
    if intervals.len() <= 1 {
        intervals[0]
    } else {
        let best = nearest(intervals.drop_last(), wanted);
        if apart(intervals.last() as int, wanted) < apart(best as int, wanted) {
            intervals.last()
        } else {
            best
        }
    }
}

/// The interval that a legacy device is set to: the nearest that it supports,
/// or the one wanted, as far as a byte holds it, where it names none.
pub open spec fn chosen_interval(intervals: Seq<u8>, rate: u32) -> u8 {
    let wanted = wanted_interval(rate);
    if intervals.len() > 0 {
        nearest(intervals, wanted)
    } else if wanted > 255 {
        255
    } else {
        wanted as u8
    }
}

/// Setting the rate. An extended device is told its rate in mode 0 and then in
/// mode 1. What a device answers to a setting does not matter.
pub open spec fn spec_set_report_rate(capability: Capability, rate: u32, heard: Seq<Answer>) -> Step<
    Call,
    (),
> {
    if heard.len() >= 2 {
        Step::Done(())
    } else if capability.legacy {
        if heard.len() == 0 {
            Step::Ask(intervals_call(capability.index))
        } else {
            Step::Ask(
                dialog::call(
                    capability.index,
                    2,
                    seq![chosen_interval(intervals_in(heard[0]), rate)],
                ),
            )
        }
    } else {
        Step::Ask(
            dialog::call(
                capability.index,
                3,
                seq![spec_code_of_rate(rate), heard.len() as u8, 0u8],
            ),
        )
    }
}

/// The code of the extended feature that a rate is set with.
fn code_of_rate(rate: u32) -> (code: u8)
    ensures
        code == spec_code_of_rate(rate),
        code == code_table(rate),
{
    proof {
        law_code_table(rate);
    }
    match rate {
        125 => 0,
        250 => 1,
        500 => 2,
        1000 => 3,
        2000 => 4,
        4000 => 5,
        8000 => 6,
        _ => 3,
    }
}

/// How far two numbers lie apart.
fn distance(a: u32, b: u32) -> (d: u32)
    ensures
        d == apart(a as int, b as int),
{
    if a < b {
        b - a
    } else {
        a - b
    }
}

/// The interval that a legacy device is set to.
fn choose_interval(intervals: &Vec<u8>, rate: u32) -> (interval: u8)
    ensures
        interval == chosen_interval(intervals@, rate),
{
    let wanted: u32 = if rate <= 1 {
        1000
    } else if rate >= 1000 {
        1
    } else {
        1000 / rate
    };
    if intervals.len() == 0 {
        return if wanted > 255 {
            255
        } else {
            wanted as u8
        };
    }
    let mut best: u8 = intervals[0];
    let mut i: usize = 1;
    while i < intervals.len()
        invariant
            1 <= i <= intervals.len(),
            best == nearest(intervals@.take(i as int), wanted as int),
        decreases intervals.len() - i,
    {
        assert(intervals@.take(i + 1).drop_last() == intervals@.take(i as int));
        if distance(intervals[i] as u32, wanted) < distance(best as u32, wanted) {
            best = intervals[i];
        }
        i = i + 1;
    }
    assert(intervals@.take(i as int) == intervals@);
    best
}

/// Sets the rate, or the nearest that a legacy device supports.
pub fn set_report_rate(capability: Capability, rate: u32, replies: &Vec<Reply>) -> (step: Step<
    Request,
    (),
>)
    ensures
        replies@.len() >= 2 ==> step is Done,
        dialog::shown(step) == spec_set_report_rate(capability, rate, dialog::heard(replies@)),
        !capability.legacy ==> (step matches Step::Ask(r) ==> r@.params[0] == code_table(rate)),
{
    if replies.len() >= 2 {
        return Step::Done(());
    }
    if capability.legacy {
        return match legacy_supported_intervals(capability.index, replies) {
            Step::Ask(r) => Step::Ask(r),
            Step::Done(intervals) => {
                let interval: u8 = choose_interval(&intervals, rate);
                let params: Vec<u8> = vec![interval];
                assert(params@ == seq![interval]);
                Step::Ask(request(capability.index, 2, params))
            },
        };
    }
    let code: u8 = code_of_rate(rate);
    let mode: u8 = replies.len() as u8;
    let params: Vec<u8> = vec![code, mode, 0u8];
    assert(params@ == seq![code, mode, 0u8]);
    Step::Ask(request(capability.index, 3, params))
}

/// A rate on the ladder is set with a code that stands for it, and any other
/// rate with the code of the usual one.
pub proof fn law_rate_code_round_trip(rate: u32)
    ensures
        spec_code_of_rate(rate) < ladder().len(),
        ladder().contains(rate) ==> rate_of_code(Some(spec_code_of_rate(rate))) == rate,
        !ladder().contains(rate) ==> rate_of_code(Some(spec_code_of_rate(rate))) == USUAL_RATE,
{
    if ladder().contains(rate) {
        let i = ladder().index_of(rate);
        assert(0 <= i < ladder().len() && ladder()[i] == rate);
    }
}

/// The rates that are offered ascend, none of them twice, and they are those of
/// the intervals that the device names and no others.
pub proof fn law_rates_ascend(a: Answer)
    ensures
        ({
            let rates = rates_of(intervals_in(a));
            &&& rates.len() > 0
            &&& forall|i: int, j: int|
                0 <= i < j < rates.len() ==> #[trigger] rates[i] < #[trigger] rates[j]
            &&& intervals_in(a).len() > 0 ==> forall|r: u32| #[trigger]
                rates.contains(r) <==> exists|n: u8|
                    1 <= n <= LONGEST_INTERVAL && #[trigger] supports(a, n) && r == per_second(n)
            &&& intervals_in(a).len() == 0 ==> rates == seq![USUAL_RATE]
        }),
{
    let intervals = intervals_in(a);
    let rates = rates_of(intervals);
    law_intervals_are_those_named(a);
    if intervals.len() > 0 {
        let last = intervals.len() - 1;
        assert forall|i: int, j: int| 0 <= i < j < rates.len() implies #[trigger] rates[i]
            < #[trigger] rates[j] by {
            assert(intervals[last - j] < intervals[last - i]);
            lemma_per_second(intervals[last - i]);
            lemma_per_second(intervals[last - j]);
        }
        assert forall|r: u32| #[trigger] rates.contains(r) implies exists|n: u8|
            1 <= n <= LONGEST_INTERVAL && #[trigger] supports(a, n) && r == per_second(n) by {
            let i = choose|i: int| 0 <= i < rates.len() && rates[i] == r;
            let n = intervals[last - i];
            lemma_per_second(n);
            assert(supports(a, n));
        }
        assert forall|r: u32|
            (exists|n: u8|
                1 <= n <= LONGEST_INTERVAL && #[trigger] supports(a, n) && r == per_second(
                    n,
                )) implies #[trigger] rates.contains(r) by {
            let n = choose|n: u8|
                1 <= n <= LONGEST_INTERVAL && #[trigger] supports(a, n) && r == per_second(n);
            assert(intervals.contains(n));
            let i = choose|i: int| 0 <= i < intervals.len() && intervals[i] == n;
            lemma_per_second(n);
            assert(rates[last - i] == r);
        }
    }
}

/// The rates of the intervals that a device can name, and the intervals that go
/// best with those rates.
proof fn lemma_per_second(n: u8)
    requires
        1 <= n <= LONGEST_INTERVAL,
    ensures
        per_second(n) == (if n == 1 {
            1000int
        } else if n == 2 {
            500
        } else if n == 3 {
            333
        } else if n == 4 {
            250
        } else if n == 5 {
            200
        } else if n == 6 {
            166
        } else if n == 7 {
            142
        } else {
            125
        }),
        wanted_interval(per_second(n) as u32) == n,
{
    if n == 1 {
        assert(per_second(1) == 1000 && wanted_interval(1000) == 1);
    } else if n == 2 {
        assert(per_second(2) == 500 && wanted_interval(500) == 2);
    } else if n == 3 {
        assert(per_second(3) == 333 && wanted_interval(333) == 3);
    } else if n == 4 {
        assert(per_second(4) == 250 && wanted_interval(250) == 4);
    } else if n == 5 {
        assert(per_second(5) == 200 && wanted_interval(200) == 5);
    } else if n == 6 {
        assert(per_second(6) == 166 && wanted_interval(166) == 6);
    } else if n == 7 {
        assert(per_second(7) == 142 && wanted_interval(142) == 7);
    } else {
        assert(per_second(8) == 125 && wanted_interval(125) == 8);
    }
}

/// The nearest interval is one of those there are, no other lies nearer, and
/// none in front of it lies as near.
pub proof fn law_nearest_is_nearest(intervals: Seq<u8>, wanted: int)
    requires
        intervals.len() > 0,
    ensures
        exists|i: int|
            {
                &&& 0 <= i < intervals.len()
                &&& #[trigger] intervals[i] == nearest(intervals, wanted)
                &&& forall|j: int|
                    0 <= j < intervals.len() ==> apart(intervals[i] as int, wanted) <= apart(
                        #[trigger] intervals[j] as int,
                        wanted,
                    )
                &&& forall|j: int|
                    0 <= j < i ==> apart(intervals[i] as int, wanted) < apart(
                        #[trigger] intervals[j] as int,
                        wanted,
                    )
            },
    decreases intervals.len(),
{
    let n = intervals.len() as int;
    if n == 1 {
        assert(intervals[0] == nearest(intervals, wanted));
    } else {
        let rest = intervals.drop_last();
        law_nearest_is_nearest(rest, wanted);
        let i = choose|i: int|
            {
                &&& 0 <= i < rest.len()
                &&& #[trigger] rest[i] == nearest(rest, wanted)
                &&& forall|j: int|
                    0 <= j < rest.len() ==> apart(rest[i] as int, wanted) <= apart(
                        #[trigger] rest[j] as int,
                        wanted,
                    )
                &&& forall|j: int|
                    0 <= j < i ==> apart(rest[i] as int, wanted) < apart(
                        #[trigger] rest[j] as int,
                        wanted,
                    )
            };
        assert(forall|j: int| 0 <= j < rest.len() ==> rest[j] == #[trigger] intervals[j]);
        if apart(intervals.last() as int, wanted) < apart(rest[i] as int, wanted) {
            assert(intervals[n - 1] == nearest(intervals, wanted));
        } else {
            assert(intervals[i] == nearest(intervals, wanted));
        }
    }
}

/// Of the intervals that a device names, the one that is set lies nearest to the
/// one wanted, and of two that lie equally near it is the shorter.
pub proof fn law_shorter_of_two_is_set(a: Answer, rate: u32, other: u8)
    requires
        intervals_in(a).contains(other),
    ensures
        ({
            let chosen = chosen_interval(intervals_in(a), rate);
            let wanted = wanted_interval(rate);
            &&& intervals_in(a).contains(chosen)
            &&& apart(chosen as int, wanted) <= apart(other as int, wanted)
            &&& apart(chosen as int, wanted) == apart(other as int, wanted) ==> chosen <= other
        }),
{
    let intervals = intervals_in(a);
    let wanted = wanted_interval(rate);
    law_intervals_are_those_named(a);
    law_nearest_is_nearest(intervals, wanted);
    let i = choose|i: int|
        {
            &&& 0 <= i < intervals.len()
            &&& #[trigger] intervals[i] == nearest(intervals, wanted)
            &&& forall|j: int|
                0 <= j < intervals.len() ==> apart(intervals[i] as int, wanted) <= apart(
                    #[trigger] intervals[j] as int,
                    wanted,
                )
            &&& forall|j: int|
                0 <= j < i ==> apart(intervals[i] as int, wanted) < apart(
                    #[trigger] intervals[j] as int,
                    wanted,
                )
        };
    let k = choose|k: int| 0 <= k < intervals.len() && intervals[k] == other;
    assert(apart(intervals[i] as int, wanted) <= apart(intervals[k] as int, wanted));
    if i < k {
        assert(intervals[i] < intervals[k]);
    }
}

/// A rate that a legacy device offers is set exactly: the interval that is
/// written is one that the device named, and reads back as that rate.
pub proof fn law_offered_rate_is_set_exactly(a: Answer, rate: u32)
    requires
        intervals_in(a).len() > 0,
        rates_of(intervals_in(a)).contains(rate),
    ensures
        supports(a, chosen_interval(intervals_in(a), rate)),
        legacy_rate(Ok(seq![chosen_interval(intervals_in(a), rate)])) == rate,
{
    let intervals = intervals_in(a);
    law_intervals_are_those_named(a);
    law_rates_ascend(a);
    let n = choose|n: u8|
        1 <= n <= LONGEST_INTERVAL && #[trigger] supports(a, n) && rate == per_second(n);
    lemma_per_second(n);
    let wanted = wanted_interval(rate);
    law_nearest_is_nearest(intervals, wanted);
    assert(intervals.contains(n));
    let k = choose|k: int| 0 <= k < intervals.len() && intervals[k] == n;
    assert(apart(intervals[k] as int, wanted) == 0);
}

/// A rate goes with an interval in milliseconds: it is as many reports as fit
/// into a second.
pub open spec fn goes_with(rate: int, interval: int) -> bool {
    rate * interval <= 1000 < (rate + 1) * interval
}

/// A rate has this code with the extended feature: 125 reports per second have
/// code 0, and each of the six codes after it stands for twice as many.
pub open spec fn has_code(rate: int, code: int) -> bool {
    &&& 0 <= code <= 6
    &&& rate == 125 * pow2(code as nat)
}

proof fn lemma_codes()
    ensures
        has_code(125, 0),
        has_code(250, 1),
        has_code(500, 2),
        has_code(1000, 3),
        has_code(2000, 4),
        has_code(4000, 5),
        has_code(8000, 6),
        forall|c: int|
            0 <= c <= 6 ==> #[trigger] pow2(c as nat) == (if c == 0 {
                1nat
            } else if c == 1 {
                2
            } else if c == 2 {
                4
            } else if c == 3 {
                8
            } else if c == 4 {
                16
            } else if c == 5 {
                32
            } else {
                64
            }),
{
    lemma2_to64();
}

/// The rate that the first byte of a reply of the extended feature tells; 1000
/// where it tells none.
pub open spec fn is_told_by_code(rate: u32, body: Seq<u8>) -> bool {
    if body.len() > 0 && body[0] <= 6 {
        has_code(rate as int, body[0] as int)
    } else {
        rate == 1000
    }
}

/// What is read of the rate. A legacy device tells the interval. An extended
/// device is asked in mode 1 and, where that fails, in mode 0, and tells a code.
/// The rate is 1000 where nothing is told.
pub proof fn law_rate_is_read(capability: Capability, heard: Seq<Answer>)
    ensures
        ({
            let step = spec_report_rate(capability, heard);
            let ask = |function: u8, params: Seq<u8>|
                Step::<Call, u32>::Ask(
                    Call {
                        feature: capability.index,
                        function,
                        params,
                        tries: 3,
                        timeout_ms: 400,
                    },
                );
            &&& capability.legacy && heard.len() == 0 ==> step == ask(1, Seq::empty())
            &&& capability.legacy && heard.len() > 0 ==> (step matches Step::Done(rate)
                && match heard[0] {
                Err(_) => rate == 1000,
                Ok(body) => if body.len() > 0 && body[0] > 0 {
                    goes_with(rate as int, body[0] as int)
                } else {
                    rate == 1000
                },
            })
            &&& !capability.legacy && heard.len() == 0 ==> step == ask(2, seq![1u8])
            &&& !capability.legacy && heard.len() > 0 ==> match heard[0] {
                Ok(body) => step matches Step::Done(rate) && is_told_by_code(rate, body),
                Err(_) => if heard.len() == 1 {
                    step == ask(2, seq![0u8])
                } else {
                    step matches Step::Done(rate) && match heard[1] {
                        Ok(body) => is_told_by_code(rate, body),
                        Err(_) => rate == 1000,
                    }
                },
            }
        }),
{
    lemma_codes();
    if capability.legacy && heard.len() > 0 {
        if let Ok(body) = heard[0] {
            if body.len() > 0 && body[0] > 0 {
                lemma_quotient(body[0] as int);
            }
        }
    }
}

proof fn lemma_quotient(n: int)
    requires
        n > 0,
    ensures
        goes_with(1000int / n, n),
        0 <= 1000int / n <= 1000,
{
    let q = 1000int / n;
    assert(q * n <= 1000 < (q + 1) * n && 0 <= q <= 1000) by (nonlinear_arith)
        requires
            q == 1000int / n,
            n > 0,
    ;
}

/// A reply names an interval, from 1 to 8 milliseconds: the bit of its first
/// byte that many places up, counted from 1, is set.
pub open spec fn is_named(a: Answer, n: int) -> bool {
    &&& 1 <= n <= 8
    &&& a matches Ok(body)
    &&& body.len() > 0
    &&& (body[0] >> ((n - 1) as u8)) % 2 == 1
}

proof fn lemma_named(a: Answer, n: u8)
    requires
        1 <= n <= 8,
    ensures
        is_named(a, n as int) <==> supports(a, n),
        is_named(a, n as int) <==> intervals_in(a).contains(n),
{
    law_intervals_are_those_named(a);
    if let Ok(body) = a {
        if body.len() > 0 {
            let bits: u8 = body[0];
            let k: u8 = (n - 1) as u8;
            assert(bits & (1u8 << k) != 0 <==> (bits >> k) % 2 == 1) by (bit_vector)
                requires
                    k < 8,
            ;
        }
    }
    if intervals_in(a).contains(n) {
        let i = choose|i: int| 0 <= i < intervals_in(a).len() && intervals_in(a)[i] == n;
        assert(supports(a, intervals_in(a)[i]));
    }
}

/// What finding the intervals of a legacy device comes to: those that its reply
/// names, all of them, shortest first, and none where it names none.
pub proof fn law_intervals_are_found(feature: u8, heard: Seq<Answer>)
    ensures
        heard.len() == 0 ==> spec_legacy_supported_intervals(feature, heard) == Step::<
            Call,
            Seq<u8>,
        >::Ask(Call { feature, function: 0, params: Seq::empty(), tries: 3, timeout_ms: 400 }),
        heard.len() > 0 ==> (spec_legacy_supported_intervals(feature, heard) matches Step::Done(
            found,
        ) && {
            &&& forall|n: u8| #[trigger] found.contains(n) <==> is_named(heard[0], n as int)
            &&& forall|i: int, j: int|
                0 <= i < j < found.len() ==> #[trigger] found[i] < #[trigger] found[j]
        }),
{
    if heard.len() > 0 {
        let a = heard[0];
        let found = intervals_in(a);
        law_intervals_are_those_named(a);
        assert forall|n: u8| #[trigger] found.contains(n) <==> is_named(a, n as int) by {
            if found.contains(n) {
                let i = choose|i: int| 0 <= i < found.len() && found[i] == n;
                assert(1 <= found[i] <= 8);
            }
            if 1 <= n <= 8 {
                lemma_named(a, n);
            }
        }
    }
}

/// What is offered: 125 to 8000 in doubling steps on an extended device, with
/// nothing asked; on a legacy one the rates that go with the intervals that it
/// names, all of them, in rising order, and 1000 where it names none.
pub proof fn law_rates_are_offered(capability: Capability, heard: Seq<Answer>)
    ensures
        ({
            let step = spec_report_rates(capability, heard);
            &&& !capability.legacy ==> (step matches Step::Done(offer) && offer.len() == 7
                && forall|c: int| 0 <= c < 7 ==> has_code(#[trigger] offer[c] as int, c))
            &&& capability.legacy && heard.len() == 0 ==> step == Step::<Call, Seq<u32>>::Ask(
                Call {
                    feature: capability.index,
                    function: 0,
                    params: Seq::empty(),
                    tries: 3,
                    timeout_ms: 400,
                },
            )
            &&& capability.legacy && heard.len() > 0 ==> (step matches Step::Done(offer)
                && is_offer(heard[0], offer))
        }),
{
    lemma_codes();
    if capability.legacy {
        if heard.len() > 0 {
            lemma_offer(heard[0]);
        }
    } else {
        assert forall|c: int| 0 <= c < 7 implies has_code(#[trigger] ladder()[c] as int, c) by {
            assert(pow2(c as nat) > 0);
        }
    }
}

/// Some rates are those that go with the intervals that a reply names, all of
/// them, in rising order; or 1000 alone, where it names none.
pub open spec fn is_offer(a: Answer, offer: Seq<u32>) -> bool {
    &&& forall|i: int, j: int|
        0 <= i < j < offer.len() ==> #[trigger] offer[i] < #[trigger] offer[j]
    &&& forall|n: int| #[trigger]
        is_named(a, n) ==> exists|i: int|
            0 <= i < offer.len() && goes_with(#[trigger] offer[i] as int, n)
    &&& (exists|n: int| #[trigger] is_named(a, n)) ==> forall|i: int|
        0 <= i < offer.len() ==> is_rate_named(a, #[trigger] offer[i] as int)
    &&& (forall|n: int| !#[trigger] is_named(a, n)) ==> offer == seq![1000u32]
}

proof fn lemma_offer(a: Answer)
    ensures
        is_offer(a, rates_of(intervals_in(a))),
{
    let intervals = intervals_in(a);
    let offer = rates_of(intervals);
    law_rates_ascend(a);
    law_intervals_are_those_named(a);
    assert forall|n: int| #[trigger] is_named(a, n) implies intervals.len() > 0 && exists|i: int|
        0 <= i < offer.len() && goes_with(#[trigger] offer[i] as int, n) by {
        lemma_named(a, n as u8);
        lemma_quotient(n);
        lemma_per_second(n as u8);
        let k = choose|k: int| 0 <= k < intervals.len() && intervals[k] == n;
        let r = per_second(n as u8) as u32;
        assert(offer[intervals.len() - 1 - k] == r);
    }
    if intervals.len() > 0 {
        assert forall|i: int| 0 <= i < offer.len() implies is_rate_named(
            a,
            #[trigger] offer[i] as int,
        ) by {
            let n = intervals[intervals.len() - 1 - i];
            assert(supports(a, n));
            lemma_named(a, n);
            lemma_quotient(n as int);
            lemma_per_second(n);
            assert(is_named(a, n as int));
        }
        let n = intervals[0];
        assert(supports(a, n));
        lemma_named(a, n);
        assert(is_named(a, n as int));
    }
}

/// A rate goes with some interval that a reply names.
pub open spec fn is_rate_named(a: Answer, rate: int) -> bool {
    exists|n: int| #[trigger] is_named(a, n) && goes_with(rate, n)
}

/// The interval that a rate asks for: as many milliseconds as fit between two of
/// its reports, but at least 1 and at most 1000.
pub open spec fn asks_for(rate: u32, wanted: int) -> bool {
    if rate == 0 {
        wanted == 1000
    } else if rate >= 1000 {
        wanted == 1
    } else {
        goes_with(wanted, rate as int)
    }
}

/// What setting the rate of a legacy device writes. Its intervals are asked for
/// first. Then one of those that it named is written, the nearest to the one
/// that the rate asks for, the shorter of two that are equally near; where it
/// named none, the one asked for, up to 255. Then it is done, whatever the
/// device said.
pub proof fn law_legacy_rate_is_set(index: u8, rate: u32, heard: Seq<Answer>, wanted: int, m: int)
    requires
        asks_for(rate, wanted),
    ensures
        ({
            let step = spec_set_report_rate(Capability { index, legacy: true }, rate, heard);
            &&& heard.len() == 0 ==> step == Step::<Call, ()>::Ask(
                Call {
                    feature: index,
                    function: 0,
                    params: Seq::empty(),
                    tries: 3,
                    timeout_ms: 400,
                },
            )
            &&& heard.len() == 1 ==> (step matches Step::Ask(c) && {
                let n = c.params[0] as int;
                &&& c.feature == index
                &&& c.function == 2
                &&& c.params.len() == 1
                &&& c.tries == 3
                &&& c.timeout_ms == 400
                &&& is_named(heard[0], m) ==> {
                    &&& is_named(heard[0], n)
                    &&& apart(n, wanted) <= apart(m, wanted)
                    &&& apart(n, wanted) == apart(m, wanted) ==> n <= m
                }
                &&& (forall|k: int| !#[trigger] is_named(heard[0], k)) ==> n == (if wanted > 255 {
                    255
                } else {
                    wanted
                })
            })
            &&& heard.len() >= 2 ==> step == Step::<Call, ()>::Done(())
        }),
{
    lemma_wanted(rate, wanted);
    if heard.len() == 1 {
        let a = heard[0];
        let n = chosen_interval(intervals_in(a), rate);
        if is_named(a, m) {
            lemma_named(a, m as u8);
            law_shorter_of_two_is_set(a, rate, m as u8);
            law_intervals_are_those_named(a);
            let i = choose|i: int| 0 <= i < intervals_in(a).len() && intervals_in(a)[i] == n;
            assert(1 <= intervals_in(a)[i] <= LONGEST_INTERVAL);
            lemma_named(a, n);
        }
        if forall|k: int| !#[trigger] is_named(a, k) {
            if intervals_in(a).len() > 0 {
                law_intervals_are_those_named(a);
                let k = intervals_in(a)[0];
                assert(supports(a, k));
                lemma_named(a, k);
                assert(is_named(a, k as int));
            }
        }
    }
}

proof fn lemma_wanted(rate: u32, wanted: int)
    requires
        asks_for(rate, wanted),
    ensures
        wanted == wanted_interval(rate),
        1 <= wanted <= 1000,
{
    if 0 < rate < 1000 {
        let q = 1000int / rate as int;
        lemma_quotient(rate as int);
        let r = rate as int;
        assert(wanted == q) by (nonlinear_arith)
            requires
                wanted * r <= 1000 < (wanted + 1) * r,
                q * r <= 1000 < (q + 1) * r,
                r > 0,
        ;
        assert(q >= 1) by (nonlinear_arith)
            requires
                1000 < (q + 1) * r,
                r < 1000,
                r > 0,
        ;
        if rate == 1 {
            assert(q * 1 == q && (q + 1) * 1 == q + 1);
        }
    }
}

/// What setting the rate of an extended device writes: the code of the rate in
/// mode 0 and then in mode 1, that of 1000 where the rate has none. Then it is
/// done, whatever the device said. A device that keeps the code reads back with
/// that rate.
pub proof fn law_extended_rate_is_set(index: u8, rate: u32, heard: Seq<Answer>)
    ensures
        ({
            let extended = Capability { index, legacy: false };
            let step = spec_set_report_rate(extended, rate, heard);
            &&& heard.len() < 2 ==> (step matches Step::Ask(c) && {
                &&& c.feature == index
                &&& c.function == 3
                &&& c.params.len() == 3
                &&& c.params[1] == heard.len()
                &&& c.params[2] == 0
                &&& c.tries == 3
                &&& c.timeout_ms == 400
                &&& forall|code: int| #[trigger]
                    has_code(rate as int, code) ==> c.params[0] == code
                &&& (forall|code: int| !#[trigger] has_code(rate as int, code)) ==> c.params[0] == 3
                &&& spec_report_rate(extended, seq![Ok(c.params)]) matches Step::Done(now)
                &&& (exists|code: int| #[trigger] has_code(rate as int, code)) ==> now == rate
                &&& (forall|code: int| !#[trigger] has_code(rate as int, code)) ==> now == 1000
            })
            &&& heard.len() >= 2 ==> step == Step::<Call, ()>::Done(())
        }),
{
    lemma_codes();
    law_code_table(rate);
    if heard.len() < 2 {
        let extended = Capability { index, legacy: false };
        let c = spec_set_report_rate(extended, rate, heard)->Ask_0;
        let kept: Seq<Answer> = seq![Ok(c.params)];
        assert(kept[0] == Ok::<Seq<u8>, Seq<char>>(c.params));
        law_rate_is_read(extended, kept);
        assert forall|code: int| #[trigger] has_code(rate as int, code) implies c.params[0]
            == code by {
            assert(pow2(code as nat) > 0);
        }
        if forall|code: int| !#[trigger] has_code(rate as int, code) {
            assert(!has_code(rate as int, 0) && !has_code(rate as int, 1) && !has_code(
                rate as int,
                2,
            ) && !has_code(rate as int, 3) && !has_code(rate as int, 4) && !has_code(
                rate as int,
                5,
            ) && !has_code(rate as int, 6));
        }
    }
}

} // verus!
