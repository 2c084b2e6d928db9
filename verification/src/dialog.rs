//! Conversations with a device, one request at a time.
//!
//! An operation is a function from the replies that have come in so far to its
//! next [`Step`]: another request, or its result. Whoever owns the device sends
//! the request, adds the reply to the list and asks again.
use vstd::prelude::*;

verus! {

/// How many times a request of an operation is sent before it is given up.
pub const TRIES: u8 = 3;

/// How long a reply to an operation's request may take, in milliseconds.
pub const TIMEOUT_MS: u64 = 400;

/// How many times a probing request is sent before it is given up.
pub const PROBE_TRIES: u8 = 2;

/// How long a reply to a probing request may take, in milliseconds.
pub const PROBE_TIMEOUT_MS: u64 = 150;

/// One function call of a device feature.
pub struct Request {
    pub feature: u8,
    pub function: u8,
    pub params: Vec<u8>,
    pub tries: u8,
    pub timeout_ms: u64,
}

/// What a [`Request`] asks for.
pub struct Call {
    pub feature: u8,
    pub function: u8,
    pub params: Seq<u8>,
    pub tries: u8,
    pub timeout_ms: u64,
}

impl View for Request {
    type V = Call;

    open spec fn view(&self) -> Call {
        Call {
            feature: self.feature,
            function: self.function,
            params: self.params@,
            tries: self.tries,
            timeout_ms: self.timeout_ms,
        }
    }
}

/// The outcome of a request: the body of the reply, or why there is none.
pub type Reply = Result<Vec<u8>, String>;

/// The outcome of a request, as values.
pub type Answer = Result<Seq<u8>, Seq<char>>;

/// The next step of an operation.
pub enum Step<Q, T> {
    /// Send this and come back with its outcome.
    Ask(Q),
    /// The operation is over.
    Done(T),
}

/// A reply, as values.
pub open spec fn answer(reply: Reply) -> Answer {
    match reply {
        Ok(body) => Ok(body@),
        Err(message) => Err(message@),
    }
}

/// The replies so far, as values.
pub open spec fn heard(replies: Seq<Reply>) -> Seq<Answer> {
    replies.map_values(|reply: Reply| answer(reply))
}

/// A step whose result cannot fail, as values.
pub open spec fn shown<T: View>(step: Step<Request, T>) -> Step<Call, T::V> {
    match step {
        Step::Ask(request) => Step::Ask(request@),
        Step::Done(result) => Step::Done(result@),
    }
}

/// A step whose result may be a failure, as values.
pub open spec fn shown_result<T: View>(step: Step<Request, Result<T, String>>) -> Step<
    Call,
    Result<T::V, Seq<char>>,
> {
    match step {
        Step::Ask(request) => Step::Ask(request@),
        Step::Done(Ok(value)) => Step::Done(Ok(value@)),
        Step::Done(Err(message)) => Step::Done(Err(message@)),
    }
}

/// A call of an operation, with the tries and the time that every operation
/// gives its requests.
pub open spec fn call(feature: u8, function: u8, params: Seq<u8>) -> Call {
    Call { feature, function, params, tries: TRIES, timeout_ms: TIMEOUT_MS }
}

/// A request of an operation.
pub fn request(feature: u8, function: u8, params: Vec<u8>) -> (r: Request)
    ensures
        r@ == call(feature, function, params@),
{
    Request { feature, function, params, tries: TRIES, timeout_ms: TIMEOUT_MS }
}

/// The byte at `i`, or 0 where the body ends before it.
pub open spec fn spec_byte_at(body: Seq<u8>, i: int) -> u8 {
    if 0 <= i < body.len() {
        body[i]
    } else {
        0
    }
}

/// The byte at `i`, where the body reaches that far.
pub open spec fn spec_byte_if_any(body: Seq<u8>, i: int) -> Option<u8> {
    if 0 <= i < body.len() {
        Some(body[i])
    } else {
        None
    }
}

/// The number whose high byte stands at `i`, a missing byte counting as 0.
pub open spec fn spec_word_at(body: Seq<u8>, i: int) -> u16 {
    (spec_byte_at(body, i) * 256 + spec_byte_at(body, i + 1)) as u16
}

/// The high and the low byte of a number.
pub open spec fn word_bytes(w: u16) -> Seq<u8> {
    seq![(w / 256) as u8, (w % 256) as u8]
}

/// The byte at `i`, or 0 where the body ends before it.
pub fn byte_at(body: &Vec<u8>, i: usize) -> (b: u8)
    ensures
        b == spec_byte_at(body@, i as int),
{
    if i < body.len() {
        body[i]
    } else {
        0
    }
}

/// The byte at `i`, where the body reaches that far.
pub fn byte_if_any(body: &Vec<u8>, i: usize) -> (b: Option<u8>)
    ensures
        b == spec_byte_if_any(body@, i as int),
{
    if i < body.len() {
        Some(body[i])
    } else {
        None
    }
}

/// The big-endian number at `i`, a missing byte counting as 0.
pub fn word_at(body: &Vec<u8>, i: usize) -> (w: u16)
    requires
        i < usize::MAX,
    ensures
        w == spec_word_at(body@, i as int),
{
    byte_at(body, i) as u16 * 256 + byte_at(body, i + 1) as u16
}

/// A number split into bytes reads back as that number, wherever the bytes
/// stand in a body.
pub proof fn law_word_round_trip(body: Seq<u8>, i: int, w: u16)
    requires
        0 <= i,
        i + 2 <= body.len(),
        body.subrange(i, i + 2) == word_bytes(w),
    ensures
        spec_word_at(body, i) == w,
{
    assert(body.subrange(i, i + 2)[0] == body[i]);
    assert(body.subrange(i, i + 2)[1] == body[i + 1]);
}

/// What an operation comes to with a device whose answers `device` gives:
/// `None` where it is not over after `rounds` requests more.
pub open spec fn run<T>(
    operation: spec_fn(Seq<Answer>) -> Step<Call, T>,
    device: spec_fn(Call) -> Answer,
    so_far: Seq<Answer>,
    rounds: nat,
) -> Option<T>
    decreases rounds,
{
    match operation(so_far) {
        Step::Done(result) => Some(result),
        Step::Ask(call) => if rounds == 0 {
            None
        } else {
            run(operation, device, so_far.push(device(call)), (rounds - 1) as nat)
        },
    }
}

/// An operation that goes on as `rest` once it has heard `past` comes to what
/// `rest` comes to.
pub proof fn lemma_run_shift<T>(
    whole: spec_fn(Seq<Answer>) -> Step<Call, T>,
    rest: spec_fn(Seq<Answer>) -> Step<Call, T>,
    device: spec_fn(Call) -> Answer,
    past: Seq<Answer>,
    now: Seq<Answer>,
    rounds: nat,
)
    requires
        forall|h: Seq<Answer>| #[trigger] whole(past + h) == rest(h),
    ensures
        run(whole, device, past + now, rounds) == run(rest, device, now, rounds),
    decreases rounds,
{
    if let Step::Ask(c) = rest(now) {
        if rounds > 0 {
            assert((past + now).push(device(c)) =~= past + now.push(device(c)));
            lemma_run_shift(whole, rest, device, past, now.push(device(c)), (rounds - 1) as nat);
        }
    }
}

/// An operation that is over after some rounds comes to the same where more
/// are allowed.
pub proof fn lemma_run_more<T>(
    operation: spec_fn(Seq<Answer>) -> Step<Call, T>,
    device: spec_fn(Call) -> Answer,
    so_far: Seq<Answer>,
    rounds: nat,
    more: nat,
)
    requires
        run(operation, device, so_far, rounds) is Some,
        rounds <= more,
    ensures
        run(operation, device, so_far, more) == run(operation, device, so_far, rounds),
    decreases rounds,
{
    if let Step::Ask(c) = operation(so_far) {
        lemma_run_more(
            operation,
            device,
            so_far.push(device(c)),
            (rounds - 1) as nat,
            (more - 1) as nat,
        );
    }
}

/// A request of an operation asks for what it was made for and nothing else,
/// and is given three tries of 400 milliseconds.
pub proof fn law_operations_are_patient(feature: u8, function: u8, params: Seq<u8>)
    ensures
        call(feature, function, params) == (Call {
            feature,
            function,
            params,
            tries: 3,
            timeout_ms: 400,
        }),
{
}

/// Numbers are written and read with the high byte in front, and what lies
/// past the end of a body reads as zero, as if zeros followed it.
pub proof fn law_numbers_are_big_endian(body: Seq<u8>, i: int, w: u16)
    requires
        0 <= i,
    ensures
        i + 1 < body.len() ==> spec_word_at(body, i) == 256 * body[i] + body[i + 1],
        i + 1 == body.len() ==> spec_word_at(body, i) == 256 * body[i],
        i >= body.len() ==> spec_word_at(body, i) == 0,
        spec_word_at(body.push(0), i) == spec_word_at(body, i),
        word_bytes(w).len() == 2,
        256 * word_bytes(w)[0] + word_bytes(w)[1] == w,
{
}

/// A byte of a body reads as it is, and one past its end as nothing, or as
/// zero.
pub proof fn law_bytes_are_read_as_they_are(body: Seq<u8>, i: int)
    requires
        0 <= i,
    ensures
        i < body.len() ==> spec_byte_at(body, i) == body[i] && spec_byte_if_any(body, i) == Some(
            body[i],
        ),
        i >= body.len() ==> spec_byte_at(body, i) == 0 && spec_byte_if_any(body, i) is None,
{
}

/// Replies are heard in the order in which they came, none left out.
pub proof fn law_replies_are_heard_in_order(replies: Seq<Reply>, i: int)
    requires
        0 <= i < replies.len(),
    ensures
        heard(replies).len() == replies.len(),
        match replies[i] {
            Ok(body) => heard(replies)[i] == Ok::<Seq<u8>, Seq<char>>(body@),
            Err(message) => heard(replies)[i] == Err::<Seq<u8>, Seq<char>>(message@),
        },
{
}

/// A request is what its fields hold, and a step what it asks for or comes to:
/// nothing is added or left out where contracts speak of them.
pub proof fn law_step_is_what_it_holds<T: View>(
    step: Step<Request, T>,
    outcome: Step<Request, Result<T, String>>,
    r: Request,
)
    ensures
        r@.feature == r.feature,
        r@.function == r.function,
        r@.params == r.params@,
        r@.tries == r.tries,
        r@.timeout_ms == r.timeout_ms,
        match step {
            Step::Ask(q) => shown(step) == Step::<Call, T::V>::Ask(q@),
            Step::Done(t) => shown(step) == Step::<Call, T::V>::Done(t@),
        },
        match outcome {
            Step::Ask(q) => shown_result(outcome) == Step::<Call, Result<T::V, Seq<char>>>::Ask(q@),
            Step::Done(Ok(t)) => shown_result(outcome) == Step::<
                Call,
                Result<T::V, Seq<char>>,
            >::Done(Ok(t@)),
            Step::Done(Err(e)) => shown_result(outcome) == Step::<
                Call,
                Result<T::V, Seq<char>>,
            >::Done(Err(e@)),
        },
{
}

} // verus!
