//! One request and the wait for its reply.
//!
//! An [`Exchange`] decides what to do with the hidraw node next and is told
//! what came of it. It does no input or output itself.
use vstd::prelude::*;

use crate::dialog;
use crate::dialog::{Answer, Reply};
use crate::frame;
use crate::frame::{judge, Address, Verdict};
use crate::text;
use crate::text::{byte_decimal, byte_hex, option_text};

verus! {

/// How many reads at most clear the node before a packet is written.
pub const DRAIN_LIMIT: u8 = 32;

/// The pause after a read that brought nothing of use, in milliseconds.
pub const SHORT_PAUSE_MS: u64 = 4;

/// The pause after a try that brought no reply, in milliseconds.
pub const LONG_PAUSE_MS: u64 = 15;

/// Nanoseconds in a millisecond.
pub const NANOS_PER_MS: u128 = 1_000_000;

/// What an exchange waits for.
pub enum Pending<R> {
    /// Read a frame and drop it; this many were read before.
    Drain(u8),
    /// Write the packet, and start the clock when it is out.
    Write,
    /// Tell how long ago the packet was written.
    Clock,
    /// Read a frame.
    Read,
    /// Sleep for [`SHORT_PAUSE_MS`].
    ShortPause,
    /// Sleep for [`LONG_PAUSE_MS`].
    LongPause,
    /// Nothing: the exchange is over.
    Finished(R),
}

/// What came of the action that an exchange waited for.
pub enum Event<B, S> {
    /// A read brought these bytes.
    Frame(B),
    /// A read failed.
    Silence,
    /// The packet was written.
    Written,
    /// The packet could not be written, with the system's words.
    WriteFailed(S),
    /// Nanoseconds since the packet was written.
    Elapsed(u128),
    /// The pause is over.
    Paused,
}

/// One request in progress.
pub struct Exchange {
    pub path: String,
    pub from: Address,
    pub packet: Vec<u8>,
    pub timeout_ms: u64,
    pub tries_left: u8,
    pub last_error: Option<u8>,
    pub pending: Pending<Reply>,
}

/// The state of an [`Exchange`], as values.
pub struct State {
    pub path: Seq<char>,
    pub from: Address,
    pub packet: Seq<u8>,
    pub timeout_ms: u64,
    pub tries_left: u8,
    pub last_error: Option<u8>,
    pub pending: Pending<Answer>,
}

/// What is waited for, as values.
pub open spec fn shown_pending(p: Pending<Reply>) -> Pending<Answer> {
    match p {
        Pending::Drain(reads) => Pending::Drain(reads),
        Pending::Write => Pending::Write,
        Pending::Clock => Pending::Clock,
        Pending::Read => Pending::Read,
        Pending::ShortPause => Pending::ShortPause,
        Pending::LongPause => Pending::LongPause,
        Pending::Finished(reply) => Pending::Finished(dialog::answer(reply)),
    }
}

/// An event, as values.
pub open spec fn shown_event(e: Event<Vec<u8>, String>) -> Event<Seq<u8>, Seq<char>> {
    match e {
        Event::Frame(bytes) => Event::Frame(bytes@),
        Event::Silence => Event::Silence,
        Event::Written => Event::Written,
        Event::WriteFailed(words) => Event::WriteFailed(words@),
        Event::Elapsed(nanos) => Event::Elapsed(nanos),
        Event::Paused => Event::Paused,
    }
}

impl View for Exchange {
    type V = State;

    open spec fn view(&self) -> State {
        State {
            path: self.path@,
            from: self.from,
            packet: self.packet@,
            timeout_ms: self.timeout_ms,
            tries_left: self.tries_left,
            last_error: self.last_error,
            pending: shown_pending(self.pending),
        }
    }
}

/// The message of a request that no reply came to.
pub open spec fn no_response(from: Address, last_error: Option<u8>) -> Seq<char> {
    "no response feat=0x"@ + text::hex_text(from.feature) + " fn="@ + text::decimal_text(from.function as nat)
        + " (last error="@ + text::spec_option_text(last_error) + ")"@
}

/// The message of a packet that could not be written.
pub open spec fn write_failure(path: Seq<char>, words: Seq<char>) -> Seq<char> {
    "write "@ + path + ": "@ + words
}

impl State {
    /// The exchange at the start of a try; over, where no try is left.
    pub open spec fn at_try(self) -> State {
        State {
            pending: if self.tries_left == 0 {
                Pending::Finished(Err(no_response(self.from, self.last_error)))
            } else {
                Pending::Drain(0)
            },
            ..self
        }
    }

    /// The exchange waiting for `pending`.
    pub open spec fn waiting(self, pending: Pending<Answer>) -> State {
        State { pending, ..self }
    }

    /// What a frame that was read makes of the exchange.
    pub open spec fn after_frame(self, bytes: Seq<u8>) -> State {
        match frame::spec_judge(bytes, self.from) {
            Verdict::Body(body) => self.waiting(Pending::Finished(Ok(body))),
            Verdict::Fault(code) => State {
                last_error: Some(code),
                pending: Pending::LongPause,
                ..self
            },
            Verdict::Stray => self.waiting(Pending::Clock),
            Verdict::Noise => self.waiting(Pending::ShortPause),
        }
    }

    /// What an event makes of the exchange. An event that is no outcome of the
    /// action in hand changes nothing.
    pub open spec fn next(self, event: Event<Seq<u8>, Seq<char>>) -> State {
        match (self.pending, event) {
            (Pending::Drain(reads), Event::Frame(bytes)) => if bytes.len() > 0 && reads + 1
                < DRAIN_LIMIT {
                self.waiting(Pending::Drain((reads + 1) as u8))
            } else {
                self.waiting(Pending::Write)
            },
            (Pending::Drain(_), Event::Silence) => self.waiting(Pending::Write),
            (Pending::Write, Event::Written) => self.waiting(Pending::Clock),
            (Pending::Write, Event::WriteFailed(words)) => self.waiting(
                Pending::Finished(Err(write_failure(self.path, words))),
            ),
            (Pending::Clock, Event::Elapsed(nanos)) => if nanos < self.timeout_ms * NANOS_PER_MS {
                self.waiting(Pending::Read)
            } else {
                self.waiting(Pending::LongPause)
            },
            (Pending::Read, Event::Frame(bytes)) => self.after_frame(bytes),
            (Pending::Read, Event::Silence) => self.waiting(Pending::ShortPause),
            (Pending::ShortPause, Event::Paused) => self.waiting(Pending::Clock),
            (Pending::LongPause, Event::Paused) => State {
                tries_left: (self.tries_left - 1) as u8,
                ..self
            }.at_try(),
            _ => self,
        }
    }

    /// What a run of events makes of the exchange.
    pub open spec fn after(self, events: Seq<Event<Seq<u8>, Seq<char>>>) -> State
        decreases events.len(),
    {
        if events.len() == 0 {
            self
        } else {
            self.after(events.drop_last()).next(events.last())
        }
    }

    /// A try is in hand, or the exchange is over.
    pub open spec fn wf(self) -> bool {
        self.pending is Finished || self.tries_left > 0
    }
}

/// The message of a request that no reply came to.
fn no_response_text(from: Address, last_error: Option<u8>) -> (s: String)
    ensures
        s@ == no_response(from, last_error),
{
    let mut s: String = "no response feat=0x".to_owned();
    s.append(byte_hex(from.feature).as_str());
    s.append(" fn=");
    s.append(byte_decimal(from.function).as_str());
    s.append(" (last error=");
    s.append(option_text(last_error).as_str());
    s.append(")");
    s
}

impl Exchange {
    /// Starts an exchange that sends `packet` up to `tries` times.
    pub fn start(path: String, from: Address, packet: Vec<u8>, tries: u8, timeout_ms: u64) -> (x:
        Exchange)
        ensures
            x@ == (State {
                path: path@,
                from,
                packet: packet@,
                timeout_ms,
                tries_left: tries,
                last_error: None,
                pending: Pending::Write,
            }).at_try(),
            x@.wf(),
    {
        let mut x = Exchange {
            path,
            from,
            packet,
            timeout_ms,
            tries_left: tries,
            last_error: None,
            pending: Pending::Write,
        };
        x.begin_try();
        x
    }

    /// Starts a try, or gives up where none is left.
    fn begin_try(&mut self)
        ensures
            final(self)@ == old(self)@.at_try(),
    {
        if self.tries_left == 0 {
            self.pending = Pending::Finished(Err(no_response_text(self.from, self.last_error)));
        } else {
            self.pending = Pending::Drain(0);
        }
    }

    /// Takes in a frame that was read while a reply is due.
    fn take_frame(&mut self, frame: &Vec<u8>)
        ensures
            final(self)@ == old(self)@.after_frame(frame@),
    {
        match judge(frame, self.from) {
            Verdict::Body(body) => {
                self.pending = Pending::Finished(Ok(body));
            },
            Verdict::Fault(code) => {
                self.last_error = Some(code);
                self.pending = Pending::LongPause;
            },
            Verdict::Stray => {
                self.pending = Pending::Clock;
            },
            Verdict::Noise => {
                self.pending = Pending::ShortPause;
            },
        }
    }

    /// Takes in what came of the action in hand, and settles on the next one.
    pub fn step(&mut self, event: Event<Vec<u8>, String>)
        requires
            old(self)@.wf(),
        ensures
            final(self)@ == old(self)@.next(shown_event(event)),
            final(self)@.wf(),
    {
        match (&self.pending, event) {
            (Pending::Drain(reads), Event::Frame(bytes)) => {
                let reads: u8 = *reads;
                if bytes.len() > 0 && reads < DRAIN_LIMIT - 1 {
                    self.pending = Pending::Drain(reads + 1);
                } else {
                    self.pending = Pending::Write;
                }
            },
            (Pending::Drain(_), Event::Silence) => {
                self.pending = Pending::Write;
            },
            (Pending::Write, Event::Written) => {
                self.pending = Pending::Clock;
            },
            (Pending::Write, Event::WriteFailed(words)) => {
                let mut s: String = "write ".to_owned();
                s.append(self.path.as_str());
                s.append(": ");
                s.append(words.as_str());
                self.pending = Pending::Finished(Err(s));
            },
            (Pending::Clock, Event::Elapsed(nanos)) => {
                assert(self.timeout_ms * NANOS_PER_MS <= u64::MAX * NANOS_PER_MS)
                    by (nonlinear_arith)
                    requires
                        self.timeout_ms <= u64::MAX,
                ;
                if nanos < self.timeout_ms as u128 * NANOS_PER_MS {
                    self.pending = Pending::Read;
                } else {
                    self.pending = Pending::LongPause;
                }
            },
            (Pending::Read, Event::Frame(bytes)) => {
                self.take_frame(&bytes);
            },
            (Pending::Read, Event::Silence) => {
                self.pending = Pending::ShortPause;
            },
            (Pending::ShortPause, Event::Paused) => {
                self.pending = Pending::Clock;
            },
            (Pending::LongPause, Event::Paused) => {
                self.tries_left = self.tries_left - 1;
                self.begin_try();
            },
            _ => {},
        }
    }
}

/// The writes among `events` that the exchange was waiting for.
pub open spec fn writes(s: State, events: Seq<Event<Seq<u8>, Seq<char>>>) -> nat
    decreases events.len(),
{
    if events.len() == 0 {
        0
    } else {
        writes(s, events.drop_last()) + if s.after(events.drop_last()).pending is Write
            && events.last() is Written {
            1nat
        } else {
            0nat
        }
    }
}

/// Event `i` is a frame that was read while a reply was due.
pub open spec fn read_at(
    s: State,
    events: Seq<Event<Seq<u8>, Seq<char>>>,
    i: int,
    bytes: Seq<u8>,
) -> bool {
    &&& 0 <= i < events.len()
    &&& s.after(events.take(i)).pending is Read
    &&& events[i] == Event::<Seq<u8>, Seq<char>>::Frame(bytes)
}

/// Event `i` is the failure, with these words, of a write that was due.
pub open spec fn write_failed_at(
    s: State,
    events: Seq<Event<Seq<u8>, Seq<char>>>,
    i: int,
    words: Seq<char>,
) -> bool {
    &&& 0 <= i < events.len()
    &&& s.after(events.take(i)).pending is Write
    &&& events[i] == Event::<Seq<u8>, Seq<char>>::WriteFailed(words)
}

/// The packet, its address and its time stay what they were, whatever happens.
pub proof fn law_request_is_fixed(s: State, events: Seq<Event<Seq<u8>, Seq<char>>>)
    ensures
        s.after(events).path == s.path,
        s.after(events).from == s.from,
        s.after(events).packet == s.packet,
        s.after(events).timeout_ms == s.timeout_ms,
    decreases events.len(),
{
    if events.len() > 0 {
        law_request_is_fixed(s, events.drop_last());
    }
}

/// An exchange that is over stays as it is.
pub proof fn law_outcome_is_final(s: State, events: Seq<Event<Seq<u8>, Seq<char>>>)
    requires
        s.pending is Finished,
    ensures
        s.after(events) == s,
    decreases events.len(),
{
    if events.len() > 0 {
        law_outcome_is_final(s, events.drop_last());
    }
}

/// A try in hand is a try that was allowed: the tries left never grow, and an
/// exchange that is not over has one.
pub proof fn law_tries_run_out(s: State, events: Seq<Event<Seq<u8>, Seq<char>>>)
    requires
        s.wf(),
    ensures
        s.after(events).wf(),
        s.after(events).tries_left <= s.tries_left,
    decreases events.len(),
{
    if events.len() > 0 {
        law_tries_run_out(s, events.drop_last());
    }
}

/// A packet is written at most once for each try.
pub proof fn law_one_write_per_try(s: State, events: Seq<Event<Seq<u8>, Seq<char>>>)
    requires
        s.wf(),
        s == s.at_try(),
    ensures
        writes(s, events) <= s.tries_left,
{
    lemma_writes(s, events);
}

/// Where no write fails, an exchange fails only after every allowed try has
/// written its packet, and the message tells the latest error code.
pub proof fn law_failure_uses_every_try(
    s: State,
    events: Seq<Event<Seq<u8>, Seq<char>>>,
    message: Seq<char>,
)
    requires
        s.wf(),
        s == s.at_try(),
        forall|i: int| 0 <= i < events.len() ==> !(#[trigger] events[i] is WriteFailed),
        s.after(events).pending == Pending::<Answer>::Finished(Err(message)),
    ensures
        writes(s, events) == s.tries_left,
        message == no_response(s.from, s.after(events).last_error),
    decreases events.len(),
{
    if events.len() > 0 {
        let rest = events.drop_last();
        assert forall|i: int| 0 <= i < rest.len() implies !(#[trigger] rest[i] is WriteFailed) by {
            assert(rest[i] == events[i]);
        }
        assert(events.last() == events[events.len() - 1]);
        lemma_writes(s, rest);
        law_request_is_fixed(s, rest);
        if s.after(rest).pending is Finished {
            law_failure_uses_every_try(s, rest, message);
        }
    }
}

/// How many writes there were by now, by what the exchange waits for.
proof fn lemma_writes(s: State, events: Seq<Event<Seq<u8>, Seq<char>>>)
    requires
        s.wf(),
        s == s.at_try(),
    ensures
        ({
            let t = s.after(events);
            let w = writes(s, events);
            &&& t.wf()
            &&& w <= s.tries_left
            &&& (t.pending is Drain || t.pending is Write) ==> w == s.tries_left - t.tries_left
            &&& (t.pending is Clock || t.pending is Read || t.pending is ShortPause
                || t.pending is LongPause) ==> w == s.tries_left - t.tries_left + 1
        }),
    decreases events.len(),
{
    if events.len() > 0 {
        lemma_writes(s, events.drop_last());
    }
}

/// A reply is the body of a frame that was read while it was due, and that
/// frame was the answer to this request.
pub proof fn law_reply_was_read(
    s: State,
    events: Seq<Event<Seq<u8>, Seq<char>>>,
    body: Seq<u8>,
) -> (r: (int, Seq<u8>))
    requires
        !(s.pending is Finished),
        s.after(events).pending == Pending::<Answer>::Finished(Ok(body)),
    ensures
        read_at(s, events, r.0, r.1),
        frame::spec_judge(r.1, s.from) == Verdict::Body(body),
    decreases events.len(),
{
    let rest = events.drop_last();
    let n = rest.len() as int;
    law_request_is_fixed(s, rest);
    assert(events.take(n) == rest);
    if s.after(rest).pending is Finished {
        let found = law_reply_was_read(s, rest, body);
        assert(events.take(found.0) == rest.take(found.0));
        found
    } else {
        let bytes = events.last()->Frame_0;
        assert(read_at(s, events, n, bytes));
        (n, bytes)
    }
}

/// A code that an exchange holds came in a frame that reported the failure of
/// this very request, and no later frame did.
pub proof fn law_last_error_is_latest(
    s: State,
    events: Seq<Event<Seq<u8>, Seq<char>>>,
) -> (r: (int, Seq<u8>))
    requires
        s.last_error is None,
    ensures
        match s.after(events).last_error {
            Some(code) => {
                &&& read_at(s, events, r.0, r.1)
                &&& frame::spec_judge(r.1, s.from) == Verdict::<Seq<u8>>::Fault(code)
                &&& forall|i: int, bytes: Seq<u8>|
                    i > r.0 && #[trigger] read_at(s, events, i, bytes) ==> !(frame::spec_judge(
                        bytes,
                        s.from,
                    ) is Fault)
            },
            None => forall|i: int, bytes: Seq<u8>| #[trigger]
                read_at(s, events, i, bytes) ==> !(frame::spec_judge(bytes, s.from) is Fault),
        },
    decreases events.len(),
{
    if events.len() == 0 {
        (0, Seq::empty())
    } else {
        let rest = events.drop_last();
        let n = rest.len() as int;
        let found = law_last_error_is_latest(s, rest);
        law_request_is_fixed(s, rest);
        assert(events.take(n) == rest);
        assert forall|i: int, bytes: Seq<u8>| #[trigger] read_at(s, events, i, bytes) implies i == n
            || read_at(s, rest, i, bytes) by {
            if i < n {
                assert(events.take(i) == rest.take(i));
            }
        }
        if s.after(rest).last_error is Some {
            assert(events.take(found.0) == rest.take(found.0));
        }
        match events.last() {
            Event::Frame(bytes) => if s.after(rest).pending is Read && frame::spec_judge(
                bytes,
                s.from,
            ) is Fault {
                assert(read_at(s, events, n, bytes));
                (n, bytes)
            } else {
                found
            },
            _ => found,
        }
    }
}

/// An exchange fails in two ways only: a packet could not be written, or the
/// tries ran out, and then the message tells the latest error code.
pub proof fn law_failures(s: State, events: Seq<Event<Seq<u8>, Seq<char>>>, message: Seq<char>)
    requires
        s.wf(),
        !(s.pending is Finished),
        s.after(events).pending == Pending::<Answer>::Finished(Err(message)),
    ensures
        ({
            ||| s.after(events).tries_left == 0 && message == no_response(
                s.from,
                s.after(events).last_error,
            )
            ||| exists|i: int, words: Seq<char>| #[trigger]
                write_failed_at(s, events, i, words) && message == write_failure(s.path, words)
        }),
    decreases events.len(),
{
    let rest = events.drop_last();
    let n = rest.len() as int;
    law_request_is_fixed(s, rest);
    law_tries_run_out(s, rest);
    assert(events.take(n) =~= rest);
    if s.after(rest).pending is Finished {
        law_failures(s, rest, message);
        if exists|i: int, words: Seq<char>| #[trigger]
            write_failed_at(s, rest, i, words) && message == write_failure(s.path, words) {
            let (i, words) = choose|i: int, words: Seq<char>| #[trigger]
                write_failed_at(s, rest, i, words) && message == write_failure(s.path, words);
            assert(events.take(i) =~= rest.take(i));
            assert(write_failed_at(s, events, i, words));
        }
    } else if s.after(rest).pending is Write {
        assert(write_failed_at(s, events, n, events.last()->WriteFailed_0));
    }
}

/// What happens in one try that brings no reply: the packet goes out, and then
/// either the time runs out or the device reports a failure.
pub open spec fn failed_try(s: State, fault: Option<(u8, u8)>) -> Seq<Event<Seq<u8>, Seq<char>>> {
    match fault {
        None => seq![
            Event::Silence,
            Event::Written,
            Event::Elapsed((s.timeout_ms * NANOS_PER_MS) as u128),
            Event::Paused,
        ],
        Some((marker, code)) => seq![
            Event::Silence,
            Event::Written,
            Event::Elapsed(0),
            Event::Frame(frame::fault_frame(marker, s.from, code)),
            Event::Paused,
        ],
    }
}

/// Several such tries, one after the other.
pub open spec fn failed_tries(s: State, faults: Seq<Option<(u8, u8)>>) -> Seq<
    Event<Seq<u8>, Seq<char>>,
>
    decreases faults.len(),
{
    if faults.len() == 0 {
        Seq::empty()
    } else {
        failed_tries(s, faults.drop_last()) + failed_try(s, faults.last())
    }
}

/// The latest code among `faults`.
pub open spec fn latest(faults: Seq<Option<(u8, u8)>>) -> Option<u8>
    decreases faults.len(),
{
    if faults.len() == 0 {
        None
    } else {
        match faults.last() {
            Some((_, code)) => Some(code),
            None => latest(faults.drop_last()),
        }
    }
}

/// Events in two parts.
pub proof fn lemma_after_concat(
    s: State,
    a: Seq<Event<Seq<u8>, Seq<char>>>,
    b: Seq<Event<Seq<u8>, Seq<char>>>,
)
    ensures
        s.after(a + b) == s.after(a).after(b),
    decreases b.len(),
{
    if b.len() == 0 {
        assert(a + b == a);
    } else {
        assert((a + b).drop_last() == a + b.drop_last());
        lemma_after_concat(s, a, b.drop_last());
    }
}

/// Where every allowed try ends without a reply, the exchange fails with the
/// latest code that the device reported, or with none.
pub proof fn law_unanswered_request_fails(s: State, faults: Seq<Option<(u8, u8)>>)
    requires
        frame::nameable(s.from),
        s.tries_left > 0,
        s.last_error is None,
        s.pending == Pending::<Answer>::Drain(0),
        faults.len() == s.tries_left,
        forall|i: int|
            0 <= i < faults.len() ==> (#[trigger] faults[i] matches Some((marker, _)) ==> (marker
                == 0x8f || marker == 0xff) && s.timeout_ms > 0),
    ensures
        s.after(failed_tries(s, faults)).pending == Pending::<Answer>::Finished(
            Err(no_response(s.from, latest(faults))),
        ),
{
    lemma_failed_tries(s, faults);
}

/// Where an exchange stands after some of its tries failed.
proof fn lemma_failed_tries(s: State, faults: Seq<Option<(u8, u8)>>)
    requires
        frame::nameable(s.from),
        s.last_error is None,
        s.pending == Pending::<Answer>::Drain(0),
        faults.len() <= s.tries_left,
        s.tries_left > 0,
        forall|i: int|
            0 <= i < faults.len() ==> (#[trigger] faults[i] matches Some((marker, _)) ==> (marker
                == 0x8f || marker == 0xff) && s.timeout_ms > 0),
    ensures
        s.after(failed_tries(s, faults)) == (State {
            tries_left: (s.tries_left - faults.len()) as u8,
            last_error: latest(faults),
            ..s
        }).at_try(),
    decreases faults.len(),
{
    if faults.len() > 0 {
        let rest = faults.drop_last();
        lemma_failed_tries(s, rest);
        let before = failed_tries(s, rest);
        let events = failed_try(s, faults.last());
        lemma_after_concat(s, before, events);
        lemma_failed_try(s.after(before), faults.last());
        assert(faults[faults.len() - 1] == faults.last());
    }
}

/// Where one failed try leads.
proof fn lemma_failed_try(t: State, fault: Option<(u8, u8)>)
    requires
        frame::nameable(t.from),
        t.tries_left > 0,
        t.pending == Pending::<Answer>::Drain(0),
        fault matches Some((marker, _)) ==> (marker == 0x8f || marker == 0xff) && t.timeout_ms > 0,
    ensures
        t.after(failed_try(t, fault)) == (State {
            tries_left: (t.tries_left - 1) as u8,
            last_error: match fault {
                Some((_, code)) => Some(code),
                None => t.last_error,
            },
            ..t
        }).at_try(),
{
    let events = failed_try(t, fault);
    assert(t.timeout_ms * NANOS_PER_MS <= u64::MAX * NANOS_PER_MS) by (nonlinear_arith)
        requires
            t.timeout_ms <= u64::MAX,
    ;
    assert(t.timeout_ms > 0 ==> 0 < t.timeout_ms * NANOS_PER_MS) by (nonlinear_arith);
    let written = t.waiting(Pending::Clock);
    lemma_after_two(t, events[0], events[1]);
    let opening = seq![events[0], events[1]];
    match fault {
        None => {
            assert(events =~= opening + seq![events[2], events[3]]);
            lemma_after_concat(t, opening, seq![events[2], events[3]]);
            lemma_after_two(written, events[2], events[3]);
        },
        Some((marker, code)) => {
            frame::law_fault_is_reported(marker, t.from, code);
            let middle = seq![events[2], events[3]];
            assert(events =~= (opening + middle).push(events[4]));
            assert(events.drop_last() =~= opening + middle);
            lemma_after_concat(t, opening, middle);
            lemma_after_two(written, events[2], events[3]);
        },
    }
}

/// Two events, one after the other.
proof fn lemma_after_two(
    s: State,
    first: Event<Seq<u8>, Seq<char>>,
    second: Event<Seq<u8>, Seq<char>>,
)
    ensures
        s.after(seq![first, second]) == s.next(first).next(second),
{
    reveal_with_fuel(State::after, 3);
    assert(seq![first, second].drop_last() =~= seq![first]);
    assert(seq![first].drop_last() =~= Seq::empty());
}

/// Once the node is clear, a device that replies in time gets its body
/// through: the exchange is over with that body.
pub proof fn law_prompt_reply_is_the_outcome(s: State, nanos: u128, body: Seq<u8>)
    requires
        frame::proper(s.from),
        s.pending == Pending::<Answer>::Write,
        nanos < s.timeout_ms * NANOS_PER_MS,
    ensures
        s.after(
            seq![
                Event::Written,
                Event::Elapsed(nanos),
                Event::Frame(frame::reply_frame(s.from, body)),
            ],
        ).pending == Pending::<Answer>::Finished(Ok(body)),
{
    frame::law_reply_is_accepted(s.from, body);
    let written: Event<Seq<u8>, Seq<char>> = Event::Written;
    let reply: Event<Seq<u8>, Seq<char>> = Event::Frame(frame::reply_frame(s.from, body));
    let events = seq![written, Event::Elapsed(nanos), reply];
    assert(events.drop_last() =~= seq![written, Event::Elapsed(nanos)]);
    lemma_after_two(s, written, Event::Elapsed(nanos));
}

/// What came of one more read that brought no outcome, and how long ago the
/// packet was written by the time of the next: `None` stands for a read that
/// failed.
pub type Idle = (Option<Seq<u8>>, u128);

/// One such read: a pause follows it, but for a report on the failure of some
/// other request, and then the clock is read.
pub open spec fn idle_turn(idle: Idle) -> Seq<Event<Seq<u8>, Seq<char>>> {
    match idle.0 {
        None => seq![Event::Silence, Event::Paused, Event::Elapsed(idle.1)],
        Some(bytes) => if bytes.len() >= 4 && (bytes[2] == 0x8f || bytes[2] == 0xff) {
            seq![Event::Frame(bytes), Event::Elapsed(idle.1)]
        } else {
            seq![Event::Frame(bytes), Event::Paused, Event::Elapsed(idle.1)]
        },
    }
}

/// Several such reads, one after the other.
pub open spec fn idle_turns(idles: Seq<Idle>) -> Seq<Event<Seq<u8>, Seq<char>>>
    decreases idles.len(),
{
    if idles.len() == 0 {
        Seq::empty()
    } else {
        idle_turns(idles.drop_last()) + idle_turn(idles.last())
    }
}

/// A read brought nothing that is about this request: it failed, or its frame
/// is too short, or names another device, feature, function or software id.
pub open spec fn brings_nothing(from: Address, read: Option<Seq<u8>>) -> bool {
    match read {
        None => true,
        Some(b) => if b.len() < 4 {
            true
        } else if b[2] == 0x8f || b[2] == 0xff {
            !(b.len() >= 6 && b[3] == from.feature && b[4] as int / 16 == from.function
                && b[4] as int % 16 == from.swid)
        } else {
            !(b[1] == from.index && b[2] == from.feature && b[3] as int / 16 == from.function
                && b[3] as int % 16 == from.swid)
        },
    }
}

/// Other traffic does not end a try. However many reads bring nothing about
/// this request, as long as its time is not up the exchange stands where it
/// stood, with no try used and no error noted; and the reply that is read after
/// them, under any report id, ends the exchange with its body.
pub proof fn law_other_traffic_does_not_end_a_try(
    s: State,
    idles: Seq<Idle>,
    id: u8,
    body: Seq<u8>,
)
    requires
        s.pending is Read,
        forall|i: int|
            0 <= i < idles.len() ==> brings_nothing(s.from, (#[trigger] idles[i]).0) && idles[i].1
                < s.timeout_ms * 1_000_000,
    ensures
        s.after(idle_turns(idles)) == s,
        s.from.function < 16 && 1 <= s.from.swid <= 15 && s.from.feature != 0x8f && s.from.feature
            != 0xff ==> s.after(
            idle_turns(idles).push(
                Event::Frame(
                    seq![
                        id,
                        s.from.index,
                        s.from.feature,
                        (16 * s.from.function + s.from.swid) as u8,
                    ] + body,
                ),
            ),
        ).pending == Pending::<Answer>::Finished(Ok(body)),
{
    lemma_idle_turns(s, idles);
    let reply = seq![
        id,
        s.from.index,
        s.from.feature,
        (16 * s.from.function + s.from.swid) as u8,
    ] + body;
    let events = idle_turns(idles);
    let last: Event<Seq<u8>, Seq<char>> = Event::Frame(reply);
    assert(events.push(last).drop_last() =~= events);
    if s.from.function < 16 && 1 <= s.from.swid <= 15 && s.from.feature != 0x8f && s.from.feature
        != 0xff {
        frame::law_frames_are_told_apart(reply, s.from);
        assert(frame::spec_judge(reply, s.from)->Body_0 =~= body);
    }
}

proof fn lemma_idle_turns(s: State, idles: Seq<Idle>)
    requires
        s.pending is Read,
        forall|i: int|
            0 <= i < idles.len() ==> brings_nothing(s.from, (#[trigger] idles[i]).0) && idles[i].1
                < s.timeout_ms * 1_000_000,
    ensures
        s.after(idle_turns(idles)) == s,
    decreases idles.len(),
{
    if idles.len() > 0 {
        let rest = idles.drop_last();
        let idle = idles.last();
        assert(idle == idles[idles.len() - 1]);
        assert forall|i: int| 0 <= i < rest.len() implies brings_nothing(
            s.from,
            (#[trigger] rest[i]).0,
        ) && rest[i].1 < s.timeout_ms * 1_000_000 by {
            assert(rest[i] == idles[i]);
        }
        lemma_idle_turns(s, rest);
        lemma_after_concat(s, idle_turns(rest), idle_turn(idle));
        let events = idle_turn(idle);
        if let Some(bytes) = idle.0 {
            frame::law_frames_are_told_apart(bytes, s.from);
        }
        if events.len() == 2 {
            lemma_after_two(s, events[0], events[1]);
            assert(events =~= seq![events[0], events[1]]);
        } else {
            assert(events.drop_last() =~= seq![events[0], events[1]]);
            lemma_after_two(s, events[0], events[1]);
        }
    }
}

/// A try ends without a reply for two reasons only: its time is up, or a frame
/// reports that this very request failed. A try is used up by the long pause
/// alone, one at a time, and the next one begins by clearing the node. An error
/// is noted only from such a report.
pub proof fn law_what_ends_a_try(s: State, event: Event<Seq<u8>, Seq<char>>)
    requires
        s.wf(),
    ensures
        ({
            let t = s.next(event);
            let failed = s.pending is Read && (event matches Event::Frame(b) && b.len() >= 6 && (
            b[2] == 0x8f || b[2] == 0xff) && b[3] == s.from.feature && b[4] as int / 16
                == s.from.function && b[4] as int % 16 == s.from.swid);
            let late = s.pending is Clock && (event matches Event::Elapsed(n) && n >= s.timeout_ms
                * 1_000_000);
            &&& !(s.pending is LongPause) ==> (t.pending is LongPause <==> failed || late)
            &&& failed ==> t.last_error == Some(event->Frame_0[5])
            &&& !failed ==> t.last_error == s.last_error
            &&& s.pending is LongPause && event is Paused ==> t.tries_left == s.tries_left - 1 && (
            t.tries_left > 0 ==> t.pending == Pending::<Answer>::Drain(0)) && (t.tries_left == 0
                ==> t.pending is Finished)
            &&& !(s.pending is LongPause && event is Paused) ==> t.tries_left == s.tries_left
        }),
{
    if let Event::Frame(b) = event {
        frame::law_frames_are_told_apart(b, s.from);
    }
}

/// The order of things within a try. Writing comes after clearing, and the
/// clock after writing. Nothing is read once the time is up, and something is
/// read while it is not. A read that brings nothing is followed by a pause of 4
/// milliseconds, a report on some other request by none, a try that failed by a
/// pause of 15; and the clock comes before the next read.
pub proof fn law_order_within_a_try(s: State, bytes: Seq<u8>, nanos: u128)
    ensures
        s.pending is Write ==> s.next(Event::Written).pending is Clock,
        s.pending is Clock ==> (s.next(Event::Elapsed(nanos)).pending is Read <==> nanos
            < s.timeout_ms * 1_000_000),
        s.pending is Read ==> s.next(Event::Silence).pending is ShortPause,
        s.pending is Read && brings_nothing(s.from, Some(bytes)) ==> (if bytes.len() >= 4 && (
        bytes[2] == 0x8f || bytes[2] == 0xff) {
            s.next(Event::Frame(bytes)).pending is Clock
        } else {
            s.next(Event::Frame(bytes)).pending is ShortPause
        }),
        s.pending is ShortPause ==> s.next(Event::Paused).pending is Clock,
        SHORT_PAUSE_MS == 4,
        LONG_PAUSE_MS == 15,
{
    frame::law_frames_are_told_apart(bytes, s.from);
}

/// Clearing the node drops what is read, whatever it is, and ends with a read
/// that fails or brings nothing, or after 32 reads.
pub proof fn law_node_is_cleared(s: State, frames: Seq<Seq<u8>>)
    requires
        s.pending == Pending::<Answer>::Drain(0),
        frames.len() <= 32,
        forall|i: int| 0 <= i < frames.len() ==> (#[trigger] frames[i]).len() > 0,
    ensures
        ({
            let events = frames.map_values(
                |b: Seq<u8>| Event::<Seq<u8>, Seq<char>>::Frame(b),
            );
            let t = s.after(events);
            &&& frames.len() < 32 ==> t == s.waiting(Pending::Drain(frames.len() as u8))
                && t.next(Event::Silence) == s.waiting(Pending::Write) && t.next(
                Event::Frame(Seq::empty()),
            ) == s.waiting(Pending::Write)
            &&& frames.len() == 32 ==> t == s.waiting(Pending::Write)
        }),
    decreases frames.len(),
{
    let show = |b: Seq<u8>| Event::<Seq<u8>, Seq<char>>::Frame(b);
    if frames.len() > 0 {
        let rest = frames.drop_last();
        assert forall|i: int| 0 <= i < rest.len() implies (#[trigger] rest[i]).len() > 0 by {
            assert(rest[i] == frames[i]);
        }
        law_node_is_cleared(s, rest);
        assert(frames.map_values(show).drop_last() =~= rest.map_values(show));
        assert(frames[frames.len() - 1].len() > 0);
    }
}

/// A request gets through in any of its tries: after fewer failed tries than
/// are allowed, a device that replies in time, among other traffic, gets its
/// body through.
pub proof fn law_reply_in_a_later_try(
    s: State,
    faults: Seq<Option<(u8, u8)>>,
    nanos: u128,
    idles: Seq<Idle>,
    id: u8,
    body: Seq<u8>,
)
    requires
        frame::proper(s.from),
        s.last_error is None,
        s.pending == Pending::<Answer>::Drain(0),
        faults.len() < s.tries_left,
        forall|i: int|
            0 <= i < faults.len() ==> (#[trigger] faults[i] matches Some((marker, _)) ==> (marker
                == 0x8f || marker == 0xff)),
        nanos < s.timeout_ms * 1_000_000,
        forall|i: int|
            0 <= i < idles.len() ==> brings_nothing(s.from, (#[trigger] idles[i]).0) && idles[i].1
                < s.timeout_ms * 1_000_000,
    ensures
        ({
            let opening: Seq<Event<Seq<u8>, Seq<char>>> = seq![
                Event::Silence,
                Event::Written,
                Event::Elapsed(nanos),
            ];
            let reply: Event<Seq<u8>, Seq<char>> = Event::Frame(
                seq![
                    id,
                    s.from.index,
                    s.from.feature,
                    (16 * s.from.function + s.from.swid) as u8,
                ] + body,
            );
            s.after(failed_tries(s, faults) + (opening + idle_turns(idles).push(reply))).pending
                == Pending::<Answer>::Finished(Ok(body))
        }),
{
    assert(s.timeout_ms > 0) by (nonlinear_arith)
        requires
            nanos < s.timeout_ms * 1_000_000,
            nanos >= 0,
    ;
    let first: Event<Seq<u8>, Seq<char>> = Event::Silence;
    let second: Event<Seq<u8>, Seq<char>> = Event::Written;
    let third: Event<Seq<u8>, Seq<char>> = Event::Elapsed(nanos);
    let opening = seq![first, second, third];
    let reply: Event<Seq<u8>, Seq<char>> = Event::Frame(
        seq![
            id,
            s.from.index,
            s.from.feature,
            (16 * s.from.function + s.from.swid) as u8,
        ] + body,
    );
    lemma_failed_tries(s, faults);
    let t = s.after(failed_tries(s, faults));
    lemma_after_concat(s, failed_tries(s, faults), opening + idle_turns(idles).push(reply));
    lemma_after_concat(t, opening, idle_turns(idles).push(reply));
    lemma_after_two(t, first, second);
    assert(opening.drop_last() =~= seq![first, second]);
    let u = t.after(opening);
    law_other_traffic_does_not_end_a_try(u, idles, id, body);
}

/// The message of a request without a reply tells its feature in two
/// hexadecimal digits, its function in decimal, and the latest error code in
/// decimal, or that there is none.
pub proof fn law_no_response_tells_the_request(from: Address, last_error: Option<u8>)
    ensures
        exists|feature: Seq<char>, function: Seq<char>, error: Seq<char>|
            {
                &&& no_response(from, last_error) == #[trigger] told(feature, function, error)
                &&& feature.len() == 2
                &&& text::is_plain_hex(feature)
                &&& text::hex_value(feature) == Some(from.feature as nat)
                &&& text::is_plain_decimal(function)
                &&& text::decimal_value(function) == Some(from.function as nat)
                &&& text::tells_option(error, last_error)
            },
{
    text::law_byte_is_told_in_hexadecimal(from.feature);
    text::law_number_is_told_in_decimal(from.function as nat);
    text::law_option_is_told(last_error);
    assert(no_response(from, last_error) =~= told(
        text::hex_text(from.feature),
        text::decimal_text(from.function as nat),
        text::spec_option_text(last_error),
    ));
}

/// The words of that message around what it tells.
pub open spec fn told(feature: Seq<char>, function: Seq<char>, error: Seq<char>) -> Seq<char> {
    "no response feat=0x"@ + feature + " fn="@ + function + " (last error="@ + error + ")"@
}

/// The message of a failed write names the path and then the system's words.
pub proof fn law_write_failure_tells_the_path(path: Seq<char>, words: Seq<char>)
    ensures
        write_failure(path, words) == "write "@ + path + ": "@ + words,
{
}

/// An event is an outcome of the action in hand.
pub open spec fn is_outcome(pending: Pending<Answer>, event: Event<Seq<u8>, Seq<char>>) -> bool {
    match event {
        Event::Frame(_) | Event::Silence => pending is Drain || pending is Read,
        Event::Written | Event::WriteFailed(_) => pending is Write,
        Event::Elapsed(_) => pending is Clock,
        Event::Paused => pending is ShortPause || pending is LongPause,
    }
}

/// Events out of turn change nothing.
pub proof fn law_events_out_of_turn(s: State, event: Event<Seq<u8>, Seq<char>>)
    requires
        !is_outcome(s.pending, event),
    ensures
        s.next(event) == s,
{
}

/// A failed write ends the exchange at once, in whichever try it comes.
pub proof fn law_failed_write_ends_it(s: State, words: Seq<char>)
    requires
        s.pending is Write,
    ensures
        s.next(Event::WriteFailed(words)).pending == Pending::<Answer>::Finished(
            Err("write "@ + s.path + ": "@ + words),
        ),
{
}

/// An exchange is what its fields hold, and an event what it brings: nothing is
/// added or left out where contracts speak of them.
pub proof fn law_exchange_is_what_it_holds(x: Exchange, bytes: Vec<u8>, words: String, nanos: u128)
    ensures
        x@.path == x.path@,
        x@.from == x.from,
        x@.packet == x.packet@,
        x@.timeout_ms == x.timeout_ms,
        x@.tries_left == x.tries_left,
        x@.last_error == x.last_error,
        match x.pending {
            Pending::Drain(reads) => x@.pending == Pending::<Answer>::Drain(reads),
            Pending::Write => x@.pending is Write,
            Pending::Clock => x@.pending is Clock,
            Pending::Read => x@.pending is Read,
            Pending::ShortPause => x@.pending is ShortPause,
            Pending::LongPause => x@.pending is LongPause,
            Pending::Finished(Ok(body)) => x@.pending == Pending::<Answer>::Finished(Ok(body@)),
            Pending::Finished(Err(message)) => x@.pending == Pending::<Answer>::Finished(
                Err(message@),
            ),
        },
        shown_event(Event::Frame(bytes)) == Event::<Seq<u8>, Seq<char>>::Frame(bytes@),
        shown_event(Event::WriteFailed(words)) == Event::<Seq<u8>, Seq<char>>::WriteFailed(words@),
        shown_event(Event::Elapsed(nanos)) == Event::<Seq<u8>, Seq<char>>::Elapsed(nanos),
        shown_event(Event::Silence) is Silence,
        shown_event(Event::Written) is Written,
        shown_event(Event::Paused) is Paused,
{
}

} // verus!
