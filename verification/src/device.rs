//! A device behind a hidraw node: where it is, and which software id it used
//! last.
use vstd::prelude::*;

use crate::dialog::{Answer, Call, Request, PROBE_TIMEOUT_MS, PROBE_TRIES};
use crate::exchange;
use crate::exchange::{Event, Exchange, Pending, State, NANOS_PER_MS};
use crate::frame;
use crate::frame::{next_swid, packet, Address, SWID_MAX, SWID_MIN};

verus! {

/// The device index that a node is opened with.
pub const FIRST_INDEX: u8 = 1;

/// The byte that a ping carries.
pub const PING_BYTE: u8 = 0x5a;

/// A device that requests can be sent to.
pub struct Device {
    path: String,
    index: u8,
    swid: u8,
}

/// What is known of a [`Device`], as values.
pub struct Place {
    pub path: Seq<char>,
    pub index: u8,
    pub swid: u8,
}

impl View for Device {
    type V = Place;

    closed spec fn view(&self) -> Place {
        Place { path: self.path@, index: self.index, swid: self.swid }
    }
}

/// The message of a node that could not be opened.
pub open spec fn spec_open_failure(path: Seq<char>, words: Seq<char>) -> Seq<char> {
    "open "@ + path + ": "@ + words
}

/// The address of a request that goes out next to this place.
pub open spec fn next_address(place: Place, call: Call) -> Address {
    Address {
        index: place.index,
        feature: call.feature,
        function: call.function,
        swid: frame::spec_next_swid(place.swid),
    }
}

/// The place after one more request.
pub open spec fn moved_on(place: Place) -> Place {
    Place { swid: frame::spec_next_swid(place.swid), ..place }
}

/// The exchange that sends `call` to this place.
pub open spec fn opening(place: Place, call: Call) -> State {
    State {
        path: place.path,
        from: next_address(place, call),
        packet: frame::spec_packet(next_address(place, call), call.params),
        timeout_ms: call.timeout_ms,
        tries_left: call.tries,
        last_error: None,
        pending: Pending::Write,
    }.at_try()
}

/// What a ping asks for.
pub open spec fn ping_call() -> Call {
    Call {
        feature: 0,
        function: 1,
        params: seq![0u8, 0u8, PING_BYTE],
        tries: PROBE_TRIES,
        timeout_ms: PROBE_TIMEOUT_MS,
    }
}

/// The message of a node that could not be opened, with the system's words.
pub fn open_failure(path: &str, words: &str) -> (s: String)
    ensures
        s@ == spec_open_failure(path@, words@),
{
    let mut s: String = "open ".to_owned();
    s.append(path);
    s.append(": ");
    s.append(words);
    s
}

/// The request that a ping sends.
pub fn ping_request() -> (r: Request)
    ensures
        r@ == ping_call(),
{
    let params: Vec<u8> = vec![0u8, 0u8, PING_BYTE];
    assert(params@ == seq![0u8, 0u8, PING_BYTE]);
    Request {
        feature: 0,
        function: 1,
        params,
        tries: PROBE_TRIES,
        timeout_ms: PROBE_TIMEOUT_MS,
    }
}

impl Device {
    #[verifier::type_invariant]
    spec fn id_in_use(self) -> bool {
        SWID_MIN <= self.swid <= SWID_MAX
    }

    /// The device behind the node at `path`, as it stands when the node has
    /// just been opened.
    pub fn new(path: String) -> (d: Device)
        ensures
            d@ == (Place { path: path@, index: FIRST_INDEX, swid: SWID_MIN }),
    {
        Device { path, index: FIRST_INDEX, swid: SWID_MIN }
    }

    /// The device index that requests go to.
    pub fn index(&self) -> (index: u8)
        ensures
            index == self@.index,
    {
        self.index
    }

    /// The software id of the latest request.
    pub fn swid(&self) -> (swid: u8)
        ensures
            swid == self@.swid,
            SWID_MIN <= swid <= SWID_MAX,
    {
        proof {
            use_type_invariant(self);
        }
        self.swid
    }

    /// Takes the next software id and starts the exchange that sends `request`
    /// with it.
    pub fn request(&mut self, request: &Request) -> (x: Exchange)
        ensures
            final(self)@ == moved_on(old(self)@),
            x@ == opening(old(self)@, request@),
            x@.wf(),
    {
        proof {
            use_type_invariant(&*self);
        }
        self.swid = next_swid(self.swid);
        let to = Address {
            index: self.index,
            feature: request.feature,
            function: request.function,
            swid: self.swid,
        };
        Exchange::start(
            self.path.clone(),
            to,
            packet(to, &request.params),
            request.tries,
            request.timeout_ms,
        )
    }

    /// Turns to the device with this index and starts a ping of it. The result
    /// holds the index that requests went to before.
    pub fn ping(&mut self, index: u8) -> (started: (u8, Exchange))
        ensures
            started.0 == old(self)@.index,
            final(self)@ == moved_on(Place { index, ..old(self)@ }),
            started.1@ == opening(Place { index, ..old(self)@ }, ping_call()),
            started.1@.wf(),
    {
        proof {
            use_type_invariant(&*self);
        }
        let previous: u8 = self.index;
        self.index = index;
        let x = self.request(&ping_request());
        (previous, x)
    }

    /// Ends a ping: without a reply, requests go to the previous index again.
    pub fn end_ping(&mut self, previous: u8, replied: bool) -> (found: bool)
        ensures
            found == replied,
            replied ==> final(self)@ == old(self)@,
            !replied ==> final(self)@ == (Place { index: previous, ..old(self)@ }),
    {
        proof {
            use_type_invariant(&*self);
        }
        if !replied {
            self.index = previous;
        }
        replied
    }
}

/// The place after `n` more requests.
pub open spec fn after_requests(place: Place, n: nat) -> Place
    decreases n,
{
    if n == 0 {
        place
    } else {
        moved_on(after_requests(place, (n - 1) as nat))
    }
}

/// Requests take the software ids in turn and leave the rest of the place as
/// it is; so two of them carry the same id only where a multiple of fifteen
/// lies between them.
pub proof fn law_requests_take_ids_in_turn(place: Place, n: nat)
    requires
        SWID_MIN <= place.swid <= SWID_MAX,
    ensures
        after_requests(place, n).path == place.path,
        after_requests(place, n).index == place.index,
        after_requests(place, n).swid == frame::swid_after(place.swid, n),
        after_requests(place, n).swid == place.swid <==> n % 15 == 0,
    decreases n,
{
    if n > 0 {
        law_requests_take_ids_in_turn(place, (n - 1) as nat);
    }
    frame::law_swid_cycle(place.swid, n);
}

/// A request that the device replies to in time comes back with the body of
/// that reply.
pub proof fn law_request_is_answered(place: Place, call: Call, nanos: u128, body: Seq<u8>)
    requires
        frame::proper(next_address(place, call)),
        call.tries > 0,
        nanos < call.timeout_ms * NANOS_PER_MS,
    ensures
        opening(place, call).after(
            seq![
                Event::Silence,
                Event::Written,
                Event::Elapsed(nanos),
                Event::Frame(frame::reply_frame(next_address(place, call), body)),
            ],
        ).pending == Pending::<Answer>::Finished(Ok(body)),
{
    let s = opening(place, call);
    let clear: Seq<Event<Seq<u8>, Seq<char>>> = seq![Event::Silence];
    let rest: Seq<Event<Seq<u8>, Seq<char>>> = seq![
        Event::Written,
        Event::Elapsed(nanos),
        Event::Frame(frame::reply_frame(s.from, body)),
    ];
    assert(clear.drop_last() =~= Seq::empty());
    assert(s.after(clear.drop_last()) == s);
    assert(s.after(clear) == s.waiting(Pending::Write));
    exchange::law_prompt_reply_is_the_outcome(s.after(clear), nanos, body);
    exchange::lemma_after_concat(s, clear, rest);
    assert(clear + rest =~= seq![
        Event::Silence,
        Event::Written,
        Event::Elapsed(nanos),
        Event::Frame(frame::reply_frame(next_address(place, call), body)),
    ]);
}

/// A ping that is not replied to costs a software id and changes nothing else.
pub proof fn law_failed_ping_leaves_the_place(place: Place, index: u8)
    ensures
        (Place { index: place.index, ..moved_on(Place { index, ..place }) }) == moved_on(place),
{
}

/// What goes out for a request: its packet names the device that requests go
/// to, the feature, the function and the next software id, and carries the
/// parameters; it has the tries and the time of the request; and what comes back
/// under the same names is what it waits for.
pub proof fn law_request_goes_out_as_asked(place: Place, call: Call)
    requires
        SWID_MIN <= place.swid <= SWID_MAX,
    ensures
        ({
            let s = opening(place, call);
            let id = if place.swid == 15 {
                1
            } else {
                place.swid + 1
            };
            &&& s.path == place.path
            &&& s.packet.len() == 20
            &&& s.packet[0] == 0x11
            &&& s.packet[1] == place.index
            &&& s.packet[2] == call.feature
            &&& s.packet[3] as int / 16 == call.function as int % 16
            &&& s.packet[3] as int % 16 == id
            &&& forall|i: int|
                0 <= i < 16 ==> #[trigger] s.packet[4 + i] == (if i < call.params.len() {
                    call.params[i]
                } else {
                    0
                })
            &&& s.from.index == place.index
            &&& s.from.feature == call.feature
            &&& s.from.function == call.function
            &&& s.from.swid == id
            &&& s.tries_left == call.tries
            &&& s.timeout_ms == call.timeout_ms
            &&& s.last_error is None
            &&& call.tries > 0 ==> s.pending == Pending::<Answer>::Drain(0)
            &&& moved_on(place) == (Place { swid: id as u8, ..place })
        }),
{
    frame::law_packet_carries_the_request(next_address(place, call), call.params);
}

/// A ping asks function 1 of feature 0 to echo a byte, twice at most, and waits
/// 150 milliseconds each time.
pub proof fn law_ping_is_short_and_quick()
    ensures
        ping_call() == (Call {
            feature: 0,
            function: 1,
            params: seq![0u8, 0u8, 0x5au8],
            tries: 2,
            timeout_ms: 150,
        }),
{
}

/// The message of a node that did not open names the path and then the system's
/// words.
pub proof fn law_open_failure_tells_the_path(path: Seq<char>, words: Seq<char>)
    ensures
        spec_open_failure(path, words) == "open "@ + path + ": "@ + words,
{
}

/// The first request to a node that has just been opened goes to the device with
/// index 1 and carries the software id 2.
pub proof fn law_first_request(path: Seq<char>, call: Call)
    ensures
        ({
            let s = opening(Place { path, index: FIRST_INDEX, swid: SWID_MIN }, call);
            &&& s.packet[1] == 1
            &&& s.packet[3] as int % 16 == 2
            &&& s.from.index == 1
            &&& s.from.swid == 2
        }),
{
    law_request_goes_out_as_asked(Place { path, index: FIRST_INDEX, swid: SWID_MIN }, call);
}

/// A ping goes to the index that it is for, whichever one requests went to.
pub proof fn law_ping_goes_to_its_index(place: Place, index: u8)
    requires
        SWID_MIN <= place.swid <= SWID_MAX,
    ensures
        ({
            let s = opening(Place { index, ..place }, ping_call());
            &&& s.packet[1] == index
            &&& s.packet[2] == 0
            &&& s.packet[3] as int / 16 == 1
            &&& s.packet[4] == 0
            &&& s.packet[5] == 0
            &&& s.packet[6] == 0x5a
            &&& s.from.index == index
            &&& s.tries_left == 2
            &&& s.timeout_ms == 150
        }),
{
    law_request_goes_out_as_asked(Place { index, ..place }, ping_call());
    let s = opening(Place { index, ..place }, ping_call());
    assert(s.packet[4] == 0 && s.packet[5] == 0 && s.packet[6] == 0x5a);
}

} // verus!
