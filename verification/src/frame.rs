//! The packets that go to a device and the frames that come back.
use vstd::prelude::*;

verus! {

/// Report id of a long packet.
pub const REPORT_LONG: u8 = 0x11;

/// Length of a long packet.
pub const LONG_LEN: usize = 20;

/// Length of what stands in front of a packet's parameters.
pub const HEADER_LEN: usize = 4;

/// The software ids in use. A device echoes the id of a request in its reply,
/// and every request takes the next one, so that a late reply to an earlier
/// request is not taken for the answer to this one.
pub const SWID_MIN: u8 = 1;

pub const SWID_MAX: u8 = 15;

/// What a frame must carry to be the answer to a request.
#[derive(Clone, Copy)]
pub struct Address {
    pub index: u8,
    pub feature: u8,
    pub function: u8,
    pub swid: u8,
}

/// What one frame is to the request that waits.
pub enum Verdict<B> {
    /// The reply, with its body.
    Body(B),
    /// A report that the request failed, with the error code.
    Fault(u8),
    /// A report on the failure of some other request.
    Stray,
    /// Anything else.
    Noise,
}

/// The software id that follows `swid`.
pub open spec fn spec_next_swid(swid: u8) -> u8 {
    if swid >= SWID_MAX {
        SWID_MIN
    } else {
        (swid + 1) as u8
    }
}

/// The software id `n` requests after the one that carried `swid`.
pub open spec fn swid_after(swid: u8, n: nat) -> u8
    decreases n,
{
    if n == 0 {
        swid
    } else {
        spec_next_swid(swid_after(swid, (n - 1) as nat))
    }
}

/// The byte that names a function and a software id: the low four bits of the
/// function in front of the four bits of the id.
pub open spec fn spec_tag(function: u8, swid: u8) -> u8 {
    (function % 16 * 16 + swid) as u8
}

/// A tag byte names this function and this id.
pub open spec fn names(tag: u8, function: u8, swid: u8) -> bool {
    tag / 16 == function && tag % 16 == swid
}

/// The packet of a request: the header, the first sixteen parameters, and
/// zeros up to the packet's length.
pub open spec fn spec_packet(to: Address, params: Seq<u8>) -> Seq<u8> {
    Seq::new(
        LONG_LEN as nat,
        |i: int|
            if i == 0 {
                REPORT_LONG
            } else if i == 1 {
                to.index
            } else if i == 2 {
                to.feature
            } else if i == 3 {
                spec_tag(to.function, to.swid)
            } else if i - HEADER_LEN < params.len() {
                params[i - HEADER_LEN]
            } else {
                0
            },
    )
}

/// A frame that reports a failure rather than carrying a reply.
pub open spec fn is_fault_report(frame: Seq<u8>) -> bool {
    frame.len() >= 4 && (frame[2] == 0x8f || frame[2] == 0xff)
}

/// What `frame` is to the request that waits for `from`.
pub open spec fn spec_judge(frame: Seq<u8>, from: Address) -> Verdict<Seq<u8>> {
    if is_fault_report(frame) {
        if frame.len() >= 6 && frame[3] == from.feature && names(
            frame[4],
            from.function,
            from.swid,
        ) {
            Verdict::Fault(frame[5])
        } else {
            Verdict::Stray
        }
    } else if frame.len() >= 4 && frame[1] == from.index && frame[2] == from.feature && names(
        frame[3],
        from.function,
        from.swid,
    ) {
        Verdict::Body(frame.skip(HEADER_LEN as int))
    } else {
        Verdict::Noise
    }
}

/// A verdict, as values.
pub open spec fn shown_verdict(v: Verdict<Vec<u8>>) -> Verdict<Seq<u8>> {
    match v {
        Verdict::Body(body) => Verdict::Body(body@),
        Verdict::Fault(code) => Verdict::Fault(code),
        Verdict::Stray => Verdict::Stray,
        Verdict::Noise => Verdict::Noise,
    }
}

/// The software id that follows `swid`.
pub fn next_swid(swid: u8) -> (next: u8)
    ensures
        next == spec_next_swid(swid),
{
    if swid >= SWID_MAX {
        SWID_MIN
    } else {
        swid + 1
    }
}

/// The byte that names a function and a software id.
pub fn tag(function: u8, swid: u8) -> (t: u8)
    requires
        swid < 16,
    ensures
        t == spec_tag(function, swid),
{
    assert((function << 4) | swid == (function % 16) * 16 + swid) by (bit_vector)
        requires
            swid < 16,
    ;
    (function << 4) | swid
}

/// The packet of a request.
pub fn packet(to: Address, params: &Vec<u8>) -> (bytes: Vec<u8>)
    requires
        to.swid < 16,
    ensures
        bytes@ == spec_packet(to, params@),
{
    let mut bytes: Vec<u8> = Vec::new();
    bytes.push(REPORT_LONG);
    bytes.push(to.index);
    bytes.push(to.feature);
    bytes.push(tag(to.function, to.swid));
    let mut i: usize = 0;
    while i < LONG_LEN - HEADER_LEN
        invariant
            i <= LONG_LEN - HEADER_LEN,
            bytes.len() == HEADER_LEN + i,
            bytes@ == spec_packet(to, params@).take(HEADER_LEN + i),
        decreases LONG_LEN - HEADER_LEN - i,
    {
        if i < params.len() {
            bytes.push(params[i]);
        } else {
            bytes.push(0);
        }
        i = i + 1;
    }
    bytes
}

/// What `frame` is to the request that waits for `from`.
pub fn judge(frame: &Vec<u8>, from: Address) -> (v: Verdict<Vec<u8>>)
    ensures
        shown_verdict(v) == spec_judge(frame@, from),
{
    let n: usize = frame.len();
    if n < 4 {
        return Verdict::Noise;
    }
    if frame[2] == 0x8f || frame[2] == 0xff {
        if n >= 6 && frame[3] == from.feature && frame[4] / 16 == from.function && frame[4] % 16
            == from.swid {
            return Verdict::Fault(frame[5]);
        }
        return Verdict::Stray;
    }
    if frame[1] == from.index && frame[2] == from.feature && frame[3] / 16 == from.function
        && frame[3] % 16 == from.swid {
        let mut body: Vec<u8> = Vec::new();
        let mut i: usize = HEADER_LEN;
        while i < n
            invariant
                n == frame.len(),
                HEADER_LEN <= i <= n,
                body@ == frame@.subrange(HEADER_LEN as int, i as int),
            decreases n - i,
        {
            body.push(frame[i]);
            i = i + 1;
        }
        assert(body@ == frame@.skip(HEADER_LEN as int));
        return Verdict::Body(body);
    }
    Verdict::Noise
}

/// The frame that answers a request with `body`.
pub open spec fn reply_frame(from: Address, body: Seq<u8>) -> Seq<u8> {
    seq![REPORT_LONG, from.index, from.feature, spec_tag(from.function, from.swid)] + body
}

/// The frame that reports that a request failed with `code`.
pub open spec fn fault_frame(marker: u8, from: Address, code: u8) -> Seq<u8> {
    seq![
        REPORT_LONG,
        from.index,
        marker,
        from.feature,
        spec_tag(from.function, from.swid),
        code,
    ]
}

/// An address that a tag byte can name: a function of four bits and an id in
/// use.
pub open spec fn nameable(a: Address) -> bool {
    &&& a.function < 16
    &&& SWID_MIN <= a.swid <= SWID_MAX
}

/// An address that a reply can come from: nameable, with a feature that no
/// failure report is marked with.
pub open spec fn proper(a: Address) -> bool {
    &&& nameable(a)
    &&& a.feature != 0x8f
    &&& a.feature != 0xff
}

/// The reply to a request is taken for its answer, and its body comes out as
/// it was sent.
pub proof fn law_reply_is_accepted(from: Address, body: Seq<u8>)
    requires
        proper(from),
    ensures
        spec_judge(reply_frame(from, body), from) == Verdict::Body(body),
{
    assert(reply_frame(from, body).skip(HEADER_LEN as int) == body);
}

/// A failure report on a request is taken for one, and its code comes out.
pub proof fn law_fault_is_reported(marker: u8, from: Address, code: u8)
    requires
        nameable(from),
        marker == 0x8f || marker == 0xff,
    ensures
        spec_judge(fault_frame(marker, from, code), from) == Verdict::<Seq<u8>>::Fault(code),
{
}

/// Software ids stay in their range and come round after fifteen requests, no
/// sooner.
pub proof fn law_swid_cycle(swid: u8, n: nat)
    requires
        SWID_MIN <= swid <= SWID_MAX,
    ensures
        SWID_MIN <= swid_after(swid, n) <= SWID_MAX,
        swid_after(swid, n) == swid <==> n % 15 == 0,
{
    lemma_swid_after(swid, n);
}

/// Where the cycle of software ids stands after `n` requests.
proof fn lemma_swid_after(swid: u8, n: nat)
    requires
        SWID_MIN <= swid <= SWID_MAX,
    ensures
        swid_after(swid, n) == (swid - 1 + n) % 15 + 1,
    decreases n,
{
    if n > 0 {
        lemma_swid_after(swid, (n - 1) as nat);
    }
}

/// A late reply to an earlier request, or a late report that it failed, is not
/// taken for the outcome of a later one that comes fewer than fifteen requests
/// after it.
pub proof fn law_late_frame_is_ignored(
    earlier: Address,
    later: Address,
    n: nat,
    marker: u8,
    body: Seq<u8>,
    code: u8,
)
    requires
        SWID_MIN <= earlier.swid <= SWID_MAX,
        earlier.feature != 0x8f,
        earlier.feature != 0xff,
        0 < n < 15,
        later.swid == swid_after(earlier.swid, n),
        marker == 0x8f || marker == 0xff,
    ensures
        spec_judge(reply_frame(earlier, body), later) == Verdict::<Seq<u8>>::Noise,
        spec_judge(fault_frame(marker, earlier, code), later) == Verdict::<Seq<u8>>::Stray,
{
    law_swid_cycle(earlier.swid, n);
}

/// A frame that is accepted carries the device, the feature, the function and
/// the software id of the request that waits.
pub proof fn law_accepted_frame_is_addressed(frame: Seq<u8>, from: Address)
    requires
        spec_judge(frame, from) is Body,
    ensures
        frame.len() >= 4,
        frame[1] == from.index,
        frame[2] == from.feature,
        frame[3] / 16 == from.function,
        frame[3] % 16 == from.swid,
{
}

/// The packet of a request is twenty bytes long: the long report id, the device,
/// the feature, the function in front of the software id, up to sixteen
/// parameters, and zeros.
pub proof fn law_packet_carries_the_request(to: Address, params: Seq<u8>)
    requires
        to.swid < 16,
    ensures
        ({
            let p = spec_packet(to, params);
            &&& p.len() == 20
            &&& p[0] == 0x11
            &&& p[1] == to.index
            &&& p[2] == to.feature
            &&& p[3] as int / 16 == to.function as int % 16
            &&& p[3] as int % 16 == to.swid
            &&& forall|i: int|
                0 <= i < 16 ==> #[trigger] p[4 + i] == (if i < params.len() {
                    params[i]
                } else {
                    0
                })
        }),
{
}

/// What comes back with the header of a request is its reply: a device that
/// echoes a packet is heard to say the parameters, with zeros after them.
pub proof fn law_echo_is_the_reply(to: Address, params: Seq<u8>)
    requires
        proper(to),
    ensures
        spec_judge(spec_packet(to, params), to) matches Verdict::Body(body) && {
            &&& body.len() == 16
            &&& forall|i: int|
                0 <= i < 16 ==> #[trigger] body[i] == (if i < params.len() {
                    params[i]
                } else {
                    0
                })
        },
{
    law_packet_carries_the_request(to, params);
}

/// How a frame is judged. A frame of fewer than four bytes is noise. One marked
/// as a failure report is about this request where it has at least six bytes
/// and names the feature, the function and the software id, and then its sixth
/// byte is the code; else it is about some other request. Any other frame is
/// the reply where it names the device, the feature, the function and the
/// software id, and then all that follows these is the body; else it is noise.
pub proof fn law_frames_are_told_apart(frame: Seq<u8>, from: Address)
    ensures
        ({
            let v = spec_judge(frame, from);
            let marked = frame.len() >= 4 && (frame[2] == 0x8f || frame[2] == 0xff);
            let ours = frame.len() >= 6 && frame[3] == from.feature && frame[4] as int / 16
                == from.function && frame[4] as int % 16 == from.swid;
            let reply = frame.len() >= 4 && frame[1] == from.index && frame[2] == from.feature
                && frame[3] as int / 16 == from.function && frame[3] as int % 16 == from.swid;
            &&& v is Fault <==> marked && ours
            &&& v is Stray <==> marked && !ours
            &&& v is Body <==> !marked && reply
            &&& v is Noise <==> !marked && !reply
            &&& v matches Verdict::Fault(code) ==> code == frame[5]
            &&& v matches Verdict::Body(body) ==> body.len() == frame.len() - 4 && forall|i: int|
                0 <= i < body.len() ==> #[trigger] body[i] == frame[4 + i]
        }),
{
}

/// The report id of a frame does not matter, nor does what follows the code of
/// a failure report, nor which device sent such a report.
pub proof fn law_rest_of_a_frame_does_not_matter(
    frame: Seq<u8>,
    from: Address,
    id: u8,
    sender: u8,
    tail: Seq<u8>,
)
    requires
        frame.len() > 0,
    ensures
        spec_judge(frame.update(0, id), from) == spec_judge(frame, from),
        frame.len() >= 6 && is_fault_report(frame) ==> spec_judge(
            frame.update(1, sender) + tail,
            from,
        ) == spec_judge(frame, from),
{
    let other = frame.update(0, id);
    if frame.len() >= 4 {
        assert(other.skip(HEADER_LEN as int) =~= frame.skip(HEADER_LEN as int));
    }
}

/// Software ids are taken in rising order from 1 to 15, and 1 follows 15.
pub proof fn law_swids_rise(swid: u8, n: nat)
    ensures
        1 <= swid < 15 ==> spec_next_swid(swid) == swid + 1,
        swid >= 15 ==> spec_next_swid(swid) == 1,
        1 <= swid <= 15 ==> swid_after(swid, n) == (swid - 1 + n) % 15 + 1,
{
    if 1 <= swid <= 15 {
        lemma_swid_after(swid, n);
    }
}

/// A verdict is what it carries where contracts speak of it.
pub proof fn law_verdict_is_what_it_carries(body: Vec<u8>, code: u8)
    ensures
        shown_verdict(Verdict::Body(body)) == Verdict::Body(body@),
        shown_verdict(Verdict::Fault(code)) == Verdict::<Seq<u8>>::Fault(code),
        shown_verdict(Verdict::Stray) is Stray,
        shown_verdict(Verdict::Noise) is Noise,
{
}

} // verus!
