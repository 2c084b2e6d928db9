//! The name of a device, read in pieces.
use vstd::prelude::*;
use vstd::utf8::*;

use crate::dialog;
use crate::dialog::{byte_at, request, Answer, Call, Reply, Request, Step};
use crate::text;
use crate::text::{field, trimmed};

verus! {

/// The longest name that is read.
pub const NAME_LIMIT: usize = 128;

/// How far apart the pieces of a name begin.
pub const PIECE: usize = 16;

/// What `String::from_utf8_lossy` makes of bytes that are no UTF-8 as a whole.
pub uninterp spec fn repaired_text(bytes: Seq<u8>) -> Seq<char>;

/// The text that bytes spell. Bytes that are no UTF-8 are repaired.
pub open spec fn text_of(bytes: Seq<u8>) -> Seq<char> {
    if valid_utf8(bytes) {
        decode_utf8(bytes)
    } else {
        repaired_text(bytes)
    }
}

/// Calls `String::from_utf8_lossy`. Bytes in UTF-8 are decoded. Of other bytes
/// it is claimed that the text depends on nothing but them. A text never has
/// more characters than there were bytes, since every character stands for at
/// least one of them, the replacement character for an invalid sequence. Left
/// unsaid is where the replacement character stands.
#[verifier::external_body]
fn lossy_text(bytes: &Vec<u8>) -> (s: String)
    ensures
        s@ == (if valid_utf8(bytes@) {
            decode_utf8(bytes@)
        } else {
            repaired_text(bytes@)
        }),
        s@.len() <= bytes@.len(),
{
    String::from_utf8_lossy(bytes).into_owned()
}

/// The name that a text holds: what stands in front of the first zero
/// character, without white space around it.
pub open spec fn spec_clean_name(s: Seq<char>) -> Seq<char> {
    text::spec_trimmed(s.take(text::split_point(s, '\0')))
}

/// The name that a text holds.
pub fn clean_name(s: &str) -> (name: String)
    ensures
        name@ == spec_clean_name(s@),
{
    match field(s, '\0', 0) {
        Some(front) => trimmed(front).to_owned(),
        None => String::new(),
    }
}

/// The length of a name, as the device tells it.
pub open spec fn name_length(body: Seq<u8>) -> int {
    let told = dialog::spec_byte_at(body, 0) as int;
    if told < NAME_LIMIT {
        told
    } else {
        NAME_LIMIT as int
    }
}

/// The bytes of a reply that belong to a name with `room` bytes to go.
pub open spec fn piece_of(body: Seq<u8>, room: int) -> Seq<u8> {
    if body.len() <= room {
        body
    } else {
        body.take(room)
    }
}

/// Reading a name of `length` bytes from piece `k` on, with the bytes so far.
pub open spec fn from_piece(
    feature: u8,
    length: int,
    heard: Seq<Answer>,
    k: nat,
    bytes: Seq<u8>,
) -> Step<Call, Result<Seq<char>, Seq<char>>>
    decreases length - k,
{
    if k * PIECE >= length {
        Step::Done(Ok(spec_clean_name(text_of(bytes))))
    } else if heard.len() <= 1 + k {
        Step::Ask(dialog::call(feature, 1, seq![(k * PIECE) as u8]))
    } else {
        match heard[1 + k as int] {
            Ok(body) => from_piece(
                feature,
                length,
                heard,
                k + 1,
                bytes + piece_of(body, length - k * PIECE),
            ),
            Err(message) => Step::Done(Err(message)),
        }
    }
}

/// Reading a name: its length first, then its pieces.
pub open spec fn spec_device_name(feature: u8, heard: Seq<Answer>) -> Step<
    Call,
    Result<Seq<char>, Seq<char>>,
> {
    if heard.len() == 0 {
        Step::Ask(dialog::call(feature, 0, Seq::empty()))
    } else {
        match heard[0] {
            Ok(body) => from_piece(feature, name_length(body), heard, 0, Seq::empty()),
            Err(message) => Step::Done(Err(message)),
        }
    }
}

/// How many pieces a name of `length` bytes is read in.
pub open spec fn piece_count(length: int) -> nat {
    ((length + PIECE - 1) / PIECE as int) as nat
}

/// The bytes that the first `k` pieces bring to a name of `length` bytes.
pub open spec fn gathered(heard: Seq<Answer>, length: int, k: nat) -> Seq<u8>
    decreases k,
{
    if k == 0 {
        Seq::empty()
    } else {
        gathered(heard, length, (k - 1) as nat) + piece_of(
            heard[k as int]->Ok_0,
            length - (k - 1) * PIECE,
        )
    }
}

/// No piece of a name, but for the last one, reaches into the next.
pub open spec fn pieces_are_apart(heard: Seq<Answer>, length: int) -> bool {
    forall|i: int|
        1 <= i < heard.len() && i * PIECE < length ==> (#[trigger] heard[i] matches Ok(body) ==> body.len()
            <= PIECE)
}

/// Pieces that are apart bring no more bytes than the device told.
pub proof fn law_pieces_bring_no_more_than_told(heard: Seq<Answer>, length: int, k: nat)
    requires
        0 <= length,
        k <= piece_count(length),
        k < heard.len(),
        forall|i: int| 1 <= i <= k ==> #[trigger] heard[i] is Ok,
        pieces_are_apart(heard, length),
    ensures
        gathered(heard, length, k).len() <= length,
{
    lemma_gathered(heard, length, k);
}

proof fn lemma_gathered(heard: Seq<Answer>, length: int, k: nat)
    requires
        0 <= length,
        k <= piece_count(length),
        k < heard.len(),
        forall|i: int| 1 <= i <= k ==> #[trigger] heard[i] is Ok,
        pieces_are_apart(heard, length),
    ensures
        gathered(heard, length, k).len() <= length,
        gathered(heard, length, k).len() <= k * PIECE,
    decreases k,
{
    if k > 0 {
        lemma_gathered(heard, length, (k - 1) as nat);
        assert(heard[k as int] is Ok);
    }
}

/// A name is no longer than the text that holds it.
pub proof fn law_name_fits_its_text(s: Seq<char>)
    ensures
        spec_clean_name(s).len() <= s.len(),
{
    text::lemma_split_point_holds(s, '\0');
    text::law_trimmed_is_a_part(s.take(text::split_point(s, '\0')));
}

/// Adds to `bytes` what belongs to the name of a reply.
fn add_piece(bytes: &mut Vec<u8>, body: &Vec<u8>, room: usize)
    ensures
        final(bytes)@ == old(bytes)@ + piece_of(body@, room as int),
{
    let mut i: usize = 0;
    while i < body.len() && i < room
        invariant
            i <= body.len(),
            i <= room,
            bytes@ == old(bytes)@ + body@.take(i as int),
        decreases body.len() - i,
    {
        bytes.push(body[i]);
        i = i + 1;
    }
    assert(body@.take(i as int) == piece_of(body@, room as int));
}

/// Reads the name of a device. A name has no more characters than its pieces
/// brought bytes, and no more than the device told where the pieces are apart.
pub fn device_name(feature: u8, replies: &Vec<Reply>) -> (step: Step<
    Request,
    Result<String, String>,
>)
    ensures
        replies@.len() >= 9 ==> step is Done,
        dialog::shown_result(step) == spec_device_name(feature, dialog::heard(replies@)),
        step matches Step::Done(Ok(name)) ==> ({
            let h = dialog::heard(replies@);
            let length = name_length(h[0]->Ok_0);
            &&& name@.len() <= gathered(h, length, piece_count(length)).len()
            &&& pieces_are_apart(h, length) ==> name@.len() <= length
        }),
{
    if replies.len() == 0 {
        let params: Vec<u8> = Vec::new();
        return Step::Ask(request(feature, 0, params));
    }
    let ghost h = dialog::heard(replies@);
    let length: usize = match &replies[0] {
        Ok(body) => {
            let told: usize = byte_at(body, 0) as usize;
            if told < NAME_LIMIT {
                told
            } else {
                NAME_LIMIT
            }
        },
        Err(message) => {
            return Step::Done(Err(message.clone()));
        },
    };
    let mut bytes: Vec<u8> = Vec::new();
    let mut k: usize = 0;
    while k * PIECE < length
        invariant
            h == dialog::heard(replies@),
            replies.len() > 0,
            length <= NAME_LIMIT,
            k <= 8,
            k > 0 ==> (k - 1) * PIECE < length,
            k < replies.len(),
            forall|i: int| 1 <= i <= k ==> #[trigger] h[i] is Ok,
            bytes@ == gathered(h, length as int, k as nat),
            spec_device_name(feature, h) == from_piece(feature, length as int, h, k as nat, bytes@),
        decreases 8 - k,
    {
        if replies.len() <= 1 + k {
            let params: Vec<u8> = vec![(k * PIECE) as u8];
            assert(params@ == seq![(k * PIECE) as u8]);
            return Step::Ask(request(feature, 1, params));
        }
        match &replies[1 + k] {
            Ok(body) => {
                add_piece(&mut bytes, body, length - k * PIECE);
            },
            Err(message) => {
                return Step::Done(Err(message.clone()));
            },
        }
        k = k + 1;
    }
    let spelled = lossy_text(&bytes);
    proof {
        assert(k == piece_count(length as int));
        law_name_fits_its_text(spelled@);
        if pieces_are_apart(h, length as int) {
            law_pieces_bring_no_more_than_told(h, length as int, k as nat);
        }
    }
    Step::Done(Ok(clean_name(spelled.as_str())))
}

/// The question how long the name is.
pub open spec fn length_call(feature: u8) -> Call {
    dialog::call(feature, 0, Seq::empty())
}

/// The question for piece `k` of the name.
pub open spec fn piece_call(feature: u8, k: int) -> Call {
    dialog::call(feature, 1, seq![(k * PIECE) as u8])
}

/// A device has a name: it tells the name's length, and every piece that is
/// asked for is sixteen bytes long and agrees with the name, whatever follows
/// the name's end.
pub open spec fn is_named(device: spec_fn(Call) -> Answer, feature: u8, name: Seq<u8>) -> bool {
    &&& name.len() < 256
    &&& device(length_call(feature)) matches Ok(body) && body.len() > 0 && body[0] == name.len()
    &&& forall|k: int|
        #![trigger piece_call(feature, k)]
        0 <= k && k * PIECE < name.len() && k * PIECE < NAME_LIMIT ==> {
            &&& device(piece_call(feature, k)) matches Ok(body)
            &&& body.len() == PIECE
            &&& forall|i: int|
                0 <= i < PIECE && k * PIECE + i < name.len() ==> body[i] == name[k * PIECE + i]
        }
}

/// The part of a name that is read.
pub open spec fn read_part(name: Seq<u8>) -> Seq<u8> {
    if name.len() <= NAME_LIMIT {
        name
    } else {
        name.take(NAME_LIMIT as int)
    }
}

/// A device's name is read whole, up to the limit, in at most nine requests.
pub proof fn law_name_is_read_whole(
    device: spec_fn(Call) -> Answer,
    feature: u8,
    name: Seq<u8>,
)
    requires
        is_named(device, feature, name),
    ensures
        dialog::run(|h: Seq<Answer>| spec_device_name(feature, h), device, Seq::empty(), 9)
            == Some(Ok::<Seq<char>, Seq<char>>(spec_clean_name(text_of(read_part(name))))),
{
    let first = Seq::<Answer>::empty().push(device(length_call(feature)));
    assert(first =~= transcript(device, feature, 0));
    lemma_run_from_piece(device, feature, name, 0);
}

/// What is heard by the time piece `k` is asked for.
spec fn transcript(device: spec_fn(Call) -> Answer, feature: u8, k: nat) -> Seq<Answer> {
    Seq::new(
        k + 1,
        |i: int|
            if i == 0 {
                device(length_call(feature))
            } else {
                device(piece_call(feature, i - 1))
            },
    )
}

/// The first `j` pieces of a name, as far as they are read.
spec fn front(name: Seq<u8>, j: nat) -> Seq<u8> {
    let part = read_part(name);
    if j * PIECE <= part.len() {
        part.take(j * PIECE as int)
    } else {
        part
    }
}

proof fn lemma_pieces_so_far(
    device: spec_fn(Call) -> Answer,
    feature: u8,
    name: Seq<u8>,
    k: nat,
    j: nat,
)
    requires
        is_named(device, feature, name),
        j <= k,
        j > 0 ==> (j - 1) * PIECE < read_part(name).len(),
    ensures
        spec_device_name(feature, transcript(device, feature, k)) == from_piece(
            feature,
            read_part(name).len() as int,
            transcript(device, feature, k),
            j,
            front(name, j),
        ),
    decreases j,
{
    let part = read_part(name);
    if j == 0 {
        assert(front(name, 0) =~= Seq::empty());
    } else {
        let i = (j - 1) as nat;
        lemma_pieces_so_far(device, feature, name, k, i);
        let t = transcript(device, feature, k);
        assert(t[1 + i as int] == device(piece_call(feature, i as int)));
        let body = t[1 + i as int]->Ok_0;
        assert(front(name, i) + piece_of(body, part.len() - i * PIECE) =~= front(name, j));
    }
}

proof fn lemma_run_from_piece(
    device: spec_fn(Call) -> Answer,
    feature: u8,
    name: Seq<u8>,
    k: nat,
)
    requires
        is_named(device, feature, name),
        k <= 8,
        k > 0 ==> (k - 1) * PIECE < read_part(name).len(),
    ensures
        dialog::run(
            |h: Seq<Answer>| spec_device_name(feature, h),
            device,
            transcript(device, feature, k),
            (8 - k) as nat,
        ) == Some(Ok::<Seq<char>, Seq<char>>(spec_clean_name(text_of(read_part(name))))),
    decreases 8 - k,
{
    let t = transcript(device, feature, k);
    let part = read_part(name);
    lemma_pieces_so_far(device, feature, name, k, k);
    if k * PIECE >= part.len() {
        assert(front(name, k) =~= part);
    } else {
        assert(t.push(device(piece_call(feature, k as int))) =~= transcript(
            device,
            feature,
            k + 1,
        ));
        lemma_run_from_piece(device, feature, name, k + 1);
    }
}

/// A name in UTF-8, with no zero character in it and no white space at its
/// ends, comes out as it is.
pub proof fn law_plain_name_is_kept(name: Seq<char>)
    requires
        !name.contains('\0'),
        name.len() > 0 ==> !text::spec_is_white(name[0]) && !text::spec_is_white(name.last()),
    ensures
        spec_clean_name(text_of(encode_utf8(name))) == name,
{
    encode_utf8_valid_utf8(name);
    encode_utf8_decode_utf8(name);
    assert forall|i: int| 0 <= i < name.len() implies name[i] != '\0' by {
        assert(name.contains(name[i]));
    }
    text::lemma_split_point(name, '\0', name.len() as int);
    assert(name.take(name.len() as int) =~= name);
}

/// A name never has a zero character in it, nor white space at its ends.
pub proof fn law_name_is_clean(s: Seq<char>)
    ensures
        !spec_clean_name(s).contains('\0'),
        spec_clean_name(s).len() > 0 ==> !text::spec_is_white(spec_clean_name(s)[0])
            && !text::spec_is_white(spec_clean_name(s).last()),
{
    let front = s.take(text::split_point(s, '\0'));
    text::lemma_split_point_holds(s, '\0');
    text::law_trimmed_ends(front);
    text::law_trimmed_is_a_part(front);
    let (from, to) = choose|from: int, to: int|
        0 <= from <= to <= front.len() && #[trigger] front.subrange(from, to)
            == text::spec_trimmed(front);
    if spec_clean_name(s).contains('\0') {
        let i = choose|i: int|
            0 <= i < spec_clean_name(s).len() && spec_clean_name(s)[i] == '\0';
        assert(front[from + i] == s[from + i]);
    }
}

/// What a name comes to: white space around it goes, and so does everything
/// from the first zero character on; what is left is kept as it is.
pub proof fn law_name_is_cut_and_trimmed(
    front: Seq<char>,
    core: Seq<char>,
    back: Seq<char>,
    junk: Seq<char>,
)
    requires
        forall|i: int| 0 <= i < front.len() ==> text::spec_is_white(#[trigger] front[i]),
        forall|i: int| 0 <= i < back.len() ==> text::spec_is_white(#[trigger] back[i]),
        core.len() > 0 ==> !text::spec_is_white(core[0]) && !text::spec_is_white(core.last()),
        !core.contains('\0'),
    ensures
        spec_clean_name(front + core + back) == core,
        spec_clean_name((front + core + back).push('\0') + junk) == core,
{
    let s = front + core + back;
    let n = s.len() as int;
    text::law_trimming_finds_the_core(front, core, back);
    assert forall|i: int| 0 <= i < n implies s[i] != '\0' by {
        if i < front.len() {
            assert(s[i] == front[i]);
        } else if i < front.len() + core.len() {
            assert(s[i] == core[i - front.len()]);
            assert(core.contains(s[i]));
        } else {
            assert(s[i] == back[i - front.len() - core.len()]);
        }
    }
    text::lemma_split_point(s, '\0', n);
    assert(s.take(n) =~= s);
    let longer = s.push('\0') + junk;
    assert forall|i: int| 0 <= i < n implies longer[i] != '\0' by {
        assert(longer[i] == s[i]);
    }
    text::lemma_split_point(longer, '\0', n);
    assert(longer.take(n) =~= s);
}

/// The length of a name is the first byte of the reply, but no more than 128.
pub open spec fn is_length(length: int, body: Seq<u8>) -> bool {
    let told = if body.len() > 0 {
        body[0] as int
    } else {
        0
    };
    length == (if told > 128 {
        128
    } else {
        told
    })
}

/// The first `k` pieces of a name came.
pub open spec fn came(heard: Seq<Answer>, k: int) -> bool {
    forall|i: int| 1 <= i <= k ==> #[trigger] heard[i] is Ok
}

/// How a name is read. Its length is asked for first. Then, as long as pieces
/// that begin sixteen bytes apart leave some of it out, the next one is asked
/// for by where it begins. A request that fails ends it with that failure. When
/// all pieces are there, the name is what they bring, as a text, cut and
/// trimmed.
pub proof fn law_name_is_read_in_pieces(
    feature: u8,
    heard: Seq<Answer>,
    length: int,
    k: nat,
)
    requires
        heard.len() > 0,
        heard[0] matches Ok(body) && is_length(length, body),
        k < heard.len(),
        came(heard, k as int),
        k > 0 ==> 16 * (k - 1) < length,
    ensures
        16 * k < length && heard.len() == k + 1 ==> spec_device_name(feature, heard) == Step::<
            Call,
            Result<Seq<char>, Seq<char>>,
        >::Ask(
            Call {
                feature,
                function: 1,
                params: seq![(16 * k) as u8],
                tries: 3,
                timeout_ms: 400,
            },
        ),
        16 * k < length && heard.len() > k + 1 ==> (heard[k + 1int] matches Err(message) ==> (
        spec_device_name(feature, heard) == Step::<Call, Result<Seq<char>, Seq<char>>>::Done(
            Err(message),
        ))),
        16 * k >= length ==> spec_device_name(feature, heard) == Step::<
            Call,
            Result<Seq<char>, Seq<char>>,
        >::Done(Ok(spec_clean_name(text_of(gathered(heard, length, k))))),
{
    lemma_pieces_heard(feature, heard, length, k);
}

proof fn lemma_pieces_heard(feature: u8, heard: Seq<Answer>, length: int, k: nat)
    requires
        heard.len() > 0,
        heard[0] matches Ok(body) && is_length(length, body),
        k < heard.len(),
        came(heard, k as int),
        k > 0 ==> 16 * (k - 1) < length,
    ensures
        spec_device_name(feature, heard) == from_piece(
            feature,
            length,
            heard,
            k,
            gathered(heard, length, k),
        ),
    decreases k,
{
    if k > 0 {
        lemma_pieces_heard(feature, heard, length, (k - 1) as nat);
        assert(heard[k as int] is Ok);
    }
}

/// The name of a device whose length cannot be asked for is that failure, and
/// its length is what is asked for first.
pub proof fn law_length_comes_first(feature: u8, heard: Seq<Answer>)
    ensures
        heard.len() == 0 ==> spec_device_name(feature, heard) == Step::<
            Call,
            Result<Seq<char>, Seq<char>>,
        >::Ask(Call { feature, function: 0, params: Seq::empty(), tries: 3, timeout_ms: 400 }),
        heard.len() > 0 ==> (heard[0] matches Err(message) ==> spec_device_name(feature, heard)
            == Step::<Call, Result<Seq<char>, Seq<char>>>::Done(Err(message))),
{
}

/// What pieces bring: each adds its bytes at the end, as many as the name has
/// left from where the piece begins.
pub proof fn law_each_piece_adds_its_bytes(heard: Seq<Answer>, length: int, k: nat, body: Seq<u8>)
    requires
        k + 1 < heard.len(),
        heard[k + 1int] == Ok::<Seq<u8>, Seq<char>>(body),
        16 * k < length,
    ensures
        gathered(heard, length, 0).len() == 0,
        ({
            let before = gathered(heard, length, k);
            let after = gathered(heard, length, k + 1);
            let room = length - 16 * k;
            let added = if body.len() < room {
                body.len() as int
            } else {
                room
            };
            &&& after.len() == before.len() + added
            &&& forall|i: int| 0 <= i < before.len() ==> #[trigger] after[i] == before[i]
            &&& forall|i: int| 0 <= i < added ==> #[trigger] after[before.len() + i] == body[i]
        }),
{
}

/// Bytes in UTF-8 are taken for the text that they encode.
pub proof fn law_text_is_decoded(s: Seq<char>)
    ensures
        text_of(encode_utf8(s)) == s,
{
    encode_utf8_valid_utf8(s);
    encode_utf8_decode_utf8(s);
}

} // verus!
