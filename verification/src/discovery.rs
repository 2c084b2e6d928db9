//! Finding a device: which hidraw nodes to try, in what order, and what to
//! report when none answers.
use vstd::prelude::*;

use crate::device;
use crate::device::open_failure;
use crate::text;
use crate::text::{chars_of, contains_text, field, hex_number, starts_with, tagged_line};

verus! {

/// USB vendor id of Logitech.
pub const VID: u32 = 0x046d;

/// How long to keep looking for a device, in milliseconds.
pub const READY_LIMIT_MS: u128 = 5000;

/// The pause between two searches, in milliseconds.
pub const READY_PAUSE_MS: u64 = 200;

/// How many device indices are pinged on a node.
pub const PROBES: usize = 7;

/// The device index that is pinged as number `k` (from 0) on a node: the six
/// slots of a receiver, and the index of a device that is connected directly.
pub open spec fn spec_probe_index(k: int) -> u8 {
    if 0 <= k < 6 {
        (k + 1) as u8
    } else {
        0xff
    }
}

/// The device index that is pinged as number `k` on a node.
pub fn probe_index(k: usize) -> (index: u8)
    ensures
        index == spec_probe_index(k as int),
{
    if k < 6 {
        k as u8 + 1
    } else {
        0xff
    }
}

/// A uevent text names Logitech as the vendor: the second of the numbers on
/// its `HID_ID=` line is the vendor id.
pub open spec fn names_logitech(uevent: Seq<char>) -> bool {
    match text::spec_tagged_line(uevent, "HID_ID="@) {
        Some(id) => match text::spec_field(id, ':', 1) {
            Some(vid) => text::spec_hex_number(vid) == Some(VID as nat),
            None => false,
        },
        None => false,
    }
}

/// The bytes of a report descriptor that open the HID++ usage page stand at
/// `i`.
pub open spec fn hidpp_page_at(descriptor: Seq<u8>, i: int) -> bool {
    &&& 0 <= i
    &&& i + 3 <= descriptor.len()
    &&& descriptor[i] == 0x06
    &&& descriptor[i + 1] == 0x00
    &&& descriptor[i + 2] == 0xff
}

/// A report descriptor opens the HID++ usage page somewhere.
pub open spec fn opens_hidpp_page(descriptor: Seq<u8>) -> bool {
    exists|i: int| #[trigger] hidpp_page_at(descriptor, i)
}

/// Whether a directory entry is a hidraw node, by its name.
pub fn is_hidraw_name(name: &str) -> (yes: bool)
    ensures
        yes == "hidraw"@.is_prefix_of(name@),
{
    starts_with(name, "hidraw")
}

/// Whether the uevent text of a hidraw node names Logitech as the vendor.
pub fn is_logitech_hidraw(uevent: &str) -> (yes: bool)
    ensures
        yes == names_logitech(uevent@),
{
    match tagged_line(uevent, "HID_ID=") {
        Some(id) => match field(id, ':', 1) {
            Some(vid) => match hex_number(vid) {
                Some(number) => number == VID,
                None => false,
            },
            None => false,
        },
        None => false,
    }
}

/// Whether a report descriptor opens the HID++ usage page.
pub fn has_hidpp_usage(descriptor: &Vec<u8>) -> (yes: bool)
    ensures
        yes == opens_hidpp_page(descriptor@),
{
    let n: usize = descriptor.len();
    if n < 3 {
        return false;
    }
    let mut i: usize = 0;
    while i < n - 2
        invariant
            n == descriptor.len(),
            n >= 3,
            i <= n - 2,
            forall|k: int| 0 <= k < i ==> !hidpp_page_at(descriptor@, k),
        decreases n - i,
    {
        if descriptor[i] == 0x06 && descriptor[i + 1] == 0x00 && descriptor[i + 2] == 0xff {
            assert(hidpp_page_at(descriptor@, i as int));
            return true;
        }
        i = i + 1;
    }
    false
}

/// Where the system keeps the uevent text of a node.
pub fn uevent_path(name: &str) -> (path: String)
    ensures
        path@ == "/sys/class/hidraw/"@ + name@ + "/device/uevent"@,
{
    let mut path: String = "/sys/class/hidraw/".to_owned();
    path.append(name);
    path.append("/device/uevent");
    path
}

/// Where the system keeps the report descriptor of a node.
pub fn descriptor_path(name: &str) -> (path: String)
    ensures
        path@ == "/sys/class/hidraw/"@ + name@ + "/device/report_descriptor"@,
{
    let mut path: String = "/sys/class/hidraw/".to_owned();
    path.append(name);
    path.append("/device/report_descriptor");
    path
}

/// The path of a node.
pub open spec fn spec_node_path(name: Seq<char>) -> Seq<char> {
    "/dev/"@ + name
}

/// The path of a node.
pub fn node_path(name: &str) -> (path: String)
    ensures
        path@ == spec_node_path(name@),
{
    let mut path: String = "/dev/".to_owned();
    path.append(name);
    path
}

/// A node of the vendor.
pub struct Candidate {
    pub name: String,
    pub hidpp: bool,
}

/// A node of the vendor, as values.
pub struct Node {
    pub name: Seq<char>,
    pub hidpp: bool,
}

impl View for Candidate {
    type V = Node;

    open spec fn view(&self) -> Node {
        Node { name: self.name@, hidpp: self.hidpp }
    }
}

/// A directory entry with this name and these files is a node of the vendor.
pub open spec fn is_vendor_node(name: Seq<char>, uevent: Option<Seq<char>>) -> bool {
    &&& "hidraw"@.is_prefix_of(name)
    &&& uevent matches Some(lines)
    &&& names_logitech(lines)
}

/// Decides whether a directory entry is a node of the vendor, and which kind,
/// by its name and by the two files that the system keeps of it, as far as they
/// can be read.
pub fn candidate(name: String, uevent: Option<String>, descriptor: Option<Vec<u8>>) -> (c: Option<
    Candidate,
>)
    ensures
        ({
            let lines = match uevent {
                Some(t) => Some(t@),
                None => None,
            };
            match c {
                Some(found) => {
                    &&& is_vendor_node(name@, lines)
                    &&& found@.name == name@
                    &&& found@.hidpp == (descriptor matches Some(d) && opens_hidpp_page(d@))
                },
                None => !is_vendor_node(name@, lines),
            }
        }),
{
    if !is_hidraw_name(name.as_str()) {
        return None;
    }
    match uevent {
        None => None,
        Some(lines) => if is_logitech_hidraw(lines.as_str()) {
            let hidpp = match descriptor {
                Some(d) => has_hidpp_usage(&d),
                None => false,
            };
            Some(Candidate { name, hidpp })
        } else {
            None
        },
    }
}

/// Candidates, as values.
pub open spec fn nodes(candidates: Seq<Candidate>) -> Seq<Node> {
    candidates.map_values(|c: Candidate| c@)
}

/// `a` comes no later than `b` in a dictionary.
pub open spec fn name_le(a: Seq<char>, b: Seq<char>) -> bool
    decreases a.len(),
{
    if a.len() == 0 {
        true
    } else if b.len() == 0 {
        false
    } else if a[0] == b[0] {
        name_le(a.drop_first(), b.drop_first())
    } else {
        a[0] < b[0]
    }
}

/// `a` is tried no later than `b`: nodes that open the HID++ page come first,
/// and among equals the name decides.
pub open spec fn node_le(a: Node, b: Node) -> bool {
    if a.hidpp == b.hidpp {
        name_le(a.name, b.name)
    } else {
        a.hidpp
    }
}

/// Nodes stand in the order in which they are tried.
pub open spec fn in_order(s: Seq<Node>) -> bool {
    forall|i: int, j: int| 0 <= i <= j < s.len() ==> node_le(#[trigger] s[i], #[trigger] s[j])
}

proof fn lemma_name_le(a: Seq<char>, b: Seq<char>, c: Seq<char>)
    ensures
        name_le(a, a),
        name_le(a, b) || name_le(b, a),
        name_le(a, b) && name_le(b, c) ==> name_le(a, c),
        name_le(a, b) && name_le(b, a) ==> a == b,
    decreases a.len() + b.len() + c.len(),
{
    if a.len() > 0 {
        lemma_name_le(
            a.drop_first(),
            if b.len() > 0 {
                b.drop_first()
            } else {
                b
            },
            if c.len() > 0 {
                c.drop_first()
            } else {
                c
            },
        );
    }
    if name_le(a, b) && name_le(b, a) {
        if a.len() > 0 {
            assert(a =~= seq![a[0]] + a.drop_first());
            assert(b =~= seq![b[0]] + b.drop_first());
        } else {
            assert(a =~= b);
        }
    }
}

/// The order of trying is a total order: any two nodes can be ordered, and two
/// nodes that come no later than each other are the same.
pub proof fn law_order_is_total(a: Node, b: Node, c: Node)
    ensures
        node_le(a, a),
        node_le(a, b) || node_le(b, a),
        node_le(a, b) && node_le(b, c) ==> node_le(a, c),
        node_le(a, b) && node_le(b, a) ==> a == b,
{
    lemma_name_le(a.name, b.name, c.name);
}

/// The order of trying does not depend on the order in which the nodes were
/// listed: the same nodes can stand in order in one way only.
pub proof fn law_order_is_unique(s: Seq<Node>, t: Seq<Node>)
    requires
        in_order(s),
        in_order(t),
        s.to_multiset() == t.to_multiset(),
    ensures
        s == t,
{
    let le = |a: Node, b: Node| node_le(a, b);
    assert forall|a: Node| #[trigger] le(a, a) by {
        law_order_is_total(a, a, a);
    }
    assert forall|a: Node, b: Node| #[trigger] le(a, b) && #[trigger] le(b, a) implies a == b by {
        law_order_is_total(a, b, b);
    }
    assert forall|a: Node, b: Node, c: Node| #[trigger]
        le(a, b) && #[trigger] le(b, c) implies le(a, c) by {
        law_order_is_total(a, b, c);
    }
    assert forall|a: Node, b: Node| #[trigger] le(a, b) || le(b, a) by {
        law_order_is_total(a, b, b);
    }
    vstd::seq_lib::lemma_sorted_unique(s, t, le);
}

/// Whether `a` is tried no later than `b`.
fn comes_first(a: &Candidate, b: &Candidate) -> (yes: bool)
    ensures
        yes == node_le(a@, b@),
{
    if a.hidpp != b.hidpp {
        return a.hidpp;
    }
    let p = chars_of(a.name.as_str());
    let q = chars_of(b.name.as_str());
    let mut i: usize = 0;
    assert(p@.skip(0) == a.name@);
    assert(q@.skip(0) == b.name@);
    loop
        invariant
            i <= p.len(),
            i <= q.len(),
            name_le(a.name@, b.name@) == name_le(p@.skip(i as int), q@.skip(i as int)),
            a.hidpp == b.hidpp,
        decreases p.len() - i,
    {
        if i == p.len() {
            return true;
        }
        if i == q.len() {
            return false;
        }
        if p[i] != q[i] {
            return p[i] < q[i];
        }
        assert(p@.skip(i as int).drop_first() == p@.skip(i + 1));
        assert(q@.skip(i as int).drop_first() == q@.skip(i + 1));
        i = i + 1;
    }
}

/// Puts one candidate into its place among others that are in order.
fn file_in(sorted: &mut Vec<Candidate>, c: Candidate)
    requires
        in_order(nodes(old(sorted)@)),
    ensures
        in_order(nodes(final(sorted)@)),
        nodes(final(sorted)@).to_multiset() == nodes(old(sorted)@).to_multiset().insert(c@),
{
    let mut at: usize = 0;
    while at < sorted.len() && !comes_first(&c, &sorted[at])
        invariant
            at <= sorted.len(),
            *sorted == *old(sorted),
            in_order(nodes(old(sorted)@)),
            forall|k: int| 0 <= k < at ==> !node_le(c@, (#[trigger] nodes(sorted@)[k])),
        decreases sorted.len() - at,
    {
        at = at + 1;
    }
    let ghost before = nodes(sorted@);
    let ghost whole = before.insert(at as int, c@);
    proof {
        assert forall|i: int, j: int| 0 <= i <= j < whole.len() implies node_le(
            #[trigger] whole[i],
            #[trigger] whole[j],
        ) by {
            if j == at {
                if i < at {
                    law_order_is_total(before[i], c@, c@);
                } else {
                    law_order_is_total(c@, c@, c@);
                }
            } else if i == at {
                assert(whole[j] == before[j - 1]);
                assert(before[at as int] == sorted@[at as int]@);
                law_order_is_total(c@, before[at as int], before[j - 1]);
            }
        }
        before.to_multiset_ensures();
        assert(before.to_multiset().insert(c@) == whole.to_multiset()) by {
            broadcast use vstd::seq_lib::group_to_multiset_ensures;
            vstd::seq_lib::to_multiset_insert(before, at as int, c@);
        }
    }
    sorted.insert(at, c);
    assert(nodes(sorted@) == whole);
}

/// The vendor's nodes in the order in which they are tried.
pub fn try_order(candidates: Vec<Candidate>) -> (sorted: Vec<Candidate>)
    ensures
        in_order(nodes(sorted@)),
        nodes(sorted@).to_multiset() == nodes(candidates@).to_multiset(),
{
    let mut rest = candidates;
    let mut sorted: Vec<Candidate> = Vec::new();
    let ghost all = nodes(candidates@).to_multiset();
    proof {
        nodes(sorted@).to_multiset_ensures();
    }
    assert(nodes(rest@).to_multiset().add(nodes(sorted@).to_multiset()) =~= all);
    loop
        invariant
            in_order(nodes(sorted@)),
            nodes(rest@).to_multiset().add(nodes(sorted@).to_multiset()) == all,
            all == nodes(candidates@).to_multiset(),
        decreases rest.len(),
    {
        let ghost rest_before = nodes(rest@);
        let ghost sorted_before = nodes(sorted@);
        match rest.pop() {
            None => {
                proof {
                    nodes(rest@).to_multiset_ensures();
                    assert(nodes(sorted@).to_multiset() =~= all);
                }
                return sorted;
            },
            Some(c) => {
                proof {
                    assert(rest_before == nodes(rest@).push(c@));
                    nodes(rest@).to_multiset_ensures();
                }
                file_in(&mut sorted, c);
                assert(nodes(rest@).to_multiset().add(nodes(sorted@).to_multiset()) =~= all);
            },
        }
    }
}

/// What a search waits for.
pub enum Hunt<S> {
    /// Open the node in hand.
    Open,
    /// Ping the device with this number among the probes.
    Ping(usize),
    /// Nothing: the device with this index answered on the node in hand.
    Found(u8),
    /// Nothing: no node answered, for this reason.
    Failed(S),
}

/// What came of the action that a search waited for.
pub enum Attempt<S> {
    /// The node is open.
    Opened,
    /// The node could not be opened, with the system's words.
    NotOpened(S),
    /// The ping is over, with or without a reply.
    Pinged(bool),
}

/// A search over nodes.
pub struct Search {
    pub candidates: Vec<Candidate>,
    pub at: usize,
    pub denied: Vec<String>,
    pub pending: Hunt<String>,
}

/// A search, as values.
pub struct Progress {
    pub nodes: Seq<Node>,
    pub at: int,
    pub denied: Seq<Seq<char>>,
    pub pending: Hunt<Seq<char>>,
}

/// Texts, as values.
pub open spec fn texts(names: Seq<String>) -> Seq<Seq<char>> {
    names.map_values(|name: String| name@)
}

/// What a search waits for, as values.
pub open spec fn shown_hunt(h: Hunt<String>) -> Hunt<Seq<char>> {
    match h {
        Hunt::Open => Hunt::Open,
        Hunt::Ping(k) => Hunt::Ping(k),
        Hunt::Found(index) => Hunt::Found(index),
        Hunt::Failed(message) => Hunt::Failed(message@),
    }
}

/// An attempt, as values.
pub open spec fn shown_attempt(a: Attempt<String>) -> Attempt<Seq<char>> {
    match a {
        Attempt::Opened => Attempt::Opened,
        Attempt::NotOpened(words) => Attempt::NotOpened(words@),
        Attempt::Pinged(replied) => Attempt::Pinged(replied),
    }
}

impl View for Search {
    type V = Progress;

    open spec fn view(&self) -> Progress {
        Progress {
            nodes: nodes(self.candidates@),
            at: self.at as int,
            denied: texts(self.denied@),
            pending: shown_hunt(self.pending),
        }
    }
}

/// Texts in a row with a comma and a blank between them.
pub open spec fn joined(names: Seq<Seq<char>>) -> Seq<char>
    decreases names.len(),
{
    if names.len() == 0 {
        Seq::empty()
    } else if names.len() == 1 {
        names[0]
    } else {
        joined(names.drop_last()) + ", "@ + names.last()
    }
}

/// Why a search that tried all its nodes found nothing: access to some of them
/// was denied, there was none, or none of them answered.
pub open spec fn search_failure(denied: Seq<Seq<char>>, seen: bool) -> Seq<char> {
    if denied.len() > 0 {
        "Permission denied opening "@ + joined(denied)
            + ". Your session has no access to the Logitech HID nodes; see the udev setup in the README."@
    } else if !seen {
        "No Logitech HID device present."@
    } else {
        "No Logitech HID++ device found."@
    }
}

/// The failure to open a node, with these words, is one of access.
pub open spec fn is_denial(name: Seq<char>, words: Seq<char>) -> bool {
    text::occurs(
        device::spec_open_failure(spec_node_path(name), words),
        "Permission denied"@,
    )
}

impl Progress {
    /// The search in front of the node in hand; over, where there is none.
    pub open spec fn at_node(self) -> Progress {
        Progress {
            pending: if self.at < self.nodes.len() {
                Hunt::Open
            } else {
                Hunt::Failed(search_failure(self.denied, self.nodes.len() > 0))
            },
            ..self
        }
    }

    /// The search in front of the node after the one in hand.
    pub open spec fn at_next_node(self) -> Progress {
        Progress { at: self.at + 1, ..self }.at_node()
    }

    /// What an attempt makes of the search. An attempt that is no outcome of
    /// the action in hand changes nothing.
    pub open spec fn next(self, attempt: Attempt<Seq<char>>) -> Progress {
        match (self.pending, attempt) {
            (Hunt::Open, Attempt::Opened) => Progress { pending: Hunt::Ping(0), ..self },
            (Hunt::Open, Attempt::NotOpened(words)) => Progress {
                denied: if is_denial(self.nodes[self.at].name, words) {
                    self.denied.push(self.nodes[self.at].name)
                } else {
                    self.denied
                },
                ..self
            }.at_next_node(),
            (Hunt::Ping(k), Attempt::Pinged(true)) => Progress {
                pending: Hunt::Found(spec_probe_index(k as int)),
                ..self
            },
            (Hunt::Ping(k), Attempt::Pinged(false)) => if k + 1 < PROBES {
                Progress { pending: Hunt::Ping((k + 1) as usize), ..self }
            } else {
                self.at_next_node()
            },
            _ => self,
        }
    }

    /// There is a node in hand while the search goes on, and a probe in hand
    /// is one of those there are.
    pub open spec fn wf(self) -> bool {
        &&& self.at >= 0
        &&& self.pending is Open || self.pending is Ping || self.pending is Found ==> self.at
            < self.nodes.len()
        &&& self.pending matches Hunt::Ping(k) ==> k < PROBES
    }

    /// The search before its first action.
    pub open spec fn fresh(nodes: Seq<Node>) -> Progress {
        Progress { nodes, at: 0, denied: Seq::empty(), pending: Hunt::Open }.at_node()
    }
}

/// Texts in a row with a comma and a blank between them.
fn join_names(names: &Vec<String>) -> (s: String)
    ensures
        s@ == joined(texts(names@)),
{
    let mut s: String = String::new();
    let mut i: usize = 0;
    while i < names.len()
        invariant
            i <= names.len(),
            s@ == joined(texts(names@).take(i as int)),
        decreases names.len() - i,
    {
        assert(texts(names@).take(i + 1).drop_last() == texts(names@).take(i as int));
        if i > 0 {
            s.append(", ");
        }
        s.append(names[i].as_str());
        i = i + 1;
    }
    assert(texts(names@).take(i as int) == texts(names@));
    s
}

/// Why a search that tried all its nodes found nothing.
fn search_failure_text(denied: &Vec<String>, seen: bool) -> (s: String)
    ensures
        s@ == search_failure(texts(denied@), seen),
{
    if denied.len() > 0 {
        let mut s: String = "Permission denied opening ".to_owned();
        s.append(join_names(denied).as_str());
        s.append(
            ". Your session has no access to the Logitech HID nodes; see the udev setup in the README.",
        );
        s
    } else if !seen {
        "No Logitech HID device present.".to_owned()
    } else {
        "No Logitech HID++ device found.".to_owned()
    }
}

impl Search {
    /// Starts a search over nodes in the order in which they are to be tried.
    pub fn start(candidates: Vec<Candidate>) -> (s: Search)
        ensures
            s@ == Progress::fresh(nodes(candidates@)),
            s@.wf(),
    {
        let mut s = Search { candidates, at: 0, denied: Vec::new(), pending: Hunt::Open };
        assert(s@.denied =~= Seq::<Seq<char>>::empty());
        s.come_to_node();
        s
    }

    /// Turns to the node in hand, or gives up where there is none.
    fn come_to_node(&mut self)
        ensures
            final(self)@ == old(self)@.at_node(),
    {
        if self.at < self.candidates.len() {
            self.pending = Hunt::Open;
        } else {
            self.pending =
            Hunt::Failed(search_failure_text(&self.denied, self.candidates.len() > 0));
        }
    }

    /// Takes in what came of the action in hand, and settles on the next one.
    pub fn step(&mut self, attempt: Attempt<String>)
        requires
            old(self)@.wf(),
        ensures
            final(self)@ == old(self)@.next(shown_attempt(attempt)),
            final(self)@.wf(),
    {
        match (&self.pending, attempt) {
            (Hunt::Open, Attempt::Opened) => {
                self.pending = Hunt::Ping(0);
            },
            (Hunt::Open, Attempt::NotOpened(words)) => {
                let name = self.candidates[self.at].name.clone();
                let message = open_failure(node_path(name.as_str()).as_str(), words.as_str());
                let ghost denied = texts(self.denied@);
                if contains_text(message.as_str(), "Permission denied") {
                    self.denied.push(name);
                    assert(texts(self.denied@) == denied.push(name@));
                }
                assert(self.at < self.candidates.len());
                self.at = self.at + 1;
                self.come_to_node();
            },
            (Hunt::Ping(k), Attempt::Pinged(replied)) => {
                let k: usize = *k;
                if replied {
                    self.pending = Hunt::Found(probe_index(k));
                } else if k < PROBES - 1 {
                    self.pending = Hunt::Ping(k + 1);
                } else {
                    assert(self.at < self.candidates.len());
                    self.at = self.at + 1;
                    self.come_to_node();
                }
            },
            _ => {},
        }
    }
}

/// What to do after a search that found nothing.
pub enum Retry<S> {
    /// Sleep for [`READY_PAUSE_MS`] and search again.
    Again,
    /// Give up, for this reason.
    GiveUp(S),
}

/// The message of a device that did not become ready in time.
pub open spec fn not_ready(error: Seq<char>) -> Seq<char> {
    "Logitech receiver did not become ready within 5000ms: "@ + error
}

/// Decides, after a search that failed with `error`, whether to search again,
/// by the nanoseconds since the first search began.
pub fn retry(error: String, elapsed_nanos: u128) -> (r: Retry<String>)
    ensures
        match r {
            Retry::Again => elapsed_nanos < READY_LIMIT_MS * 1_000_000,
            Retry::GiveUp(message) => elapsed_nanos >= READY_LIMIT_MS * 1_000_000 && message@
                == not_ready(error@),
        },
{
    if elapsed_nanos >= READY_LIMIT_MS * 1_000_000 {
        let mut s: String = "Logitech receiver did not become ready within 5000ms: ".to_owned();
        s.append(error.as_str());
        Retry::GiveUp(s)
    } else {
        Retry::Again
    }
}

/// How a set of nodes behaves: the system's words where a node does not open,
/// and which device indices reply to a ping on it.
pub struct World {
    pub refusal: spec_fn(Seq<char>) -> Option<Seq<char>>,
    pub replies: spec_fn(Seq<char>, u8) -> bool,
}

impl World {
    /// What comes of the action that a search waits for.
    pub open spec fn attempt(self, p: Progress) -> Attempt<Seq<char>> {
        let name = p.nodes[p.at].name;
        match p.pending {
            Hunt::Ping(k) => Attempt::Pinged((self.replies)(name, spec_probe_index(k as int))),
            _ => match (self.refusal)(name) {
                Some(words) => Attempt::NotOpened(words),
                None => Attempt::Opened,
            },
        }
    }

    /// Nothing replies on a node to the first `k` probes.
    pub open spec fn silent(self, name: Seq<char>, k: int) -> bool {
        forall|j: int|
            0 <= j < k ==> !(#[trigger] (self.replies)(name, spec_probe_index(j)))
    }

    /// A node opens, and some device on it replies.
    pub open spec fn answers(self, name: Seq<char>) -> bool {
        (self.refusal)(name) is None && !self.silent(name, PROBES as int)
    }

    /// A node does not open for want of access.
    pub open spec fn denies(self, name: Seq<char>) -> bool {
        (self.refusal)(name) matches Some(words) && is_denial(name, words)
    }

    /// The names of the nodes that access is denied to, in order.
    pub open spec fn denied(self, nodes: Seq<Node>) -> Seq<Seq<char>>
        decreases nodes.len(),
    {
        if nodes.len() == 0 {
            Seq::empty()
        } else if self.denies(nodes.last().name) {
            self.denied(nodes.drop_last()).push(nodes.last().name)
        } else {
            self.denied(nodes.drop_last())
        }
    }
}

/// How many actions at most a search still takes.
pub open spec fn work_left(p: Progress) -> int {
    match p.pending {
        Hunt::Open => (p.nodes.len() - p.at) * (PROBES + 1),
        Hunt::Ping(k) => (p.nodes.len() - p.at) * (PROBES + 1) - 1 - k,
        _ => 0,
    }
}

/// A search carried through to its end.
pub open spec fn carried_through(p: Progress, world: World) -> Progress
    decreases work_left(p),
    when p.wf()
{
    if p.pending is Found || p.pending is Failed {
        p
    } else {
        carried_through(p.next(world.attempt(p)), world)
    }
}

/// A search comes to an end. It ends at the first node that opens and has a
/// device that replies, with the first of its indices that does; where there is
/// no such node, it fails, and tells which nodes access was denied to.
pub proof fn law_search_finds_the_first_answer(nodes: Seq<Node>, world: World)
    ensures
        ({
            let end = carried_through(Progress::fresh(nodes), world);
            match end.pending {
                Hunt::Found(index) => {
                    &&& 0 <= end.at < nodes.len()
                    &&& world.answers(nodes[end.at].name)
                    &&& forall|j: int|
                        0 <= j < end.at ==> !world.answers(#[trigger] nodes[j].name)
                    &&& exists|k: int|
                        {
                            &&& 0 <= k < PROBES
                            &&& index == spec_probe_index(k)
                            &&& #[trigger] world.silent(nodes[end.at].name, k)
                            &&& (world.replies)(nodes[end.at].name, index)
                        }
                },
                Hunt::Failed(message) => {
                    &&& forall|j: int|
                        0 <= j < nodes.len() ==> !world.answers(#[trigger] nodes[j].name)
                    &&& message == search_failure(world.denied(nodes), nodes.len() > 0)
                },
                _ => false,
            }
        }),
{
    assert(nodes.take(0) =~= Seq::empty());
    assert(nodes.take(nodes.len() as int) =~= nodes);
    lemma_search(Progress::fresh(nodes), world);
}

/// What a search has behind it.
spec fn on_track(p: Progress, world: World) -> bool {
    &&& p.wf()
    &&& p.at <= p.nodes.len()
    &&& p.denied == world.denied(p.nodes.take(p.at))
    &&& forall|j: int| 0 <= j < p.at ==> !world.answers(#[trigger] p.nodes[j].name)
    &&& match p.pending {
        Hunt::Open => true,
        Hunt::Ping(k) => {
            &&& (world.refusal)(p.nodes[p.at].name) is None
            &&& world.silent(p.nodes[p.at].name, k as int)
        },
        Hunt::Found(index) => {
            &&& world.answers(p.nodes[p.at].name)
            &&& exists|k: int|
                {
                    &&& 0 <= k < PROBES
                    &&& index == spec_probe_index(k)
                    &&& #[trigger] world.silent(p.nodes[p.at].name, k)
                    &&& (world.replies)(p.nodes[p.at].name, index)
                }
        },
        Hunt::Failed(message) => {
            &&& p.at == p.nodes.len()
            &&& message == search_failure(p.denied, p.nodes.len() > 0)
        },
    }
}

proof fn lemma_search(p: Progress, world: World)
    requires
        on_track(p, world),
    ensures
        ({
            let end = carried_through(p, world);
            &&& on_track(end, world)
            &&& end.nodes == p.nodes
            &&& end.pending is Found || end.pending is Failed
            &&& end.pending is Failed ==> end.denied == world.denied(p.nodes)
        }),
    decreases work_left(p),
{
    if p.pending is Found {
    } else if p.pending is Failed {
        assert(p.nodes.take(p.at) =~= p.nodes);
    } else {
        let q = p.next(world.attempt(p));
        let name = p.nodes[p.at].name;
        assert(p.nodes.take(p.at + 1).drop_last() =~= p.nodes.take(p.at));
        assert(p.nodes.take(p.at + 1).last() == p.nodes[p.at]);
        if let Hunt::Ping(k) = p.pending {
            assert(!(world.replies)(name, spec_probe_index(k as int)) ==> world.silent(
                name,
                k + 1,
            ));
        }
        assert(on_track(q, world));
        lemma_search(q, world);
    }
}

/// The probes are the six slots of a receiver in order and then the index of a
/// device that is connected directly, each once and nothing else.
pub proof fn law_probes(k: int, index: u8)
    ensures
        PROBES == 7,
        0 <= k < 6 ==> spec_probe_index(k) == k + 1,
        spec_probe_index(6) == 0xff,
        1 <= index <= 6 || index == 0xff ==> exists|j: int|
            0 <= j < 7 && #[trigger] spec_probe_index(j) == index,
{
    if 1 <= index <= 6 {
        assert(spec_probe_index(index - 1) == index);
    } else if index == 0xff {
        assert(spec_probe_index(6) == index);
    }
}

/// No device is missed: where some device with the index of a slot or of a
/// direct connection replies on a node that opens, the search finds a device,
/// on that node or on one in front of it.
pub proof fn law_no_device_is_missed(nodes: Seq<Node>, world: World, j: int, index: u8)
    requires
        0 <= j < nodes.len(),
        (world.refusal)(nodes[j].name) is None,
        1 <= index <= 6 || index == 0xff,
        (world.replies)(nodes[j].name, index),
    ensures
        ({
            let end = carried_through(Progress::fresh(nodes), world);
            &&& end.pending matches Hunt::Found(found)
            &&& 0 <= end.at <= j
            &&& (world.refusal)(nodes[end.at].name) is None
            &&& (world.replies)(nodes[end.at].name, found)
            &&& 1 <= found <= 6 || found == 0xff
            &&& end.at == j && index <= 6 ==> found <= index
        }),
{
    law_search_finds_the_first_answer(nodes, world);
    law_probes(0, index);
    let m = choose|m: int| 0 <= m < 7 && #[trigger] spec_probe_index(m) == index;
    assert((world.replies)(nodes[j].name, spec_probe_index(m)));
    assert(!world.silent(nodes[j].name, PROBES as int));
    assert(world.answers(nodes[j].name));
    let end = carried_through(Progress::fresh(nodes), world);
    let name = nodes[end.at].name;
    let found = end.pending->Found_0;
    let k = choose|k: int|
        {
            &&& 0 <= k < PROBES
            &&& found == spec_probe_index(k)
            &&& #[trigger] world.silent(name, k)
            &&& (world.replies)(name, found)
        };
    if end.at == j && index <= 6 {
        assert(m == index - 1);
        assert(k <= m);
    }
}

/// The vendor is the second number of the first line that starts with
/// `HID_ID=`, the numbers standing between colons in hexadecimal; it is Logitech
/// where that number is 46d.
pub proof fn law_vendor_is_the_second_number(
    lines: Seq<Seq<char>>,
    k: int,
    numbers: Seq<Seq<char>>,
)
    requires
        0 <= k <= lines.len(),
        lines.len() > 0,
        text::free_of(lines, '\n'),
        forall|i: int| 0 <= i < k ==> !"HID_ID="@.is_prefix_of(#[trigger] text::shorn(lines, i)),
        numbers.len() > 0,
        text::free_of(numbers, ':'),
        k < lines.len() ==> text::shorn(lines, k) == "HID_ID="@ + text::joined_by(numbers, ':'),
    ensures
        names_logitech(text::joined_by(lines, '\n')) <==> k < lines.len() && numbers.len() >= 2
            && text::spec_hex_number(numbers[1]) == Some(0x46dnat),
{
    let tag = "HID_ID="@;
    let whole = tag + text::joined_by(numbers, ':');
    assert(tag.is_prefix_of(whole)) by {
        assert(whole.subrange(0, tag.len() as int) =~= tag);
    }
    assert(whole.skip(tag.len() as int) =~= text::joined_by(numbers, ':'));
    text::law_first_tagged_line_counts(lines, tag, k);
    text::law_cutting_undoes_joining(numbers, ':', 1);
}

/// A node counts as one of the vendor's where its name begins with `hidraw` and
/// its uevent text can be read and names the vendor.
pub proof fn law_vendor_nodes(rest: Seq<char>, uevent: Seq<char>)
    ensures
        is_vendor_node("hidraw"@ + rest, Some(uevent)) <==> names_logitech(uevent),
        !is_vendor_node("hidraw"@ + rest, None),
        !"hidraw"@.is_prefix_of(rest) ==> !is_vendor_node(rest, Some(uevent)),
{
    let name = "hidraw"@ + rest;
    assert("hidraw"@.is_prefix_of(name)) by {
        assert(name.subrange(0, "hidraw"@.len() as int) =~= "hidraw"@);
    }
}

/// The HID++ usage page is opened by three bytes in a row, anywhere among
/// others, and by nothing else.
pub proof fn law_usage_page(before: Seq<u8>, after: Seq<u8>, descriptor: Seq<u8>)
    ensures
        opens_hidpp_page(before + seq![0x06u8, 0x00u8, 0xffu8] + after),
        opens_hidpp_page(descriptor) ==> exists|i: int|
            0 <= i && i + 3 <= descriptor.len() && #[trigger] descriptor[i] == 0x06 && descriptor[i
                + 1] == 0x00 && descriptor[i + 2] == 0xff,
{
    let page = seq![0x06u8, 0x00u8, 0xffu8];
    let whole = before + page + after;
    let at = before.len() as int;
    assert(whole[at] == page[0] && whole[at + 1] == page[1] && whole[at + 2] == page[2]);
    assert(hidpp_page_at(whole, at));
    if opens_hidpp_page(descriptor) {
        let i = choose|i: int| #[trigger] hidpp_page_at(descriptor, i);
        assert(descriptor[i] == 0x06);
    }
}

/// Nodes that open the usage page come before those that do not, whatever their
/// names. Among equals a name comes before its own continuations, and where two
/// names part the smaller character comes first.
pub proof fn law_order_of_trying(
    front: Seq<char>,
    x: char,
    y: char,
    a: Seq<char>,
    b: Seq<char>,
    hidpp: bool,
)
    ensures
        node_le(Node { name: a, hidpp: true }, Node { name: b, hidpp: false }),
        !node_le(Node { name: a, hidpp: false }, Node { name: b, hidpp: true }),
        node_le(Node { name: front, hidpp }, Node { name: front + a, hidpp }),
        x < y ==> node_le(
            Node { name: front.push(x) + a, hidpp },
            Node { name: front.push(y) + b, hidpp },
        ) && !node_le(
            Node { name: front.push(y) + b, hidpp },
            Node { name: front.push(x) + a, hidpp },
        ),
    decreases front.len(),
{
    if front.len() > 0 {
        let rest = front.drop_first();
        law_order_of_trying(rest, x, y, a, b, hidpp);
        assert((front + a).drop_first() =~= rest + a);
        assert((front.push(x) + a).drop_first() =~= rest.push(x) + a);
        assert((front.push(y) + b).drop_first() =~= rest.push(y) + b);
    }
}

/// A node that does not open counts as denied where the system's words say so,
/// or its name does, and not otherwise.
pub proof fn law_denial(name: Seq<char>, words: Seq<char>)
    ensures
        is_denial(name, words) <==> text::occurs(name, "Permission denied"@) || text::occurs(
            words,
            "Permission denied"@,
        ),
{
    reveal_strlit("Permission denied");
    reveal_strlit("open ");
    reveal_strlit("/dev/");
    reveal_strlit(": ");
    let needle = "Permission denied"@;
    let whole = device::spec_open_failure(spec_node_path(name), words);
    let c = 10 + name.len() as int;
    let n = needle.len() as int;
    assert(n == 17);
    assert(whole[9] == '/');
    assert(whole[c] == ':' && whole[c + 1] == ' ');
    assert(whole.subrange(10, c) =~= name);
    assert(whole.skip(c + 2) =~= words);
    assert(whole.len() == c + 2 + words.len());
    if text::occurs(whole, needle) {
        let i = choose|i: int| #[trigger] text::occurs_at(whole, needle, i);
        let part = whole.subrange(i, i + n);
        assert(part == needle);
        assert forall|j: int| 0 <= j < n implies #[trigger] part[j] != '/' && part[j] != ':' by {}
        if i <= 9 {
            assert(part[9 - i] == whole[9]);
        }
        if i <= c < i + n {
            assert(part[c - i] == whole[c]);
        }
        assert(part[0] == whole[i]);
        if i < c {
            assert(name.subrange(i - 10, i - 10 + n) =~= part);
            assert(text::occurs_at(name, needle, i - 10));
        } else {
            assert(i != c + 1);
            assert(words.subrange(i - c - 2, i - c - 2 + n) =~= part);
            assert(text::occurs_at(words, needle, i - c - 2));
        }
    }
    if text::occurs(name, needle) {
        let i = choose|i: int| #[trigger] text::occurs_at(name, needle, i);
        assert(whole.subrange(10 + i, 10 + i + n) =~= name.subrange(i, i + n));
        assert(text::occurs_at(whole, needle, 10 + i));
    }
    if text::occurs(words, needle) {
        let i = choose|i: int| #[trigger] text::occurs_at(words, needle, i);
        assert(whole.subrange(c + 2 + i, c + 2 + i + n) =~= words.subrange(i, i + n));
        assert(text::occurs_at(whole, needle, c + 2 + i));
    }
}

/// What a search that found nothing says. Where access to a node was denied it
/// names those nodes between fixed words; else it tells whether there was any
/// node at all.
pub proof fn law_failure_of_a_search(denied: Seq<Seq<char>>, seen: bool)
    ensures
        denied.len() > 0 ==> search_failure(denied, seen) == "Permission denied opening "@ + joined(
            denied,
        )
            + ". Your session has no access to the Logitech HID nodes; see the udev setup in the README."@,
        denied.len() == 0 && !seen ==> search_failure(denied, seen)
            == "No Logitech HID device present."@,
        denied.len() == 0 && seen ==> search_failure(denied, seen)
            == "No Logitech HID++ device found."@,
{
}

/// Names in a row: one stands alone, and two rows make one with a comma and a
/// blank between them.
pub proof fn law_names_in_a_row(name: Seq<char>, a: Seq<Seq<char>>, b: Seq<Seq<char>>)
    requires
        a.len() > 0,
        b.len() > 0,
    ensures
        joined(seq![name]) == name,
        joined(a + b) == joined(a) + ", "@ + joined(b),
    decreases b.len(),
{
    if b.len() == 1 {
        assert((a + b).drop_last() =~= a);
        assert((a + b).last() == b[0]);
    } else {
        assert((a + b).drop_last() =~= a + b.drop_last());
        law_names_in_a_row(name, a, b.drop_last());
        assert(joined(a + b) =~= joined(a) + ", "@ + joined(b));
    }
}

/// The nodes that a search names as denied are those that did not open for want
/// of access, in the order in which they were tried.
pub proof fn law_denied_nodes_are_named_in_order(world: World, nodes: Seq<Node>, node: Node)
    ensures
        world.denied(Seq::empty()).len() == 0,
        ({
            let denies = (world.refusal)(node.name) matches Some(words) && (text::occurs(
                words,
                "Permission denied"@,
            ) || text::occurs(node.name, "Permission denied"@));
            world.denied(nodes.push(node)) == (if denies {
                world.denied(nodes).push(node.name)
            } else {
                world.denied(nodes)
            })
        }),
{
    assert(nodes.push(node).drop_last() =~= nodes);
    if let Some(words) = (world.refusal)(node.name) {
        law_denial(node.name, words);
    }
}

/// Nodes are opened under `/dev`.
pub proof fn law_node_path(name: Seq<char>)
    ensures
        spec_node_path(name) == "/dev/"@ + name,
{
}

/// Attempts out of turn change nothing, and no attempt changes the nodes.
pub proof fn law_attempts_out_of_turn(p: Progress, attempt: Attempt<Seq<char>>)
    ensures
        p.next(attempt).nodes == p.nodes,
        (attempt is Pinged && !(p.pending is Ping)) || (!(attempt is Pinged) && !(p.pending is Open))
            ==> p.next(attempt) == p,
{
}

/// What follows each attempt. An open node is pinged from the first probe on. A
/// probe without a reply is followed by the next, and the last one by the next
/// node, as is a node that does not open. A reply ends the search with the index
/// that was probed.
pub proof fn law_what_follows_an_attempt(p: Progress, words: Seq<char>)
    requires
        p.wf(),
    ensures
        p.pending is Open ==> {
            let open = p.next(Attempt::Opened);
            let shut = p.next(Attempt::NotOpened(words));
            &&& open == (Progress { pending: Hunt::Ping(0), ..p })
            &&& shut.at == p.at + 1
            &&& p.at + 1 < p.nodes.len() ==> shut.pending is Open
            &&& p.at + 1 >= p.nodes.len() ==> shut.pending is Failed
        },
        p.pending matches Hunt::Ping(k) ==> {
            let reply = p.next(Attempt::Pinged(true));
            let none = p.next(Attempt::Pinged(false));
            &&& reply.at == p.at
            &&& reply.denied == p.denied
            &&& reply.pending == Hunt::<Seq<char>>::Found(
                (if k < 6 {
                    k + 1
                } else {
                    0xff
                }) as u8,
            )
            &&& none.denied == p.denied
            &&& k < 6 ==> none == (Progress { pending: Hunt::Ping((k + 1) as usize), ..p })
            &&& k == 6 ==> none.at == p.at + 1 && (p.at + 1 < p.nodes.len() ==> none.pending is Open)
                && (p.at + 1 >= p.nodes.len() ==> none.pending is Failed)
        },
{
}

/// A search is what its fields hold, and an attempt what it brings, where
/// contracts speak of them.
pub proof fn law_search_is_what_it_holds(s: Search, c: Candidate, words: String, replied: bool)
    ensures
        c@.name == c.name@,
        c@.hidpp == c.hidpp,
        s@.nodes.len() == s.candidates@.len(),
        forall|i: int| 0 <= i < s.candidates@.len() ==> #[trigger] s@.nodes[i] == s.candidates@[i]@,
        s@.at == s.at,
        s@.denied.len() == s.denied@.len(),
        forall|i: int| 0 <= i < s.denied@.len() ==> #[trigger] s@.denied[i] == s.denied@[i]@,
        match s.pending {
            Hunt::Open => s@.pending is Open,
            Hunt::Ping(k) => s@.pending == Hunt::<Seq<char>>::Ping(k),
            Hunt::Found(index) => s@.pending == Hunt::<Seq<char>>::Found(index),
            Hunt::Failed(message) => s@.pending == Hunt::<Seq<char>>::Failed(message@),
        },
        shown_attempt(Attempt::Opened) is Opened,
        shown_attempt(Attempt::NotOpened(words)) == Attempt::<Seq<char>>::NotOpened(words@),
        shown_attempt(Attempt::Pinged(replied)) == Attempt::<Seq<char>>::Pinged(replied),
{
}

} // verus!
