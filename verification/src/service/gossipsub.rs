//! The gossipsub service: its messages and its errors as lapps see them.

use vstd::prelude::*;
use vstd::string::*;

use crate::route::gossipsub::{Error as WasmError, ErrorKind, Message as P2pMessage, MessageIn, MessageOut};
use crate::text::str_eq;

verus! {

broadcast use vstd::seq::group_seq_axioms;

/// A message for the gossipsub service of a lapp.
pub struct GossipsubServiceMessage(pub MessageOut);

/// Failures of the peer-to-peer service, each with the text of its cause.
pub enum Error {
    NoiseError(String),
    HashError(String),
    IdentityDecodeError(String),
    WrongMultiaddr(String),
    DialError(String),
    Io(String),
    WrongBehaviour(String),
    GossipsubUninit(String),
    GossipsubSubscribtionError(String),
    GossipsubPublishError(String),
    ParsePeerIdError(String),
    TransportError(String),
}

impl Error {
    /// The message of the error.
    pub open spec fn message_spec(&self) -> Seq<char> {
        match self {
            Error::NoiseError(s) => "Noise error: "@ + s@,
            Error::HashError(s) => "Hash error: "@ + s@,
            Error::IdentityDecodeError(s) => "Fail identity decode: "@ + s@,
            Error::WrongMultiaddr(s) => "Wrong multiaddr: "@ + s@,
            Error::DialError(s) => "Dial error: "@ + s@,
            Error::Io(s) => "I/O error: "@ + s@,
            Error::WrongBehaviour(s) => "Wrong behaviour: "@ + s@,
            Error::GossipsubUninit(s) => "Gossipsub uninitialize: "@ + s@,
            Error::GossipsubSubscribtionError(s) => "Gossipsub subscription error: "@ + s@,
            Error::GossipsubPublishError(s) => "Gossipsub publish error: "@ + s@,
            Error::ParsePeerIdError(s) => "Parse peer ID error: "@ + s@,
            Error::TransportError(s) => "Transport error: "@ + s@,
        }
    }

    /// The kind under which a lapp hears of the error.
    pub open spec fn kind_spec(&self) -> ErrorKind {
        match self {
            Error::GossipsubPublishError(_) => ErrorKind::GossipsubPublishError,
            Error::ParsePeerIdError(_) => ErrorKind::ParsePeerIdError,
            Error::DialError(_) => ErrorKind::DialError,
            Error::WrongMultiaddr(_) => ErrorKind::WrongMultiaddr,
            _ => ErrorKind::Other,
        }
    }

    /// The message of the error.
    pub fn to_string(&self) -> (r: String)
        ensures
            r@ == self.message_spec(),
    {
        let (prefix, cause) = match self {
            Error::NoiseError(s) => ("Noise error: ", s),
            Error::HashError(s) => ("Hash error: ", s),
            Error::IdentityDecodeError(s) => ("Fail identity decode: ", s),
            Error::WrongMultiaddr(s) => ("Wrong multiaddr: ", s),
            Error::DialError(s) => ("Dial error: ", s),
            Error::Io(s) => ("I/O error: ", s),
            Error::WrongBehaviour(s) => ("Wrong behaviour: ", s),
            Error::GossipsubUninit(s) => ("Gossipsub uninitialize: ", s),
            Error::GossipsubSubscribtionError(s) => ("Gossipsub subscription error: ", s),
            Error::GossipsubPublishError(s) => ("Gossipsub publish error: ", s),
            Error::ParsePeerIdError(s) => ("Parse peer ID error: ", s),
            Error::TransportError(s) => ("Transport error: ", s),
        };
        let mut r = prefix.to_owned();
        r.append(cause.as_str());
        r
    }

    /// The error as a lapp hears of it: its message and its kind.
    pub fn into_wasm_error(self) -> (r: WasmError)
        ensures
            r.message@ == self.message_spec(),
            r.kind == self.kind_spec(),
    {
        let kind = match &self {
            Error::GossipsubPublishError(_) => ErrorKind::GossipsubPublishError,
            Error::ParsePeerIdError(_) => ErrorKind::ParsePeerIdError,
            Error::DialError(_) => ErrorKind::DialError,
            Error::WrongMultiaddr(_) => ErrorKind::WrongMultiaddr,
            _ => ErrorKind::Other,
        };
        WasmError { message: self.to_string(), kind }
    }
}

/// The addresses under which a peer was discovered, in order of discovery.
pub struct PeerEntry {
    pub peer_id: String,
    pub addresses: Vec<String>,
}

/// The texts of some addresses.
pub open spec fn texts(v: Seq<String>) -> Seq<Seq<char>> {
    v.map_values(|a: String| a@)
}

/// The peers discovered on the local network and their addresses.
pub struct PeerBook {
    peers: Vec<PeerEntry>,
}

impl PeerBook {
    pub closed spec fn entries(&self) -> Seq<PeerEntry> {
        self.peers@
    }

    /// No peer twice, and no address twice for one peer.
    pub open spec fn wf(&self) -> bool {
        &&& forall|i: int, j: int|
            0 <= i < self.entries().len() && 0 <= j < self.entries().len() && i != j
                ==> (#[trigger] self.entries()[i]).peer_id@ != (#[trigger] self.entries()[j]).peer_id@
        &&& forall|i: int| 0 <= i < self.entries().len() ==> texts((#[trigger] self.entries()[i]).addresses@).no_duplicates()
    }

    pub open spec fn has_peer(&self, id: Seq<char>) -> bool {
        exists|i: int| 0 <= i < self.entries().len() && (#[trigger] self.entries()[i]).peer_id@ == id
    }

    pub open spec fn index_of(&self, id: Seq<char>) -> int {
        choose|i: int| 0 <= i < self.entries().len() && (#[trigger] self.entries()[i]).peer_id@ == id
    }

    /// The addresses of a peer, in order of discovery; none for an unknown peer.
    pub open spec fn addresses_of(&self, id: Seq<char>) -> Seq<Seq<char>> {
        if self.has_peer(id) {
            texts(self.entries()[self.index_of(id)].addresses@)
        } else {
            Seq::empty()
        }
    }

    /// A book with no peer.
    pub fn new() -> (r: Self)
        ensures
            r.wf(),
            forall|id: Seq<char>| !r.has_peer(id),
    {
        PeerBook { peers: Vec::new() }
    }

    fn find(&self, id: &str) -> (r: Option<usize>)
        requires
            self.wf(),
        ensures
            match r {
                Some(i) => i < self.entries().len() && self.entries()[i as int].peer_id@ == id@
                    && self.has_peer(id@) && self.index_of(id@) == i,
                None => !self.has_peer(id@),
            },
    {
        let n = self.peers.len();
        for i in 0..n
            invariant
                n == self.entries().len(),
                self.wf(),
                forall|j: int| 0 <= j < i ==> (#[trigger] self.entries()[j]).peer_id@ != id@,
        {
            if str_eq(self.peers[i].peer_id.as_str(), id) {
                proof {
                    let k = self.index_of(id@);
                    assert(self.entries()[k].peer_id@ == id@);
                }
                return Some(i);
            }
        }
        None
    }

    /// Records that `peer_id` was discovered at `address`; an address it
    /// already has is not added twice.
    pub fn discovered(&mut self, peer_id: String, address: String)
        requires
            old(self).wf(),
        ensures
            final(self).wf(),
            final(self).has_peer(peer_id@),
            final(self).addresses_of(peer_id@) == if old(self).addresses_of(peer_id@).contains(address@) {
                old(self).addresses_of(peer_id@)
            } else {
                old(self).addresses_of(peer_id@).push(address@)
            },
            forall|id: Seq<char>| id != peer_id@ ==> final(self).has_peer(id) == old(self).has_peer(id)
                && final(self).addresses_of(id) == old(self).addresses_of(id),
    {
        let ghost key = peer_id@;
        match self.find(peer_id.as_str()) {
            Some(i) => {
                let mut entry = self.peers.remove(i);
                let ghost before = entry.addresses@;
                assert(texts(before).no_duplicates());
                if !contains_address(&entry.addresses, address.as_str()) {
                    entry.addresses.push(address);
                    proof {
                        assert(texts(entry.addresses@) =~= texts(before).push(address@));
                        assert forall|a: int, b: int| 0 <= a < texts(entry.addresses@).len()
                            && 0 <= b < texts(entry.addresses@).len() && a != b
                            implies texts(entry.addresses@)[a] != texts(entry.addresses@)[b] by {
                            if b == texts(before).len() {
                                assert(texts(before)[a] == texts(entry.addresses@)[a]);
                            } else if a == texts(before).len() {
                                assert(texts(before)[b] == texts(entry.addresses@)[b]);
                            } else {
                                assert(texts(before)[a] == texts(entry.addresses@)[a]);
                                assert(texts(before)[b] == texts(entry.addresses@)[b]);
                            }
                        }
                    }
                }
                assert(texts(entry.addresses@).no_duplicates());
                assert(texts(entry.addresses@) == if texts(before).contains(address@) {
                    texts(before)
                } else {
                    texts(before).push(address@)
                });
                self.peers.insert(i, entry);
                assert(self.entries() =~= old(self).entries().update(i as int, entry));
                proof {
                    assert(self.entries()[i as int].peer_id@ == key);
                    assert forall|k: int| 0 <= k < self.entries().len()
                        implies texts((#[trigger] self.entries()[k]).addresses@).no_duplicates() by {
                        if k != i {
                            assert(self.entries()[k] == old(self).entries()[k]);
                        }
                    }
                    assert(old(self).addresses_of(key) == texts(before));
                    assert forall|a: int, b: int|
                        0 <= a < self.entries().len() && 0 <= b < self.entries().len() && a != b
                        implies (#[trigger] self.entries()[a]).peer_id@ != (#[trigger] self.entries()[b]).peer_id@ by {
                        assert(self.entries()[a].peer_id@ == old(self).entries()[a].peer_id@);
                        assert(self.entries()[b].peer_id@ == old(self).entries()[b].peer_id@);
                    }
                    assert(self.wf());
                    assert forall|id: Seq<char>| id != key implies self.has_peer(id) == old(self).has_peer(id)
                        && self.addresses_of(id) == old(self).addresses_of(id) by {
                        if old(self).has_peer(id) {
                            let k = old(self).index_of(id);
                            assert(self.entries()[k] == old(self).entries()[k]);
                        }
                        if self.has_peer(id) {
                            let k = self.index_of(id);
                            assert(self.entries()[k] == old(self).entries()[k]);
                            let k2 = old(self).index_of(id);
                            assert(old(self).entries()[k2].peer_id@ == id);
                        }
                    }
                    let k = self.index_of(key);
                    assert(self.entries()[k].peer_id@ == key);
                }
            },
            None => {
                let mut addresses: Vec<String> = Vec::new();
                addresses.push(address);
                let entry = PeerEntry { peer_id, addresses };
                self.peers.push(entry);
                let ghost last: int = self.entries().len() - 1;
                proof {
                    assert(self.entries()[last].peer_id@ == key);
                    assert(texts(self.entries()[last].addresses@) =~= seq![address@]);
                    assert forall|a: int, b: int|
                        0 <= a < self.entries().len() && 0 <= b < self.entries().len() && a != b
                        implies (#[trigger] self.entries()[a]).peer_id@ != (#[trigger] self.entries()[b]).peer_id@ by {
                        if a == last {
                            assert(self.entries()[b] == old(self).entries()[b]);
                        } else if b == last {
                            assert(self.entries()[a] == old(self).entries()[a]);
                        } else {
                            assert(self.entries()[a] == old(self).entries()[a]);
                            assert(self.entries()[b] == old(self).entries()[b]);
                        }
                    }
                    assert forall|k: int| 0 <= k < self.entries().len()
                        implies texts((#[trigger] self.entries()[k]).addresses@).no_duplicates() by {
                        if k != last {
                            assert(self.entries()[k] == old(self).entries()[k]);
                        }
                    }
                    assert(self.wf());
                    assert(Seq::<Seq<char>>::empty().push(address@) =~= seq![address@]);
                    assert forall|id: Seq<char>| id != key implies self.has_peer(id) == old(self).has_peer(id)
                        && self.addresses_of(id) == old(self).addresses_of(id) by {
                        if old(self).has_peer(id) {
                            let k = old(self).index_of(id);
                            assert(self.entries()[k] == old(self).entries()[k]);
                        }
                        if self.has_peer(id) {
                            let k = self.index_of(id);
                            assert(k != last);
                            assert(self.entries()[k] == old(self).entries()[k]);
                            let k2 = old(self).index_of(id);
                            assert(old(self).entries()[k2].peer_id@ == id);
                        }
                    }
                    let k = self.index_of(key);
                    assert(self.entries()[k].peer_id@ == key);
                }
            },
        }
    }

    /// Forgets a peer whose discovery expired.
    pub fn expired(&mut self, peer_id: &str)
        requires
            old(self).wf(),
        ensures
            final(self).wf(),
            !final(self).has_peer(peer_id@),
            forall|id: Seq<char>| id != peer_id@ ==> final(self).has_peer(id) == old(self).has_peer(id)
                && final(self).addresses_of(id) == old(self).addresses_of(id),
    {
        match self.find(peer_id) {
            Some(i) => {
                self.peers.remove(i);
                assert(self.entries() =~= old(self).entries().remove(i as int));
                proof {
                    assert forall|k: int| 0 <= k < self.entries().len() implies
                        (#[trigger] self.entries()[k]) == old(self).entries()[if k < i { k } else { k + 1 }] by {}
                    if self.has_peer(peer_id@) {
                        let k = self.index_of(peer_id@);
                        let ok = if k < i { k } else { k + 1 };
                        assert(old(self).entries()[ok].peer_id@ == peer_id@);
                        assert(old(self).entries()[i as int].peer_id@ == peer_id@);
                    }
                    assert forall|id: Seq<char>| id != peer_id@ implies self.has_peer(id) == old(self).has_peer(id)
                        && self.addresses_of(id) == old(self).addresses_of(id) by {
                        if old(self).has_peer(id) {
                            let k = old(self).index_of(id);
                            assert(k != i);
                            let nk = if k < i { k } else { k - 1 };
                            assert(self.entries()[nk] == old(self).entries()[k]);
                        }
                        if self.has_peer(id) {
                            let k = self.index_of(id);
                            let ok = if k < i { k } else { k + 1 };
                            assert(self.entries()[k] == old(self).entries()[ok]);
                            let k2 = old(self).index_of(id);
                            assert(old(self).entries()[k2].peer_id@ == id);
                        }
                    }
                }
            },
            None => {},
        }
    }

    /// The first address under which a peer was discovered.
    pub fn first_address(&self, peer_id: &str) -> (r: Option<String>)
        requires
            self.wf(),
        ensures
            (r is Some) <==> self.addresses_of(peer_id@).len() > 0,
            r matches Some(a) ==> a@ == self.addresses_of(peer_id@)[0],
    {
        match self.find(peer_id) {
            Some(i) => {
                if self.peers[i].addresses.len() > 0 {
                    Some(self.peers[i].addresses[0].clone())
                } else {
                    None
                }
            },
            None => None,
        }
    }

    /// How a lapp's request to dial a peer is carried out: `peer_id` is the
    /// peer's id as parsed from the request, or why it did not parse.
    pub fn plan_dial(&self, peer_id: Result<String, String>, dial_ports: &Vec<u16>) -> (r: DialPlan)
        requires
            self.wf(),
        ensures
            match peer_id {
                Err(e) => r == DialPlan::BadPeerId(e),
                Ok(id) => if self.addresses_of(id@).len() > 0 {
                    r matches DialPlan::Dial { address, ports }
                        && address@ == self.addresses_of(id@)[0] && ports@ == dial_ports@
                } else {
                    r is NoAddress
                },
            },
    {
        match peer_id {
            Err(e) => DialPlan::BadPeerId(e),
            Ok(id) => match self.first_address(id.as_str()) {
                Some(address) => DialPlan::Dial { address, ports: dial_ports.clone() },
                None => DialPlan::NoAddress,
            },
        }
    }
}

/// Whether `a` is among the texts of `v`.
fn contains_address(v: &Vec<String>, a: &str) -> (r: bool)
    ensures
        r == texts(v@).contains(a@),
{
    let n = v.len();
    for i in 0..n
        invariant
            n == v@.len(),
            forall|j: int| 0 <= j < i ==> (#[trigger] v@[j])@ != a@,
    {
        if str_eq(v[i].as_str(), a) {
            assert(texts(v@)[i as int] == a@);
            return true;
        }
    }
    proof {
        if texts(v@).contains(a@) {
            let j = choose|j: int| 0 <= j < texts(v@).len() && texts(v@)[j] == a@;
            assert(v@[j]@ == a@);
        }
    }
    false
}

/// How a dial request is carried out.
pub enum DialPlan {
    /// The peer id did not parse, for this reason.
    BadPeerId(String),
    /// The peer was never discovered.
    NoAddress,
    /// Dial the peer's first address once for each port, with the port in
    /// place of the address's last part.
    Dial { address: String, ports: Vec<u16> },
}

/// What a lapp is told of a gossip message: the message where it came on
/// the lapp's topic, else nothing.
pub fn gossip_to_lapp(on_topic: bool, peer_id: String, text: String) -> (r: Option<MessageIn>)
    ensures
        on_topic ==> r == Some(MessageIn::Text { peer_id, msg: text }),
        !on_topic ==> r is None,
{
    if on_topic {
        Some(MessageIn::Text { peer_id, msg: text })
    } else {
        None
    }
}

/// The answer to a lapp's peer-to-peer request, and whether the service
/// stops; `result` tells whether the request asked it to stop.
pub fn p2p_reply(id: String, result: Result<bool, Error>) -> (r: (MessageIn, bool))
    ensures
        r.1 == (result matches Ok(stop) && stop),
        r.0 matches MessageIn::Response { id: i, result: res } && i == id
            && (res is Ok <==> result is Ok)
            && (result matches Err(e) ==> (res matches Err(w) && w.message@ == e.message_spec() && w.kind == e.kind_spec())),
{
    match result {
        Ok(stop) => (MessageIn::Response { id, result: Ok(()) }, stop),
        Err(e) => (MessageIn::Response { id, result: Err(e.into_wasm_error()) }, false),
    }
}

// ---------------------------------------------------------------------------
// Handling a lapp's requests
// ---------------------------------------------------------------------------

/// How a lapp's peer-to-peer request ends.
#[derive(Debug, Clone, Copy, PartialEq, Eq, Structural)]
pub enum P2pOutcome {
    /// The service stops.
    Stop,
    /// The service goes on.
    Continue,
    /// The request failed in this way; the service goes on.
    Failed(ErrorKind),
}

/// How a request ends: `Close` stops the service; a text is published; a dial
/// follows its plan (from `PeerBook::plan_dial`); an added address must
/// parse (`address_ok`) before it is dialled. `sent` tells whether the
/// publish or the dials went out.
pub fn p2p_outcome(msg: &P2pMessage, dial: Option<&DialPlan>, address_ok: bool, sent: bool) -> (r: P2pOutcome)
    requires
        msg is Dial ==> dial is Some,
    ensures
        match msg {
            P2pMessage::Close => r == P2pOutcome::Stop,
            P2pMessage::Text { .. } => r == if sent {
                P2pOutcome::Continue
            } else {
                P2pOutcome::Failed(ErrorKind::GossipsubPublishError)
            },
            P2pMessage::Dial(_) => r == match dial.unwrap() {
                DialPlan::BadPeerId(_) => P2pOutcome::Failed(ErrorKind::ParsePeerIdError),
                DialPlan::NoAddress => P2pOutcome::Failed(ErrorKind::DialError),
                DialPlan::Dial { .. } => if sent {
                    P2pOutcome::Continue
                } else {
                    P2pOutcome::Failed(ErrorKind::DialError)
                },
            },
            P2pMessage::AddAddress(_) => r == if !address_ok {
                P2pOutcome::Failed(ErrorKind::WrongMultiaddr)
            } else if sent {
                P2pOutcome::Continue
            } else {
                P2pOutcome::Failed(ErrorKind::DialError)
            },
        },
{
    match msg {
        P2pMessage::Close => P2pOutcome::Stop,
        P2pMessage::Text { .. } => if sent {
            P2pOutcome::Continue
        } else {
            P2pOutcome::Failed(ErrorKind::GossipsubPublishError)
        },
        P2pMessage::Dial(_) => match dial {
            Some(DialPlan::BadPeerId(_)) => P2pOutcome::Failed(ErrorKind::ParsePeerIdError),
            Some(DialPlan::NoAddress) => P2pOutcome::Failed(ErrorKind::DialError),
            Some(DialPlan::Dial { .. }) => if sent {
                P2pOutcome::Continue
            } else {
                P2pOutcome::Failed(ErrorKind::DialError)
            },
            None => P2pOutcome::Failed(ErrorKind::DialError),
        },
        P2pMessage::AddAddress(_) => if !address_ok {
            P2pOutcome::Failed(ErrorKind::WrongMultiaddr)
        } else if sent {
            P2pOutcome::Continue
        } else {
            P2pOutcome::Failed(ErrorKind::DialError)
        },
    }
}

/// The result a request's outcome is answered with: whether the service
/// stops, or the failure with the text of its cause.
pub fn p2p_result(outcome: P2pOutcome, cause: String) -> (r: Result<bool, Error>)
    requires
        outcome != P2pOutcome::Failed(ErrorKind::Other),
    ensures
        match outcome {
            P2pOutcome::Stop => r matches Ok(b) && b,
            P2pOutcome::Continue => r matches Ok(b) && !b,
            P2pOutcome::Failed(ErrorKind::GossipsubPublishError) => r matches Err(Error::GossipsubPublishError(c)) && c@ == cause@,
            P2pOutcome::Failed(ErrorKind::ParsePeerIdError) => r matches Err(Error::ParsePeerIdError(c)) && c@ == cause@,
            P2pOutcome::Failed(ErrorKind::DialError) => r matches Err(Error::DialError(c)) && c@ == cause@,
            P2pOutcome::Failed(ErrorKind::WrongMultiaddr) => r matches Err(Error::WrongMultiaddr(c)) && c@ == cause@,
            P2pOutcome::Failed(ErrorKind::Other) => false,
        },
{
    match outcome {
        P2pOutcome::Stop => Ok(true),
        P2pOutcome::Continue => Ok(false),
        P2pOutcome::Failed(ErrorKind::GossipsubPublishError) => Err(Error::GossipsubPublishError(cause)),
        P2pOutcome::Failed(ErrorKind::ParsePeerIdError) => Err(Error::ParsePeerIdError(cause)),
        P2pOutcome::Failed(ErrorKind::DialError) => Err(Error::DialError(cause)),
        P2pOutcome::Failed(ErrorKind::WrongMultiaddr) => Err(Error::WrongMultiaddr(cause)),
        P2pOutcome::Failed(ErrorKind::Other) => Err(Error::Io(cause)),
    }
}

/// The request stops the service.
pub open spec fn stops(req: (String, Result<bool, Error>)) -> bool {
    req.1 matches Ok(b) && b
}

/// `m` answers `req`: the same id, success where the request succeeded,
/// else the request's failure as the lapp hears of it.
pub open spec fn answers(m: MessageIn, req: (String, Result<bool, Error>)) -> bool {
    m matches MessageIn::Response { id, result } && id == req.0
        && (result is Ok <==> req.1 is Ok)
        && (req.1 matches Err(e) ==> (result matches Err(w) && w.message@ == e.message_spec() && w.kind == e.kind_spec()))
}

/// Answers a lapp's requests in the order they came, one answer each, and
/// handles none after the first that stops the service.
pub fn answer_requests(requests: Vec<(String, Result<bool, Error>)>) -> (r: Vec<MessageIn>)
    ensures
        r@.len() <= requests@.len(),
        forall|i: int| 0 <= i < r@.len() ==> answers(#[trigger] r@[i], requests@[i]),
        forall|i: int| 0 <= i < r@.len() - 1 ==> !stops(#[trigger] requests@[i]),
        r@.len() == requests@.len() || stops(requests@[r@.len() - 1]),
{
    let ghost all = requests@;
    let mut requests = requests;
    let mut r: Vec<MessageIn> = Vec::new();
    while requests.len() > 0
        invariant_except_break
            r@.len() + requests@.len() == all.len(),
            requests@ == all.subrange(r@.len() as int, all.len() as int),
            forall|i: int| 0 <= i < r@.len() ==> answers(#[trigger] r@[i], all[i]),
            forall|i: int| 0 <= i < r@.len() ==> !stops(#[trigger] all[i]),
        ensures
            r@.len() <= all.len(),
            forall|i: int| 0 <= i < r@.len() ==> answers(#[trigger] r@[i], all[i]),
            forall|i: int| 0 <= i < r@.len() - 1 ==> !stops(#[trigger] all[i]),
            r@.len() == all.len() || stops(all[r@.len() - 1]),
        decreases requests@.len(),
    {
        let (id, result) = requests.remove(0);
        let ghost k = r@.len() as int;
        assert(all[k] == (id, result));
        let (reply, stop) = p2p_reply(id, result);
        r.push(reply);
        assert(answers(r@[k], all[k]));
        if stop {
            assert(stops(all[k]));
            break;
        }
        assert(requests@ =~= all.subrange(r@.len() as int, all.len() as int));
    }
    r
}

impl PeerBook {
    /// Records an mDNS discovery event: each peer at each address, in order.
    /// The book's peers are the explicit peers of the gossipsub network.
    pub fn discovered_all(&mut self, found: Vec<(String, String)>)
        requires
            old(self).wf(),
        ensures
            final(self).wf(),
            forall|i: int| 0 <= i < found@.len() ==> final(self).has_peer((#[trigger] found@[i]).0@)
                && final(self).addresses_of(found@[i].0@).contains(found@[i].1@),
            forall|id: Seq<char>| old(self).addresses_of(id).is_prefix_of(#[trigger] final(self).addresses_of(id)),
            forall|id: Seq<char>| old(self).has_peer(id) ==> #[trigger] final(self).has_peer(id),
            forall|id: Seq<char>| (forall|i: int| 0 <= i < found@.len() ==> (#[trigger] found@[i]).0@ != id)
                ==> final(self).has_peer(id) == old(self).has_peer(id) && final(self).addresses_of(id) == old(self).addresses_of(id),
    {
        let ghost start = *self;
        let n = found.len();
        let mut found = found;
        let ghost all = found@;
        let mut i: usize = 0;
        while i < n
            invariant
                n == all.len(),
                i <= n,
                found@ == all.subrange(i as int, n as int),
                self.wf(),
                forall|j: int| 0 <= j < i ==> self.has_peer((#[trigger] all[j]).0@)
                    && self.addresses_of(all[j].0@).contains(all[j].1@),
                forall|id: Seq<char>| start.addresses_of(id).is_prefix_of(#[trigger] self.addresses_of(id)),
                forall|id: Seq<char>| start.has_peer(id) ==> #[trigger] self.has_peer(id),
                forall|id: Seq<char>| (forall|j: int| 0 <= j < i ==> (#[trigger] all[j]).0@ != id)
                    ==> self.has_peer(id) == start.has_peer(id) && self.addresses_of(id) == start.addresses_of(id),
            decreases n - i,
        {
            let (peer_id, address) = found.remove(0);
            assert(all[i as int] == (peer_id, address));
            let ghost before = *self;
            let ghost key = peer_id@;
            let ghost a = address@;
            self.discovered(peer_id, address);
            proof {
                assert(before.addresses_of(key).is_prefix_of(self.addresses_of(key)));
                assert forall|j: int| 0 <= j < i + 1 implies self.has_peer((#[trigger] all[j]).0@)
                    && self.addresses_of(all[j].0@).contains(all[j].1@) by {
                    if j < i {
                        let id = all[j].0@;
                        let x = all[j].1@;
                        let ob = before.addresses_of(id);
                        let k = choose|k: int| 0 <= k < ob.len() && ob[k] == x;
                        assert(ob.is_prefix_of(self.addresses_of(id)));
                        assert(self.addresses_of(id)[k] == x);
                    } else {
                        let nb = self.addresses_of(key);
                        if before.addresses_of(key).contains(a) {
                        } else {
                            assert(nb[nb.len() - 1] == a);
                        }
                    }
                }
                assert forall|id: Seq<char>| start.addresses_of(id).is_prefix_of(#[trigger] self.addresses_of(id)) by {
                    let s0 = start.addresses_of(id);
                    let s1 = before.addresses_of(id);
                    let s2 = self.addresses_of(id);
                    assert(s0.is_prefix_of(s1));
                    assert(s1.is_prefix_of(s2));
                    assert forall|k: int| 0 <= k < s0.len() implies s2[k] == s0[k] by {
                        assert(s1[k] == s0[k]);
                        assert(s2[k] == s1[k]);
                    }
                }
                assert forall|id: Seq<char>| (forall|j: int| 0 <= j < i + 1 ==> (#[trigger] all[j]).0@ != id)
                    implies self.has_peer(id) == start.has_peer(id) && self.addresses_of(id) == start.addresses_of(id) by {
                    assert(all[i as int].0@ != id);
                }
            }
            i = i + 1;
            assert(found@ =~= all.subrange(i as int, n as int));
        }
    }

    /// Records an mDNS expiry event: each peer is forgotten.
    pub fn expired_all(&mut self, gone: &Vec<String>)
        requires
            old(self).wf(),
        ensures
            final(self).wf(),
            forall|i: int| 0 <= i < gone@.len() ==> !final(self).has_peer((#[trigger] gone@[i])@),
            forall|id: Seq<char>| (forall|i: int| 0 <= i < gone@.len() ==> (#[trigger] gone@[i])@ != id)
                ==> final(self).has_peer(id) == old(self).has_peer(id) && final(self).addresses_of(id) == old(self).addresses_of(id),
    {
        let ghost start = *self;
        let n = gone.len();
        for i in 0..n
            invariant
                n == gone@.len(),
                self.wf(),
                forall|j: int| 0 <= j < i ==> !self.has_peer((#[trigger] gone@[j])@),
                forall|id: Seq<char>| (forall|j: int| 0 <= j < i ==> (#[trigger] gone@[j])@ != id)
                    ==> self.has_peer(id) == start.has_peer(id) && self.addresses_of(id) == start.addresses_of(id),
        {
            let ghost before = *self;
            self.expired(gone[i].as_str());
            proof {
                assert forall|j: int| 0 <= j < i + 1 implies !self.has_peer((#[trigger] gone@[j])@) by {
                    if j < i && gone@[j]@ != gone@[i as int]@ {
                        assert(!before.has_peer(gone@[j]@));
                    }
                }
                assert forall|id: Seq<char>| (forall|j: int| 0 <= j < i + 1 ==> (#[trigger] gone@[j])@ != id)
                    implies self.has_peer(id) == start.has_peer(id) && self.addresses_of(id) == start.addresses_of(id) by {
                    assert(gone@[i as int]@ != id);
                }
            }
        }
    }
}

} // verus!
