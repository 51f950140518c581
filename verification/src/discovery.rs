use crate::context::{verdict, ProtocolContextMutRef};
use crate::error::Error;
use crate::multiaddr::Multiaddr;
use crate::SessionId;
use std::time::Duration;
use vstd::prelude::*;

verus! {

/// The score that a peer has when it is first seen.
pub const DEFAULT_SCORE: i32 = 100;

/// What one misbehavior costs a peer.
pub const DEFAULT_PENALTY: i32 = 20;

/// What a peer did wrong on the discovery protocol.
#[derive(Clone, Copy, Debug, PartialEq, Eq, Structural)]
pub enum Misbehavior {
    /// It asked for addresses a second time.
    DuplicateGetNodes,
    /// It sent a second answer where one is allowed.
    DuplicateFirstNodes,
    /// It announced more addresses at once than a peer may; the number is
    /// given.
    TooManyAddresses(usize),
    /// It sent something that is no discovery message.
    InvalidData,
}

/// What is to be done with a peer that misbehaved.
#[derive(Clone, Copy, Debug, PartialEq, Eq, Structural)]
pub enum MisbehaveResult {
    /// The session may go on.
    Continue,
    /// The session is to be disconnected.
    Disconnect,
}

impl MisbehaveResult {
    pub open spec fn spec_is_continue(self) -> bool {
        self == MisbehaveResult::Continue
    }

    /// Whether the session may go on.
    #[verifier::when_used_as_spec(spec_is_continue)]
    pub fn is_continue(self) -> (r: bool)
        ensures
            r == self.spec_is_continue(),
    {
        match self {
            MisbehaveResult::Continue => true,
            MisbehaveResult::Disconnect => false,
        }
    }

    pub open spec fn spec_is_disconnect(self) -> bool {
        self == MisbehaveResult::Disconnect
    }

    /// Whether the session is to be disconnected.
    #[verifier::when_used_as_spec(spec_is_disconnect)]
    pub fn is_disconnect(self) -> (r: bool)
        ensures
            r == self.spec_is_disconnect(),
    {
        match self {
            MisbehaveResult::Continue => false,
            MisbehaveResult::Disconnect => true,
        }
    }
}

/// The book of peer addresses that the discovery protocol feeds and draws
/// from. The protocol works with any book that offers these operations;
/// how a book scores and picks is its own business, and each book says so
/// itself: for each operation it states what the operation makes of the
/// book and what it returns.
pub trait AddressManager {
    /// Whether `later` is what noting the address `addr`, learned from the
    /// session, makes of this book.
    spec fn noted(&self, session_id: SessionId, addr: Multiaddr, later: &Self) -> bool;

    /// Whether `later` is what noting the addresses `addrs`, learned from
    /// the session, makes of this book.
    spec fn noted_all(&self, session_id: SessionId, addrs: Seq<Multiaddr>, later: &Self) -> bool;

    /// Whether `later` and `decision` are what this book becomes and
    /// decides when the peer of the session misbehaves in this way.
    spec fn judged(
        &self,
        session_id: SessionId,
        kind: Misbehavior,
        later: &Self,
        decision: MisbehaveResult,
    ) -> bool;

    /// Whether `addrs` is what this book hands out when asked for up to `n`
    /// addresses, and `later` what the book is afterwards.
    spec fn picked(&self, n: usize, later: &Self, addrs: Seq<Multiaddr>) -> bool;

    /// Notes an address that was learned from a session.
    fn add_new_addr(&mut self, session_id: SessionId, addr: Multiaddr)
        ensures
            old(self).noted(session_id, addr, final(self)),
    ;

    /// Notes addresses that were learned from a session, as if one by one.
    fn add_new_addrs(&mut self, session_id: SessionId, addrs: Vec<Multiaddr>)
        ensures
            old(self).noted_all(session_id, addrs@, final(self)),
    ;

    /// Notes that the peer of a session misbehaved, and says what is to be
    /// done with the session.
    fn misbehave(&mut self, session_id: SessionId, kind: Misbehavior) -> (decision: MisbehaveResult)
        ensures
            old(self).judged(session_id, kind, final(self), decision),
    ;

    /// Up to `n` known addresses, picked as the book sees fit.
    fn get_random(&mut self, n: usize) -> (addrs: Vec<Multiaddr>)
        ensures
            addrs@.len() <= n,
            old(self).picked(n, final(self), addrs@),
    ;
}

/// What the simple book knows of one peer: the session it was seen on, its
/// score, and the addresses learned from it, in the order in which they
/// were learned.
pub ghost struct PeerView {
    pub session_id: SessionId,
    pub score: int,
    pub addrs: Seq<Seq<char>>,
}

/// What the simple book holds: its peers in the order in which they were
/// first seen, the score that a new peer starts with, and the penalty for
/// one misbehavior.
pub ghost struct BookView {
    pub peers: Seq<PeerView>,
    pub baseline: int,
    pub penalty: int,
}

/// The score after a penalty: lower by the penalty, but kept within the
/// scores there are.
pub open spec fn penalized(score: int, penalty: int) -> int {
    if score - penalty < i32::MIN {
        i32::MIN as int
    } else if score - penalty > i32::MAX {
        i32::MAX as int
    } else {
        score - penalty
    }
}

/// What a run of addresses says, one by one.
pub open spec fn address_views(addrs: Seq<Multiaddr>) -> Seq<Seq<char>> {
    addrs.map_values(|a: Multiaddr| a@)
}

/// The addresses of the given peers, peer by peer.
pub open spec fn addresses_of(peers: Seq<PeerView>) -> Seq<Seq<char>>
    decreases peers.len(),
{
    if peers.len() == 0 {
        Seq::empty()
    } else {
        addresses_of(peers.drop_last()) + peers.last().addrs
    }
}

impl BookView {
    /// Whether `i` is the place of the first peer of this session.
    pub open spec fn first_at(self, id: SessionId, i: int) -> bool {
        &&& 0 <= i < self.peers.len()
        &&& self.peers[i].session_id == id
        &&& forall|j: int| 0 <= j < i ==> (#[trigger] self.peers[j]).session_id != id
    }

    /// Whether the book knows the peer of this session.
    pub open spec fn knows(self, id: SessionId) -> bool {
        exists|i: int| 0 <= i < self.peers.len() && (#[trigger] self.peers[i]).session_id == id
    }

    /// The place of the peer of this session.
    pub open spec fn position(self, id: SessionId) -> int {
        choose|i: int| self.first_at(id, i)
    }

    /// What the book knows of the peer of this session: what it has noted,
    /// or, for a peer that it has not seen, the starting score and no
    /// address.
    pub open spec fn peer(self, id: SessionId) -> PeerView {
        if self.knows(id) {
            self.peers[self.position(id)]
        } else {
            PeerView { session_id: id, score: self.baseline, addrs: Seq::empty() }
        }
    }

    /// The book with what it knows of a peer replaced. A peer that was not
    /// seen before comes last.
    pub open spec fn with_peer(self, peer: PeerView) -> BookView {
        if self.knows(peer.session_id) {
            BookView { peers: self.peers.update(self.position(peer.session_id), peer), ..self }
        } else {
            BookView { peers: self.peers.push(peer), ..self }
        }
    }

    /// The book after an address was learned from a session. An address
    /// that was learned from that session before is not noted again.
    pub open spec fn add_new_addr(self, id: SessionId, addr: Seq<char>) -> BookView {
        let peer = self.peer(id);
        if peer.addrs.contains(addr) {
            self.with_peer(peer)
        } else {
            self.with_peer(PeerView { addrs: peer.addrs.push(addr), ..peer })
        }
    }

    /// The book after addresses were learned from a session, one by one in
    /// the order given.
    pub open spec fn add_new_addrs(self, id: SessionId, addrs: Seq<Seq<char>>) -> BookView
        decreases addrs.len(),
    {
        if addrs.len() == 0 {
            self
        } else {
            self.add_new_addrs(id, addrs.drop_last()).add_new_addr(id, addrs.last())
        }
    }

    /// The book after the peer of a session misbehaved: its score is lower
    /// by the penalty.
    pub open spec fn misbehave(self, id: SessionId) -> BookView {
        let peer = self.peer(id);
        self.with_peer(PeerView { score: penalized(peer.score, self.penalty), ..peer })
    }

    /// What is to be done with the peer of a session once it misbehaves:
    /// it is disconnected when the penalty takes its score below zero.
    pub open spec fn judgement(self, id: SessionId) -> MisbehaveResult {
        if penalized(self.peer(id).score, self.penalty) < 0 {
            MisbehaveResult::Disconnect
        } else {
            MisbehaveResult::Continue
        }
    }

    /// Every address in the book, peer by peer. An address that was learned
    /// from two sessions stands there twice.
    pub open spec fn addresses(self) -> Seq<Seq<char>> {
        addresses_of(self.peers)
    }

    /// What `get_random(n)` hands out: the first `n` addresses of the book,
    /// or all of them where there are no more than `n`.
    pub open spec fn sample(self, n: nat) -> Seq<Seq<char>> {
        if self.addresses().len() <= n {
            self.addresses()
        } else {
            self.addresses().take(n as int)
        }
    }
}

impl BookView {
    /// No session has two entries, and no entry holds an address twice.
    /// Every book that is built with `new` or `with_policy` and changed
    /// through its methods is of this kind.
    pub open spec fn wf(self) -> bool {
        &&& forall|i: int, j: int|
            0 <= i < j < self.peers.len() ==> (#[trigger] self.peers[i]).session_id != (
            #[trigger] self.peers[j]).session_id
        &&& forall|i: int|
            0 <= i < self.peers.len() ==> (#[trigger] self.peers[i]).addrs.no_duplicates()
    }
}

/// A peer that the book knows is found at the first place that holds its
/// session.
pub proof fn lemma_peer_position(book: BookView, id: SessionId)
    requires
        book.knows(id),
    ensures
        book.first_at(id, book.position(id)),
        book.peer(id).session_id == id,
{
    let i = choose|i: int| 0 <= i < book.peers.len() && (#[trigger] book.peers[i]).session_id == id;
    lemma_first_peer_exists(book, id, i);
}

proof fn lemma_first_peer_exists(book: BookView, id: SessionId, i: int)
    requires
        0 <= i < book.peers.len(),
        book.peers[i].session_id == id,
    ensures
        exists|k: int| book.first_at(id, k),
    decreases i,
{
    if exists|j: int| 0 <= j < i && (#[trigger] book.peers[j]).session_id == id {
        let j = choose|j: int| 0 <= j < i && (#[trigger] book.peers[j]).session_id == id;
        lemma_first_peer_exists(book, id, j);
    } else {
        assert(book.first_at(id, i));
    }
}

/// After what the book knows of a peer was replaced, the book knows of
/// that peer what was put there, and of every other peer what it knew.
pub proof fn lemma_peer_after_change(book: BookView, peer: PeerView, other: SessionId)
    ensures
        book.with_peer(peer).knows(peer.session_id),
        book.with_peer(peer).peer(peer.session_id) == peer,
        other != peer.session_id ==> book.with_peer(peer).peer(other) == book.peer(other),
        other != peer.session_id ==> book.with_peer(peer).knows(other) == book.knows(other),
        book.with_peer(peer).baseline == book.baseline,
        book.with_peer(peer).penalty == book.penalty,
{
    let id = peer.session_id;
    let later = book.with_peer(peer);
    let p = if book.knows(id) {
        lemma_peer_position(book, id);
        book.position(id)
    } else {
        book.peers.len() as int
    };
    assert(later.peers[p] == peer);
    assert(later.first_at(id, p)) by {
        assert forall|j: int| 0 <= j < p implies (#[trigger] later.peers[j]).session_id != id by {
            assert(later.peers[j] == book.peers[j]);
        }
    }
    lemma_peer_position(later, id);
    let q = later.position(id);
    if q < p {
        assert(later.peers[q] == book.peers[q]);
    }
    if other != id {
        if book.knows(other) {
            lemma_peer_position(book, other);
            let o = book.position(other);
            assert(later.peers[o] == book.peers[o]);
            assert(later.first_at(other, o)) by {
                assert forall|j: int| 0 <= j < o implies (#[trigger] later.peers[j]).session_id
                    != other by {
                    if j != p {
                        assert(later.peers[j] == book.peers[j]);
                    }
                }
            }
            lemma_peer_position(later, other);
            let r = later.position(other);
            if r < o {
                if r != p {
                    assert(later.peers[r] == book.peers[r]);
                }
            }
        }
        if later.knows(other) {
            let k = choose|k: int|
                0 <= k < later.peers.len() && (#[trigger] later.peers[k]).session_id == other;
            assert(k != p);
            assert(later.peers[k] == book.peers[k]);
        }
    }
}

/// Replacing what a well-formed book knows of a peer by an entry without
/// repeated addresses leaves the book well-formed.
pub proof fn lemma_change_keeps_wf(book: BookView, peer: PeerView)
    requires
        book.wf(),
        peer.addrs.no_duplicates(),
    ensures
        book.with_peer(peer).wf(),
{
    let id = peer.session_id;
    let later = book.with_peer(peer);
    if book.knows(id) {
        lemma_peer_position(book, id);
    }
    let p = if book.knows(id) {
        book.position(id)
    } else {
        book.peers.len() as int
    };
    assert forall|i: int, j: int| 0 <= i < j < later.peers.len() implies (
    #[trigger] later.peers[i]).session_id != (#[trigger] later.peers[j]).session_id by {
        if i != p {
            assert(later.peers[i] == book.peers[i]);
        }
        if j != p {
            assert(later.peers[j] == book.peers[j]);
        }
        if book.knows(id) {
            assert(book.peers[i].session_id != book.peers[j].session_id);
        }
    }
    assert forall|i: int| 0 <= i < later.peers.len() implies (
    #[trigger] later.peers[i]).addrs.no_duplicates() by {
        if i != p {
            assert(later.peers[i] == book.peers[i]);
        }
    }
}

/// Learning an address keeps a well-formed book well-formed: the address
/// stands once among those of its session, however often it is learned.
pub proof fn lemma_add_keeps_wf(book: BookView, id: SessionId, addr: Seq<char>)
    requires
        book.wf(),
    ensures
        book.add_new_addr(id, addr).wf(),
        book.add_new_addr(id, addr).peer(id).addrs.contains(addr),
        book.add_new_addr(id, addr).add_new_addr(id, addr) == book.add_new_addr(id, addr),
{
    let peer = book.peer(id);
    if book.knows(id) {
        lemma_peer_position(book, id);
    }
    let grown = if peer.addrs.contains(addr) {
        peer
    } else {
        PeerView { addrs: peer.addrs.push(addr), ..peer }
    };
    assert(grown.addrs.no_duplicates()) by {
        if !peer.addrs.contains(addr) {
            assert forall|i: int, j: int|
                0 <= i < grown.addrs.len() && 0 <= j < grown.addrs.len() && i
                    != j implies grown.addrs[i] != grown.addrs[j] by {
                if i < peer.addrs.len() && j < peer.addrs.len() {
                    assert(peer.addrs[i] != peer.addrs[j]);
                } else if i < peer.addrs.len() {
                    assert(peer.addrs.contains(peer.addrs[i]));
                } else {
                    assert(peer.addrs.contains(peer.addrs[j]));
                }
            }
        }
    }
    assert(grown.addrs.contains(addr)) by {
        if !peer.addrs.contains(addr) {
            assert(grown.addrs[peer.addrs.len() as int] == addr);
        }
    }
    lemma_change_keeps_wf(book, grown);
    lemma_peer_after_change(book, grown, id);
    let once = book.with_peer(grown);
    lemma_peer_position(once, id);
    assert(once.peers.update(once.position(id), grown) =~= once.peers);
}

/// A misbehavior costs the peer the penalty and nobody else anything, and
/// the session is disconnected exactly when the score has fallen below
/// zero.
pub proof fn lemma_misbehave_lowers_score(book: BookView, id: SessionId, other: SessionId)
    ensures
        book.misbehave(id).peer(id).score == penalized(book.peer(id).score, book.penalty),
        book.misbehave(id).peer(id).addrs == book.peer(id).addrs,
        other != id ==> book.misbehave(id).peer(other) == book.peer(other),
        book.judgement(id) == MisbehaveResult::Disconnect <==> book.misbehave(id).peer(id).score
            < 0,
        book.wf() ==> book.misbehave(id).wf(),
{
    let peer = book.peer(id);
    if book.knows(id) {
        lemma_peer_position(book, id);
    }
    let punished = PeerView { score: penalized(peer.score, book.penalty), ..peer };
    lemma_peer_after_change(book, punished, other);
    if book.wf() {
        lemma_change_keeps_wf(book, punished);
    }
}

impl BookView {
    /// The book after the peer of a session misbehaved `k` times in a row.
    pub open spec fn misbehave_times(self, id: SessionId, k: nat) -> BookView
        decreases k,
    {
        if k == 0 {
            self
        } else {
            self.misbehave_times(id, (k - 1) as nat).misbehave(id)
        }
    }
}

/// A run of misbehaviors costs the peer the penalty each time: as long as
/// the scores stay within the scores there are, the score after `k`
/// misbehaviors is lower by `k` penalties, and the last of them has the
/// session disconnected exactly when that score is below zero. So a peer
/// that starts at 100 and loses 20 each time may go on after the fifth
/// misbehavior, at 0, and is disconnected at the sixth, at -20.
pub proof fn lemma_score_after_misbehaviors(book: BookView, id: SessionId, k: nat)
    requires
        i32::MIN <= book.peer(id).score <= i32::MAX,
        i32::MIN <= book.peer(id).score - k * book.penalty <= i32::MAX,
    ensures
        book.misbehave_times(id, k).peer(id).score == book.peer(id).score - k * book.penalty,
        book.misbehave_times(id, k).penalty == book.penalty,
        book.misbehave_times(id, k).baseline == book.baseline,
        k > 0 ==> (book.misbehave_times(id, (k - 1) as nat).judgement(id)
            == MisbehaveResult::Disconnect <==> book.peer(id).score - k * book.penalty < 0),
    decreases k,
{
    if k > 0 {
        let score = book.peer(id).score;
        let penalty = book.penalty;
        let less = (k - 1) as nat;
        assert(less * penalty + penalty == k * penalty) by (nonlinear_arith)
            requires
                less + 1 == k,
        ;
        assert(i32::MIN <= score - less * penalty <= i32::MAX) by (nonlinear_arith)
            requires
                i32::MIN <= score <= i32::MAX,
                i32::MIN <= score - k * penalty <= i32::MAX,
                less + 1 == k,
        ;
        lemma_score_after_misbehaviors(book, id, less);
        let before = book.misbehave_times(id, less);
        lemma_misbehave_lowers_score(before, id, id);
        lemma_peer_after_change(
            before,
            PeerView { score: penalized(before.peer(id).score, before.penalty), ..before.peer(id) },
            id,
        );
        assert(before.peer(id).score - penalty == score - k * penalty);
        assert(book.misbehave_times(id, k) == before.misbehave(id));
    } else {
        assert(k * book.penalty == 0) by (nonlinear_arith)
            requires
                k == 0,
        ;
    }
}

/// The number of peers among `peers` that hold the address.
pub open spec fn holders(peers: Seq<PeerView>, addr: Seq<char>) -> nat
    decreases peers.len(),
{
    if peers.len() == 0 {
        0
    } else if peers.last().addrs.contains(addr) {
        holders(peers.drop_last(), addr) + 1
    } else {
        holders(peers.drop_last(), addr)
    }
}

/// Where no peer holds an address twice, an address stands among the
/// addresses of the peers once for each peer that holds it.
pub proof fn lemma_addresses_once_per_holder(peers: Seq<PeerView>, addr: Seq<char>)
    requires
        forall|i: int| 0 <= i < peers.len() ==> (#[trigger] peers[i]).addrs.no_duplicates(),
    ensures
        addresses_of(peers).to_multiset().count(addr) == holders(peers, addr),
    decreases peers.len(),
{
    broadcast use vstd::multiset::group_multiset_axioms;
    broadcast use vstd::seq_lib::group_to_multiset_ensures;

    if peers.len() == 0 {
    } else {
        let rest = peers.drop_last();
        let last = peers.last().addrs;
        assert forall|i: int| 0 <= i < rest.len() implies (#[trigger] rest[i]).addrs.no_duplicates() by {
            assert(rest[i] == peers[i]);
        }
        lemma_addresses_once_per_holder(rest, addr);
        vstd::seq_lib::lemma_multiset_commutative(addresses_of(rest), last);
        assert(peers[peers.len() - 1].addrs.no_duplicates());
        last.lemma_multiset_has_no_duplicates();
    }
}

/// Nothing is handed out more often than it was learned: in a well-formed
/// book an address stands in what `get_random` hands out at most once for
/// each session it was learned from, however often it was learned from
/// that session; and exactly so often where the book holds no more
/// addresses than were asked for.
pub proof fn lemma_sample_once_per_holder(book: BookView, n: nat, addr: Seq<char>)
    requires
        book.wf(),
    ensures
        book.sample(n).to_multiset().count(addr) <= holders(book.peers, addr),
        holders(book.peers, addr) <= book.peers.len(),
        book.addresses().len() <= n ==> book.sample(n).to_multiset().count(addr) == holders(
            book.peers,
            addr,
        ),
{
    broadcast use vstd::multiset::group_multiset_axioms;

    lemma_addresses_once_per_holder(book.peers, addr);
    lemma_holders_bound(book.peers, addr);
    let all = book.addresses();
    if all.len() > n {
        assert(all =~= all.take(n as int) + all.skip(n as int));
        vstd::seq_lib::lemma_multiset_commutative(all.take(n as int), all.skip(n as int));
    }
}

/// No more peers hold an address than there are peers.
pub proof fn lemma_holders_bound(peers: Seq<PeerView>, addr: Seq<char>)
    ensures
        holders(peers, addr) <= peers.len(),
    decreases peers.len(),
{
    if peers.len() > 0 {
        lemma_holders_bound(peers.drop_last(), addr);
    }
}

/// Asking for at least as many addresses as the book holds hands out all
/// of them, each as often as it stands in the book and no more; asking for
/// fewer hands out that many.
pub proof fn lemma_sample_is_bounded(book: BookView, n: nat)
    ensures
        book.sample(n).len() <= n,
        book.sample(n).len() <= book.addresses().len(),
        book.addresses().len() <= n ==> book.sample(n) == book.addresses(),
        book.addresses().len() > n ==> book.sample(n).len() == n,
        book.sample(n) == book.addresses().take(book.sample(n).len() as int),
{
    assert(book.addresses().take(book.addresses().len() as int) =~= book.addresses());
}

/// The addresses of peers in a row are those of the first ones followed by
/// those of the rest.
pub proof fn lemma_addresses_of_concat(a: Seq<PeerView>, b: Seq<PeerView>)
    ensures
        addresses_of(a + b) == addresses_of(a) + addresses_of(b),
    decreases b.len(),
{
    if b.len() == 0 {
        assert(a + b =~= a);
        assert(addresses_of(a) + addresses_of(b) =~= addresses_of(a));
    } else {
        assert((a + b).drop_last() =~= a + b.drop_last());
        assert((a + b).last() == b.last());
        lemma_addresses_of_concat(a, b.drop_last());
        assert(addresses_of(a + b) =~= addresses_of(a) + addresses_of(b));
    }
}

/// What the simple book holds of one peer.
struct PeerEntry {
    session_id: SessionId,
    score: i32,
    addrs: Vec<Multiaddr>,
}

impl View for PeerEntry {
    type V = PeerView;

    closed spec fn view(&self) -> PeerView {
        PeerView {
            session_id: self.session_id,
            score: self.score as int,
            addrs: address_views(self.addrs@),
        }
    }
}

/// A simple book of peer addresses. Every peer starts with the same score
/// and loses the same penalty with each misbehavior; a peer whose score
/// falls below zero is to be disconnected. Addresses are kept per session,
/// each once.
///
/// Peers and addresses are kept in the order in which they were first
/// seen. So the book has one order in which it hands addresses out, and
/// what `get_random` returns is told by the book and the number asked for
/// alone.
pub struct SimpleAddressManager {
    peers: Vec<PeerEntry>,
    baseline: i32,
    penalty: i32,
}

impl View for SimpleAddressManager {
    type V = BookView;

    closed spec fn view(&self) -> BookView {
        BookView {
            peers: self.peers@.map_values(|p: PeerEntry| p@),
            baseline: self.baseline as int,
            penalty: self.penalty as int,
        }
    }
}

impl SimpleAddressManager {
    /// An empty book with the usual policy: peers start at 100 and lose 20
    /// with each misbehavior.
    pub fn new() -> (book: Self)
        ensures
            book@ == (BookView { peers: Seq::empty(), baseline: 100, penalty: 20 }),
    {
        Self::with_policy(DEFAULT_SCORE, DEFAULT_PENALTY)
    }

    /// An empty book whose peers start at `baseline` and lose `penalty`
    /// with each misbehavior.
    pub fn with_policy(baseline: i32, penalty: i32) -> (book: Self)
        ensures
            book@ == (BookView {
                peers: Seq::empty(),
                baseline: baseline as int,
                penalty: penalty as int,
            }),
    {
        let book = SimpleAddressManager { peers: Vec::new(), baseline, penalty };
        assert(book@.peers =~= Seq::<PeerView>::empty());
        book
    }

    /// The place of the first peer of this session, if the book knows it.
    fn find(&self, id: SessionId) -> (place: Option<usize>)
        ensures
            match place {
                Some(i) => self@.first_at(id, i as int) && self@.knows(id) && self@.position(id)
                    == i,
                None => !self@.knows(id),
            },
    {
        let mut i: usize = 0;
        while i < self.peers.len()
            invariant
                i <= self.peers.len(),
                forall|j: int| 0 <= j < i ==> (#[trigger] self@.peers[j]).session_id != id,
            decreases self.peers.len() - i,
        {
            assert(self@.peers[i as int] == self.peers@[i as int]@);
            if self.peers[i].session_id == id {
                assert(self@.first_at(id, i as int));
                let ghost p = self@.position(id);
                assert(self@.first_at(id, p));
                assert(p == i) by {
                    if p < i {
                        assert(self@.peers[p].session_id != id);
                    }
                    if i < p {
                        assert(self@.peers[i as int].session_id != id);
                    }
                }
                return Some(i);
            }
            i = i + 1;
        }
        None
    }

    /// The place of the peer of this session; a peer that the book does not
    /// know yet is entered first, with the starting score and no address.
    fn place_of(&mut self, id: SessionId) -> (i: usize)
        ensures
            i < final(self).peers.len(),
            final(self).baseline == old(self).baseline,
            final(self).penalty == old(self).penalty,
            final(self)@.peers[i as int] == old(self)@.peer(id),
            old(self)@.peer(id).session_id == id,
            final(self)@ == old(self)@.with_peer(old(self)@.peer(id)),
            forall|new: PeerView|
                new.session_id == id ==> (#[trigger] old(self)@.with_peer(new)).peers
                    == final(self)@.peers.update(i as int, new),
    {
        match self.find(id) {
            Some(i) => {
                assert(self@.peers.update(i as int, self@.peers[i as int]) =~= self@.peers);
                i
            },
            None => {
                let i = self.peers.len();
                self.peers.push(PeerEntry { session_id: id, score: self.baseline, addrs: Vec::new() });
                proof {
                    let fresh = old(self)@.peer(id);
                    assert(self.peers@[i as int]@.addrs =~= Seq::<Seq<char>>::empty());
                    assert(self@.peers =~= old(self)@.peers.push(fresh));
                    assert forall|new: PeerView| new.session_id == id implies (
                    #[trigger] old(self)@.with_peer(new)).peers == self@.peers.update(
                        i as int,
                        new,
                    ) by {
                        assert(old(self)@.peers.push(new) =~= self@.peers.update(i as int, new));
                    }
                }
                i
            },
        }
    }

    /// The score of the peer of this session: what the book has noted, or
    /// the starting score for a peer that it has not seen.
    pub fn score(&self, session_id: SessionId) -> (score: i32)
        ensures
            score == self@.peer(session_id).score,
    {
        match self.find(session_id) {
            Some(i) => {
                assert(self@.peers[i as int] == self.peers@[i as int]@);
                self.peers[i].score
            },
            None => self.baseline,
        }
    }

    /// The number of addresses in the book, all peers together; `None` if
    /// the number is too large to tell.
    pub fn len(&self) -> (n: Option<usize>)
        ensures
            match n {
                Some(n) => n == self@.addresses().len(),
                None => self@.addresses().len() > usize::MAX,
            },
    {
        let mut n: usize = 0;
        let mut i: usize = 0;
        while i < self.peers.len()
            invariant
                i <= self.peers.len(),
                n == addresses_of(self@.peers.take(i as int)).len(),
            decreases self.peers.len() - i,
        {
            let ghost upto = self@.peers.take(i + 1);
            assert(self@.peers[i as int] == self.peers@[i as int]@);
            assert(upto.drop_last() =~= self@.peers.take(i as int));
            assert(upto.last() == self@.peers[i as int]);
            let more = self.peers[i].addrs.len();
            if more > usize::MAX - n {
                proof {
                    assert(self@.peers =~= upto + self@.peers.skip(i + 1));
                    lemma_addresses_of_concat(upto, self@.peers.skip(i + 1));
                }
                return None;
            }
            n = n + more;
            i = i + 1;
        }
        assert(self@.peers.take(i as int) =~= self@.peers);
        Some(n)
    }
}

/// Whether `addr` is among `addrs`.
fn holds_addr(addrs: &Vec<Multiaddr>, addr: &Multiaddr) -> (r: bool)
    ensures
        r == address_views(addrs@).contains(addr@),
{
    let mut i: usize = 0;
    while i < addrs.len()
        invariant
            i <= addrs.len(),
            forall|j: int| 0 <= j < i ==> address_views(addrs@)[j] != addr@,
        decreases addrs.len() - i,
    {
        if addrs[i].same_as(addr) {
            assert(address_views(addrs@)[i as int] == addr@);
            return true;
        }
        i = i + 1;
    }
    false
}

impl AddressManager for SimpleAddressManager {
    /// The book holds the address among those of the session, once.
    open spec fn noted(&self, session_id: SessionId, addr: Multiaddr, later: &Self) -> bool {
        later@ == self@.add_new_addr(session_id, addr@)
    }

    /// The book holds the addresses as if they had been noted one by one.
    open spec fn noted_all(&self, session_id: SessionId, addrs: Seq<Multiaddr>, later: &Self)
        -> bool {
        later@ == self@.add_new_addrs(session_id, address_views(addrs))
    }

    /// The peer's score is lower by the penalty, whatever the kind of
    /// misbehavior, and the session is to be disconnected exactly when the
    /// score has fallen below zero.
    open spec fn judged(
        &self,
        session_id: SessionId,
        kind: Misbehavior,
        later: &Self,
        decision: MisbehaveResult,
    ) -> bool {
        later@ == self@.misbehave(session_id) && decision == self@.judgement(session_id)
    }

    /// The first `n` addresses of the book are handed out, or all of them
    /// where there are no more than `n`, and the book stays as it is.
    open spec fn picked(&self, n: usize, later: &Self, addrs: Seq<Multiaddr>) -> bool {
        address_views(addrs) == self@.sample(n as nat) && later@ == self@
    }

    /// Notes an address that was learned from a session. A session that
    /// was not seen before is entered with the starting score; an address
    /// that was learned from the session before is not noted again.
    fn add_new_addr(&mut self, session_id: SessionId, addr: Multiaddr)
        ensures
            final(self)@ == old(self)@.add_new_addr(session_id, addr@),
            old(self)@.wf() ==> final(self)@.wf(),
    {
        proof {
            if self@.wf() {
                lemma_add_keeps_wf(self@, session_id, addr@);
            }
        }
        let i = self.place_of(session_id);
        let ghost mid = self@;
        let ghost peer = old(self)@.peer(session_id);
        assert(mid.peers[i as int] == self.peers@[i as int]@);
        let known = holds_addr(&self.peers[i].addrs, &addr);
        if !known {
            let entry = &mut self.peers[i];
            entry.addrs.push(addr);
            proof {
                let grown = PeerView { addrs: peer.addrs.push(addr@), ..peer };
                assert(self.peers@[i as int]@.addrs =~= peer.addrs.push(addr@));
                assert(self@.peers =~= mid.peers.update(i as int, grown));
                assert(old(self)@.with_peer(grown).peers == mid.peers.update(i as int, grown));
            }
        }
    }

    /// Notes addresses that were learned from a session, as if one by one
    /// in the order given.
    fn add_new_addrs(&mut self, session_id: SessionId, addrs: Vec<Multiaddr>)
        ensures
            final(self)@ == old(self)@.add_new_addrs(session_id, address_views(addrs@)),
            old(self)@.wf() ==> final(self)@.wf(),
    {
        let ghost start = self@;
        let ghost views = address_views(addrs@);
        let mut i: usize = 0;
        assert(views.take(0) =~= Seq::<Seq<char>>::empty());
        while i < addrs.len()
            invariant
                i <= addrs.len(),
                views == address_views(addrs@),
                self@ == start.add_new_addrs(session_id, views.take(i as int)),
                start.wf() ==> self@.wf(),
            decreases addrs.len() - i,
        {
            let ghost upto = views.take(i + 1);
            assert(upto.drop_last() =~= views.take(i as int));
            assert(upto.last() == addrs@[i as int]@);
            self.add_new_addr(session_id, addrs[i].clone());
            i = i + 1;
        }
        assert(views.take(i as int) =~= views);
    }

    /// Notes that the peer of a session misbehaved: its score falls by the
    /// penalty, whatever the kind of misbehavior. The session is to be
    /// disconnected when the score has fallen below zero, and may go on
    /// otherwise.
    fn misbehave(&mut self, session_id: SessionId, kind: Misbehavior) -> (r: MisbehaveResult)
        ensures
            final(self)@ == old(self)@.misbehave(session_id),
            r == old(self)@.judgement(session_id),
            old(self)@.wf() ==> final(self)@.wf(),
    {
        proof {
            lemma_misbehave_lowers_score(self@, session_id, session_id);
        }
        let i = self.place_of(session_id);
        let ghost mid = self@;
        let ghost peer = old(self)@.peer(session_id);
        assert(mid.peers[i as int] == self.peers@[i as int]@);
        let lowered: i64 = self.peers[i].score as i64 - self.penalty as i64;
        let score: i32 = if lowered < i32::MIN as i64 {
            i32::MIN
        } else if lowered > i32::MAX as i64 {
            i32::MAX
        } else {
            lowered as i32
        };
        let entry = &mut self.peers[i];
        entry.score = score;
        proof {
            let punished = PeerView { score: penalized(peer.score, mid.penalty), ..peer };
            assert(self@.peers =~= mid.peers.update(i as int, punished));
            assert(old(self)@.with_peer(punished).peers == mid.peers.update(i as int, punished));
        }
        if score < 0 {
            MisbehaveResult::Disconnect
        } else {
            MisbehaveResult::Continue
        }
    }

    /// Up to `n` known addresses: the first `n` of the book, peer by peer,
    /// or all of them where the book holds no more than `n`. The book stays
    /// as it is.
    fn get_random(&mut self, n: usize) -> (addrs: Vec<Multiaddr>)
        ensures
            address_views(addrs@) == old(self)@.sample(n as nat),
            old(self)@.addresses().len() <= n ==> address_views(addrs@) == old(self)@.addresses(),
            final(self)@ == old(self)@,
    {
        let ghost book = self@;
        let ghost all = self@.addresses();
        let mut out: Vec<Multiaddr> = Vec::new();
        let mut i: usize = 0;
        assert(book.peers.take(0) =~= Seq::<PeerView>::empty());
        assert(address_views(out@) =~= Seq::<Seq<char>>::empty());
        while i < self.peers.len() && out.len() < n
            invariant
                i <= self.peers.len(),
                self@ == book,
                all == addresses_of(book.peers),
                out.len() <= n,
                address_views(out@) == addresses_of(book.peers.take(i as int)),
            decreases self.peers.len() - i,
        {
            let ghost upto = book.peers.take(i + 1);
            let ghost before = address_views(out@);
            assert(book.peers[i as int] == self.peers@[i as int]@);
            assert(upto.drop_last() =~= book.peers.take(i as int));
            assert(upto.last() == book.peers[i as int]);
            let mut j: usize = 0;
            assert(book.peers[i as int].addrs.take(0) =~= Seq::<Seq<char>>::empty());
            assert(before + book.peers[i as int].addrs.take(0) =~= before);
            while j < self.peers[i].addrs.len() && out.len() < n
                invariant
                    i < self.peers.len(),
                    j <= self.peers[i as int].addrs.len(),
                    self@ == book,
                    book.peers[i as int] == self.peers@[i as int]@,
                    out.len() <= n,
                    address_views(out@) == before + book.peers[i as int].addrs.take(j as int),
                decreases self.peers[i as int].addrs.len() - j,
            {
                let ghost sofar = address_views(out@);
                out.push(self.peers[i].addrs[j].clone());
                proof {
                    let mine = book.peers[i as int].addrs;
                    assert(mine[j as int] == self.peers[i as int].addrs@[j as int]@);
                    assert(address_views(out@) =~= sofar.push(mine[j as int]));
                    assert(before + mine.take(j + 1) =~= (before + mine.take(j as int)).push(
                        mine[j as int],
                    ));
                }
                j = j + 1;
            }
            if j < self.peers[i].addrs.len() {
                proof {
                    let mine = book.peers[i as int].addrs;
                    let rest = book.peers.skip(i + 1);
                    assert(book.peers =~= upto + rest);
                    lemma_addresses_of_concat(upto, rest);
                    assert(addresses_of(upto) == before + mine);
                    assert(all =~= before + mine + addresses_of(rest));
                    assert(out.len() == n);
                    assert(address_views(out@).len() == n);
                    assert(before + mine.take(j as int) =~= all.take(n as int));
                }
                return out;
            }
            proof {
                let mine = book.peers[i as int].addrs;
                assert(mine.take(j as int) =~= mine);
            }
            i = i + 1;
        }
        proof {
            let seen = book.peers.take(i as int);
            let rest = book.peers.skip(i as int);
            assert(book.peers =~= seen + rest);
            lemma_addresses_of_concat(seen, rest);
            assert(address_views(out@).len() == out.len());
            if i == self.peers.len() {
                assert(seen =~= book.peers);
            } else {
                assert(addresses_of(seen) =~= all.take(n as int));
            }
        }
        out
    }
}

/// The token of the timer that the discovery protocol keeps on each of its
/// sessions.
pub const DISCOVERY_TOKEN: u64 = 0;

/// The most addresses that a peer may announce at once, unless the
/// protocol is set up otherwise.
pub const DEFAULT_MAX_ADDRS: usize = 1000;

/// A message of the discovery protocol, as the codec hands it over.
#[derive(Debug, PartialEq, Eq)]
pub enum DiscoveryMessage {
    /// The peer asks for up to `count` addresses.
    GetNodes {
        /// The most addresses that the peer wants.
        count: usize,
    },
    /// The peer announces addresses.
    Nodes {
        /// The announced addresses.
        addresses: Vec<Multiaddr>,
    },
    /// What the peer sent is no discovery message.
    Malformed,
}

/// What the discovery protocol asks to be sent to the peer after an event.
#[derive(Debug, PartialEq, Eq)]
pub enum DiscoveryReply {
    /// Nothing is to be sent.
    Nothing,
    /// These addresses are to be announced to the peer.
    Announce(Vec<Multiaddr>),
}

/// What is wrong with an announcement of `count` addresses where at most
/// `max` are allowed, if anything is.
pub open spec fn announce_fault(count: nat, max: nat) -> Option<Misbehavior> {
    if count > max {
        Some(Misbehavior::TooManyAddresses(count as usize))
    } else {
        None
    }
}

/// What is wrong with an announcement of `count` addresses where at most
/// `max` are allowed, if anything is: to announce more than allowed is a
/// misbehavior.
pub fn check_announce(count: usize, max: usize) -> (fault: Option<Misbehavior>)
    ensures
        fault == announce_fault(count as nat, max as nat),
{
    if count > max {
        Some(Misbehavior::TooManyAddresses(count))
    } else {
        None
    }
}

/// The number of addresses to answer a request for `count` with, where at
/// most `max` are sent at once.
pub fn answer_size(count: usize, max: usize) -> (n: usize)
    ensures
        n == if count <= max {
            count
        } else {
            max
        },
{
    if count <= max {
        count
    } else {
        max
    }
}

/// What the protocol does with a message.
#[derive(Clone, Copy, Debug, PartialEq, Eq, Structural)]
pub enum Handling {
    /// It answers with up to this many addresses from the book.
    Answer(usize),
    /// It feeds the announced addresses to the book.
    Learn,
    /// It reports the peer to the book for this misbehavior.
    Report(Misbehavior),
}

/// What the protocol does with a message where a peer may announce up to
/// `max` addresses at once.
pub open spec fn handling_of(message: DiscoveryMessage, max: usize) -> Handling {
    match message {
        DiscoveryMessage::GetNodes { count } => Handling::Answer(
            if count <= max {
                count
            } else {
                max
            },
        ),
        DiscoveryMessage::Nodes { addresses } => match announce_fault(
            addresses@.len(),
            max as nat,
        ) {
            Some(fault) => Handling::Report(fault),
            None => Handling::Learn,
        },
        DiscoveryMessage::Malformed => Handling::Report(Misbehavior::InvalidData),
    }
}

/// What the protocol does with a message where a peer may announce up to
/// `max` addresses at once: a request is answered with as many addresses
/// as it asks for, but no more than `max`; an announcement of up to `max`
/// addresses is learned; a longer one is reported as a misbehavior, and so
/// is what is no discovery message at all.
pub fn handling(message: &DiscoveryMessage, max: usize) -> (h: Handling)
    ensures
        h == handling_of(*message, max),
{
    match message {
        DiscoveryMessage::GetNodes { count } => Handling::Answer(answer_size(*count, max)),
        DiscoveryMessage::Nodes { addresses } => match check_announce(addresses.len(), max) {
            Some(fault) => Handling::Report(fault),
            None => Handling::Learn,
        },
        DiscoveryMessage::Malformed => Handling::Report(Misbehavior::InvalidData),
    }
}

/// Carries out what the address book decided about a session that
/// misbehaved: a session that is to be disconnected is disconnected through
/// the context, as `ServiceContext::disconnect` says; one that may go on is
/// left alone.
pub fn enforce(context: &mut ProtocolContextMutRef, decision: MisbehaveResult) -> (r: Result<
    (),
    Error,
>)
    ensures
        r == if decision.is_disconnect() {
            verdict(old(context).inner.service().disconnect_refusal(old(context).session.id))
        } else {
            Ok(())
        },
        final(context).inner.service() == if decision.is_disconnect() {
            old(context).inner.service().disconnect(old(context).session.id)
        } else {
            old(context).inner.service()
        },
        final(context).inner.protocol() == old(context).inner.protocol(),
        final(context).session == old(context).session,
        *final(final(context).inner) == *final(old(context).inner),
{
    match decision {
        MisbehaveResult::Disconnect => {
            let session_id = context.session.id;
            context.inner.disconnect(session_id)
        },
        MisbehaveResult::Continue => Ok(()),
    }
}

/// The discovery protocol: it learns peer addresses from its sessions,
/// hands known addresses to peers that ask, and has sessions that misbehave
/// judged by its address book.
pub struct DiscoveryProtocol<M: AddressManager> {
    addr_mgr: M,
    check_interval: Duration,
    max_addrs: usize,
}

impl<M: AddressManager> DiscoveryProtocol<M> {
    /// The address book.
    pub closed spec fn book(&self) -> M {
        self.addr_mgr
    }

    /// The time between two firings of a session's timer, about.
    pub closed spec fn interval(&self) -> Duration {
        self.check_interval
    }

    /// The most addresses that a peer may announce at once.
    pub closed spec fn limit(&self) -> usize {
        self.max_addrs
    }

    /// The protocol over the given address book, whose timers fire about
    /// once per `check_interval` and whose peers may announce up to
    /// `max_addrs` addresses at once.
    pub fn new(addr_mgr: M, check_interval: Duration, max_addrs: usize) -> (protocol: Self)
        ensures
            protocol.book() == addr_mgr,
            protocol.interval() == check_interval,
            protocol.limit() == max_addrs,
    {
        DiscoveryProtocol { addr_mgr, check_interval, max_addrs }
    }

    /// The address book, to read from.
    pub fn addr_mgr(&self) -> (book: &M)
        ensures
            *book == self.book(),
    {
        &self.addr_mgr
    }

    /// Gives the address book back.
    pub fn into_addr_mgr(self) -> (book: M)
        ensures
            book == self.book(),
    {
        self.addr_mgr
    }

    /// The protocol was opened on a session: the session's recurring timer
    /// is started, as `ServiceContext::set_session_notify` says.
    pub fn connected(&mut self, context: &mut ProtocolContextMutRef) -> (r: Result<(), Error>)
        ensures
            r == verdict(
                old(context).inner.service().set_session_notify_refusal(old(context).session.id),
            ),
            final(context).inner.service() == old(context).inner.service().set_session_notify(
                old(context).session.id,
                old(context).inner.protocol(),
                old(self).interval(),
                DISCOVERY_TOKEN,
            ),
            final(context).inner.protocol() == old(context).inner.protocol(),
            final(context).session == old(context).session,
            *final(final(context).inner) == *final(old(context).inner),
            *final(self) == *old(self),
    {
        let session_id = context.session.id;
        let proto_id = context.proto_id();
        context.inner.set_session_notify(session_id, proto_id, self.check_interval, DISCOVERY_TOKEN)
    }

    /// The protocol was closed on a session, or the session went away: the
    /// session's timer is cancelled, as
    /// `ServiceContext::remove_session_notify` says.
    pub fn disconnected(&mut self, context: &mut ProtocolContextMutRef) -> (r: Result<(), Error>)
        ensures
            r == verdict(
                old(context).inner.service().remove_session_notify_refusal(
                    old(context).session.id,
                    old(context).inner.protocol(),
                    DISCOVERY_TOKEN,
                ),
            ),
            final(context).inner.service() == old(context).inner.service().remove_session_notify(
                old(context).session.id,
                old(context).inner.protocol(),
                DISCOVERY_TOKEN,
            ),
            final(context).inner.protocol() == old(context).inner.protocol(),
            final(context).session == old(context).session,
            *final(final(context).inner) == *final(old(context).inner),
            *final(self) == *old(self),
    {
        let session_id = context.session.id;
        let proto_id = context.proto_id();
        context.inner.remove_session_notify(session_id, proto_id, DISCOVERY_TOKEN)
    }

    /// A message arrived on a session.
    ///
    /// What is done with it is what `handling` says. A request for
    /// addresses is answered with what the book hands out when asked for
    /// that many. An announcement within the limit is fed to the book and
    /// needs no answer. An announcement over the limit, or what is no
    /// discovery message, is reported to the book as a misbehavior, and
    /// the session is disconnected if the book says so, as
    /// `enforce` does it; if the disconnection is refused, the refusal is
    /// returned. In every case the service is left as it was or with the
    /// session's disconnection requested, and the limit and the interval
    /// stay as they are.
    pub fn received(&mut self, context: &mut ProtocolContextMutRef, message: DiscoveryMessage)
        -> (r: Result<DiscoveryReply, Error>)
        ensures
            r is Ok ==> final(context).inner.service() == old(context).inner.service()
                || final(context).inner.service() == old(context).inner.service().disconnect(
                old(context).session.id,
            ),
            r matches Err(e) ==> final(context).inner.service() == old(context).inner.service()
                && old(context).inner.service().disconnect_refusal(old(context).session.id)
                == Some(e) && handling_of(message, old(self).limit()) is Report,
            handling_of(message, old(self).limit()) matches Handling::Answer(n) ==> r is Ok
                && r->Ok_0 is Announce && r->Ok_0->Announce_0@.len() <= n && old(
                self,
            ).book().picked(n, &final(self).book(), r->Ok_0->Announce_0@),
            handling_of(message, old(self).limit()) is Learn ==> r == Ok::<DiscoveryReply, Error>(
                DiscoveryReply::Nothing,
            ),
            handling_of(message, old(self).limit()) is Learn ==> message is Nodes && old(
                self,
            ).book().noted_all(
                old(context).session.id,
                message->addresses@,
                &final(self).book(),
            ),
            handling_of(message, old(self).limit()) matches Handling::Report(fault)
                ==> exists|decision: MisbehaveResult|
                {
                    &&& #[trigger] old(self).book().judged(
                        old(context).session.id,
                        fault,
                        &final(self).book(),
                        decision,
                    )
                    &&& final(context).inner.service() == if decision.is_disconnect() {
                        old(context).inner.service().disconnect(old(context).session.id)
                    } else {
                        old(context).inner.service()
                    }
                    &&& r == match (if decision.is_disconnect() {
                        old(context).inner.service().disconnect_refusal(old(context).session.id)
                    } else {
                        None
                    }) {
                        Some(e) => Err::<DiscoveryReply, Error>(e),
                        None => Ok(DiscoveryReply::Nothing),
                    }
                },
            !(handling_of(message, old(self).limit()) is Report) ==> old(context).inner.service()
                == final(context).inner.service(),
            r is Ok && handling_of(message, old(self).limit()) is Report ==> r == Ok::<
                DiscoveryReply,
                Error,
            >(DiscoveryReply::Nothing),
            final(context).inner.protocol() == old(context).inner.protocol(),
            final(context).session == old(context).session,
            *final(final(context).inner) == *final(old(context).inner),
            final(self).limit() == old(self).limit(),
            final(self).interval() == old(self).interval(),
    {
        let session_id = context.session.id;
        match handling(&message, self.max_addrs) {
            Handling::Answer(n) => Ok(DiscoveryReply::Announce(self.addr_mgr.get_random(n))),
            Handling::Report(fault) => {
                let decision = self.addr_mgr.misbehave(session_id, fault);
                let enforced = enforce(context, decision);
                proof {
                    assert(old(self).book().judged(
                        old(context).session.id,
                        fault,
                        &self.book(),
                        decision,
                    ));
                }
                match enforced {
                    Ok(()) => Ok(DiscoveryReply::Nothing),
                    Err(e) => Err(e),
                }
            },
            Handling::Learn => {
                match message {
                    DiscoveryMessage::Nodes { addresses } => {
                        self.addr_mgr.add_new_addrs(session_id, addresses);
                    },
                    DiscoveryMessage::GetNodes { .. } => {},
                    DiscoveryMessage::Malformed => {},
                }
                Ok(DiscoveryReply::Nothing)
            },
        }
    }

    /// A timer of a session fired. If it is the protocol's own timer, the
    /// one with the token `DISCOVERY_TOKEN`, the peer is to be told of
    /// addresses as `notify` says. A timer with any other token is none of
    /// this protocol's: nothing is to be sent, and the protocol and its
    /// book stay as they are.
    pub fn timer_fired(&mut self, token: u64) -> (reply: DiscoveryReply)
        ensures
            token == DISCOVERY_TOKEN ==> reply is Announce && old(self).book().picked(
                old(self).limit(),
                &final(self).book(),
                reply->Announce_0@,
            ) && reply->Announce_0@.len() <= old(self).limit(),
            token != DISCOVERY_TOKEN ==> reply == DiscoveryReply::Nothing && *final(self) == *old(
                self,
            ),
            final(self).limit() == old(self).limit(),
            final(self).interval() == old(self).interval(),
    {
        if token == DISCOVERY_TOKEN {
            self.notify()
        } else {
            DiscoveryReply::Nothing
        }
    }

    /// The timer of a session fired: the peer is to be told of what the
    /// book hands out when it is asked for as many addresses as a peer may
    /// announce at once. The book is asked once, for exactly that many;
    /// the limit and the interval stay as they are.
    pub fn notify(&mut self) -> (reply: DiscoveryReply)
        ensures
            reply is Announce,
            old(self).book().picked(
                old(self).limit(),
                &final(self).book(),
                reply->Announce_0@,
            ),
            reply->Announce_0@.len() <= old(self).limit(),
            final(self).limit() == old(self).limit(),
            final(self).interval() == old(self).interval(),
    {
        DiscoveryReply::Announce(self.addr_mgr.get_random(self.max_addrs))
    }
}

} // verus!
