//! Steam A2S query framing: request builders, response opcodes, and
//! reassembly of multi-packet responses.

use vstd::prelude::*;
use std::collections::HashMap;
use crate::bytes::{le32, push_le32};
use crate::connection::PeerAddr;
use crate::clock::{instant_now, max_duration_nanos, nanos_since};
use std::time::Instant;

verus! {

broadcast use vstd::std_specs::hash::group_hash_axioms;

/// The header that starts every single-packet A2S message.
pub const A2S_HEADER: [u8; 4] = [0xFF, 0xFF, 0xFF, 0xFF];

/// A2S request opcode for server information.
pub const A2S_INFO: u8 = 0x54;

/// A2S request opcode for the player list.
pub const A2S_PLAYER: u8 = 0x55;

/// A2S request opcode for the server rules.
pub const A2S_RULES: u8 = 0x56;

/// A2S response opcode carrying a challenge number.
pub const A2S_CHALLENGE_RESPONSE: u8 = 0x41;

/// The four 0xFF bytes that start every single-packet A2S message.
pub open spec fn a2s_header() -> Seq<u8> {
    seq![0xFFu8, 0xFFu8, 0xFFu8, 0xFFu8]
}

/// The A2S_INFO request body text: "Source Engine Query" and a terminating NUL.
pub open spec fn source_engine_query() -> Seq<u8> {
    seq![
        83u8, 111u8, 117u8, 114u8, 99u8, 101u8, 32u8, 69u8, 110u8, 103u8, 105u8, 110u8, 101u8,
        32u8, 81u8, 117u8, 101u8, 114u8, 121u8, 0u8,
    ]
}

/// Appends the four-byte A2S header.
pub fn push_a2s_header(out: &mut Vec<u8>)
    ensures
        final(out)@ == old(out)@ + a2s_header(),
{
    out.push(0xFF);
    out.push(0xFF);
    out.push(0xFF);
    out.push(0xFF);
    assert(final(out)@ =~= old(out)@ + a2s_header());
}

/// Appends the A2S_INFO request body text.
pub fn push_source_engine_query(out: &mut Vec<u8>)
    ensures
        final(out)@ == old(out)@ + source_engine_query(),
{
    let text: Vec<u8> = vec![
        83u8, 111u8, 117u8, 114u8, 99u8, 101u8, 32u8, 69u8, 110u8, 103u8, 105u8, 110u8, 101u8,
        32u8, 81u8, 117u8, 101u8, 114u8, 121u8, 0u8,
    ];
    assert(text@ =~= source_engine_query());
    out.extend_from_slice(text.as_slice());
    assert(final(out)@ =~= old(out)@ + source_engine_query());
}

/// Whether `data` starts with the A2S header.
pub fn has_a2s_header(data: &[u8]) -> (r: bool)
    ensures
        r == (data@.len() >= 4 && data@.subrange(0, 4) == a2s_header()),
{
    if data.len() < 4 {
        return false;
    }
    let r = data[0] == 0xFF && data[1] == 0xFF && data[2] == 0xFF && data[3] == 0xFF;
    if r {
        assert(data@.subrange(0, 4) =~= a2s_header());
    } else {
        assert(data@.subrange(0, 4) != a2s_header()) by {
            if data@.subrange(0, 4) == a2s_header() {
                assert(data@[0] == data@.subrange(0, 4)[0]);
                assert(data@[1] == data@.subrange(0, 4)[1]);
                assert(data@[2] == data@.subrange(0, 4)[2]);
                assert(data@[3] == data@.subrange(0, 4)[3]);
            }
        }
    }
    r
}

/// Builds a raw A2S_INFO request packet.
pub fn build_info_request() -> (r: Vec<u8>)
    ensures
        r@ == a2s_header() + seq![A2S_INFO] + source_engine_query(),
{
    let mut packet: Vec<u8> = Vec::with_capacity(4 + 1 + 20);
    push_a2s_header(&mut packet);
    packet.push(A2S_INFO);
    push_source_engine_query(&mut packet);
    assert(packet@ =~= a2s_header() + seq![A2S_INFO] + source_engine_query());
    packet
}

/// Builds a raw A2S_PLAYER request packet; a challenge of -1 asks for a challenge first.
pub fn build_player_request(challenge: i32) -> (r: Vec<u8>)
    ensures
        r@ == a2s_header() + seq![A2S_PLAYER] + le32(challenge as u32),
{
    let mut packet: Vec<u8> = Vec::with_capacity(9);
    push_a2s_header(&mut packet);
    packet.push(A2S_PLAYER);
    push_le32(&mut packet, challenge as u32);
    assert(packet@ =~= a2s_header() + seq![A2S_PLAYER] + le32(challenge as u32));
    packet
}

/// Builds a raw A2S_RULES request packet; a challenge of -1 asks for a challenge first.
pub fn build_rules_request(challenge: i32) -> (r: Vec<u8>)
    ensures
        r@ == a2s_header() + seq![A2S_RULES] + le32(challenge as u32),
{
    let mut packet: Vec<u8> = Vec::with_capacity(9);
    push_a2s_header(&mut packet);
    packet.push(A2S_RULES);
    push_le32(&mut packet, challenge as u32);
    assert(packet@ =~= a2s_header() + seq![A2S_RULES] + le32(challenge as u32));
    packet
}

/// The opcode of a raw A2S packet: the byte after the header; `None` when the
/// packet is shorter than five bytes or does not start with the header.
pub fn parse_response_opcode(data: &[u8]) -> (r: Option<u8>)
    ensures
        r == if data@.len() >= 5 && data@.subrange(0, 4) == a2s_header() {
            Some(data@[4])
        } else {
            None::<u8>
        },
{
    if data.len() < 5 || !has_a2s_header(data) {
        return None;
    }
    Some(data[4])
}

/// The concatenation of a sequence of byte strings, in order.
pub open spec fn concat_all(parts: Seq<Seq<u8>>) -> Seq<u8>
    decreases parts.len(),
{
    if parts.len() == 0 {
        Seq::empty()
    } else {
        concat_all(parts.drop_last()) + parts.last()
    }
}

/// The challenge issued to `peer`: its port XOR 0x5A5A1234.
pub open spec fn challenge_for(peer: PeerAddr) -> i32 {
    (peer.port as i32) ^ 0x5A5A_1234i32
}

/// A challenge issued at `issued_at` is still valid at `now`: no more than
/// `ttl` has passed (an issue time after `now` counts as no time passed).
pub open spec fn challenge_fresh(issued_at: u128, now: u128, ttl: u128) -> bool {
    (if now >= issued_at {
        now - issued_at
    } else {
        0
    }) <= ttl
}

/// The challenge and issue time recorded for `peer` in `s`, the last entry for
/// `peer` counting.
pub open spec fn challenge_lookup(s: Seq<(PeerAddr, i32, u128)>, peer: PeerAddr) -> Option<
    (i32, u128),
>
    decreases s.len(),
{
    if s.len() == 0 {
        None
    } else if s.last().0 == peer {
        Some((s.last().1, s.last().2))
    } else {
        challenge_lookup(s.drop_last(), peer)
    }
}

/// The entries still valid at `now`, in order.
pub open spec fn challenges_kept(s: Seq<(PeerAddr, i32, u128)>, now: u128, ttl: u128) -> Seq<
    (PeerAddr, i32, u128),
>
    decreases s.len(),
{
    if s.len() == 0 {
        s
    } else if challenge_fresh(s.last().2, now, ttl) {
        challenges_kept(s.drop_last(), now, ttl).push(s.last())
    } else {
        challenges_kept(s.drop_last(), now, ttl)
    }
}

/// No peer occurs twice.
pub open spec fn peers_unique(s: Seq<(PeerAddr, i32, u128)>) -> bool {
    forall|i: int, j: int| 0 <= i < j < s.len() ==> #[trigger] s[i].0 != #[trigger] s[j].0
}

/// A peer absent from every entry has no record.
proof fn lemma_lookup_absent(s: Seq<(PeerAddr, i32, u128)>, peer: PeerAddr)
    ensures
        (forall|i: int| 0 <= i < s.len() ==> #[trigger] s[i].0 != peer) <==> challenge_lookup(
            s,
            peer,
        ) is None,
    decreases s.len(),
{
    if s.len() > 0 {
        lemma_lookup_absent(s.drop_last(), peer);
        if challenge_lookup(s, peer) is None {
            assert forall|i: int| 0 <= i < s.len() implies #[trigger] s[i].0 != peer by {
                if i < s.len() - 1 {
                    assert(s.drop_last()[i] == s[i]);
                }
            }
        } else if s.last().0 != peer {
            let i = choose|i: int|
                0 <= i < s.drop_last().len() && #[trigger] s.drop_last()[i].0 == peer;
            assert(s[i] == s.drop_last()[i]);
        }
    }
}

/// In a list without repeated peers, the record of the peer at `i` is entry `i`.
proof fn lemma_lookup_at(s: Seq<(PeerAddr, i32, u128)>, i: int)
    requires
        peers_unique(s),
        0 <= i < s.len(),
    ensures
        challenge_lookup(s, s[i].0) == Some((s[i].1, s[i].2)),
    decreases s.len(),
{
    if i < s.len() - 1 {
        let front = s.drop_last();
        assert(front[i] == s[i]);
        assert(s[s.len() - 1].0 != s[i].0);
        lemma_lookup_at(front, i);
    }
}

/// Replacing entry `i` of a list without repeated peers changes only that peer's record.
proof fn lemma_lookup_update(s: Seq<(PeerAddr, i32, u128)>, i: int, e: (PeerAddr, i32, u128), q: PeerAddr)
    requires
        peers_unique(s),
        0 <= i < s.len(),
        e.0 == s[i].0,
    ensures
        challenge_lookup(s.update(i, e), q) == if q == e.0 {
            Some((e.1, e.2))
        } else {
            challenge_lookup(s, q)
        },
    decreases s.len(),
{
    let t = s.update(i, e);
    if i == s.len() - 1 {
        assert(t.drop_last() =~= s.drop_last());
    } else {
        let front = s.drop_last();
        assert(t.drop_last() =~= front.update(i, e));
        assert(peers_unique(front)) by {
            assert forall|a: int, b: int| 0 <= a < b < front.len() implies #[trigger] front[a].0
                != #[trigger] front[b].0 by {
                assert(front[a] == s[a] && front[b] == s[b]);
            }
        }
        lemma_lookup_update(front, i, e, q);
        assert(s[s.len() - 1].0 != s[i].0);
    }
}

/// Keeping the valid entries keeps each peer's record exactly when it is valid.
proof fn lemma_lookup_kept(s: Seq<(PeerAddr, i32, u128)>, now: u128, ttl: u128, q: PeerAddr)
    requires
        peers_unique(s),
    ensures
        challenge_lookup(challenges_kept(s, now, ttl), q) == match challenge_lookup(s, q) {
            Some(v) => if challenge_fresh(v.1, now, ttl) {
                Some(v)
            } else {
                None
            },
            None => None,
        },
        peers_unique(challenges_kept(s, now, ttl)),
        forall|i: int|
            0 <= i < challenges_kept(s, now, ttl).len() ==> exists|j: int|
                0 <= j < s.len() && #[trigger] challenges_kept(s, now, ttl)[i] == s[j],
    decreases s.len(),
{
    if s.len() > 0 {
        let front = s.drop_last();
        let last = s[s.len() - 1];
        assert(peers_unique(front)) by {
            assert forall|a: int, b: int| 0 <= a < b < front.len() implies #[trigger] front[a].0
                != #[trigger] front[b].0 by {
                assert(front[a] == s[a] && front[b] == s[b]);
            }
        }
        lemma_lookup_kept(front, now, ttl, q);
        lemma_lookup_kept(front, now, ttl, last.0);
        let kf = challenges_kept(front, now, ttl);
        assert forall|i: int| 0 <= i < front.len() implies #[trigger] front[i].0 != last.0 by {
            assert(front[i] == s[i]);
        }
        lemma_lookup_absent(front, last.0);
        lemma_lookup_absent(kf, last.0);
        let k = challenges_kept(s, now, ttl);
        assert forall|i: int| 0 <= i < k.len() implies exists|j: int| 0 <= j < s.len() && #[trigger] k[i]
            == s[j] by {
            if i < kf.len() {
                let j = choose|j: int| 0 <= j < front.len() && kf[i] == front[j];
                assert(s[j] == front[j]);
            } else {
                assert(k[i] == s[s.len() - 1]);
            }
        }
        if challenge_fresh(last.2, now, ttl) {
            assert(k == kf.push(last));
            assert(k.drop_last() =~= kf);
            assert forall|a: int, b: int| 0 <= a < b < k.len() implies #[trigger] k[a].0
                != #[trigger] k[b].0 by {
                if b == kf.len() {
                    assert(k[b] == last);
                    assert(k[a] == kf[a]);
                }
            }
        } else {
            assert(k == kf);
        }
        assert(challenge_lookup(s, q) == if last.0 == q {
            Some((last.1, last.2))
        } else {
            challenge_lookup(front, q)
        });
    }
}

/// Issued challenges per peer, forgotten after a time-to-live; times are
/// nanoseconds on the monotonic clock since the manager was made.
#[derive(Debug)]
pub struct ChallengeManager {
    ttl: u128,
    origin: Instant,
    by_peer: Vec<(PeerAddr, i32, u128)>,
}

impl ChallengeManager {
    /// The records: peer, challenge, issue time; no peer occurs twice.
    pub closed spec fn records(&self) -> Seq<(PeerAddr, i32, u128)> {
        self.by_peer@
    }

    /// How long a challenge stays valid.
    pub closed spec fn ttl(&self) -> u128 {
        self.ttl
    }

    /// The record of `peer`: its challenge and issue time.
    pub open spec fn record_of(&self, peer: PeerAddr) -> Option<(i32, u128)> {
        challenge_lookup(self.records(), peer)
    }

    /// Whether `challenge` is accepted for `peer` at `now`: it is the one
    /// recorded for `peer`, and that record is still valid.
    pub open spec fn accepts(&self, peer: PeerAddr, challenge: i32, now: u128) -> bool {
        self.record_of(peer) matches Some(v) && challenge_fresh(v.1, now, self.ttl()) && v.0
            == challenge
    }

    /// No peer is recorded twice.
    pub closed spec fn wf(&self) -> bool {
        peers_unique(self.by_peer@)
    }

    /// A manager with no records whose challenges last `ttl` nanoseconds.
    pub fn new(ttl: u128) -> (m: Self)
        ensures
            m.wf(),
            m.ttl() == ttl,
            m.records() == Seq::<(PeerAddr, i32, u128)>::empty(),
    {
        ChallengeManager { ttl, origin: instant_now(), by_peer: Vec::new() }
    }

    fn find(&self, peer: PeerAddr) -> (r: Option<usize>)
        requires
            self.wf(),
        ensures
            r is None ==> self.record_of(peer) is None,
            r matches Some(i) ==> i < self.by_peer@.len() && self.by_peer@[i as int].0 == peer,
    {
        let mut i: usize = 0;
        while i < self.by_peer.len()
            invariant
                i <= self.by_peer@.len(),
                forall|k: int| 0 <= k < i ==> #[trigger] self.by_peer@[k].0 != peer,
            decreases self.by_peer@.len() - i,
        {
            if self.by_peer[i].0 == peer {
                return Some(i);
            }
            i = i + 1;
        }
        proof {
            lemma_lookup_absent(self.by_peer@, peer);
        }
        None
    }

    /// Issues the challenge for `peer` (its port XOR 0x5A5A1234) and records
    /// it as issued now.
    pub fn issue(&mut self, peer: PeerAddr) -> (c: i32)
        requires
            old(self).wf(),
        ensures
            final(self).wf(),
            final(self).ttl() == old(self).ttl(),
            c == challenge_for(peer),
            final(self).record_of(peer) matches Some(v) && v.0 == c,
            forall|q: PeerAddr| q != peer ==> #[trigger] final(self).record_of(q) == old(self).record_of(q),
    {
        let now = nanos_since(&self.origin);
        self.issue_at(peer, now)
    }

    /// Issues the challenge for `peer` and records it as issued at `now`.
    pub fn issue_at(&mut self, peer: PeerAddr, now: u128) -> (c: i32)
        requires
            old(self).wf(),
        ensures
            final(self).wf(),
            final(self).ttl() == old(self).ttl(),
            c == challenge_for(peer),
            final(self).record_of(peer) == Some((c, now)),
            forall|q: PeerAddr| q != peer ==> #[trigger] final(self).record_of(q) == old(self).record_of(q),
    {
        let challenge = (peer.port as i32) ^ 0x5A5A_1234;
        let e = (peer, challenge, now);
        match self.find(peer) {
            Some(i) => {
                let ghost before = self.by_peer@;
                self.by_peer.set(i, e);
                proof {
                    assert forall|q: PeerAddr| #[trigger] challenge_lookup(self.by_peer@, q) == if q == peer {
                        Some((challenge, now))
                    } else {
                        challenge_lookup(before, q)
                    } by {
                        lemma_lookup_update(before, i as int, e, q);
                    }
                    assert forall|a: int, b: int| 0 <= a < b < self.by_peer@.len() implies #[trigger] self.by_peer@[a].0
                        != #[trigger] self.by_peer@[b].0 by {
                        assert(self.by_peer@[a].0 == before[a].0 && self.by_peer@[b].0 == before[b].0);
                    }
                }
            },
            None => {
                let ghost before = self.by_peer@;
                self.by_peer.push(e);
                proof {
                    lemma_lookup_absent(before, peer);
                    assert(self.by_peer@.drop_last() =~= before);
                    assert forall|a: int, b: int| 0 <= a < b < self.by_peer@.len() implies #[trigger] self.by_peer@[a].0
                        != #[trigger] self.by_peer@[b].0 by {
                        assert(self.by_peer@[a] == before[a]);
                    }
                }
            },
        }
        challenge
    }

    /// Forgets the challenges issued more than the time-to-live ago: the
    /// records kept are those still fresh at the clock reading taken, as
    /// `cleanup_expired_at` keeps them.
    pub fn cleanup_expired(&mut self)
        requires
            old(self).wf(),
        ensures
            final(self).wf(),
            final(self).ttl() == old(self).ttl(),
            forall|q: PeerAddr| #[trigger] final(self).record_of(q) matches Some(v) ==> old(self).record_of(q) == Some(v),
            exists|now: u128|
                now <= max_duration_nanos() && final(self).records() == #[trigger] challenges_kept(
                    old(self).records(),
                    now,
                    old(self).ttl(),
                ),
    {
        let now = nanos_since(&self.origin);
        self.cleanup_expired_at(now);
        assert(now <= max_duration_nanos() && self.records() == challenges_kept(old(self).records(), now, old(self).ttl()));
    }

    /// Forgets the challenges no longer valid at `now`.
    pub fn cleanup_expired_at(&mut self, now: u128)
        requires
            old(self).wf(),
        ensures
            final(self).wf(),
            final(self).ttl() == old(self).ttl(),
            final(self).records() == challenges_kept(old(self).records(), now, old(self).ttl()),
            forall|q: PeerAddr| #[trigger] final(self).record_of(q) == match old(self).record_of(q) {
                Some(v) => if challenge_fresh(v.1, now, old(self).ttl()) {
                    Some(v)
                } else {
                    None
                },
                None => None,
            },
    {
        let ttl = self.ttl;
        let mut out: Vec<(PeerAddr, i32, u128)> = Vec::new();
        let mut i: usize = 0;
        while i < self.by_peer.len()
            invariant
                i <= self.by_peer@.len(),
                ttl == self.ttl,
                out@ == challenges_kept(self.by_peer@.take(i as int), now, ttl),
            decreases self.by_peer@.len() - i,
        {
            let e = self.by_peer[i];
            proof {
                assert(self.by_peer@.take(i + 1).drop_last() =~= self.by_peer@.take(i as int));
            }
            let age = if now >= e.2 {
                now - e.2
            } else {
                0
            };
            if age <= ttl {
                out.push(e);
            }
            i = i + 1;
        }
        proof {
            assert(self.by_peer@.take(self.by_peer@.len() as int) =~= self.by_peer@);
            assert forall|q: PeerAddr| #[trigger] challenge_lookup(out@, q) == match challenge_lookup(self.by_peer@, q) {
                Some(v) => if challenge_fresh(v.1, now, ttl) {
                    Some(v)
                } else {
                    None
                },
                None => None,
            } by {
                lemma_lookup_kept(self.by_peer@, now, ttl, q);
            }
            lemma_lookup_kept(self.by_peer@, now, ttl, PeerAddr { ip: 0, port: 0, is_ipv6: false });
        }
        self.by_peer = out;
    }

    /// Forgets expired challenges, then tells whether `challenge` is the one
    /// recorded for `peer`: both as `validate_at` does at the clock reading
    /// taken.
    pub fn validate(&mut self, peer: PeerAddr, challenge: i32) -> (r: bool)
        requires
            old(self).wf(),
        ensures
            final(self).wf(),
            final(self).ttl() == old(self).ttl(),
            r ==> (old(self).record_of(peer) matches Some(v) && v.0 == challenge),
            forall|q: PeerAddr| #[trigger] final(self).record_of(q) matches Some(v) ==> old(self).record_of(q) == Some(v),
            exists|now: u128|
                now <= max_duration_nanos() && final(self).records() == #[trigger] challenges_kept(
                    old(self).records(),
                    now,
                    old(self).ttl(),
                ) && r == old(self).accepts(peer, challenge, now),
    {
        let now = nanos_since(&self.origin);
        let r = self.validate_at(peer, challenge, now);
        assert(now <= max_duration_nanos() && self.records() == challenges_kept(old(self).records(), now, old(self).ttl())
            && r == old(self).accepts(peer, challenge, now));
        r
    }

    /// Forgets the challenges no longer valid at `now`, then tells whether
    /// `challenge` is the one recorded for `peer`.
    pub fn validate_at(&mut self, peer: PeerAddr, challenge: i32, now: u128) -> (r: bool)
        requires
            old(self).wf(),
        ensures
            final(self).wf(),
            final(self).ttl() == old(self).ttl(),
            final(self).records() == challenges_kept(old(self).records(), now, old(self).ttl()),
            forall|q: PeerAddr| #[trigger] final(self).record_of(q) == match old(self).record_of(q) {
                Some(v) => if challenge_fresh(v.1, now, old(self).ttl()) {
                    Some(v)
                } else {
                    None
                },
                None => None,
            },
            r == old(self).accepts(peer, challenge, now),
    {
        self.cleanup_expired_at(now);
        match self.find(peer) {
            Some(i) => {
                proof {
                    lemma_lookup_at(self.by_peer@, i as int);
                }
                self.by_peer[i].1 == challenge
            },
            None => false,
        }
    }
}

/// A challenge just issued for `peer` at `issued_at` is accepted for that
/// peer exactly while it is valid, and no other value is accepted.
pub proof fn lemma_issued_challenge_accepted(
    m: ChallengeManager,
    peer: PeerAddr,
    issued_at: u128,
    now: u128,
    challenge: i32,
)
    requires
        m.wf(),
        m.record_of(peer) == Some((challenge_for(peer), issued_at)),
    ensures
        m.accepts(peer, challenge, now) == (challenge_fresh(issued_at, now, m.ttl()) && challenge
            == challenge_for(peer)),
{
}

/// Buffer of response fragments, grouped by request id.
#[derive(Debug)]
pub struct FragmentBuffer {
    fragments: HashMap<u32, Vec<Vec<u8>>>,
}

impl FragmentBuffer {
    /// The fragments held for each request id, in arrival order.
    pub closed spec fn held(&self) -> Map<u32, Seq<Seq<u8>>> {
        Map::new(
            |k: u32| self.fragments@.contains_key(k),
            |k: u32| self.fragments@[k]@.map_values(|f: Vec<u8>| f@),
        )
    }

    /// Creates an empty buffer.
    pub fn new() -> (b: Self)
        ensures
            b.held() == Map::<u32, Seq<Seq<u8>>>::empty(),
    {
        let b = FragmentBuffer { fragments: HashMap::new() };
        assert(b.held() =~= Map::<u32, Seq<Seq<u8>>>::empty());
        b
    }

    /// Appends a fragment to those of `request_id`.
    pub fn insert(&mut self, request_id: u32, fragment: Vec<u8>)
        ensures
            final(self).held() == old(self).held().insert(
                request_id,
                if old(self).held().contains_key(request_id) {
                    old(self).held()[request_id].push(fragment@)
                } else {
                    seq![fragment@]
                },
            ),
    {
        let ghost frag = fragment@;
        let mut parts = match self.fragments.remove(&request_id) {
            Some(v) => v,
            None => Vec::new(),
        };
        let ghost before = parts@;
        parts.push(fragment);
        self.fragments.insert(request_id, parts);
        proof {
            let expected = old(self).held().insert(
                request_id,
                if old(self).held().contains_key(request_id) {
                    old(self).held()[request_id].push(frag)
                } else {
                    seq![frag]
                },
            );
            assert(parts@.map_values(|f: Vec<u8>| f@) =~= before.map_values(|f: Vec<u8>| f@).push(
                frag,
            ));
            if old(self).fragments@.contains_key(request_id) {
                assert(before == old(self).fragments@[request_id]@);
            } else {
                assert(before.map_values(|f: Vec<u8>| f@) =~= Seq::<Seq<u8>>::empty());
                assert(seq![frag] =~= Seq::<Seq<u8>>::empty().push(frag));
            }
            assert forall|k: u32| #[trigger] self.held().contains_key(k) == expected.contains_key(k)
                by {}
            assert forall|k: u32| self.held().contains_key(k) implies #[trigger] self.held()[k]
                == expected[k] by {
                if k != request_id {
                    assert(self.fragments@[k] == old(self).fragments@[k]);
                }
            }
            assert(self.held() =~= expected);
        }
    }

    /// Removes the fragments of `request_id` and returns them joined in arrival
    /// order; `None` when none are held.
    pub fn take_reassembled(&mut self, request_id: u32) -> (r: Option<Vec<u8>>)
        ensures
            final(self).held() == old(self).held().remove(request_id),
            r is Some <==> old(self).held().contains_key(request_id),
            r matches Some(out) ==> out@ == concat_all(old(self).held()[request_id]),
    {
        let parts = match self.fragments.remove(&request_id) {
            Some(v) => v,
            None => {
                assert(self.held() =~= old(self).held().remove(request_id));
                return None;
            },
        };
        let ghost views = parts@.map_values(|f: Vec<u8>| f@);
        let mut out: Vec<u8> = Vec::new();
        let mut i: usize = 0;
        while i < parts.len()
            invariant
                i <= parts@.len(),
                views == parts@.map_values(|f: Vec<u8>| f@),
                out@ == concat_all(views.take(i as int)),
            decreases parts@.len() - i,
        {
            proof {
                assert(views.take(i + 1).drop_last() =~= views.take(i as int));
            }
            out.extend_from_slice(parts[i].as_slice());
            i = i + 1;
        }
        proof {
            assert(views.take(parts@.len() as int) =~= views);
            assert(self.held() =~= old(self).held().remove(request_id));
        }
        Some(out)
    }
}

impl Default for FragmentBuffer {
    fn default() -> (b: Self)
        ensures
            b.held() == Map::<u32, Seq<Seq<u8>>>::empty(),
    {
        FragmentBuffer::new()
    }
}

} // verus!
