//! Binary codec for the LAN and Steam P2P game packets.
//!
//! A packet starts with a 4-byte magic tag, a version byte and a packet type
//! byte; numbers are little-endian. Floating-point fields travel as the
//! little-endian bytes of their IEEE-754 single-precision bit patterns; this
//! codec handles those bit patterns as `u32` words and rejects any that is not
//! a finite number (all exponent bits set means infinity or NaN).
//!
//! A state packet whose type is the caller's "leave" type carries no body, so
//! a departure needs no position.

use vstd::prelude::*;
use crate::bytes::{le32, le64, from_le32, from_le64, push_le32, push_le64, read_le32, read_le64};

verus! {

/// The bit patterns of a player's transform and color: translation x, y, z;
/// rotation quaternion x, y, z, w; color red, green, blue.
#[derive(Debug, Clone, Copy, PartialEq, Eq)]
pub struct StateBody {
    pub translation: [u32; 3],
    pub rotation: [u32; 4],
    pub color: [u32; 3],
}

/// A projectile replication snapshot; each float is given by its bit pattern.
#[derive(Debug, Clone, Copy, PartialEq, Eq)]
pub struct ProjectileSyncData {
    pub projectile_id: u32,
    pub position: [u32; 3],
    pub velocity: [u32; 3],
    pub lifetime_secs: u32,
}

/// Whether the single-precision bit pattern `w` is a finite number: its
/// exponent bits are not all set.
pub open spec fn finite_bits(w: u32) -> bool {
    (w >> 23u32) & 0xFFu32 != 0xFFu32
}

/// The packet header: magic, version and type.
pub open spec fn header(magic: Seq<u8>, version: u8, packet_type: u8) -> Seq<u8> {
    magic + seq![version, packet_type]
}

/// `data` starts with `magic` and `version`.
pub open spec fn header_matches(data: Seq<u8>, magic: Seq<u8>, version: u8) -> bool {
    &&& data.len() >= 6
    &&& data.subrange(0, 4) == magic
    &&& data[4] == version
}

/// The little-endian bytes of each word, one after another.
pub open spec fn words_bytes(ws: Seq<u32>) -> Seq<u8>
    decreases ws.len(),
{
    if ws.len() == 0 {
        Seq::empty()
    } else {
        words_bytes(ws.drop_last()) + le32(ws.last())
    }
}

/// The ten words of a state body, in wire order.
pub open spec fn body_words(b: StateBody) -> Seq<u32> {
    b.translation@ + b.rotation@ + b.color@
}

/// The words of a projectile after its id, in wire order.
pub open spec fn projectile_words(p: ProjectileSyncData) -> Seq<u32> {
    p.position@ + p.velocity@ + seq![p.lifetime_secs]
}

/// The `n` words at `data[at..]`.
pub open spec fn words_at(data: Seq<u8>, at: int, n: nat) -> Seq<u32> {
    Seq::new(n, |i: int| from_le32(data, at + 4 * i))
}

/// Every word is a finite bit pattern.
pub open spec fn all_finite(ws: Seq<u32>) -> bool {
    forall|i: int| 0 <= i < ws.len() ==> finite_bits(#[trigger] ws[i])
}

/// The state body made of ten words.
pub open spec fn body_of(ws: Seq<u32>) -> StateBody {
    StateBody {
        translation: [ws[0], ws[1], ws[2]],
        rotation: [ws[3], ws[4], ws[5], ws[6]],
        color: [ws[7], ws[8], ws[9]],
    }
}

/// The bytes of a state packet: header, player id, and the body unless the
/// packet type is the leave type.
pub open spec fn state_wire(
    magic: Seq<u8>,
    version: u8,
    packet_type: u8,
    leave_packet_type: u8,
    player_id: u64,
    body: StateBody,
) -> Seq<u8> {
    header(magic, version, packet_type) + le64(player_id) + if packet_type == leave_packet_type {
        Seq::empty()
    } else {
        words_bytes(body_words(body))
    }
}

/// What decoding a state packet gives: `None` when the length, magic or
/// version is wrong, or a body word is not finite; otherwise the type, the
/// player id and the body (none for the leave type, which must end after the
/// id; any other type must carry exactly the ten body words).
pub open spec fn parse_state(
    magic: Seq<u8>,
    version: u8,
    leave_packet_type: u8,
    data: Seq<u8>,
) -> Option<(u8, u64, Option<StateBody>)> {
    if data.len() < 14 || !header_matches(data, magic, version) {
        None
    } else if data[5] == leave_packet_type {
        if data.len() == 14 {
            Some((data[5], from_le64(data, 6), None))
        } else {
            None
        }
    } else if data.len() != 54 || !all_finite(words_at(data, 14, 10)) {
        None
    } else {
        Some((data[5], from_le64(data, 6), Some(body_of(words_at(data, 14, 10)))))
    }
}

/// The bytes of a freeze packet: header, sender id, target id.
pub open spec fn freeze_wire(
    magic: Seq<u8>,
    version: u8,
    packet_type: u8,
    sender_id: u64,
    target_id: u64,
) -> Seq<u8> {
    header(magic, version, packet_type) + le64(sender_id) + le64(target_id)
}

/// What decoding a freeze packet gives: the two ids when the packet is 22
/// bytes with the expected magic, version and type.
pub open spec fn parse_freeze(magic: Seq<u8>, version: u8, packet_type: u8, data: Seq<u8>) -> Option<
    (u64, u64),
> {
    if data.len() != 22 || !header_matches(data, magic, version) || data[5] != packet_type {
        None
    } else {
        Some((from_le64(data, 6), from_le64(data, 14)))
    }
}

/// The bytes of a projectile packet: header, sender id, projectile id, then
/// position, velocity and lifetime words.
pub open spec fn projectile_wire(
    magic: Seq<u8>,
    version: u8,
    packet_type: u8,
    sender_id: u64,
    p: ProjectileSyncData,
) -> Seq<u8> {
    header(magic, version, packet_type) + le64(sender_id) + le32(p.projectile_id) + words_bytes(
        projectile_words(p),
    )
}

/// The projectile made of an id and seven words.
pub open spec fn projectile_of(id: u32, ws: Seq<u32>) -> ProjectileSyncData {
    ProjectileSyncData {
        projectile_id: id,
        position: [ws[0], ws[1], ws[2]],
        velocity: [ws[3], ws[4], ws[5]],
        lifetime_secs: ws[6],
    }
}

/// What decoding a projectile packet gives: the sender and the projectile
/// when the packet is 46 bytes with the expected magic, version and type and
/// all seven words are finite.
pub open spec fn parse_projectile(
    magic: Seq<u8>,
    version: u8,
    packet_type: u8,
    data: Seq<u8>,
) -> Option<(u64, ProjectileSyncData)> {
    if data.len() != 46 || !header_matches(data, magic, version) || data[5] != packet_type {
        None
    } else if !all_finite(words_at(data, 18, 7)) {
        None
    } else {
        Some((from_le64(data, 6), projectile_of(from_le32(data, 14), words_at(data, 18, 7))))
    }
}

fn push_header(out: &mut Vec<u8>, magic: [u8; 4], version: u8, packet_type: u8)
    ensures
        final(out)@ == old(out)@ + header(magic@, version, packet_type),
{
    out.push(magic[0]);
    out.push(magic[1]);
    out.push(magic[2]);
    out.push(magic[3]);
    out.push(version);
    out.push(packet_type);
    assert(final(out)@ =~= old(out)@ + header(magic@, version, packet_type));
}

fn check_header(data: &[u8], magic: [u8; 4], version: u8) -> (r: bool)
    requires
        data@.len() >= 6,
    ensures
        r == header_matches(data@, magic@, version),
{
    let r = data[0] == magic[0] && data[1] == magic[1] && data[2] == magic[2] && data[3]
        == magic[3] && data[4] == version;
    proof {
        if r {
            assert(data@.subrange(0, 4) =~= magic@);
        } else if data@.subrange(0, 4) == magic@ {
            assert(data@.subrange(0, 4)[0] == data@[0]);
            assert(data@.subrange(0, 4)[1] == data@[1]);
            assert(data@.subrange(0, 4)[2] == data@[2]);
            assert(data@.subrange(0, 4)[3] == data@[3]);
        }
    }
    r
}

fn push_words(out: &mut Vec<u8>, ws: &[u32])
    ensures
        final(out)@ == old(out)@ + words_bytes(ws@),
{
    let mut i: usize = 0;
    while i < ws.len()
        invariant
            i <= ws@.len(),
            out@ == old(out)@ + words_bytes(ws@.take(i as int)),
        decreases ws@.len() - i,
    {
        push_le32(out, ws[i]);
        proof {
            assert(ws@.take(i + 1).drop_last() =~= ws@.take(i as int));
            assert(out@ =~= old(out)@ + words_bytes(ws@.take(i + 1)));
        }
        i = i + 1;
    }
    assert(ws@.take(ws@.len() as int) =~= ws@);
}

/// Whether the bit pattern `w` is a finite number.
pub fn is_finite_bits(w: u32) -> (r: bool)
    ensures
        r == finite_bits(w),
{
    (w >> 23) & 0xFF != 0xFF
}

/// Reads `n` words at `data[at..]`; `None` when one is not finite.
fn read_finite_words(data: &[u8], at: usize, n: usize) -> (r: Option<Vec<u32>>)
    requires
        at + 4 * n <= data@.len(),
    ensures
        r is Some <==> all_finite(words_at(data@, at as int, n as nat)),
        r matches Some(v) ==> v@ == words_at(data@, at as int, n as nat),
{
    let mut out: Vec<u32> = Vec::new();
    let len = data.len();
    let mut i: usize = 0;
    while i < n
        invariant
            i <= n,
            len == data@.len(),
            at + 4 * n <= data@.len(),
            out@ == words_at(data@, at as int, i as nat),
            all_finite(out@),
        decreases n - i,
    {
        let w = read_le32(data, at + 4 * i);
        if !is_finite_bits(w) {
            proof {
                assert(words_at(data@, at as int, n as nat)[i as int] == w);
            }
            return None;
        }
        out.push(w);
        proof {
            assert(out@ =~= words_at(data@, at as int, (i + 1) as nat));
        }
        i = i + 1;
    }
    Some(out)
}

/// Encodes a state packet; see `state_wire`.
pub fn encode_state_packet(
    magic: [u8; 4],
    version: u8,
    packet_type: u8,
    leave_packet_type: u8,
    player_id: u64,
    body: &StateBody,
) -> (out: Vec<u8>)
    ensures
        out@ == state_wire(magic@, version, packet_type, leave_packet_type, player_id, *body),
{
    let mut out: Vec<u8> = Vec::with_capacity(54);
    push_header(&mut out, magic, version, packet_type);
    push_le64(&mut out, player_id);
    if packet_type == leave_packet_type {
        assert(out@ =~= state_wire(magic@, version, packet_type, leave_packet_type, player_id, *body));
        return out;
    }
    let ws: [u32; 10] = [
        body.translation[0],
        body.translation[1],
        body.translation[2],
        body.rotation[0],
        body.rotation[1],
        body.rotation[2],
        body.rotation[3],
        body.color[0],
        body.color[1],
        body.color[2],
    ];
    assert(ws@ =~= body_words(*body));
    push_words(&mut out, ws.as_slice());
    out
}

/// Encodes a freeze packet; see `freeze_wire`.
pub fn encode_freeze_packet(
    magic: [u8; 4],
    version: u8,
    packet_type: u8,
    sender_id: u64,
    target_id: u64,
) -> (out: Vec<u8>)
    ensures
        out@ == freeze_wire(magic@, version, packet_type, sender_id, target_id),
{
    let mut out: Vec<u8> = Vec::with_capacity(22);
    push_header(&mut out, magic, version, packet_type);
    push_le64(&mut out, sender_id);
    push_le64(&mut out, target_id);
    out
}

/// Encodes a projectile packet; see `projectile_wire`.
pub fn encode_projectile_packet(
    magic: [u8; 4],
    version: u8,
    packet_type: u8,
    sender_id: u64,
    projectile_id: u32,
    position: [u32; 3],
    velocity: [u32; 3],
    lifetime_secs: u32,
) -> (out: Vec<u8>)
    ensures
        out@ == projectile_wire(
            magic@,
            version,
            packet_type,
            sender_id,
            ProjectileSyncData { projectile_id, position, velocity, lifetime_secs },
        ),
{
    let mut out: Vec<u8> = Vec::with_capacity(46);
    push_header(&mut out, magic, version, packet_type);
    push_le64(&mut out, sender_id);
    push_le32(&mut out, projectile_id);
    let ws: [u32; 7] = [
        position[0],
        position[1],
        position[2],
        velocity[0],
        velocity[1],
        velocity[2],
        lifetime_secs,
    ];
    assert(ws@ =~= projectile_words(
        ProjectileSyncData { projectile_id, position, velocity, lifetime_secs },
    ));
    push_words(&mut out, ws.as_slice());
    out
}

/// Decodes a state packet; see `parse_state`.
pub fn decode_state_packet(magic: [u8; 4], version: u8, leave_packet_type: u8, data: &[u8]) -> (r:
    Option<(u8, u64, Option<StateBody>)>)
    ensures
        r == parse_state(magic@, version, leave_packet_type, data@),
{
    if data.len() < 14 {
        return None;
    }
    if !check_header(data, magic, version) {
        return None;
    }
    let packet_type = data[5];
    let player_id = read_le64(data, 6);
    if packet_type == leave_packet_type {
        if data.len() != 14 {
            return None;
        }
        return Some((packet_type, player_id, None));
    }
    if data.len() != 54 {
        return None;
    }
    match read_finite_words(data, 14, 10) {
        None => None,
        Some(ws) => {
            let body = StateBody {
                translation: [ws[0], ws[1], ws[2]],
                rotation: [ws[3], ws[4], ws[5], ws[6]],
                color: [ws[7], ws[8], ws[9]],
            };
            assert(body == body_of(words_at(data@, 14, 10)));
            Some((packet_type, player_id, Some(body)))
        },
    }
}

/// Decodes a freeze packet; see `parse_freeze`.
pub fn decode_freeze_packet(magic: [u8; 4], version: u8, packet_type: u8, data: &[u8]) -> (r: Option<
    (u64, u64),
>)
    ensures
        r == parse_freeze(magic@, version, packet_type, data@),
{
    if data.len() != 22 {
        return None;
    }
    if !check_header(data, magic, version) || data[5] != packet_type {
        return None;
    }
    let sender_id = read_le64(data, 6);
    let target_id = read_le64(data, 14);
    Some((sender_id, target_id))
}

/// Decodes a projectile packet; see `parse_projectile`.
pub fn decode_projectile_packet(magic: [u8; 4], version: u8, packet_type: u8, data: &[u8]) -> (r:
    Option<(u64, ProjectileSyncData)>)
    ensures
        r == parse_projectile(magic@, version, packet_type, data@),
{
    if data.len() != 46 {
        return None;
    }
    if !check_header(data, magic, version) || data[5] != packet_type {
        return None;
    }
    let player_id = read_le64(data, 6);
    let projectile_id = read_le32(data, 14);
    match read_finite_words(data, 18, 7) {
        None => None,
        Some(ws) => {
            let p = ProjectileSyncData {
                projectile_id,
                position: [ws[0], ws[1], ws[2]],
                velocity: [ws[3], ws[4], ws[5]],
                lifetime_secs: ws[6],
            };
            assert(p == projectile_of(from_le32(data@, 14), words_at(data@, 18, 7)));
            Some((player_id, p))
        },
    }
}


/// The remembered projectiles: sender, projectile id, and the time it was
/// first seen. No (sender, projectile) pair occurs twice.
#[derive(Debug, Clone)]
pub struct SeenProjectiles {
    entries: Vec<(u64, u32, u64)>,
}

/// An entry seen at `seen_at` is still fresh at `now`: no more than `ttl`
/// has passed (a time after `now` counts as no time passed).
pub open spec fn fresh(seen_at: u64, now: u64, ttl: u64) -> bool {
    (if now >= seen_at {
        now - seen_at
    } else {
        0
    }) <= ttl
}

/// The entries still fresh at `now`, in order.
pub open spec fn kept(s: Seq<(u64, u32, u64)>, now: u64, ttl: u64) -> Seq<(u64, u32, u64)>
    decreases s.len(),
{
    if s.len() == 0 {
        s
    } else if fresh(s.last().2, now, ttl) {
        kept(s.drop_last(), now, ttl).push(s.last())
    } else {
        kept(s.drop_last(), now, ttl)
    }
}

/// Some entry is for `player_id`'s projectile `projectile_id`.
pub open spec fn has_entry(s: Seq<(u64, u32, u64)>, player_id: u64, projectile_id: u32) -> bool {
    exists|i: int| 0 <= i < s.len() && #[trigger] s[i].0 == player_id && s[i].1 == projectile_id
}

/// No (sender, projectile) pair occurs twice.
pub open spec fn unique_entries(s: Seq<(u64, u32, u64)>) -> bool {
    forall|i: int, j: int|
        0 <= i < j < s.len() ==> !(#[trigger] s[i].0 == #[trigger] s[j].0 && s[i].1 == s[j].1)
}

proof fn lemma_kept_subset(s: Seq<(u64, u32, u64)>, now: u64, ttl: u64)
    ensures
        forall|i: int|
            0 <= i < kept(s, now, ttl).len() ==> exists|j: int|
                0 <= j < s.len() && #[trigger] kept(s, now, ttl)[i] == s[j],
        forall|i: int| 0 <= i < kept(s, now, ttl).len() ==> fresh(#[trigger] kept(s, now, ttl)[i].2, now, ttl),
    decreases s.len(),
{
    if s.len() > 0 {
        let front = s.drop_last();
        lemma_kept_subset(front, now, ttl);
        let k = kept(s, now, ttl);
        let kf = kept(front, now, ttl);
        assert forall|i: int| 0 <= i < k.len() implies exists|j: int|
            0 <= j < s.len() && #[trigger] k[i] == s[j] by {
            if i < kf.len() {
                let j = choose|j: int| 0 <= j < front.len() && kf[i] == front[j];
                assert(s[j] == front[j]);
            } else {
                assert(k[i] == s[s.len() - 1]);
            }
        }
    }
}

proof fn lemma_kept_unique(s: Seq<(u64, u32, u64)>, now: u64, ttl: u64)
    requires
        unique_entries(s),
    ensures
        unique_entries(kept(s, now, ttl)),
    decreases s.len(),
{
    if s.len() > 0 {
        let front = s.drop_last();
        assert(unique_entries(front)) by {
            assert forall|i: int, j: int| 0 <= i < j < front.len() implies !(#[trigger] front[i].0
                == #[trigger] front[j].0 && front[i].1 == front[j].1) by {
                assert(front[i] == s[i] && front[j] == s[j]);
            }
        }
        lemma_kept_unique(front, now, ttl);
        lemma_kept_subset(front, now, ttl);
        let kf = kept(front, now, ttl);
        let last = s[s.len() - 1];
        if fresh(last.2, now, ttl) {
            let k = kf.push(last);
            assert forall|i: int, j: int| 0 <= i < j < k.len() implies !(#[trigger] k[i].0
                == #[trigger] k[j].0 && k[i].1 == k[j].1) by {
                if j == kf.len() {
                    let m = choose|m: int| 0 <= m < front.len() && kf[i] == front[m];
                    assert(s[m] == front[m]);
                }
            }
        }
    }
}

impl SeenProjectiles {
    /// The remembered entries, oldest first.
    pub closed spec fn entries_view(&self) -> Seq<(u64, u32, u64)> {
        self.entries@
    }

    /// No pair is remembered twice.
    pub closed spec fn wf(&self) -> bool {
        unique_entries(self.entries@)
    }

    /// An empty table.
    pub fn new() -> (r: Self)
        ensures
            r.wf(),
            r.entries_view() == Seq::<(u64, u32, u64)>::empty(),
    {
        SeenProjectiles { entries: Vec::new() }
    }

    /// The number of remembered entries.
    pub fn len(&self) -> (r: usize)
        ensures
            r == self.entries_view().len(),
    {
        self.entries.len()
    }

    /// Forgets the entries that are no longer fresh at `now`.
    pub fn prune(&mut self, now: u64, ttl: u64)
        requires
            old(self).wf(),
        ensures
            final(self).wf(),
            final(self).entries_view() == kept(old(self).entries_view(), now, ttl),
    {
        let mut out: Vec<(u64, u32, u64)> = Vec::new();
        let mut i: usize = 0;
        while i < self.entries.len()
            invariant
                i <= self.entries@.len(),
                out@ == kept(self.entries@.take(i as int), now, ttl),
            decreases self.entries@.len() - i,
        {
            let e = self.entries[i];
            proof {
                assert(self.entries@.take(i + 1).drop_last() =~= self.entries@.take(i as int));
            }
            let age = if now >= e.2 {
                now - e.2
            } else {
                0
            };
            if age <= ttl {
                out.push(e);
            }
            i = i + 1;
        }
        proof {
            assert(self.entries@.take(self.entries@.len() as int) =~= self.entries@);
            lemma_kept_unique(self.entries@, now, ttl);
        }
        self.entries = out;
    }

    fn find(&self, player_id: u64, projectile_id: u32) -> (r: Option<usize>)
        ensures
            r is None ==> !has_entry(self.entries@, player_id, projectile_id),
            r matches Some(i) ==> i < self.entries@.len() && self.entries@[i as int].0 == player_id
                && self.entries@[i as int].1 == projectile_id,
    {
        let mut i: usize = 0;
        while i < self.entries.len()
            invariant
                i <= self.entries@.len(),
                forall|k: int|
                    0 <= k < i ==> !(#[trigger] self.entries@[k].0 == player_id
                        && self.entries@[k].1 == projectile_id),
            decreases self.entries@.len() - i,
        {
            if self.entries[i].0 == player_id && self.entries[i].1 == projectile_id {
                return Some(i);
            }
            i = i + 1;
        }
        None
    }
}

/// Remembers `player_id`'s projectile `projectile_id` as seen at `now`,
/// after forgetting entries older than `ttl`; `true` when it was not already
/// remembered (then it is added), `false` for a duplicate.
pub fn accept_recent_projectile(
    seen_projectiles: &mut SeenProjectiles,
    player_id: u64,
    projectile_id: u32,
    now: u64,
    ttl: u64,
) -> (r: bool)
    requires
        old(seen_projectiles).wf(),
    ensures
        final(seen_projectiles).wf(),
        r == !has_entry(kept(old(seen_projectiles).entries_view(), now, ttl), player_id, projectile_id),
        r ==> final(seen_projectiles).entries_view() == kept(
            old(seen_projectiles).entries_view(),
            now,
            ttl,
        ).push((player_id, projectile_id, now)),
        !r ==> final(seen_projectiles).entries_view() == kept(
            old(seen_projectiles).entries_view(),
            now,
            ttl,
        ),
{
    seen_projectiles.prune(now, ttl);
    proof {
        lemma_kept_subset(old(seen_projectiles).entries@, now, ttl);
    }
    match seen_projectiles.find(player_id, projectile_id) {
        Some(i) => {
            let seen_at = seen_projectiles.entries[i].2;
            let age = if now >= seen_at {
                now - seen_at
            } else {
                0
            };
            if age <= ttl {
                false
            } else {
                seen_projectiles.entries.push((player_id, projectile_id, now));
                proof {
                    assert(fresh(seen_projectiles.entries@[i as int].2, now, ttl));
                }
                true
            }
        },
        None => {
            let ghost before = seen_projectiles.entries@;
            seen_projectiles.entries.push((player_id, projectile_id, now));
            proof {
                let s = seen_projectiles.entries@;
                assert forall|a: int, b: int| 0 <= a < b < s.len() implies !(#[trigger] s[a].0
                    == #[trigger] s[b].0 && s[a].1 == s[b].1) by {
                    if b == before.len() {
                        assert(s[a] == before[a]);
                    } else {
                        assert(s[a] == before[a] && s[b] == before[b]);
                    }
                }
            }
            true
        },
    }
}

// ---------------------------------------------------------------------------
// Decoding what was encoded
// ---------------------------------------------------------------------------

/// Words laid out by `words_bytes` read back as the same words.
pub proof fn lemma_words_roundtrip(data: Seq<u8>, at: int, ws: Seq<u32>)
    requires
        0 <= at,
        at + 4 * ws.len() <= data.len(),
        data.subrange(at, at + 4 * ws.len()) == words_bytes(ws),
    ensures
        words_at(data, at, ws.len()) == ws,
    decreases ws.len(),
{
    if ws.len() > 0 {
        let n = ws.len() - 1;
        let front = ws.drop_last();
        assert(words_bytes(ws) == words_bytes(front) + le32(ws.last()));
        lemma_words_len(front);
        let whole = data.subrange(at, at + 4 * ws.len());
        assert((words_bytes(front) + le32(ws.last())).subrange(0, 4 * n) =~= words_bytes(front));
        assert((words_bytes(front) + le32(ws.last())).subrange(4 * n, 4 * n + 4) =~= le32(ws.last()));
        assert(whole.subrange(0, 4 * n) == words_bytes(front));
        assert(whole.subrange(4 * n, 4 * n + 4) == le32(ws.last()));
        assert(data.subrange(at, at + 4 * n) =~= data.subrange(at, at + 4 * ws.len()).subrange(
            0,
            4 * n,
        ));
        lemma_words_roundtrip(data, at, front);
        assert(data.subrange(at + 4 * n, at + 4 * n + 4) =~= data.subrange(at, at + 4 * ws.len()).subrange(
            4 * n,
            4 * n + 4,
        ));
        crate::bytes::lemma_le32_roundtrip(ws.last(), data, at + 4 * n);
        assert(words_at(data, at, ws.len()) =~= ws) by {
            assert forall|i: int| 0 <= i < ws.len() implies words_at(data, at, ws.len())[i] == ws[i] by {
                if i < n {
                    assert(words_at(data, at, front.len())[i] == front[i]);
                }
            }
        }
    }
}

/// The words take four bytes each.
pub proof fn lemma_words_len(ws: Seq<u32>)
    ensures
        words_bytes(ws).len() == 4 * ws.len(),
    decreases ws.len(),
{
    if ws.len() > 0 {
        lemma_words_len(ws.drop_last());
    }
}

/// A state packet decodes to what was encoded: its type, the player id, and
/// the body (none for the leave type), provided the body words are finite.
pub proof fn lemma_state_roundtrip(
    magic: Seq<u8>,
    version: u8,
    packet_type: u8,
    leave_packet_type: u8,
    player_id: u64,
    body: StateBody,
)
    requires
        magic.len() == 4,
        packet_type != leave_packet_type ==> all_finite(body_words(body)),
    ensures
        parse_state(
            magic,
            version,
            leave_packet_type,
            state_wire(magic, version, packet_type, leave_packet_type, player_id, body),
        ) == Some((
            packet_type,
            player_id,
            if packet_type == leave_packet_type {
                None
            } else {
                Some(body)
            },
        )),
{
    let w = state_wire(magic, version, packet_type, leave_packet_type, player_id, body);
    let ws = body_words(body);
    lemma_words_len(ws);
    assert(w.subrange(0, 4) =~= magic);
    assert(w.subrange(6, 14) =~= le64(player_id));
    crate::bytes::lemma_le64_roundtrip(player_id, w, 6);
    if packet_type != leave_packet_type {
        assert(ws.len() == 10);
        assert(w.subrange(14, 54) =~= words_bytes(ws));
        lemma_words_roundtrip(w, 14, ws);
        assert(body_of(ws).translation =~= body.translation);
        assert(body_of(ws).rotation =~= body.rotation);
        assert(body_of(ws).color =~= body.color);
    }
}

/// Word `i` of a run of words lies at bytes `4 * i` to `4 * i + 4`.
proof fn lemma_words_bytes_at(ws: Seq<u32>, i: int)
    requires
        0 <= i < ws.len(),
    ensures
        words_bytes(ws).len() == 4 * ws.len(),
        words_bytes(ws).subrange(4 * i, 4 * i + 4) == le32(ws[i]),
    decreases ws.len(),
{
    lemma_words_len(ws);
    let front = ws.drop_last();
    lemma_words_len(front);
    if i < ws.len() - 1 {
        lemma_words_bytes_at(front, i);
        assert(words_bytes(ws).subrange(4 * i, 4 * i + 4) =~= words_bytes(front).subrange(4 * i, 4 * i + 4));
    } else {
        assert(words_bytes(ws).subrange(4 * i, 4 * i + 4) =~= le32(ws.last()));
    }
}

/// The layout of the sync packets on the wire. Every packet starts with the
/// four magic bytes, the version byte and the type byte. A state or join
/// packet (54 bytes) then holds the player id in 8 little-endian bytes and
/// the ten body words in 4 little-endian bytes each: translation x, y, z at
/// 14, 18 and 22, rotation x, y, z, w at 26, 30, 34 and 38, and color red,
/// green and blue at 42, 46 and 50; a leave packet is just the header and
/// the id (14 bytes). A freeze packet (22 bytes) holds the sender id at 6
/// and the target id at 14. A projectile packet (46 bytes) holds the sender
/// id at 6, the projectile id at 14, position x, y, z at 18, 22 and 26,
/// velocity x, y, z at 30, 34 and 38, and the lifetime at 42.
pub proof fn lemma_sync_wire_layout(
    magic: Seq<u8>,
    version: u8,
    t: u8,
    leave: u8,
    id: u64,
    target: u64,
    body: StateBody,
    p: ProjectileSyncData,
)
    requires
        magic.len() == 4,
    ensures
        ({
            let w = state_wire(magic, version, t, leave, id, body);
            &&& w.subrange(0, 4) == magic && w[4] == version && w[5] == t
            &&& w.subrange(6, 14) == le64(id)
            &&& t == leave ==> w.len() == 14
            &&& t != leave ==> {
                &&& w.len() == 54
                &&& w.subrange(14, 18) == le32(body.translation[0])
                &&& w.subrange(18, 22) == le32(body.translation[1])
                &&& w.subrange(22, 26) == le32(body.translation[2])
                &&& w.subrange(26, 30) == le32(body.rotation[0])
                &&& w.subrange(30, 34) == le32(body.rotation[1])
                &&& w.subrange(34, 38) == le32(body.rotation[2])
                &&& w.subrange(38, 42) == le32(body.rotation[3])
                &&& w.subrange(42, 46) == le32(body.color[0])
                &&& w.subrange(46, 50) == le32(body.color[1])
                &&& w.subrange(50, 54) == le32(body.color[2])
            }
        }),
        ({
            let w = freeze_wire(magic, version, t, id, target);
            &&& w.len() == 22
            &&& w.subrange(0, 4) == magic && w[4] == version && w[5] == t
            &&& w.subrange(6, 14) == le64(id)
            &&& w.subrange(14, 22) == le64(target)
        }),
        ({
            let w = projectile_wire(magic, version, t, id, p);
            &&& w.len() == 46
            &&& w.subrange(0, 4) == magic && w[4] == version && w[5] == t
            &&& w.subrange(6, 14) == le64(id)
            &&& w.subrange(14, 18) == le32(p.projectile_id)
            &&& w.subrange(18, 22) == le32(p.position[0])
            &&& w.subrange(22, 26) == le32(p.position[1])
            &&& w.subrange(26, 30) == le32(p.position[2])
            &&& w.subrange(30, 34) == le32(p.velocity[0])
            &&& w.subrange(34, 38) == le32(p.velocity[1])
            &&& w.subrange(38, 42) == le32(p.velocity[2])
            &&& w.subrange(42, 46) == le32(p.lifetime_secs)
        }),
{
    let bw = body_words(body);
    let bb = words_bytes(bw);
    let sw = state_wire(magic, version, t, leave, id, body);
    lemma_words_len(bw);
    assert(sw.subrange(0, 4) =~= magic);
    assert(sw.subrange(6, 14) =~= le64(id));
    if t != leave {
        assert forall|i: int| 0 <= i < 10 implies sw.subrange(14 + 4 * i, 18 + 4 * i) == le32(#[trigger] bw[i]) by {
            lemma_words_bytes_at(bw, i);
            assert(sw.subrange(14 + 4 * i, 18 + 4 * i) =~= bb.subrange(4 * i, 4 * i + 4));
        }
        assert(bw[0] == body.translation[0] && bw[1] == body.translation[1] && bw[2] == body.translation[2]);
        assert(bw[3] == body.rotation[0] && bw[4] == body.rotation[1] && bw[5] == body.rotation[2] && bw[6] == body.rotation[3]);
        assert(bw[7] == body.color[0] && bw[8] == body.color[1] && bw[9] == body.color[2]);
        assert(sw.subrange(14, 18) == le32(bw[0]));
        assert(sw.subrange(18, 22) == le32(bw[1]));
        assert(sw.subrange(22, 26) == le32(bw[2]));
        assert(sw.subrange(26, 30) == le32(bw[3]));
        assert(sw.subrange(30, 34) == le32(bw[4]));
        assert(sw.subrange(34, 38) == le32(bw[5]));
        assert(sw.subrange(38, 42) == le32(bw[6]));
        assert(sw.subrange(42, 46) == le32(bw[7]));
        assert(sw.subrange(46, 50) == le32(bw[8]));
        assert(sw.subrange(50, 54) == le32(bw[9]));
    }
    let fw = freeze_wire(magic, version, t, id, target);
    assert(fw.subrange(0, 4) =~= magic);
    assert(fw.subrange(6, 14) =~= le64(id));
    assert(fw.subrange(14, 22) =~= le64(target));
    let pw = projectile_wire(magic, version, t, id, p);
    let pws = projectile_words(p);
    let pb = words_bytes(pws);
    lemma_words_len(pws);
    assert(pw.subrange(0, 4) =~= magic);
    assert(pw.subrange(6, 14) =~= le64(id));
    assert(pw.subrange(14, 18) =~= le32(p.projectile_id));
    assert forall|i: int| 0 <= i < 7 implies pw.subrange(18 + 4 * i, 22 + 4 * i) == le32(#[trigger] pws[i]) by {
        lemma_words_bytes_at(pws, i);
        assert(pw.subrange(18 + 4 * i, 22 + 4 * i) =~= pb.subrange(4 * i, 4 * i + 4));
    }
    assert(pws[0] == p.position[0] && pws[1] == p.position[1] && pws[2] == p.position[2]);
    assert(pws[3] == p.velocity[0] && pws[4] == p.velocity[1] && pws[5] == p.velocity[2]);
    assert(pws[6] == p.lifetime_secs);
    assert(pw.subrange(18, 22) == le32(pws[0]));
    assert(pw.subrange(22, 26) == le32(pws[1]));
    assert(pw.subrange(26, 30) == le32(pws[2]));
    assert(pw.subrange(30, 34) == le32(pws[3]));
    assert(pw.subrange(34, 38) == le32(pws[4]));
    assert(pw.subrange(38, 42) == le32(pws[5]));
    assert(pw.subrange(42, 46) == le32(pws[6]));
}

/// A freeze packet decodes to the ids that were encoded.
pub proof fn lemma_freeze_roundtrip(
    magic: Seq<u8>,
    version: u8,
    packet_type: u8,
    sender_id: u64,
    target_id: u64,
)
    requires
        magic.len() == 4,
    ensures
        parse_freeze(
            magic,
            version,
            packet_type,
            freeze_wire(magic, version, packet_type, sender_id, target_id),
        ) == Some((sender_id, target_id)),
{
    let w = freeze_wire(magic, version, packet_type, sender_id, target_id);
    assert(w.subrange(0, 4) =~= magic);
    assert(w.subrange(6, 14) =~= le64(sender_id));
    assert(w.subrange(14, 22) =~= le64(target_id));
    crate::bytes::lemma_le64_roundtrip(sender_id, w, 6);
    crate::bytes::lemma_le64_roundtrip(target_id, w, 14);
}

/// A projectile packet decodes to the sender and projectile that were
/// encoded, provided its words are finite.
pub proof fn lemma_projectile_roundtrip(
    magic: Seq<u8>,
    version: u8,
    packet_type: u8,
    sender_id: u64,
    p: ProjectileSyncData,
)
    requires
        magic.len() == 4,
        all_finite(projectile_words(p)),
    ensures
        parse_projectile(
            magic,
            version,
            packet_type,
            projectile_wire(magic, version, packet_type, sender_id, p),
        ) == Some((sender_id, p)),
{
    let w = projectile_wire(magic, version, packet_type, sender_id, p);
    let ws = projectile_words(p);
    lemma_words_len(ws);
    assert(w.subrange(0, 4) =~= magic);
    assert(w.subrange(6, 14) =~= le64(sender_id));
    assert(w.subrange(14, 18) =~= le32(p.projectile_id));
    crate::bytes::lemma_le64_roundtrip(sender_id, w, 6);
    crate::bytes::lemma_le32_roundtrip(p.projectile_id, w, 14);
    assert(w.subrange(18, 46) =~= words_bytes(ws));
    lemma_words_roundtrip(w, 18, ws);
    assert(ws.len() == 7);
    assert(w.len() == 46);
    assert(header_matches(w, magic, version));
    assert(w[5] == packet_type);
    assert(words_at(w, 18, 7) == ws);
    assert(from_le32(w, 14) == p.projectile_id);
    assert(projectile_of(p.projectile_id, ws).position =~= p.position);
    assert(projectile_of(p.projectile_id, ws).velocity =~= p.velocity);
}

} // verus!
