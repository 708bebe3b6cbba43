use vstd::prelude::*;

use std::collections::HashMap;

use crate::channel::{group_of, rgroup_of};
use crate::command::Intent;
use crate::room::{without_peer, Room};
use crate::text::{sub_vec, to_lower};
use rand::Rng;

verus! {

broadcast use vstd::std_specs::hash::group_hash_axioms;

/// A registry map's view: room code key to membership list.
pub open spec fn rooms_view(m: Map<u64, Room>) -> Map<u64, Seq<u64>> {
    m.map_values(|r: Room| r@)
}

/// A registry map's broadcast groups: room code key to the identity of that
/// room's fan-out channel.
pub open spec fn groups_view(m: Map<u64, Room>) -> Map<u64, int> {
    m.map_values(|r: Room| r.group())
}

/// No registered room is empty: a code is in the map exactly as long as some
/// session still belongs to its room.
pub open spec fn map_inv(m: Map<u64, Seq<u64>>) -> bool {
    forall|c: u64| #[trigger] m.contains_key(c) ==> m[c].len() > 0
}

/// What a join does to the registry: the room for `code` is created on first
/// use, and `peer` is appended to its membership.
pub open spec fn join_spec(m: Map<u64, Seq<u64>>, code: u64, peer: u64) -> Map<u64, Seq<u64>> {
    let members = if m.contains_key(code) {
        m[code]
    } else {
        Seq::<u64>::empty()
    };
    m.insert(code, members.push(peer))
}

/// What a leave does to the registry: `peer` leaves the room for `code`, and
/// the room's entry is deleted exactly when nobody remains; an unknown code is
/// a no-op.
pub open spec fn leave_spec(m: Map<u64, Seq<u64>>, code: u64, peer: u64) -> Map<u64, Seq<u64>> {
    if !m.contains_key(code) {
        m
    } else {
        let rem = without_peer(m[code], peer);
        if rem.len() == 0 {
            m.remove(code)
        } else {
            m.insert(code, rem)
        }
    }
}

/// The process-wide table of live rooms, keyed by packed room code. Callers
/// share one registry behind one lock and call each operation inside its own
/// critical section, so that the check-then-act of `remove_if_empty` is
/// atomic.
pub struct RoomRegistry {
    rooms: HashMap<u64, Room>,
}

impl View for RoomRegistry {
    type V = Map<u64, Seq<u64>>;

    closed spec fn view(&self) -> Map<u64, Seq<u64>> {
        rooms_view(self.rooms@)
    }
}

impl RoomRegistry {
    /// No registered room is empty.
    pub open spec fn inv(&self) -> bool {
        map_inv(self@)
    }

    /// The broadcast group each live room owns, by room code key.
    pub closed spec fn groups(&self) -> Map<u64, int> {
        groups_view(self.rooms@)
    }

    /// An empty registry.
    pub fn new() -> (r: RoomRegistry)
        ensures
            r@ == Map::<u64, Seq<u64>>::empty(),
            r.inv(),
    {
        let rooms: HashMap<u64, Room> = HashMap::new();
        proof {
            assert(rooms_view(rooms@) =~= Map::<u64, Seq<u64>>::empty());
        }
        RoomRegistry { rooms }
    }

    /// Gets or creates the room for `code`, records `peer` as a member, and
    /// returns a send handle and a subscription, both onto that very room's
    /// broadcast group — the subscription is wired up before the caller's
    /// relay loop starts. A join to a code that is already live keeps that
    /// room's group; no other room's group changes.
    pub fn join(&mut self, code: u64, peer: u64) -> (h: (
        tokio::sync::broadcast::Sender<(Vec<u8>, u64)>,
        tokio::sync::broadcast::Receiver<(Vec<u8>, u64)>,
    ))
        requires
            old(self).inv(),
        ensures
            final(self)@ == join_spec(old(self)@, code, peer),
            final(self).inv(),
            rgroup_of(h.1) == group_of(h.0),
            final(self).groups() == old(self).groups().insert(code, group_of(h.0)),
            old(self)@.contains_key(code) ==> group_of(h.0) == old(self).groups()[code],
    {
        let ghost m0 = self.rooms@;
        let taken = self.rooms.remove(&code);
        proof {
            assert(self.rooms@ == m0.remove(code));
        }
        let mut room = match taken {
            Some(r) => r,
            None => Room::new(),
        };
        proof {
            assert(room@ == if m0.contains_key(code) {
                m0[code]@
            } else {
                Seq::<u64>::empty()
            });
        }
        proof {
            if m0.contains_key(code) {
                assert(room.group() == groups_view(m0)[code]);
            }
        }
        room.add_client(peer);
        let tx = room.get_broadcast();
        let rx = room.subscribe();
        self.rooms.insert(code, room);
        proof {
            assert(rooms_view(m0.remove(code).insert(code, room)) =~= rooms_view(m0).insert(
                code,
                room@,
            ));
            assert(groups_view(m0.remove(code).insert(code, room)) =~= groups_view(m0).insert(
                code,
                room.group(),
            ));
            assert(rooms_view(m0).contains_key(code) == m0.contains_key(code));
            if m0.contains_key(code) {
                assert(rooms_view(m0)[code] == m0[code]@);
            }
        }
        (tx, rx)
    }

    /// Removes `peer` from the room for `code` and deletes the room's entry
    /// exactly when its membership thereby becomes empty; the remaining-count
    /// check and the deletion are one atomic unit under the caller's lock. An
    /// unknown code is a no-op. Returns whether the entry was deleted.
    pub fn remove_if_empty(&mut self, code: u64, peer: u64) -> (removed: bool)
        requires
            old(self).inv(),
        ensures
            final(self)@ == leave_spec(old(self)@, code, peer),
            final(self).inv(),
            removed == (old(self)@.contains_key(code) && without_peer(old(self)@[code], peer).len()
                == 0),
            final(self).groups() == if removed {
                old(self).groups().remove(code)
            } else {
                old(self).groups()
            },
    {
        let ghost m0 = self.rooms@;
        let taken = self.rooms.remove(&code);
        proof {
            assert(self.rooms@ == m0.remove(code));
            assert(rooms_view(m0).contains_key(code) == m0.contains_key(code));
        }
        match taken {
            Some(mut room) => {
                proof {
                    assert(rooms_view(m0)[code] == m0[code]@);
                }
                room.remove_client(peer);
                let n = room.len();
                if n == 0 {
                    proof {
                        assert(rooms_view(m0.remove(code)) =~= rooms_view(m0).remove(code));
                        assert(groups_view(m0.remove(code)) =~= groups_view(m0).remove(code));
                    }
                    true
                } else {
                    self.rooms.insert(code, room);
                    proof {
                        assert(rooms_view(m0.remove(code).insert(code, room)) =~= rooms_view(
                            m0,
                        ).insert(code, room@));
                        assert(room.group() == groups_view(m0)[code]);
                        assert(groups_view(m0.remove(code).insert(code, room)) =~= groups_view(
                            m0,
                        ));
                    }
                    false
                }
            },
            None => {
                proof {
                    assert(m0.remove(code) =~= m0);
                }
                false
            },
        }
    }

    /// Whether `code` currently denotes a live room.
    pub fn contains_room(&self, code: u64) -> (b: bool)
        ensures
            b == self@.contains_key(code),
    {
        let b = self.rooms.contains_key(&code);
        proof {
            assert(rooms_view(self.rooms@).contains_key(code) == self.rooms@.contains_key(code));
        }
        b
    }

    /// How many members the room for `code` has; zero when there is none.
    pub fn member_count(&self, code: u64) -> (n: usize)
        ensures
            n as int == if self@.contains_key(code) {
                self@[code].len()
            } else {
                0
            },
    {
        proof {
            assert(rooms_view(self.rooms@).contains_key(code) == self.rooms@.contains_key(code));
            if self.rooms@.contains_key(code) {
                assert(rooms_view(self.rooms@)[code] == self.rooms@[code]@);
            }
        }
        match self.rooms.get(&code) {
            Some(room) => room.len(),
            None => 0,
        }
    }

    /// How many rooms are live.
    pub fn room_count(&self) -> (n: usize)
        ensures
            n as int == self@.dom().len(),
    {
        proof {
            assert(rooms_view(self.rooms@).dom() =~= self.rooms@.dom());
        }
        self.rooms.len()
    }
}

/// Law: a join never creates or keeps an empty room.
pub proof fn lemma_join_preserves_inv(m: Map<u64, Seq<u64>>, code: u64, peer: u64)
    requires
        map_inv(m),
    ensures
        map_inv(join_spec(m, code, peer)),
{
}

/// Law: a leave never leaves an empty room behind: the entry is deleted in
/// the same step that empties it.
pub proof fn lemma_leave_preserves_inv(m: Map<u64, Seq<u64>>, code: u64, peer: u64)
    requires
        map_inv(m),
    ensures
        map_inv(leave_spec(m, code, peer)),
{
}

/// Law: under the registry invariant, a code denotes a live room exactly when
/// some session still holds membership in it.
pub proof fn lemma_live_iff_member(m: Map<u64, Seq<u64>>, c: u64)
    requires
        map_inv(m),
    ensures
        m.contains_key(c) <==> exists|p: u64| m.contains_key(c) && #[trigger] m[c].contains(p),
{
    if m.contains_key(c) {
        assert(m[c].contains(m[c][0]));
    }
}

/// Law: when exactly two distinct peers share a room, the first leave keeps
/// the entry alive with the other peer, and only the second leave deletes it,
/// in either departure order.
pub proof fn lemma_last_leave_exclusive(m: Map<u64, Seq<u64>>, c: u64, a: u64, b: u64)
    requires
        map_inv(m),
        m.contains_key(c),
        m[c] == seq![a, b],
        a != b,
    ensures
        leave_spec(m, c, a).contains_key(c),
        leave_spec(m, c, a)[c] == seq![b],
        !leave_spec(leave_spec(m, c, a), c, b).contains_key(c),
        leave_spec(m, c, b).contains_key(c),
        leave_spec(m, c, b)[c] == seq![a],
        !leave_spec(leave_spec(m, c, b), c, a).contains_key(c),
{
    reveal(Seq::filter);
    let s = seq![a, b];
    assert(s.drop_last() =~= seq![a]);
    assert(seq![a].drop_last() =~= Seq::<u64>::empty());
    assert(seq![b].drop_last() =~= Seq::<u64>::empty());
    assert(without_peer(Seq::<u64>::empty(), a) =~= Seq::<u64>::empty());
    assert(without_peer(Seq::<u64>::empty(), b) =~= Seq::<u64>::empty());
    assert(without_peer(seq![a], a) =~= Seq::<u64>::empty());
    assert(without_peer(seq![b], b) =~= Seq::<u64>::empty());
    assert(without_peer(seq![a], b) =~= seq![a]);
    assert(without_peer(seq![b], a) =~= seq![b]);
    assert(without_peer(s, a) =~= seq![b]);
    assert(without_peer(s, b) =~= seq![a]);
}

/// Whether a byte may occur in a freshly sampled code.
pub open spec fn is_alnum_byte(b: u8) -> bool {
    (48 <= b && b <= 57) || (65 <= b && b <= 90) || (97 <= b && b <= 122)
}

/// Whether a byte may occur in a normalized (lowercase) room code.
pub open spec fn is_code_byte(b: u8) -> bool {
    (48 <= b && b <= 57) || (97 <= b && b <= 122)
}

/// How many bytes a room code has.
pub const CODE_LENGTH: usize = 8;

/// Relies on rand's `Alphanumeric` distribution: every sampled byte is one of
/// `a`-`z`, `A`-`Z`, `0`-`9`; which bytes come back is up to the generator.
#[verifier::external_body]
fn sample_code(count: usize) -> (r: Vec<u8>)
    ensures
        r@.len() == count as int,
        forall|i: int| 0 <= i < r@.len() ==> is_alnum_byte(#[trigger] r@[i]),
{
    rand::thread_rng().sample_iter(&rand::distributions::Alphanumeric).take(count).collect()
}

/// A fresh room code from the random oracle, normalized to lowercase.
pub fn fresh_room_code() -> (r: Vec<u8>)
    ensures
        r@.len() == CODE_LENGTH as int,
        forall|i: int| 0 <= i < r@.len() ==> is_code_byte(#[trigger] r@[i]),
{
    let raw = sample_code(CODE_LENGTH);
    let low = to_lower(&raw);
    proof {
        assert forall|i: int| 0 <= i < low@.len() implies is_code_byte(low@[i]) by {
            assert(is_alnum_byte(raw@[i]));
            assert(low@[i] == crate::text::lower_byte_spec(raw@[i]));
        }
    }
    low
}

/// The room code an intent addresses: a joiner's own (already lowercased)
/// code, or a fresh one for a creator.
pub fn resolve_code(intent: &Intent) -> (r: Vec<u8>)
    ensures
        intent matches Intent::JoinRoom { code } ==> r@ == code@,
        intent matches Intent::CreateRoom ==> (r@.len() == CODE_LENGTH as int && forall|i: int|
            0 <= i < r@.len() ==> is_code_byte(#[trigger] r@[i])),
{
    match intent {
        Intent::CreateRoom => fresh_room_code(),
        Intent::JoinRoom { code } => sub_vec(code, 0, code.len()),
    }
}

/// An eight-byte room code packed into the registry key, highest byte first.
pub open spec fn key_of(s: Seq<u8>) -> int {
    s[0] * 0x100000000000000 + s[1] * 0x1000000000000 + s[2] * 0x10000000000 + s[3] * 0x100000000
        + s[4] * 0x1000000 + s[5] * 0x10000 + s[6] * 0x100 + s[7]
}

/// Packs an eight-byte room code into its registry key.
pub fn room_key(code: &Vec<u8>) -> (k: u64)
    requires
        code@.len() == 8,
    ensures
        k as int == key_of(code@),
{
    (code[0] as u64) * 0x100000000000000 + (code[1] as u64) * 0x1000000000000 + (code[2] as u64)
        * 0x10000000000 + (code[3] as u64) * 0x100000000 + (code[4] as u64) * 0x1000000 + (code[5]
        as u64) * 0x10000 + (code[6] as u64) * 0x100 + (code[7] as u64)
}


proof fn lemma_base256_digit(a: int, b: int, x: int, y: int)
    requires
        0 <= x < 256,
        0 <= y < 256,
        a * 256 + x == b * 256 + y,
    ensures
        a == b,
        x == y,
{
    if a > b {
        assert(a * 256 >= (b + 1) * 256);
        assert(false);
    }
    if a < b {
        assert(b * 256 >= (a + 1) * 256);
        assert(false);
    }
}

/// Law: the packed registry key determines the room code: two eight-byte
/// codes with one key are the same code, so distinct codes never share a room.
pub proof fn lemma_room_key_injective(s: Seq<u8>, t: Seq<u8>)
    requires
        s.len() == 8,
        t.len() == 8,
        key_of(s) == key_of(t),
    ensures
        s =~= t,
{
    let sa7: int = (s[0] as int) * 0x1000000000000 + (s[1] as int) * 0x10000000000 + (s[2] as int) * 0x100000000 + (s[3] as int) * 0x1000000 + (s[4] as int) * 0x10000 + (s[5] as int) * 0x100 + (s[6] as int);
    let ta7: int = (t[0] as int) * 0x1000000000000 + (t[1] as int) * 0x10000000000 + (t[2] as int) * 0x100000000 + (t[3] as int) * 0x1000000 + (t[4] as int) * 0x10000 + (t[5] as int) * 0x100 + (t[6] as int);
    assert(key_of(s) == sa7 * 256 + (s[7] as int));
    assert(key_of(t) == ta7 * 256 + (t[7] as int));
    lemma_base256_digit(sa7, ta7, s[7] as int, t[7] as int);
    let sa6: int = (s[0] as int) * 0x10000000000 + (s[1] as int) * 0x100000000 + (s[2] as int) * 0x1000000 + (s[3] as int) * 0x10000 + (s[4] as int) * 0x100 + (s[5] as int);
    let ta6: int = (t[0] as int) * 0x10000000000 + (t[1] as int) * 0x100000000 + (t[2] as int) * 0x1000000 + (t[3] as int) * 0x10000 + (t[4] as int) * 0x100 + (t[5] as int);
    assert(sa7 == sa6 * 256 + (s[6] as int));
    assert(ta7 == ta6 * 256 + (t[6] as int));
    lemma_base256_digit(sa6, ta6, s[6] as int, t[6] as int);
    let sa5: int = (s[0] as int) * 0x100000000 + (s[1] as int) * 0x1000000 + (s[2] as int) * 0x10000 + (s[3] as int) * 0x100 + (s[4] as int);
    let ta5: int = (t[0] as int) * 0x100000000 + (t[1] as int) * 0x1000000 + (t[2] as int) * 0x10000 + (t[3] as int) * 0x100 + (t[4] as int);
    assert(sa6 == sa5 * 256 + (s[5] as int));
    assert(ta6 == ta5 * 256 + (t[5] as int));
    lemma_base256_digit(sa5, ta5, s[5] as int, t[5] as int);
    let sa4: int = (s[0] as int) * 0x1000000 + (s[1] as int) * 0x10000 + (s[2] as int) * 0x100 + (s[3] as int);
    let ta4: int = (t[0] as int) * 0x1000000 + (t[1] as int) * 0x10000 + (t[2] as int) * 0x100 + (t[3] as int);
    assert(sa5 == sa4 * 256 + (s[4] as int));
    assert(ta5 == ta4 * 256 + (t[4] as int));
    lemma_base256_digit(sa4, ta4, s[4] as int, t[4] as int);
    let sa3: int = (s[0] as int) * 0x10000 + (s[1] as int) * 0x100 + (s[2] as int);
    let ta3: int = (t[0] as int) * 0x10000 + (t[1] as int) * 0x100 + (t[2] as int);
    assert(sa4 == sa3 * 256 + (s[3] as int));
    assert(ta4 == ta3 * 256 + (t[3] as int));
    lemma_base256_digit(sa3, ta3, s[3] as int, t[3] as int);
    let sa2: int = (s[0] as int) * 0x100 + (s[1] as int);
    let ta2: int = (t[0] as int) * 0x100 + (t[1] as int);
    assert(sa3 == sa2 * 256 + (s[2] as int));
    assert(ta3 == ta2 * 256 + (t[2] as int));
    lemma_base256_digit(sa2, ta2, s[2] as int, t[2] as int);
    let sa1: int = (s[0] as int);
    let ta1: int = (t[0] as int);
    assert(sa2 == sa1 * 256 + (s[1] as int));
    assert(ta2 == ta1 * 256 + (t[1] as int));
    lemma_base256_digit(sa1, ta1, s[1] as int, t[1] as int);
    assert((s[0] as int) == (t[0] as int));
    assert(s =~= t);
}

} // verus!
