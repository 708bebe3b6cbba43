use vstd::prelude::*;

use crate::channel::{bound_of, clone_group, group_of, new_group, rgroup_of, subscribe_group};

verus! {

/// A membership list with every entry of `addr` removed; the rest keep their
/// order.
pub open spec fn without_peer(s: Seq<u64>, addr: u64) -> Seq<u64> {
    s.filter(|x: u64| x != addr)
}

/// How many frames a room's broadcast group buffers for a slow subscriber;
/// one that falls further behind misses frames (lag is tolerated, not
/// retried).
pub const GROUP_CAPACITY: usize = 8;

/// A live room: its broadcast group and the peers that belong to it. Its view
/// is the membership list, in join order.
pub struct Room {
    tx: tokio::sync::broadcast::Sender<(Vec<u8>, u64)>,
    clients: Vec<u64>,
}

impl View for Room {
    type V = Seq<u64>;

    closed spec fn view(&self) -> Seq<u64> {
        self.clients@
    }
}

impl Room {
    /// The identity of this room's broadcast group.
    pub closed spec fn group(&self) -> int {
        group_of(self.tx)
    }

    /// The pending-frame capacity of this room's broadcast group.
    pub closed spec fn bound(&self) -> int {
        bound_of(self.tx)
    }

    /// An empty room whose broadcast group holds `GROUP_CAPACITY` pending
    /// frames.
    pub fn new() -> (r: Room)
        ensures
            r@ == Seq::<u64>::empty(),
            r.bound() == GROUP_CAPACITY as int,
    {
        Room { tx: new_group(GROUP_CAPACITY), clients: Vec::new() }
    }

    /// A send handle into this room's broadcast group.
    pub fn get_broadcast(&self) -> (r: tokio::sync::broadcast::Sender<(Vec<u8>, u64)>)
        ensures
            group_of(r) == self.group(),
            bound_of(r) == self.bound(),
    {
        clone_group(&self.tx)
    }

    /// A fresh subscription to this room's broadcast group.
    pub fn subscribe(&self) -> (r: tokio::sync::broadcast::Receiver<(Vec<u8>, u64)>)
        ensures
            rgroup_of(r) == self.group(),
    {
        subscribe_group(&self.tx)
    }

    /// Records `addr` as a member; the broadcast group is untouched.
    pub fn add_client(&mut self, addr: u64)
        ensures
            final(self)@ == old(self)@.push(addr),
            final(self).group() == old(self).group(),
            final(self).bound() == old(self).bound(),
    {
        self.clients.push(addr);
    }

    /// Removes `addr` from the membership list; the broadcast group is
    /// untouched.
    pub fn remove_client(&mut self, addr: u64)
        ensures
            final(self)@ == without_peer(old(self)@, addr),
            final(self).group() == old(self).group(),
            final(self).bound() == old(self).bound(),
    {
        let ghost s = self.clients@;
        let mut kept: Vec<u64> = Vec::new();
        let mut i: usize = 0;
        proof {
            reveal(Seq::filter);
            assert(s.subrange(0, 0) =~= Seq::<u64>::empty());
            assert(without_peer(Seq::<u64>::empty(), addr) =~= Seq::<u64>::empty());
        }
        while i < self.clients.len()
            invariant
                i <= s.len(),
                self.clients@ == s,
                kept@ == without_peer(s.subrange(0, i as int), addr),
            decreases s.len() - i,
        {
            let x = self.clients[i];
            proof {
                reveal(Seq::filter);
                let t = s.subrange(0, i + 1);
                assert(t.drop_last() =~= s.subrange(0, i as int));
                assert(t.last() == s[i as int]);
            }
            if x != addr {
                kept.push(x);
            }
            i = i + 1;
        }
        proof {
            assert(s.subrange(0, s.len() as int) =~= s);
        }
        self.clients = kept;
    }

    /// How many members the room has.
    pub fn len(&self) -> (n: usize)
        ensures
            n == self@.len(),
    {
        self.clients.len()
    }
}

} // verus!
