//! Verified entity tables.
//!
//! Each table couples a [`ByteStore`] with a ghost map of entity values and
//! maintains the invariant that every stored byte record is exactly the
//! encoding of the corresponding value, keyed by its id and within the
//! record size bound. Reads decode records and are proved to return the
//! modeled values; scans return entities in ascending id order.

use crate::codec::{
    decode_bid, decode_player, decode_transfer, encode_bid, encode_player, encode_transfer,
    spec_encode_bid, spec_encode_player, spec_encode_transfer, MAX_RECORD_BYTES,
};
use crate::model::{
    Player, PlayerView, Transfer, TransferBid, TransferBidView, TransferView,
};
use crate::store::{
    byte_store_entries, byte_store_get, byte_store_insert, byte_store_remove, store_map,
    ByteStore,
};
use vstd::prelude::*;

verus! {

/// The persistent table of players.
pub struct PlayerTable {
    store: ByteStore,
    model: Ghost<Map<u64, PlayerView>>,
}

impl View for PlayerTable {
    type V = Map<u64, PlayerView>;

    closed spec fn view(&self) -> Map<u64, PlayerView> {
        self.model@
    }
}

impl PlayerTable {
    /// Every byte record is the encoding of the modeled value at its key.
    pub closed spec fn inv(self) -> bool {
        &&& self@.dom().finite()
        &&& forall|k: u64|
            #[trigger] store_map(self.store).contains_key(k) <==> self@.contains_key(k)
        &&& forall|k: u64|
            #[trigger] self@.contains_key(k) ==> store_map(self.store)[k] == spec_encode_player(
                self@[k],
            ) && self@[k].id == k && spec_encode_player(self@[k]).len() <= MAX_RECORD_BYTES
    }

    /// Creates a table over an empty byte store.
    pub fn new(store: ByteStore) -> (t: Self)
        requires
            forall|k: u64| !(#[trigger] store_map(store).contains_key(k)),
        ensures
            t.inv(),
            t@ == Map::<u64, PlayerView>::empty(),
    {
        let t = PlayerTable { store, model: Ghost(Map::empty()) };
        proof {
            assert(t@.dom() =~= Set::empty());
        }
        t
    }

    /// Upserts `p` at its id; reports `false`, changing nothing, exactly
    /// when the record would exceed the size bound.
    pub fn put(&mut self, p: &Player) -> (ok: bool)
        requires
            old(self).inv(),
        ensures
            final(self).inv(),
            ok <==> spec_encode_player(p@).len() <= MAX_RECORD_BYTES,
            ok ==> final(self)@ == old(self)@.insert(p.id, p@),
            !ok ==> *final(self) == *old(self),
    {
        match encode_player(p) {
            Some(bytes) => {
                let _prev = byte_store_insert(&mut self.store, p.id, bytes);
                self.model = Ghost(self.model@.insert(p.id, p@));
                true
            },
            None => false,
        }
    }

    /// Every stored value carries its key as its id, within the record
    /// size bound.
    pub proof fn lemma_stored_record(self, k: u64)
        requires
            self.inv(),
            self@.contains_key(k),
        ensures
            self@[k].id == k,
            spec_encode_player(self@[k]).len() <= MAX_RECORD_BYTES,
    {
    }

    /// The table's view is a finite map.
    pub proof fn lemma_finite(self)
        requires
            self.inv(),
        ensures
            self@.dom().finite(),
    {
    }

    /// Returns the player at `id`, if any.
    pub fn get(&self, id: u64) -> (r: Option<Player>)
        requires
            self.inv(),
        ensures
            match r {
                Some(p) => self@.contains_key(id) && p@ == self@[id] && p.id == id,
                None => !self@.contains_key(id),
            },
    {
        match byte_store_get(&self.store, id) {
            Some(bytes) => {
                let d = decode_player(&bytes);
                proof {
                    assert(bytes@ == spec_encode_player(self@[id]));
                }
                d
            },
            None => None,
        }
    }

    /// Removes and returns the player at `id`, if any.
    pub fn remove(&mut self, id: u64) -> (r: Option<Player>)
        requires
            old(self).inv(),
        ensures
            final(self).inv(),
            final(self)@ == old(self)@.remove(id),
            match r {
                Some(p) => old(self)@.contains_key(id) && p@ == old(self)@[id],
                None => !old(self)@.contains_key(id),
            },
    {
        let prev = byte_store_remove(&mut self.store, id);
        self.model = Ghost(self.model@.remove(id));
        match prev {
            Some(bytes) => {
                let d = decode_player(&bytes);
                proof {
                    assert(bytes@ == spec_encode_player(old(self)@[id]));
                }
                d
            },
            None => None,
        }
    }

    /// Returns every player, in ascending id order.
    #[verifier::loop_isolation(false)]
    pub fn scan(&self) -> (r: Vec<Player>)
        requires
            self.inv(),
        ensures
            r@.len() == self@.dom().len(),
            forall|i: int|
                0 <= i < r@.len() ==> self@.contains_key((#[trigger] r@[i])@.id) && r@[i]@
                    == self@[r@[i]@.id],
            forall|i: int, j: int| 0 <= i < j < r@.len() ==> r@[i]@.id < r@[j]@.id,
            forall|k: u64|
                #[trigger] self@.contains_key(k) ==> exists|i: int|
                    0 <= i < r@.len() && (#[trigger] r@[i])@.id == k,
    {
        let entries = byte_store_entries(&self.store);
        let mut out: Vec<Player> = Vec::new();
        let mut idx: usize = 0;
        proof {
            assert(store_map(self.store).dom() =~= self@.dom());
        }
        while idx < entries.len()
            invariant
                out@.len() == idx as int,
                idx <= entries@.len(),
                forall|i: int|
                    0 <= i < idx as int ==> (#[trigger] out@[i])@.id == entries@[i].0 && out@[i]@
                        == self@[entries@[i].0],
            decreases entries@.len() - idx as int,
        {
            let k = entries[idx].0;
            let d = decode_player(&entries[idx].1);
            proof {
                assert(entries@[idx as int].1@ == spec_encode_player(self@[k]));
            }
            match d {
                Some(p) => out.push(p),
                None => {
                    proof {
                        assert(false);
                    }
                },
            }
            idx += 1;
        }
        proof {
            assert forall|k: u64| #[trigger] self@.contains_key(k) implies exists|i: int|
                0 <= i < out@.len() && (#[trigger] out@[i])@.id == k by {
                let i = choose|i: int| 0 <= i < entries@.len() && (#[trigger] entries@[i]).0 == k;
                assert(out@[i]@.id == k);
            }
        }
        out
    }
}

/// The persistent table of transfers.
pub struct TransferTable {
    store: ByteStore,
    model: Ghost<Map<u64, TransferView>>,
}

impl View for TransferTable {
    type V = Map<u64, TransferView>;

    closed spec fn view(&self) -> Map<u64, TransferView> {
        self.model@
    }
}

impl TransferTable {
    /// Every byte record is the encoding of the modeled value at its key.
    pub closed spec fn inv(self) -> bool {
        &&& self@.dom().finite()
        &&& forall|k: u64|
            #[trigger] store_map(self.store).contains_key(k) <==> self@.contains_key(k)
        &&& forall|k: u64|
            #[trigger] self@.contains_key(k) ==> store_map(self.store)[k] == spec_encode_transfer(
                self@[k],
            ) && self@[k].id == k && spec_encode_transfer(self@[k]).len() <= MAX_RECORD_BYTES
    }

    /// Creates a table over an empty byte store.
    pub fn new(store: ByteStore) -> (t: Self)
        requires
            forall|k: u64| !(#[trigger] store_map(store).contains_key(k)),
        ensures
            t.inv(),
            t@ == Map::<u64, TransferView>::empty(),
    {
        let t = TransferTable { store, model: Ghost(Map::empty()) };
        proof {
            assert(t@.dom() =~= Set::empty());
        }
        t
    }

    /// Upserts `p` at its id; reports `false`, changing nothing, exactly
    /// when the record would exceed the size bound.
    pub fn put(&mut self, p: &Transfer) -> (ok: bool)
        requires
            old(self).inv(),
        ensures
            final(self).inv(),
            ok <==> spec_encode_transfer(p@).len() <= MAX_RECORD_BYTES,
            ok ==> final(self)@ == old(self)@.insert(p.id, p@),
            !ok ==> *final(self) == *old(self),
    {
        match encode_transfer(p) {
            Some(bytes) => {
                let _prev = byte_store_insert(&mut self.store, p.id, bytes);
                self.model = Ghost(self.model@.insert(p.id, p@));
                true
            },
            None => false,
        }
    }

    /// Every stored value carries its key as its id, within the record
    /// size bound.
    pub proof fn lemma_stored_record(self, k: u64)
        requires
            self.inv(),
            self@.contains_key(k),
        ensures
            self@[k].id == k,
            spec_encode_transfer(self@[k]).len() <= MAX_RECORD_BYTES,
    {
    }

    /// The table's view is a finite map.
    pub proof fn lemma_finite(self)
        requires
            self.inv(),
        ensures
            self@.dom().finite(),
    {
    }

    /// Returns the record at `id`, if any.
    pub fn get(&self, id: u64) -> (r: Option<Transfer>)
        requires
            self.inv(),
        ensures
            match r {
                Some(p) => self@.contains_key(id) && p@ == self@[id] && p.id == id,
                None => !self@.contains_key(id),
            },
    {
        match byte_store_get(&self.store, id) {
            Some(bytes) => {
                let d = decode_transfer(&bytes);
                proof {
                    assert(bytes@ == spec_encode_transfer(self@[id]));
                }
                d
            },
            None => None,
        }
    }

    /// Removes and returns the record at `id`, if any.
    pub fn remove(&mut self, id: u64) -> (r: Option<Transfer>)
        requires
            old(self).inv(),
        ensures
            final(self).inv(),
            final(self)@ == old(self)@.remove(id),
            match r {
                Some(p) => old(self)@.contains_key(id) && p@ == old(self)@[id],
                None => !old(self)@.contains_key(id),
            },
    {
        let prev = byte_store_remove(&mut self.store, id);
        self.model = Ghost(self.model@.remove(id));
        match prev {
            Some(bytes) => {
                let d = decode_transfer(&bytes);
                proof {
                    assert(bytes@ == spec_encode_transfer(old(self)@[id]));
                }
                d
            },
            None => None,
        }
    }

    /// Returns every record, in ascending id order.
    #[verifier::loop_isolation(false)]
    pub fn scan(&self) -> (r: Vec<Transfer>)
        requires
            self.inv(),
        ensures
            r@.len() == self@.dom().len(),
            forall|i: int|
                0 <= i < r@.len() ==> self@.contains_key((#[trigger] r@[i])@.id) && r@[i]@
                    == self@[r@[i]@.id],
            forall|i: int, j: int| 0 <= i < j < r@.len() ==> r@[i]@.id < r@[j]@.id,
            forall|k: u64|
                #[trigger] self@.contains_key(k) ==> exists|i: int|
                    0 <= i < r@.len() && (#[trigger] r@[i])@.id == k,
    {
        let entries = byte_store_entries(&self.store);
        let mut out: Vec<Transfer> = Vec::new();
        let mut idx: usize = 0;
        proof {
            assert(store_map(self.store).dom() =~= self@.dom());
        }
        while idx < entries.len()
            invariant
                out@.len() == idx as int,
                idx <= entries@.len(),
                forall|i: int|
                    0 <= i < idx as int ==> (#[trigger] out@[i])@.id == entries@[i].0 && out@[i]@
                        == self@[entries@[i].0],
            decreases entries@.len() - idx as int,
        {
            let k = entries[idx].0;
            let d = decode_transfer(&entries[idx].1);
            proof {
                assert(entries@[idx as int].1@ == spec_encode_transfer(self@[k]));
            }
            match d {
                Some(p) => out.push(p),
                None => {
                    proof {
                        assert(false);
                    }
                },
            }
            idx += 1;
        }
        proof {
            assert forall|k: u64| #[trigger] self@.contains_key(k) implies exists|i: int|
                0 <= i < out@.len() && (#[trigger] out@[i])@.id == k by {
                let i = choose|i: int| 0 <= i < entries@.len() && (#[trigger] entries@[i]).0 == k;
                assert(out@[i]@.id == k);
            }
        }
        out
    }
}

/// The persistent table of transfer bids.
pub struct BidTable {
    store: ByteStore,
    model: Ghost<Map<u64, TransferBidView>>,
}

impl View for BidTable {
    type V = Map<u64, TransferBidView>;

    closed spec fn view(&self) -> Map<u64, TransferBidView> {
        self.model@
    }
}

impl BidTable {
    /// Every byte record is the encoding of the modeled value at its key.
    pub closed spec fn inv(self) -> bool {
        &&& self@.dom().finite()
        &&& forall|k: u64|
            #[trigger] store_map(self.store).contains_key(k) <==> self@.contains_key(k)
        &&& forall|k: u64|
            #[trigger] self@.contains_key(k) ==> store_map(self.store)[k] == spec_encode_bid(
                self@[k],
            ) && self@[k].id == k && spec_encode_bid(self@[k]).len() <= MAX_RECORD_BYTES
    }

    /// Creates a table over an empty byte store.
    pub fn new(store: ByteStore) -> (t: Self)
        requires
            forall|k: u64| !(#[trigger] store_map(store).contains_key(k)),
        ensures
            t.inv(),
            t@ == Map::<u64, TransferBidView>::empty(),
    {
        let t = BidTable { store, model: Ghost(Map::empty()) };
        proof {
            assert(t@.dom() =~= Set::empty());
        }
        t
    }

    /// Upserts `p` at its id; reports `false`, changing nothing, exactly
    /// when the record would exceed the size bound.
    pub fn put(&mut self, p: &TransferBid) -> (ok: bool)
        requires
            old(self).inv(),
        ensures
            final(self).inv(),
            ok <==> spec_encode_bid(p@).len() <= MAX_RECORD_BYTES,
            ok ==> final(self)@ == old(self)@.insert(p.id, p@),
            !ok ==> *final(self) == *old(self),
    {
        match encode_bid(p) {
            Some(bytes) => {
                let _prev = byte_store_insert(&mut self.store, p.id, bytes);
                self.model = Ghost(self.model@.insert(p.id, p@));
                true
            },
            None => false,
        }
    }

    /// Every stored value carries its key as its id, within the record
    /// size bound.
    pub proof fn lemma_stored_record(self, k: u64)
        requires
            self.inv(),
            self@.contains_key(k),
        ensures
            self@[k].id == k,
            spec_encode_bid(self@[k]).len() <= MAX_RECORD_BYTES,
    {
    }

    /// The table's view is a finite map.
    pub proof fn lemma_finite(self)
        requires
            self.inv(),
        ensures
            self@.dom().finite(),
    {
    }

    /// Returns the record at `id`, if any.
    pub fn get(&self, id: u64) -> (r: Option<TransferBid>)
        requires
            self.inv(),
        ensures
            match r {
                Some(p) => self@.contains_key(id) && p@ == self@[id] && p.id == id,
                None => !self@.contains_key(id),
            },
    {
        match byte_store_get(&self.store, id) {
            Some(bytes) => {
                let d = decode_bid(&bytes);
                proof {
                    assert(bytes@ == spec_encode_bid(self@[id]));
                }
                d
            },
            None => None,
        }
    }

    /// Removes and returns the record at `id`, if any.
    pub fn remove(&mut self, id: u64) -> (r: Option<TransferBid>)
        requires
            old(self).inv(),
        ensures
            final(self).inv(),
            final(self)@ == old(self)@.remove(id),
            match r {
                Some(p) => old(self)@.contains_key(id) && p@ == old(self)@[id],
                None => !old(self)@.contains_key(id),
            },
    {
        let prev = byte_store_remove(&mut self.store, id);
        self.model = Ghost(self.model@.remove(id));
        match prev {
            Some(bytes) => {
                let d = decode_bid(&bytes);
                proof {
                    assert(bytes@ == spec_encode_bid(old(self)@[id]));
                }
                d
            },
            None => None,
        }
    }

    /// Returns every record, in ascending id order.
    #[verifier::loop_isolation(false)]
    pub fn scan(&self) -> (r: Vec<TransferBid>)
        requires
            self.inv(),
        ensures
            r@.len() == self@.dom().len(),
            forall|i: int|
                0 <= i < r@.len() ==> self@.contains_key((#[trigger] r@[i])@.id) && r@[i]@
                    == self@[r@[i]@.id],
            forall|i: int, j: int| 0 <= i < j < r@.len() ==> r@[i]@.id < r@[j]@.id,
            forall|k: u64|
                #[trigger] self@.contains_key(k) ==> exists|i: int|
                    0 <= i < r@.len() && (#[trigger] r@[i])@.id == k,
    {
        let entries = byte_store_entries(&self.store);
        let mut out: Vec<TransferBid> = Vec::new();
        let mut idx: usize = 0;
        proof {
            assert(store_map(self.store).dom() =~= self@.dom());
        }
        while idx < entries.len()
            invariant
                out@.len() == idx as int,
                idx <= entries@.len(),
                forall|i: int|
                    0 <= i < idx as int ==> (#[trigger] out@[i])@.id == entries@[i].0 && out@[i]@
                        == self@[entries@[i].0],
            decreases entries@.len() - idx as int,
        {
            let k = entries[idx].0;
            let d = decode_bid(&entries[idx].1);
            proof {
                assert(entries@[idx as int].1@ == spec_encode_bid(self@[k]));
            }
            match d {
                Some(p) => out.push(p),
                None => {
                    proof {
                        assert(false);
                    }
                },
            }
            idx += 1;
        }
        proof {
            assert forall|k: u64| #[trigger] self@.contains_key(k) implies exists|i: int|
                0 <= i < out@.len() && (#[trigger] out@[i])@.id == k by {
                let i = choose|i: int| 0 <= i < entries@.len() && (#[trigger] entries@[i]).0 == k;
                assert(out@[i]@.id == k);
            }
        }
        out
    }
}

} // verus!
