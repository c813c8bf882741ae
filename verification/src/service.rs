//! The domain service: payload validation, the transfer/bid state machine,
//! and the orchestration of multi-table mutations.
//!
//! A [`FootballApp`] owns the allocator counter and the three entity tables;
//! every operation validates before it mutates, and an operation's mutations
//! are applied only once they are all known to succeed, so a failure never
//! leaves a partial update behind (the sole exception: an id may be consumed
//! from the allocator by an attempt that then fails on a storage bound, which
//! only skips an id). Storage faults — a record over the size bound, or an
//! exhausted allocator — surface as [`Message::Error`], never as a panic.
//!
//! The current time is an input to every operation that records it: the host
//! supplies its clock.

use crate::codec::{
    encode_player, encode_transfer, lemma_bid_record_len, lemma_player_record_len,
    lemma_transfer_record_len, MAX_RECORD_BYTES,
};
use crate::model::{
    BidStatus, Message, Player, PlayerPayload, PlayerView, Transfer, TransferBid,
    TransferBidPayload, TransferBidView, TransferPayload, TransferStatus, TransferView,
};
use crate::store::{counter_get, counter_set, counter_value, storage_new, CounterCell};
use crate::tables::{BidTable, PlayerTable, TransferTable};
use vstd::prelude::*;
use vstd::utf8::encode_utf8;

verus! {

/// A `create_player` payload is well-formed when its name, position and club
/// are nonempty and its market value is positive.
pub open spec fn valid_player_payload(p: PlayerPayload) -> bool {
    p.name@.len() > 0 && p.position@.len() > 0 && p.current_club@.len() > 0 && p.market_value > 0
}

/// An `update_player` payload is well-formed when its name, position and
/// club are nonempty; the market value is replaced unchecked.
pub open spec fn valid_update_payload(p: PlayerPayload) -> bool {
    p.name@.len() > 0 && p.position@.len() > 0 && p.current_club@.len() > 0
}

/// Whether a player record built from this payload fits the record bound.
pub open spec fn player_payload_fits(p: PlayerPayload) -> bool {
    80 + encode_utf8(p.name@).len() + encode_utf8(p.position@).len() + encode_utf8(
        p.current_club@,
    ).len() + encode_utf8(p.nationality@).len() <= MAX_RECORD_BYTES
}

/// The player created from a payload: status available, created now.
pub open spec fn made_player(p: PlayerPayload, id: u64, now: u64) -> PlayerView {
    PlayerView {
        id,
        name: p.name@,
        position: p.position@,
        current_club: p.current_club@,
        market_value: p.market_value,
        transfer_status: TransferStatus::Available,
        contract_until: p.contract_until,
        age: p.age,
        nationality: p.nationality@,
        created_at: now,
    }
}

/// The player after an update: payload fields replace the mutable ones; id,
/// creation time and transfer status stay.
pub open spec fn updated_player(pv: PlayerView, p: PlayerPayload) -> PlayerView {
    PlayerView {
        id: pv.id,
        name: p.name@,
        position: p.position@,
        current_club: p.current_club@,
        market_value: p.market_value,
        transfer_status: pv.transfer_status,
        contract_until: p.contract_until,
        age: p.age,
        nationality: p.nationality@,
        created_at: pv.created_at,
    }
}


/// Whether a transfer record built from this payload fits the record bound.
pub open spec fn transfer_payload_fits(p: TransferPayload) -> bool {
    64 + encode_utf8(p.from_club@).len() + encode_utf8(p.to_club@).len() <= MAX_RECORD_BYTES
}

/// Whether a bid record built from this payload fits the record bound.
pub open spec fn bid_payload_fits(p: TransferBidPayload) -> bool {
    56 + encode_utf8(p.from_club@).len() + encode_utf8(p.to_club@).len() <= MAX_RECORD_BYTES
}

/// Whether the transfer record materialized from this bid fits the record
/// bound.
pub open spec fn bid_transfer_fits(b: TransferBidView) -> bool {
    64 + encode_utf8(b.from_club).len() + encode_utf8(b.to_club).len() <= MAX_RECORD_BYTES
}

/// Whether a player's record still fits the record bound after the player
/// moves to `to_club`.
pub open spec fn moved_player_fits(pv: PlayerView, to_club: Seq<char>) -> bool {
    80 + encode_utf8(pv.name).len() + encode_utf8(pv.position).len() + encode_utf8(to_club).len()
        + encode_utf8(pv.nationality).len() <= MAX_RECORD_BYTES
}

/// The transfer created from a payload.
pub open spec fn made_transfer(p: TransferPayload, id: u64, now: u64) -> TransferView {
    TransferView {
        id,
        player_id: p.player_id,
        from_club: p.from_club@,
        to_club: p.to_club@,
        transfer_fee: p.transfer_fee,
        transfer_date: p.transfer_date,
        contract_duration: p.contract_duration,
        created_at: now,
    }
}

/// The bid created from a payload: it starts pending.
pub open spec fn made_bid(p: TransferBidPayload, id: u64, now: u64) -> TransferBidView {
    TransferBidView {
        id,
        player_id: p.player_id,
        from_club: p.from_club@,
        to_club: p.to_club@,
        bid_amount: p.bid_amount,
        bid_status: BidStatus::Pending,
        created_at: now,
    }
}

/// A bid after settlement: only its status changes.
pub open spec fn settled_bid(b: TransferBidView, st: BidStatus) -> TransferBidView {
    TransferBidView {
        id: b.id,
        player_id: b.player_id,
        from_club: b.from_club,
        to_club: b.to_club,
        bid_amount: b.bid_amount,
        bid_status: st,
        created_at: b.created_at,
    }
}

/// The transfer materialized by accepting a bid: the fee is the bid amount,
/// the date is the acceptance time.
pub open spec fn bid_transfer(b: TransferBidView, id: u64, now: u64, duration: u64) -> TransferView {
    TransferView {
        id,
        player_id: b.player_id,
        from_club: b.from_club,
        to_club: b.to_club,
        transfer_fee: b.bid_amount,
        transfer_date: now,
        contract_duration: duration,
        created_at: now,
    }
}

/// A player after a completed move: transferred, at the new club, under the
/// new contract end.
pub open spec fn moved_player(pv: PlayerView, to_club: Seq<char>, contract_until: u64) -> PlayerView {
    PlayerView {
        id: pv.id,
        name: pv.name,
        position: pv.position,
        current_club: to_club,
        market_value: pv.market_value,
        transfer_status: TransferStatus::Transferred,
        contract_until,
        age: pv.age,
        nationality: pv.nationality,
        created_at: pv.created_at,
    }
}

/// Addition clamped to the top of the 64-bit range, used for the contract
/// end computed by a transfer: an unchecked sum could wrap or fail on absurd
/// dates, so the operation saturates and stays total.
pub open spec fn sat_add(a: u64, b: u64) -> u64 {
    if a + b > u64::MAX {
        u64::MAX
    } else {
        (a + b) as u64
    }
}

/// The remaining contract duration at acceptance time, clamped to zero when
/// the contract has already expired: an unchecked difference would underflow
/// there, so the operation clamps and stays total.
pub open spec fn clamped_duration(contract_until: u64, now: u64) -> u64 {
    if contract_until >= now {
        (contract_until - now) as u64
    } else {
        0
    }
}

/// A valid `create_transfer` payload: positive fee and duration.
pub open spec fn valid_transfer_payload(p: TransferPayload) -> bool {
    p.transfer_fee > 0 && p.contract_duration > 0
}

/// The player-side conditions for a transfer: the player is available and
/// currently at the payload's from-club.
pub open spec fn transfer_applies(pv: PlayerView, p: TransferPayload) -> bool {
    pv.transfer_status == TransferStatus::Available && pv.current_club == p.from_club@
}

/// The application state: the shared id allocator and the three tables.
pub struct FootballApp {
    counter: CounterCell,
    players: PlayerTable,
    transfers: TransferTable,
    bids: BidTable,
}

impl FootballApp {
    /// The players by id.
    pub closed spec fn players_view(self) -> Map<u64, PlayerView> {
        self.players@
    }

    /// The completed transfers by id.
    pub closed spec fn transfers_view(self) -> Map<u64, TransferView> {
        self.transfers@
    }

    /// The transfer bids by id.
    pub closed spec fn bids_view(self) -> Map<u64, TransferBidView> {
        self.bids@
    }

    /// The last allocated identifier (0 when none was allocated yet).
    pub closed spec fn counter_val(self) -> u64 {
        counter_value(self.counter)
    }

    /// The tables are well-formed and every stored id was allocated: it is
    /// at least 1 and at most the counter. Ids are shared across all three
    /// entity kinds, so a fresh id collides with no stored record of any
    /// kind.
    pub closed spec fn inv(self) -> bool {
        &&& self.players.inv()
        &&& self.transfers.inv()
        &&& self.bids.inv()
        &&& forall|k: u64|
            #[trigger] self.players_view().contains_key(k) ==> 1 <= k <= self.counter_val()
        &&& forall|k: u64|
            #[trigger] self.transfers_view().contains_key(k) ==> 1 <= k <= self.counter_val()
        &&& forall|k: u64|
            #[trigger] self.bids_view().contains_key(k) ==> 1 <= k <= self.counter_val()
    }

    /// Creates an empty application state.
    pub fn new() -> (s: Self)
        ensures
            s.inv(),
            s.players_view() == Map::<u64, PlayerView>::empty(),
            s.transfers_view() == Map::<u64, TransferView>::empty(),
            s.bids_view() == Map::<u64, TransferBidView>::empty(),
            s.counter_val() == 0,
    {
        let (counter, player_store, transfer_store, bid_store) = storage_new();
        FootballApp {
            counter,
            players: PlayerTable::new(player_store),
            transfers: TransferTable::new(transfer_store),
            bids: BidTable::new(bid_store),
        }
    }

    /// Allocates the next identifier: the persisted counter is incremented
    /// and its new value is the fresh id, so the first id is 1. Reports
    /// exhaustion once the counter space is spent.
    fn next_id(&mut self) -> (r: Option<u64>)
        ensures
            final(self).players_view() == old(self).players_view(),
            final(self).transfers_view() == old(self).transfers_view(),
            final(self).bids_view() == old(self).bids_view(),
            final(self).players == old(self).players,
            final(self).transfers == old(self).transfers,
            final(self).bids == old(self).bids,
            match r {
                Some(id) => old(self).counter_val() < u64::MAX && id == old(self).counter_val()
                    + 1 && final(self).counter_val() == id,
                None => old(self).counter_val() == u64::MAX && final(self).counter_val() == old(self).counter_val(),
            },
    {
        let cur = counter_get(&self.counter);
        if cur == u64::MAX {
            return None;
        }
        let _prev = counter_set(&mut self.counter, cur + 1);
        Some(cur + 1)
    }

    /// Registers a new player with a fresh id, available for transfer.
    pub fn create_player(&mut self, payload: PlayerPayload, now: u64) -> (r: Result<
        Player,
        Message,
    >)
        requires
            old(self).inv(),
        ensures
            final(self).inv(),
            final(self).counter_val() == (if valid_player_payload(payload) && old(
                self,
            ).counter_val() < u64::MAX {
                (old(self).counter_val() + 1) as u64
            } else {
                old(self).counter_val()
            }),
            final(self).transfers_view() == old(self).transfers_view(),
            final(self).bids_view() == old(self).bids_view(),
            (r matches Ok(p)) <==> (valid_player_payload(payload) && old(self).counter_val()
                < u64::MAX && player_payload_fits(payload)),
            match r {
                Ok(p) => {
                    &&& p@ == made_player(payload, (old(self).counter_val() + 1) as u64, now)
                    &&& !old(self).players_view().contains_key(p@.id)
                    &&& final(self).players_view() == old(self).players_view().insert(p@.id, p@)
                    &&& final(self).counter_val() == old(self).counter_val() + 1
                },
                Err(m) => {
                    &&& final(self).players_view() == old(self).players_view()
                    &&& ((m matches Message::InvalidPayload(_)) <==> !valid_player_payload(
                        payload,
                    ))
                    &&& ((m matches Message::Error(_)) <==> valid_player_payload(payload) && (old(self).counter_val() == u64::MAX || !player_payload_fits(payload)))
                },
            },
    {
        if payload.name.as_str().is_empty() || payload.position.as_str().is_empty()
            || payload.current_club.as_str().is_empty() || payload.market_value == 0 {
            return Err(
                Message::InvalidPayload(
                    "Ensure 'name', 'position', 'current_club', and 'market_value' are provided.".to_string(),
                ),
            );
        }
        let id = match self.next_id() {
            None => {
                return Err(Message::Error("Cannot increment ID counter".to_string()));
            },
            Some(id) => id,
        };
        let player = Player {
            id,
            name: payload.name,
            position: payload.position,
            current_club: payload.current_club,
            market_value: payload.market_value,
            transfer_status: TransferStatus::Available,
            contract_until: payload.contract_until,
            age: payload.age,
            nationality: payload.nationality,
            created_at: now,
        };
        proof {
            assert(player@ == made_player(payload, id, now));
            lemma_player_record_len(player@);
        }
        if self.players.put(&player) {
            Ok(player)
        } else {
            Err(Message::Error("Player record exceeds the storage bound".to_string()))
        }
    }

    /// Replaces every mutable field of the player at `player_id` with the
    /// payload's values; the id, creation time and transfer status are kept.
    pub fn update_player(&mut self, player_id: u64, payload: PlayerPayload) -> (r: Result<
        Player,
        Message,
    >)
        requires
            old(self).inv(),
        ensures
            final(self).inv(),
            final(self).counter_val() == old(self).counter_val(),
            final(self).transfers_view() == old(self).transfers_view(),
            final(self).bids_view() == old(self).bids_view(),
            (r matches Ok(p)) <==> (valid_update_payload(payload) && old(self).players_view().contains_key(player_id) && player_payload_fits(payload)),
            match r {
                Ok(p) => {
                    &&& p.id == player_id
                    &&& p@ == updated_player(
                        old(self).players_view()[player_id],
                        payload,
                    )
                    &&& final(self).players_view() == old(self).players_view().insert(
                        player_id,
                        p@,
                    )
                },
                Err(m) => {
                    &&& final(self).players_view() == old(self).players_view()
                    &&& ((m matches Message::InvalidPayload(_)) <==> !valid_update_payload(
                        payload,
                    ))
                    &&& ((m matches Message::NotFound(_)) <==> valid_update_payload(payload)
                        && !old(self).players_view().contains_key(player_id))
                    &&& ((m matches Message::Error(_)) <==> valid_update_payload(payload) && old(self).players_view().contains_key(player_id) && !player_payload_fits(payload))
                },
            },
    {
        if payload.name.as_str().is_empty() || payload.position.as_str().is_empty()
            || payload.current_club.as_str().is_empty() {
            return Err(
                Message::InvalidPayload("Name, position, and current club are required.".to_string()),
            );
        }
        let found = self.players.get(player_id);
        match found {
            None => Err(Message::NotFound("Player not found.".to_string())),
            Some(existing) => {
                let player = Player {
                    id: existing.id,
                    name: payload.name,
                    position: payload.position,
                    current_club: payload.current_club,
                    market_value: payload.market_value,
                    transfer_status: existing.transfer_status,
                    contract_until: payload.contract_until,
                    age: payload.age,
                    nationality: payload.nationality,
                    created_at: existing.created_at,
                };
                proof {
                    assert(player@ == updated_player(old(self).players_view()[player_id], payload));
                    lemma_player_record_len(player@);
                }
                if self.players.put(&player) {
                    proof {
                        assert(self.transfers_view() == old(self).transfers_view());
                        assert(self.bids_view() == old(self).bids_view());
                        assert(self.counter_val() == old(self).counter_val());
                    }
                    Ok(player)
                } else {
                    Err(Message::Error("Player record exceeds the storage bound".to_string()))
                }
            },
        }
    }

    /// Returns all players, in ascending id order; an empty table is
    /// reported as not found.
    pub fn get_players(&self) -> (r: Result<Vec<Player>, Message>)
        requires
            self.inv(),
        ensures
            (r matches Ok(v)) <==> self.players_view().dom().len() != 0,
            match r {
                Ok(v) => {
                    &&& v@.len() == self.players_view().dom().len()
                    &&& forall|i: int|
                        0 <= i < v@.len() ==> self.players_view().contains_key(
                            (#[trigger] v@[i])@.id,
                        ) && v@[i]@ == self.players_view()[v@[i]@.id]
                    &&& forall|i: int, j: int|
                        0 <= i < j < v@.len() ==> v@[i]@.id < v@[j]@.id
                    &&& forall|k: u64|
                        #[trigger] self.players_view().contains_key(k) ==> exists|i: int|
                            0 <= i < v@.len() && (#[trigger] v@[i])@.id == k
                },
                Err(m) => m matches Message::NotFound(_),
            },
    {
        let players = self.players.scan();
        if players.is_empty() {
            Err(Message::NotFound("No players found".to_string()))
        } else {
            Ok(players)
        }
    }

    /// Returns the player with the given id.
    pub fn get_player_by_id(&self, id: u64) -> (r: Result<Player, Message>)
        requires
            self.inv(),
        ensures
            (r matches Ok(p)) <==> self.players_view().contains_key(id),
            match r {
                Ok(p) => p@ == self.players_view()[id],
                Err(m) => m matches Message::NotFound(_),
            },
    {
        match self.players.get(id) {
            Some(p) => Ok(p),
            None => Err(Message::NotFound("Player not found".to_string())),
        }
    }

    /// Returns the players whose current club is `club_name`, in ascending
    /// id order; an empty result is reported as not found.
    #[verifier::rlimit(100)]
    pub fn get_players_by_club(&self, club_name: String) -> (r: Result<Vec<Player>, Message>)
        requires
            self.inv(),
        ensures
            (r matches Ok(v)) <==> exists|k: u64|
                #[trigger] self.players_view().contains_key(k) && self.players_view()[k].current_club
                    == club_name@,
            match r {
                Ok(v) => {
                    &&& v@.len() > 0
                    &&& forall|i: int|
                        0 <= i < v@.len() ==> self.players_view().contains_key(
                            (#[trigger] v@[i])@.id,
                        ) && v@[i]@ == self.players_view()[v@[i]@.id] && v@[i]@.current_club
                            == club_name@
                    &&& forall|i: int, j: int|
                        0 <= i < j < v@.len() ==> v@[i]@.id < v@[j]@.id
                    &&& forall|k: u64|
                        #[trigger] self.players_view().contains_key(k) && self.players_view()[k].current_club
                            == club_name@ ==> exists|i: int|
                            0 <= i < v@.len() && (#[trigger] v@[i])@.id == k
                },
                Err(m) => m matches Message::NotFound(_),
            },
    {
        let players = self.players.scan();
        let mut out: Vec<Player> = Vec::new();
        let mut idx: usize = 0;
        while idx < players.len()
            invariant
                idx <= players@.len(),
                players@.len() == self.players_view().dom().len(),
                forall|i: int|
                    0 <= i < players@.len() ==> self.players_view().contains_key(
                        (#[trigger] players@[i])@.id,
                    ) && players@[i]@ == self.players_view()[players@[i]@.id],
                forall|i: int, j: int|
                    0 <= i < j < players@.len() ==> players@[i]@.id < players@[j]@.id,
                forall|i: int|
                    #![trigger out@[i]]
                    0 <= i < out@.len() ==> exists|j: int|
                        #![trigger players@[j]]
                        0 <= j < idx as int && out@[i] == players@[j],
                forall|i: int|
                    0 <= i < out@.len() ==> (#[trigger] out@[i])@.current_club == club_name@,
                forall|i: int, j: int| 0 <= i < j < out@.len() ==> out@[i]@.id < out@[j]@.id,
                forall|j: int|
                    0 <= j < idx as int && (#[trigger] players@[j])@.current_club == club_name@
                        ==> exists|i: int|
                        #![trigger out@[i]]
                        0 <= i < out@.len() && out@[i] == players@[j],
            decreases players@.len() - idx as int,
        {
            if players[idx].current_club.eq(&club_name) {
                let ghost prev_out = out@;
                out.push(
                    Player {
                        id: players[idx].id,
                        name: players[idx].name.clone(),
                        position: players[idx].position.clone(),
                        current_club: players[idx].current_club.clone(),
                        market_value: players[idx].market_value,
                        transfer_status: players[idx].transfer_status,
                        contract_until: players[idx].contract_until,
                        age: players[idx].age,
                        nationality: players[idx].nationality.clone(),
                        created_at: players[idx].created_at,
                    },
                );
                proof {
                    assert(out@[out@.len() - 1] == players@[idx as int]);
                    assert forall|i: int, j: int| 0 <= i < j < out@.len() implies out@[i]@.id
                        < out@[j]@.id by {
                        if j < out@.len() - 1 {
                            assert(out@[i] == prev_out[i] && out@[j] == prev_out[j]);
                        } else {
                            let jj = choose|jj: int|
                                0 <= jj < idx as int && out@[i] == #[trigger] players@[jj];
                            assert(players@[jj]@.id < players@[idx as int]@.id);
                        }
                    }
                    assert forall|j: int|
                        0 <= j < idx as int + 1 && (#[trigger] players@[j])@.current_club
                            == club_name@ implies exists|i: int|
                        #![trigger out@[i]]
                        0 <= i < out@.len() && out@[i] == players@[j] by {
                        if j == idx as int {
                            assert(out@[out@.len() - 1] == players@[j]);
                        } else {
                            let i = choose|i: int|
                                0 <= i < prev_out.len() && #[trigger] prev_out[i] == players@[j];
                            assert(out@[i] == players@[j]);
                        }
                    }
                }
            } else {
                proof {
                    assert(players@[idx as int]@.current_club != club_name@);
                }
            }
            idx += 1;
        }
        proof {
            assert forall|k: u64|
                #[trigger] self.players_view().contains_key(k) && self.players_view()[k].current_club
                    == club_name@ implies exists|i: int|
                0 <= i < out@.len() && (#[trigger] out@[i])@.id == k by {
                let j = choose|j: int|
                    0 <= j < players@.len() && (#[trigger] players@[j])@.id == k;
                assert(players@[j]@.current_club == club_name@);
                let i = choose|i: int| 0 <= i < out@.len() && #[trigger] out@[i] == players@[j];
                assert(out@[i]@.id == k);
            }
        }
        if out.is_empty() {
            Err(Message::NotFound("No players found for the given club".to_string()))
        } else {
            proof {
                let w = out@[0];
                assert(self.players_view().contains_key(w@.id) && self.players_view()[w@.id].current_club
                    == club_name@);
            }
            Ok(out)
        }
    }


    /// Deletes a player and cascades: every transfer and every bid whose
    /// player id matches is removed, and no others.
    pub fn delete_player(&mut self, player_id: u64) -> (r: Result<Message, Message>)
        requires
            old(self).inv(),
        ensures
            final(self).inv(),
            final(self).counter_val() == old(self).counter_val(),
            (r matches Ok(m)) <==> old(self).players_view().contains_key(player_id),
            match r {
                Ok(m) => {
                    &&& m matches Message::Success(_)
                    &&& final(self).players_view() == old(self).players_view().remove(player_id)
                    &&& forall|k: u64|
                        #[trigger] final(self).transfers_view().contains_key(k) ==> old(self).transfers_view().contains_key(k) && old(self).transfers_view()[k].player_id
                            != player_id && final(self).transfers_view()[k] == old(self).transfers_view()[k]
                    &&& forall|k: u64|
                        #[trigger] old(self).transfers_view().contains_key(k) && old(self).transfers_view()[k].player_id != player_id ==> final(self).transfers_view().contains_key(k)
                    &&& forall|k: u64|
                        #[trigger] final(self).bids_view().contains_key(k) ==> old(self).bids_view().contains_key(k) && old(self).bids_view()[k].player_id
                            != player_id && final(self).bids_view()[k] == old(self).bids_view()[k]
                    &&& forall|k: u64|
                        #[trigger] old(self).bids_view().contains_key(k) && old(self).bids_view()[k].player_id != player_id ==> final(self).bids_view().contains_key(k)
                },
                Err(m) => {
                    &&& m matches Message::NotFound(_)
                    &&& final(self).players_view() == old(self).players_view()
                    &&& final(self).transfers_view() == old(self).transfers_view()
                    &&& final(self).bids_view() == old(self).bids_view()
                },
            },
    {
        if self.players.remove(player_id).is_none() {
            proof {
                assert(old(self).players_view().remove(player_id) =~= old(self).players_view());
                assert(self.players_view() == old(self).players_view());
                assert(self.transfers_view() == old(self).transfers_view());
                assert(self.bids_view() == old(self).bids_view());
                assert(self.counter_val() == old(self).counter_val());
                assert(self.inv());
            }
            return Err(Message::NotFound("Player not found.".to_string()));
        }
        let ghost t0 = old(self).transfers_view();
        let ghost b0 = old(self).bids_view();
        // collect the ids of the transfers that reference the player
        let ts = self.transfers.scan();
        let mut tkeys: Vec<u64> = Vec::new();
        let mut idx: usize = 0;
        while idx < ts.len()
            invariant
                idx <= ts@.len(),
                self.transfers_view() == t0,
                forall|i: int|
                    0 <= i < ts@.len() ==> t0.contains_key((#[trigger] ts@[i])@.id) && ts@[i]@
                        == t0[ts@[i]@.id],
                forall|j: int|
                    0 <= j < tkeys@.len() ==> t0.contains_key(#[trigger] tkeys@[j])
                        && t0[tkeys@[j]].player_id == player_id,
                forall|i: int|
                    0 <= i < idx as int && (#[trigger] ts@[i])@.player_id == player_id ==> exists|
                        j: int,
                    |
                        #![trigger tkeys@[j]]
                        0 <= j < tkeys@.len() && tkeys@[j] == ts@[i]@.id,
            decreases ts@.len() - idx as int,
        {
            let ghost prev = tkeys@;
            if ts[idx].player_id == player_id {
                tkeys.push(ts[idx].id);
            }
            proof {
                assert forall|i: int|
                    0 <= i < idx as int + 1 && (#[trigger] ts@[i])@.player_id
                        == player_id implies exists|j: int|
                    #![trigger tkeys@[j]]
                    0 <= j < tkeys@.len() && tkeys@[j] == ts@[i]@.id by {
                    if i == idx as int {
                        assert(tkeys@[tkeys@.len() - 1] == ts@[i]@.id);
                    } else {
                        let j = choose|j: int|
                            0 <= j < prev.len() && #[trigger] prev[j] == ts@[i]@.id;
                        assert(tkeys@[j] == ts@[i]@.id);
                    }
                }
            }
            idx += 1;
        }
        // remove them
        let mut j: usize = 0;
        while j < tkeys.len()
            invariant
                j <= tkeys@.len(),
                self.transfers.inv(),
                self.players.inv(),
                self.players_view() == old(self).players_view().remove(player_id),
                self.bids == old(self).bids,
                self.bids.inv(),
                self.bids_view() == old(self).bids_view(),
                self.counter_val() == old(self).counter_val(),
                forall|jj: int|
                    0 <= jj < tkeys@.len() ==> t0.contains_key(#[trigger] tkeys@[jj])
                        && t0[tkeys@[jj]].player_id == player_id,
                forall|k: u64|
                    #[trigger] self.transfers_view().contains_key(k) ==> t0.contains_key(k)
                        && self.transfers_view()[k] == t0[k],
                forall|k: u64|
                    #[trigger] t0.contains_key(k) ==> (self.transfers_view().contains_key(k)
                        <==> !(exists|j2: int|
                        #![trigger tkeys@[j2]]
                        0 <= j2 < j as int && tkeys@[j2] == k)),
            decreases tkeys@.len() - j as int,
        {
            let _removed = self.transfers.remove(tkeys[j]);
            j += 1;
        }
        proof {
            assert forall|k: u64|
                #[trigger] t0.contains_key(k) && t0[k].player_id != player_id implies self.transfers_view().contains_key(
                k,
            ) by {
                if exists|j2: int|
                    #![trigger tkeys@[j2]]
                    0 <= j2 < tkeys@.len() && tkeys@[j2] == k {
                    let j2 = choose|j2: int|
                        0 <= j2 < tkeys@.len() && #[trigger] tkeys@[j2] == k;
                    assert(t0[k].player_id == player_id);
                }
            }
            assert forall|k: u64|
                #[trigger] self.transfers_view().contains_key(k) implies t0[k].player_id
                != player_id by {
                let i = choose|i: int| 0 <= i < ts@.len() && (#[trigger] ts@[i])@.id == k;
                if t0[k].player_id == player_id {
                    assert(ts@[i]@.player_id == player_id);
                    let j2 = choose|j2: int|
                        #![trigger tkeys@[j2]]
                        0 <= j2 < tkeys@.len() && tkeys@[j2] == ts@[i]@.id;
                }
            }
        }
        // collect the ids of the bids that reference the player
        let ghost tdone = self.transfers_view();
        let bs = self.bids.scan();
        let mut bkeys: Vec<u64> = Vec::new();
        let mut idx2: usize = 0;
        while idx2 < bs.len()
            invariant
                idx2 <= bs@.len(),
                self.bids_view() == b0,
                forall|i: int|
                    0 <= i < bs@.len() ==> b0.contains_key((#[trigger] bs@[i])@.id) && bs@[i]@
                        == b0[bs@[i]@.id],
                forall|j2: int|
                    0 <= j2 < bkeys@.len() ==> b0.contains_key(#[trigger] bkeys@[j2])
                        && b0[bkeys@[j2]].player_id == player_id,
                forall|i: int|
                    0 <= i < idx2 as int && (#[trigger] bs@[i])@.player_id == player_id ==> exists|
                        j2: int,
                    |
                        #![trigger bkeys@[j2]]
                        0 <= j2 < bkeys@.len() && bkeys@[j2] == bs@[i]@.id,
            decreases bs@.len() - idx2 as int,
        {
            let ghost prev = bkeys@;
            if bs[idx2].player_id == player_id {
                bkeys.push(bs[idx2].id);
            }
            proof {
                assert forall|i: int|
                    0 <= i < idx2 as int + 1 && (#[trigger] bs@[i])@.player_id
                        == player_id implies exists|j2: int|
                    #![trigger bkeys@[j2]]
                    0 <= j2 < bkeys@.len() && bkeys@[j2] == bs@[i]@.id by {
                    if i == idx2 as int {
                        assert(bkeys@[bkeys@.len() - 1] == bs@[i]@.id);
                    } else {
                        let j2 = choose|j2: int|
                            0 <= j2 < prev.len() && #[trigger] prev[j2] == bs@[i]@.id;
                        assert(bkeys@[j2] == bs@[i]@.id);
                    }
                }
            }
            idx2 += 1;
        }
        // remove them
        let mut j2: usize = 0;
        while j2 < bkeys.len()
            invariant
                j2 <= bkeys@.len(),
                self.bids.inv(),
                self.players.inv(),
                self.players_view() == old(self).players_view().remove(player_id),
                self.transfers_view() == tdone,
                self.transfers.inv(),
                self.counter_val() == old(self).counter_val(),
                forall|jj: int|
                    0 <= jj < bkeys@.len() ==> b0.contains_key(#[trigger] bkeys@[jj])
                        && b0[bkeys@[jj]].player_id == player_id,
                forall|k: u64|
                    #[trigger] self.bids_view().contains_key(k) ==> b0.contains_key(k)
                        && self.bids_view()[k] == b0[k],
                forall|k: u64|
                    #[trigger] b0.contains_key(k) ==> (self.bids_view().contains_key(k) <==> !(
                    exists|jj: int|
                        #![trigger bkeys@[jj]]
                        0 <= jj < j2 as int && bkeys@[jj] == k)),
            decreases bkeys@.len() - j2 as int,
        {
            let _removed = self.bids.remove(bkeys[j2]);
            j2 += 1;
        }
        proof {
            assert forall|k: u64|
                #[trigger] b0.contains_key(k) && b0[k].player_id != player_id implies self.bids_view().contains_key(
                k,
            ) by {
                if exists|jj: int|
                    #![trigger bkeys@[jj]]
                    0 <= jj < bkeys@.len() && bkeys@[jj] == k {
                    let jj = choose|jj: int|
                        0 <= jj < bkeys@.len() && #[trigger] bkeys@[jj] == k;
                    assert(b0[k].player_id == player_id);
                }
            }
            assert forall|k: u64|
                #[trigger] self.bids_view().contains_key(k) implies b0[k].player_id != player_id by {
                let i = choose|i: int| 0 <= i < bs@.len() && (#[trigger] bs@[i])@.id == k;
                if b0[k].player_id == player_id {
                    assert(bs@[i]@.player_id == player_id);
                    let jj = choose|jj: int|
                        #![trigger bkeys@[jj]]
                        0 <= jj < bkeys@.len() && bkeys@[jj] == bs@[i]@.id;
                }
            }
            assert(self.counter_val() == old(self).counter_val());
            assert(self.inv());
        }
        Ok(Message::Success("Player deleted successfully.".to_string()))
    }

    /// Records a completed transfer and moves the player: the player becomes
    /// transferred, joins the to-club, and the contract end becomes the
    /// transfer date plus the contract duration (saturating).
    pub fn create_transfer(&mut self, payload: TransferPayload, now: u64) -> (r: Result<
        Transfer,
        Message,
    >)
        requires
            old(self).inv(),
        ensures
            final(self).inv(),
            final(self).counter_val() == (if valid_transfer_payload(payload)
                && payload.from_club@ != payload.to_club@ && old(
                self,
            ).players_view().contains_key(payload.player_id) && transfer_applies(
                old(self).players_view()[payload.player_id],
                payload,
            ) && old(self).counter_val() < u64::MAX {
                (old(self).counter_val() + 1) as u64
            } else {
                old(self).counter_val()
            }),
            final(self).bids_view() == old(self).bids_view(),
            (r matches Ok(t)) <==> (valid_transfer_payload(payload) && payload.from_club@
                != payload.to_club@ && old(self).players_view().contains_key(payload.player_id)
                && transfer_applies(old(self).players_view()[payload.player_id], payload) && old(self).counter_val() < u64::MAX && transfer_payload_fits(payload) && moved_player_fits(
                old(self).players_view()[payload.player_id],
                payload.to_club@,
            )),
            match r {
                Ok(t) => {
                    &&& t@ == made_transfer(payload, (old(self).counter_val() + 1) as u64, now)
                    &&& !old(self).transfers_view().contains_key(t@.id)
                    &&& final(self).transfers_view() == old(self).transfers_view().insert(
                        t@.id,
                        t@,
                    )
                    &&& final(self).players_view() == old(self).players_view().insert(
                        payload.player_id,
                        moved_player(
                            old(self).players_view()[payload.player_id],
                            payload.to_club@,
                            sat_add(payload.transfer_date, payload.contract_duration),
                        ),
                    )
                    &&& final(self).counter_val() == old(self).counter_val() + 1
                },
                Err(m) => {
                    &&& final(self).transfers_view() == old(self).transfers_view()
                    &&& final(self).players_view() == old(self).players_view()
                    &&& ((m matches Message::InvalidPayload(_)) <==> !valid_transfer_payload(
                        payload,
                    ))
                    &&& ((m matches Message::NotFound(_)) <==> valid_transfer_payload(payload)
                        && payload.from_club@ != payload.to_club@ && !old(self).players_view().contains_key(payload.player_id))
                    &&& ((m matches Message::Error(_)) <==> valid_transfer_payload(payload) && (
                    payload.from_club@ == payload.to_club@ || (old(self).players_view().contains_key(payload.player_id) && (!transfer_applies(
                        old(self).players_view()[payload.player_id],
                        payload,
                    ) || (transfer_applies(old(self).players_view()[payload.player_id], payload)
                        && (old(self).counter_val() == u64::MAX || !transfer_payload_fits(payload)
                        || !moved_player_fits(
                        old(self).players_view()[payload.player_id],
                        payload.to_club@,
                    )))))))
                },
            },
    {
        if payload.transfer_fee == 0 || payload.contract_duration == 0 {
            return Err(
                Message::InvalidPayload(
                    "Ensure 'transfer_fee' and 'contract_duration' are provided.".to_string(),
                ),
            );
        }
        if payload.from_club.eq(&payload.to_club) {
            return Err(
                Message::Error("Player cannot be transferred to the same club.".to_string()),
            );
        }
        let player = match self.players.get(payload.player_id) {
            None => {
                return Err(Message::NotFound("Player not found".to_string()));
            },
            Some(p) => p,
        };
        if !(matches!(player.transfer_status, TransferStatus::Available)) || !player.current_club.eq(
            &payload.from_club,
        ) {
            return Err(
                Message::Error(
                    "Player is not available for transfer or is not a member of the from_club.".to_string(),
                ),
            );
        }
        let id = match self.next_id() {
            None => {
                return Err(Message::Error("Cannot increment ID counter".to_string()));
            },
            Some(id) => id,
        };
        let contract_until = if payload.transfer_date > u64::MAX - payload.contract_duration {
            u64::MAX
        } else {
            payload.transfer_date + payload.contract_duration
        };
        let moved = Player {
            id: player.id,
            name: player.name,
            position: player.position,
            current_club: payload.to_club.clone(),
            market_value: player.market_value,
            transfer_status: TransferStatus::Transferred,
            contract_until,
            age: player.age,
            nationality: player.nationality,
            created_at: player.created_at,
        };
        let transfer = Transfer {
            id,
            player_id: payload.player_id,
            from_club: payload.from_club,
            to_club: payload.to_club,
            transfer_fee: payload.transfer_fee,
            transfer_date: payload.transfer_date,
            contract_duration: payload.contract_duration,
            created_at: now,
        };
        proof {
            assert(transfer@ == made_transfer(payload, id, now));
            assert(moved@ == moved_player(
                old(self).players_view()[payload.player_id],
                payload.to_club@,
                sat_add(payload.transfer_date, payload.contract_duration),
            ));
            lemma_transfer_record_len(transfer@);
            lemma_player_record_len(moved@);
        }
        let t_fits = encode_transfer(&transfer).is_some();
        let p_fits = encode_player(&moved).is_some();
        if !t_fits || !p_fits {
            proof {
                assert(self.transfers_view() == old(self).transfers_view());
                assert(self.players_view() == old(self).players_view());
                assert(self.bids_view() == old(self).bids_view());
                assert(self.inv());
            }
            return Err(Message::Error("Record exceeds the storage bound".to_string()));
        }
        let ok_t = self.transfers.put(&transfer);
        let ok_p = self.players.put(&moved);
        proof {
            assert(ok_t && ok_p);
            assert(self.bids_view() == old(self).bids_view());
            assert(self.counter_val() == old(self).counter_val() + 1);
            assert(self.inv());
        }
        Ok(transfer)
    }

    /// Returns all transfers, in ascending id order; an empty table is
    /// reported as not found.
    pub fn get_transfers(&self) -> (r: Result<Vec<Transfer>, Message>)
        requires
            self.inv(),
        ensures
            (r matches Ok(v)) <==> self.transfers_view().dom().len() != 0,
            match r {
                Ok(v) => {
                    &&& v@.len() == self.transfers_view().dom().len()
                    &&& forall|i: int|
                        0 <= i < v@.len() ==> self.transfers_view().contains_key(
                            (#[trigger] v@[i])@.id,
                        ) && v@[i]@ == self.transfers_view()[v@[i]@.id]
                    &&& forall|i: int, j: int|
                        0 <= i < j < v@.len() ==> v@[i]@.id < v@[j]@.id
                    &&& forall|k: u64|
                        #[trigger] self.transfers_view().contains_key(k) ==> exists|i: int|
                            0 <= i < v@.len() && (#[trigger] v@[i])@.id == k
                },
                Err(m) => m matches Message::NotFound(_),
            },
    {
        let transfers = self.transfers.scan();
        if transfers.is_empty() {
            Err(Message::NotFound("No transfers found".to_string()))
        } else {
            Ok(transfers)
        }
    }

    /// Returns the transfer with the given id.
    pub fn get_transfer_by_id(&self, id: u64) -> (r: Result<Transfer, Message>)
        requires
            self.inv(),
        ensures
            (r matches Ok(t)) <==> self.transfers_view().contains_key(id),
            match r {
                Ok(t) => t@ == self.transfers_view()[id],
                Err(m) => m matches Message::NotFound(_),
            },
    {
        match self.transfers.get(id) {
            Some(t) => Ok(t),
            None => Err(Message::NotFound("Transfer not found".to_string())),
        }
    }

    /// Places a bid on a player: the bid starts pending, and a player may
    /// hold any number of pending bids at once.
    pub fn create_transfer_bid(&mut self, payload: TransferBidPayload, now: u64) -> (r: Result<
        TransferBid,
        Message,
    >)
        requires
            old(self).inv(),
        ensures
            final(self).inv(),
            final(self).counter_val() == (if payload.bid_amount > 0 && old(
                self,
            ).players_view().contains_key(payload.player_id) && old(self).counter_val()
                < u64::MAX {
                (old(self).counter_val() + 1) as u64
            } else {
                old(self).counter_val()
            }),
            final(self).players_view() == old(self).players_view(),
            final(self).transfers_view() == old(self).transfers_view(),
            (r matches Ok(b)) <==> (payload.bid_amount > 0 && old(self).players_view().contains_key(payload.player_id) && old(self).counter_val()
                < u64::MAX && bid_payload_fits(payload)),
            match r {
                Ok(b) => {
                    &&& b@ == made_bid(payload, (old(self).counter_val() + 1) as u64, now)
                    &&& !old(self).bids_view().contains_key(b@.id)
                    &&& final(self).bids_view() == old(self).bids_view().insert(b@.id, b@)
                    &&& final(self).counter_val() == old(self).counter_val() + 1
                },
                Err(m) => {
                    &&& final(self).bids_view() == old(self).bids_view()
                    &&& ((m matches Message::InvalidPayload(_)) <==> payload.bid_amount == 0)
                    &&& ((m matches Message::NotFound(_)) <==> payload.bid_amount > 0 && !old(self).players_view().contains_key(payload.player_id))
                    &&& ((m matches Message::Error(_)) <==> payload.bid_amount > 0 && old(self).players_view().contains_key(payload.player_id) && (old(self).counter_val()
                        == u64::MAX || !bid_payload_fits(payload)))
                },
            },
    {
        if payload.bid_amount == 0 {
            return Err(Message::InvalidPayload("Bid amount must be greater than 0.".to_string()));
        }
        if self.players.get(payload.player_id).is_none() {
            return Err(Message::NotFound("Player not found".to_string()));
        }
        let id = match self.next_id() {
            None => {
                return Err(Message::Error("Cannot increment ID counter".to_string()));
            },
            Some(id) => id,
        };
        let bid = TransferBid {
            id,
            player_id: payload.player_id,
            from_club: payload.from_club,
            to_club: payload.to_club,
            bid_amount: payload.bid_amount,
            bid_status: BidStatus::Pending,
            created_at: now,
        };
        proof {
            assert(bid@ == made_bid(payload, id, now));
            lemma_bid_record_len(bid@);
        }
        if self.bids.put(&bid) {
            proof {
                assert(self.players_view() == old(self).players_view());
                assert(self.transfers_view() == old(self).transfers_view());
                assert(self.inv());
            }
            Ok(bid)
        } else {
            proof {
                assert(self.players_view() == old(self).players_view());
                assert(self.transfers_view() == old(self).transfers_view());
                assert(self.bids_view() == old(self).bids_view());
                assert(self.inv());
            }
            Err(Message::Error("Bid record exceeds the storage bound".to_string()))
        }
    }

    /// Returns all bids, in ascending id order; an empty table is reported
    /// as not found.
    pub fn get_transfer_bids(&self) -> (r: Result<Vec<TransferBid>, Message>)
        requires
            self.inv(),
        ensures
            (r matches Ok(v)) <==> self.bids_view().dom().len() != 0,
            match r {
                Ok(v) => {
                    &&& v@.len() == self.bids_view().dom().len()
                    &&& forall|i: int|
                        0 <= i < v@.len() ==> self.bids_view().contains_key(
                            (#[trigger] v@[i])@.id,
                        ) && v@[i]@ == self.bids_view()[v@[i]@.id]
                    &&& forall|i: int, j: int|
                        0 <= i < j < v@.len() ==> v@[i]@.id < v@[j]@.id
                    &&& forall|k: u64|
                        #[trigger] self.bids_view().contains_key(k) ==> exists|i: int|
                            0 <= i < v@.len() && (#[trigger] v@[i])@.id == k
                },
                Err(m) => m matches Message::NotFound(_),
            },
    {
        let bids = self.bids.scan();
        if bids.is_empty() {
            Err(Message::NotFound("No transfer bids found".to_string()))
        } else {
            Ok(bids)
        }
    }

    /// Returns the bid with the given id.
    pub fn get_transfer_bid_by_id(&self, id: u64) -> (r: Result<TransferBid, Message>)
        requires
            self.inv(),
        ensures
            (r matches Ok(b)) <==> self.bids_view().contains_key(id),
            match r {
                Ok(b) => b@ == self.bids_view()[id],
                Err(m) => m matches Message::NotFound(_),
            },
    {
        match self.bids.get(id) {
            Some(b) => Ok(b),
            None => Err(Message::NotFound("Transfer bid not found".to_string())),
        }
    }

    /// Accepts a pending bid: the bid becomes accepted, a transfer is
    /// materialized with the bid amount as its fee and the remaining
    /// contract time (clamped to zero) as its duration, and the player moves
    /// to the bidding club. Other pending bids on the same player are left
    /// pending.
    pub fn accept_transfer_bid(&mut self, id: u64, now: u64) -> (r: Result<Message, Message>)
        requires
            old(self).inv(),
        ensures
            final(self).inv(),
            final(self).counter_val() == (if old(self).bids_view().contains_key(id) && old(
                self,
            ).bids_view()[id].bid_status == BidStatus::Pending && old(
                self,
            ).players_view().contains_key(old(self).bids_view()[id].player_id) && old(
                self,
            ).counter_val() < u64::MAX {
                (old(self).counter_val() + 1) as u64
            } else {
                old(self).counter_val()
            }),
            (r matches Ok(m)) <==> (old(self).bids_view().contains_key(id) && old(self).bids_view()[id].bid_status == BidStatus::Pending && old(self).players_view().contains_key(old(self).bids_view()[id].player_id) && old(self).counter_val() < u64::MAX && bid_transfer_fits(old(self).bids_view()[id])
                && moved_player_fits(
                old(self).players_view()[old(self).bids_view()[id].player_id],
                old(self).bids_view()[id].to_club,
            )),
            match r {
                Ok(m) => {
                    &&& m matches Message::Success(_)
                    &&& final(self).bids_view() == old(self).bids_view().insert(
                        id,
                        settled_bid(old(self).bids_view()[id], BidStatus::Accepted),
                    )
                    &&& final(self).transfers_view() == old(self).transfers_view().insert(
                        (old(self).counter_val() + 1) as u64,
                        bid_transfer(
                            old(self).bids_view()[id],
                            (old(self).counter_val() + 1) as u64,
                            now,
                            clamped_duration(
                                old(self).players_view()[old(self).bids_view()[id].player_id].contract_until,
                                now,
                            ),
                        ),
                    )
                    &&& !old(self).transfers_view().contains_key(
                        (old(self).counter_val() + 1) as u64,
                    )
                    &&& final(self).players_view() == old(self).players_view().insert(
                        old(self).bids_view()[id].player_id,
                        moved_player(
                            old(self).players_view()[old(self).bids_view()[id].player_id],
                            old(self).bids_view()[id].to_club,
                            sat_add(
                                now,
                                clamped_duration(
                                    old(self).players_view()[old(self).bids_view()[id].player_id].contract_until,
                                    now,
                                ),
                            ),
                        ),
                    )
                    &&& final(self).counter_val() == old(self).counter_val() + 1
                },
                Err(m) => {
                    &&& final(self).players_view() == old(self).players_view()
                    &&& final(self).transfers_view() == old(self).transfers_view()
                    &&& final(self).bids_view() == old(self).bids_view()
                    &&& ((m matches Message::NotFound(_)) <==> (!old(self).bids_view().contains_key(id) || (old(self).bids_view()[id].bid_status
                        == BidStatus::Pending && !old(self).players_view().contains_key(
                        old(self).bids_view()[id].player_id,
                    ))))
                    &&& ((m matches Message::Error(_)) <==> (old(self).bids_view().contains_key(
                        id,
                    ) && (old(self).bids_view()[id].bid_status != BidStatus::Pending || (old(self).players_view().contains_key(old(self).bids_view()[id].player_id) && (old(self).counter_val() == u64::MAX || !bid_transfer_fits(old(self).bids_view()[id])
                        || !moved_player_fits(
                        old(self).players_view()[old(self).bids_view()[id].player_id],
                        old(self).bids_view()[id].to_club,
                    ))))))
                },
            },
    {
        let bid = match self.bids.get(id) {
            None => {
                return Err(Message::NotFound("Transfer bid not found".to_string()));
            },
            Some(b) => b,
        };
        if !(matches!(bid.bid_status, BidStatus::Pending)) {
            return Err(Message::Error("Only pending bids can be accepted.".to_string()));
        }
        let player = match self.players.get(bid.player_id) {
            None => {
                return Err(Message::NotFound("Player not found".to_string()));
            },
            Some(p) => p,
        };
        let transfer_id = match self.next_id() {
            None => {
                return Err(Message::Error("Cannot increment ID counter".to_string()));
            },
            Some(tid) => tid,
        };
        let duration = if player.contract_until >= now {
            player.contract_until - now
        } else {
            0
        };
        let accepted = TransferBid {
            id: bid.id,
            player_id: bid.player_id,
            from_club: bid.from_club,
            to_club: bid.to_club.clone(),
            bid_amount: bid.bid_amount,
            bid_status: BidStatus::Accepted,
            created_at: bid.created_at,
        };
        let transfer = Transfer {
            id: transfer_id,
            player_id: accepted.player_id,
            from_club: accepted.from_club.clone(),
            to_club: accepted.to_club.clone(),
            transfer_fee: accepted.bid_amount,
            transfer_date: now,
            contract_duration: duration,
            created_at: now,
        };
        let moved = Player {
            id: player.id,
            name: player.name,
            position: player.position,
            current_club: bid.to_club,
            market_value: player.market_value,
            transfer_status: TransferStatus::Transferred,
            contract_until: now + duration,
            age: player.age,
            nationality: player.nationality,
            created_at: player.created_at,
        };
        proof {
            assert(accepted@ == settled_bid(old(self).bids_view()[id], BidStatus::Accepted));
            assert(transfer@ == bid_transfer(
                old(self).bids_view()[id],
                transfer_id,
                now,
                clamped_duration(
                    old(self).players_view()[old(self).bids_view()[id].player_id].contract_until,
                    now,
                ),
            ));
            assert(moved@ == moved_player(
                old(self).players_view()[old(self).bids_view()[id].player_id],
                old(self).bids_view()[id].to_club,
                sat_add(
                    now,
                    clamped_duration(
                        old(self).players_view()[old(self).bids_view()[id].player_id].contract_until,
                        now,
                    ),
                ),
            ));
            lemma_transfer_record_len(transfer@);
            lemma_player_record_len(moved@);
            lemma_bid_record_len(accepted@);
        }
        let t_fits = encode_transfer(&transfer).is_some();
        let p_fits = encode_player(&moved).is_some();
        if !t_fits || !p_fits {
            proof {
                assert(self.players_view() == old(self).players_view());
                assert(self.transfers_view() == old(self).transfers_view());
                assert(self.bids_view() == old(self).bids_view());
                assert(self.inv());
            }
            return Err(Message::Error("Record exceeds the storage bound".to_string()));
        }
        proof {
            self.bids.lemma_stored_record(id);
            lemma_bid_record_len(old(self).bids_view()[id]);
        }
        let ok_b = self.bids.put(&accepted);
        let ok_t = self.transfers.put(&transfer);
        let ok_p = self.players.put(&moved);
        proof {
            assert(ok_b && ok_t && ok_p);
            assert(self.counter_val() == old(self).counter_val() + 1);
            assert(self.inv());
        }
        Ok(Message::Success("Transfer bid accepted and player transferred.".to_string()))
    }

    /// Rejects a pending bid: only its status changes.
    pub fn reject_transfer_bid(&mut self, id: u64) -> (r: Result<Message, Message>)
        requires
            old(self).inv(),
        ensures
            final(self).inv(),
            final(self).counter_val() == old(self).counter_val(),
            final(self).players_view() == old(self).players_view(),
            final(self).transfers_view() == old(self).transfers_view(),
            (r matches Ok(m)) <==> (old(self).bids_view().contains_key(id) && old(self).bids_view()[id].bid_status == BidStatus::Pending),
            match r {
                Ok(m) => {
                    &&& m matches Message::Success(_)
                    &&& final(self).bids_view() == old(self).bids_view().insert(
                        id,
                        settled_bid(old(self).bids_view()[id], BidStatus::Rejected),
                    )
                },
                Err(m) => {
                    &&& final(self).bids_view() == old(self).bids_view()
                    &&& ((m matches Message::NotFound(_)) <==> !old(self).bids_view().contains_key(
                        id,
                    ))
                    &&& ((m matches Message::Error(_)) <==> old(self).bids_view().contains_key(id)
                        && old(self).bids_view()[id].bid_status != BidStatus::Pending)
                },
            },
    {
        let bid = match self.bids.get(id) {
            None => {
                return Err(Message::NotFound("Transfer bid not found".to_string()));
            },
            Some(b) => b,
        };
        if !(matches!(bid.bid_status, BidStatus::Pending)) {
            return Err(Message::Error("Only pending bids can be rejected.".to_string()));
        }
        let rejected = TransferBid {
            id: bid.id,
            player_id: bid.player_id,
            from_club: bid.from_club,
            to_club: bid.to_club,
            bid_amount: bid.bid_amount,
            bid_status: BidStatus::Rejected,
            created_at: bid.created_at,
        };
        proof {
            assert(rejected@ == settled_bid(old(self).bids_view()[id], BidStatus::Rejected));
            self.bids.lemma_stored_record(id);
            lemma_bid_record_len(old(self).bids_view()[id]);
            lemma_bid_record_len(rejected@);
        }
        let ok = self.bids.put(&rejected);
        proof {
            assert(ok);
            assert(self.players_view() == old(self).players_view());
            assert(self.transfers_view() == old(self).transfers_view());
            assert(self.counter_val() == old(self).counter_val());
            assert(self.inv());
        }
        Ok(Message::Success("Transfer bid rejected.".to_string()))
    }
}

/// Every identifier stored in a valid state was allocated: it is at least 1
/// and at most the counter. A successful creation returns the incremented
/// counter as its id and every operation keeps the counter from decreasing,
/// so the ids returned by successive successful creations are pairwise
/// distinct and strictly increasing over the store's lifetime, across all
/// three entity kinds.
pub proof fn lemma_stored_ids_bounded(s: FootballApp)
    requires
        s.inv(),
    ensures
        forall|k: u64| #[trigger] s.players_view().contains_key(k) ==> 1 <= k <= s.counter_val(),
        forall|k: u64| #[trigger] s.transfers_view().contains_key(k) ==> 1 <= k <= s.counter_val(),
        forall|k: u64| #[trigger] s.bids_view().contains_key(k) ==> 1 <= k <= s.counter_val(),
{
}

/// The three views are finite maps, and every stored value carries its key
/// as its id. So `dom().len()` in the query contracts is the number of
/// stored records, and a returned record's id names its key in the view.
pub proof fn lemma_views_well_formed(s: FootballApp)
    requires
        s.inv(),
    ensures
        s.players_view().dom().finite(),
        s.transfers_view().dom().finite(),
        s.bids_view().dom().finite(),
        forall|k: u64| #[trigger] s.players_view().contains_key(k) ==> s.players_view()[k].id == k,
        forall|k: u64|
            #[trigger] s.transfers_view().contains_key(k) ==> s.transfers_view()[k].id == k,
        forall|k: u64| #[trigger] s.bids_view().contains_key(k) ==> s.bids_view()[k].id == k,
{
    s.players.lemma_finite();
    s.transfers.lemma_finite();
    s.bids.lemma_finite();
    assert forall|k: u64| #[trigger] s.players_view().contains_key(k) implies s.players_view()[k].id
        == k by {
        s.players.lemma_stored_record(k);
    }
    assert forall|k: u64| #[trigger] s.transfers_view().contains_key(k) implies s.transfers_view()[k].id
        == k by {
        s.transfers.lemma_stored_record(k);
    }
    assert forall|k: u64| #[trigger] s.bids_view().contains_key(k) implies s.bids_view()[k].id
        == k by {
        s.bids.lemma_stored_record(k);
    }
}

/// A settled bid never returns to pending: acceptance and rejection store
/// `settled_bid(b, st)` with a terminal status, and both settlement
/// operations fail with a domain error on every bid that is not pending, so
/// each of them can succeed at most once per bid id.
pub proof fn lemma_settled_bid_stays_settled(b: TransferBidView, st: BidStatus)
    requires
        st != BidStatus::Pending,
    ensures
        settled_bid(b, st).bid_status != BidStatus::Pending,
{
}

} // verus!
