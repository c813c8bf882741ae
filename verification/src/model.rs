//! The entities of the transfer market, their mathematical views, the
//! request payloads, and the message type returned by every operation.

use vstd::prelude::*;

verus! {

/// Whether a player is on the market or has already been moved.
///
/// `Available` is the initial state; `Transferred` is entered by a completed
/// transfer or an accepted bid and is never left again.
#[derive(Clone, Copy, PartialEq, Eq, Structural, Debug)]
pub enum TransferStatus {
    Available,
    Transferred,
}

/// The life cycle of a transfer bid.
///
/// `Pending` is the initial state; `Accepted` and `Rejected` are terminal,
/// and a bid moves out of `Pending` at most once.
#[derive(Clone, Copy, PartialEq, Eq, Structural, Debug)]
pub enum BidStatus {
    Pending,
    Accepted,
    Rejected,
}

/// A registered player.
#[derive(Debug)]
pub struct Player {
    pub id: u64,
    pub name: String,
    pub position: String,
    pub current_club: String,
    pub market_value: u64,
    pub transfer_status: TransferStatus,
    pub contract_until: u64,
    pub age: u32,
    pub nationality: String,
    pub created_at: u64,
}

/// The mathematical value of a [`Player`].
pub struct PlayerView {
    pub id: u64,
    pub name: Seq<char>,
    pub position: Seq<char>,
    pub current_club: Seq<char>,
    pub market_value: u64,
    pub transfer_status: TransferStatus,
    pub contract_until: u64,
    pub age: u32,
    pub nationality: Seq<char>,
    pub created_at: u64,
}

impl View for Player {
    type V = PlayerView;

    open spec fn view(&self) -> PlayerView {
        PlayerView {
            id: self.id,
            name: self.name@,
            position: self.position@,
            current_club: self.current_club@,
            market_value: self.market_value,
            transfer_status: self.transfer_status,
            contract_until: self.contract_until,
            age: self.age,
            nationality: self.nationality@,
            created_at: self.created_at,
        }
    }
}

/// An immutable record of a completed move between two clubs.
#[derive(Debug)]
pub struct Transfer {
    pub id: u64,
    pub player_id: u64,
    pub from_club: String,
    pub to_club: String,
    pub transfer_fee: u64,
    pub transfer_date: u64,
    pub contract_duration: u64,
    pub created_at: u64,
}

/// The mathematical value of a [`Transfer`].
pub struct TransferView {
    pub id: u64,
    pub player_id: u64,
    pub from_club: Seq<char>,
    pub to_club: Seq<char>,
    pub transfer_fee: u64,
    pub transfer_date: u64,
    pub contract_duration: u64,
    pub created_at: u64,
}

impl View for Transfer {
    type V = TransferView;

    open spec fn view(&self) -> TransferView {
        TransferView {
            id: self.id,
            player_id: self.player_id,
            from_club: self.from_club@,
            to_club: self.to_club@,
            transfer_fee: self.transfer_fee,
            transfer_date: self.transfer_date,
            contract_duration: self.contract_duration,
            created_at: self.created_at,
        }
    }
}

/// An offer from one club to acquire a player, awaiting settlement.
#[derive(Debug)]
pub struct TransferBid {
    pub id: u64,
    pub player_id: u64,
    pub from_club: String,
    pub to_club: String,
    pub bid_amount: u64,
    pub bid_status: BidStatus,
    pub created_at: u64,
}

/// The mathematical value of a [`TransferBid`].
pub struct TransferBidView {
    pub id: u64,
    pub player_id: u64,
    pub from_club: Seq<char>,
    pub to_club: Seq<char>,
    pub bid_amount: u64,
    pub bid_status: BidStatus,
    pub created_at: u64,
}

impl View for TransferBid {
    type V = TransferBidView;

    open spec fn view(&self) -> TransferBidView {
        TransferBidView {
            id: self.id,
            player_id: self.player_id,
            from_club: self.from_club@,
            to_club: self.to_club@,
            bid_amount: self.bid_amount,
            bid_status: self.bid_status,
            created_at: self.created_at,
        }
    }
}

/// The caller-supplied fields for creating or replacing a player.
#[derive(Debug)]
pub struct PlayerPayload {
    pub name: String,
    pub position: String,
    pub current_club: String,
    pub market_value: u64,
    pub contract_until: u64,
    pub age: u32,
    pub nationality: String,
}

/// The caller-supplied fields for recording a completed transfer.
#[derive(Debug)]
pub struct TransferPayload {
    pub player_id: u64,
    pub from_club: String,
    pub to_club: String,
    pub transfer_fee: u64,
    pub transfer_date: u64,
    pub contract_duration: u64,
}

/// The caller-supplied fields for placing a transfer bid.
#[derive(Debug)]
pub struct TransferBidPayload {
    pub player_id: u64,
    pub from_club: String,
    pub to_club: String,
    pub bid_amount: u64,
}

/// The outcome message of every operation.
///
/// `Success` reports a completed mutation; the other variants are failures:
/// `InvalidPayload` for a structurally bad request, `NotFound` for an id that
/// does not resolve (also used when a list query finds nothing), and `Error`
/// for business-rule violations and for storage faults (a record that cannot
/// be laid out within the store's size bound, or an exhausted allocator).
#[derive(Debug)]
pub enum Message {
    Success(String),
    Error(String),
    NotFound(String),
    InvalidPayload(String),
    PlayerUnavailable(String),
    BidInvalid(String),
}

} // verus!
