use transfer_market::model::{
    BidStatus, Message, PlayerPayload, TransferBidPayload, TransferPayload, TransferStatus,
};
use transfer_market::service::FootballApp;

fn player_payload(name: &str, club: &str, market_value: u64) -> PlayerPayload {
    PlayerPayload {
        name: name.to_string(),
        position: "Striker".to_string(),
        current_club: club.to_string(),
        market_value,
        contract_until: 2_000,
        age: 24,
        nationality: "Brazil".to_string(),
    }
}

fn bid_payload(player_id: u64, from: &str, to: &str, amount: u64) -> TransferBidPayload {
    TransferBidPayload {
        player_id,
        from_club: from.to_string(),
        to_club: to.to_string(),
        bid_amount: amount,
    }
}

#[test]
fn create_player_assigns_ids_from_one() {
    let mut app = FootballApp::new();
    let p1 = app.create_player(player_payload("Ana", "Porto", 100), 10).unwrap();
    let p2 = app.create_player(player_payload("Bea", "Gent", 100), 11).unwrap();
    let p3 = app.create_player(player_payload("Cal", "Lyon", 100), 12).unwrap();
    assert_eq!(p1.id, 1);
    assert_eq!(p2.id, 2);
    assert_eq!(p3.id, 3);
    assert!(matches!(p1.transfer_status, TransferStatus::Available));
    assert_eq!(p1.created_at, 10);
}

#[test]
fn ids_are_shared_across_entity_kinds() {
    let mut app = FootballApp::new();
    let p = app.create_player(player_payload("Ana", "Porto", 100), 10).unwrap();
    let b = app
        .create_transfer_bid(bid_payload(p.id, "Porto", "Gent", 50), 11)
        .unwrap();
    let p2 = app.create_player(player_payload("Bea", "Gent", 100), 12).unwrap();
    assert_eq!(p.id, 1);
    assert_eq!(b.id, 2);
    assert_eq!(p2.id, 3);
}

#[test]
fn create_player_rejects_bad_payloads() {
    let mut app = FootballApp::new();
    let r = app.create_player(player_payload("", "Porto", 100), 10);
    assert!(matches!(r, Err(Message::InvalidPayload(_))));
    let r = app.create_player(player_payload("Ana", "Porto", 0), 10);
    assert!(matches!(r, Err(Message::InvalidPayload(_))));
    assert!(matches!(app.get_players(), Err(Message::NotFound(_))));
}

#[test]
fn oversized_player_record_is_a_storage_error() {
    let mut app = FootballApp::new();
    let mut payload = player_payload("Ana", "Porto", 100);
    payload.name = "x".repeat(2_000);
    let r = app.create_player(payload, 10);
    assert!(matches!(r, Err(Message::Error(_))));
    assert!(matches!(app.get_players(), Err(Message::NotFound(_))));
}

#[test]
fn update_player_replaces_fields_but_not_status_or_created_at() {
    let mut app = FootballApp::new();
    let p = app.create_player(player_payload("Ana", "Porto", 100), 10).unwrap();
    let mut payload = player_payload("Ana Maria", "Porto", 250);
    payload.age = 25;
    let updated = app.update_player(p.id, payload).unwrap();
    assert_eq!(updated.id, p.id);
    assert_eq!(updated.name, "Ana Maria");
    assert_eq!(updated.market_value, 250);
    assert_eq!(updated.age, 25);
    assert_eq!(updated.created_at, 10);
    assert!(matches!(updated.transfer_status, TransferStatus::Available));
    let fetched = app.get_player_by_id(p.id).unwrap();
    assert_eq!(fetched.name, "Ana Maria");
}

#[test]
fn update_player_errors() {
    let mut app = FootballApp::new();
    let r = app.update_player(7, player_payload("Ana", "Porto", 100));
    assert!(matches!(r, Err(Message::NotFound(_))));
    let p = app.create_player(player_payload("Ana", "Porto", 100), 10).unwrap();
    let r = app.update_player(p.id, player_payload("", "Porto", 100));
    assert!(matches!(r, Err(Message::InvalidPayload(_))));
}

#[test]
fn get_player_queries() {
    let mut app = FootballApp::new();
    assert!(matches!(app.get_player_by_id(1), Err(Message::NotFound(_))));
    let p1 = app.create_player(player_payload("Ana", "Porto", 100), 10).unwrap();
    let _p2 = app.create_player(player_payload("Bea", "Gent", 100), 11).unwrap();
    let p3 = app.create_player(player_payload("Cal", "Porto", 100), 12).unwrap();
    let all = app.get_players().unwrap();
    assert_eq!(all.len(), 3);
    assert_eq!(all[0].id, 1);
    assert_eq!(all[2].id, 3);
    let porto = app.get_players_by_club("Porto".to_string()).unwrap();
    assert_eq!(porto.len(), 2);
    assert_eq!(porto[0].id, p1.id);
    assert_eq!(porto[1].id, p3.id);
    assert!(matches!(
        app.get_players_by_club("Madrid".to_string()),
        Err(Message::NotFound(_))
    ));
}

#[test]
fn create_transfer_moves_the_player() {
    let mut app = FootballApp::new();
    let p = app.create_player(player_payload("Ana", "Porto", 100), 10).unwrap();
    let t = app
        .create_transfer(
            TransferPayload {
                player_id: p.id,
                from_club: "Porto".to_string(),
                to_club: "Gent".to_string(),
                transfer_fee: 900,
                transfer_date: 50,
                contract_duration: 100,
            },
            60,
        )
        .unwrap();
    assert_eq!(t.player_id, p.id);
    assert_eq!(t.transfer_fee, 900);
    assert_eq!(t.created_at, 60);
    let moved = app.get_player_by_id(p.id).unwrap();
    assert!(matches!(moved.transfer_status, TransferStatus::Transferred));
    assert_eq!(moved.current_club, "Gent");
    assert_eq!(moved.contract_until, 150);
    let fetched = app.get_transfer_by_id(t.id).unwrap();
    assert_eq!(fetched.to_club, "Gent");
}

#[test]
fn create_transfer_validation_and_domain_errors() {
    let mut app = FootballApp::new();
    let p = app.create_player(player_payload("Ana", "Porto", 100), 10).unwrap();
    let base = |fee: u64, dur: u64, from: &str, to: &str| TransferPayload {
        player_id: p.id,
        from_club: from.to_string(),
        to_club: to.to_string(),
        transfer_fee: fee,
        transfer_date: 50,
        contract_duration: dur,
    };
    assert!(matches!(
        app.create_transfer(base(0, 100, "Porto", "Gent"), 60),
        Err(Message::InvalidPayload(_))
    ));
    assert!(matches!(
        app.create_transfer(base(900, 0, "Porto", "Gent"), 60),
        Err(Message::InvalidPayload(_))
    ));
    assert!(matches!(
        app.create_transfer(base(900, 100, "Porto", "Porto"), 60),
        Err(Message::Error(_))
    ));
    let mut other = base(900, 100, "Porto", "Gent");
    other.player_id = 99;
    assert!(matches!(
        app.create_transfer(other, 60),
        Err(Message::NotFound(_))
    ));
    // wrong from-club: the player is at Porto
    assert!(matches!(
        app.create_transfer(base(900, 100, "Lyon", "Gent"), 60),
        Err(Message::Error(_))
    ));
}

#[test]
fn transfer_of_a_transferred_player_fails_and_available_succeeds() {
    let mut app = FootballApp::new();
    let p = app.create_player(player_payload("Ana", "Porto", 100), 10).unwrap();
    let ok = TransferPayload {
        player_id: p.id,
        from_club: "Porto".to_string(),
        to_club: "Gent".to_string(),
        transfer_fee: 900,
        transfer_date: 50,
        contract_duration: 100,
    };
    let again = TransferPayload {
        player_id: p.id,
        from_club: "Gent".to_string(),
        to_club: "Lyon".to_string(),
        transfer_fee: 900,
        transfer_date: 51,
        contract_duration: 100,
    };
    assert!(app.create_transfer(ok, 60).is_ok());
    // the player is now transferred: a second transfer fails with a domain error
    assert!(matches!(
        app.create_transfer(again, 61),
        Err(Message::Error(_))
    ));
}

#[test]
fn accept_bid_scenario() {
    // create a player with market_value 1000, bid 500 on it, accept the bid:
    // the player joins the bid's to-club and a transfer with fee 500 exists.
    let mut app = FootballApp::new();
    let p = app
        .create_player(player_payload("Ana", "Porto", 1_000), 10)
        .unwrap();
    let bid = app
        .create_transfer_bid(bid_payload(p.id, "Porto", "Gent", 500), 20)
        .unwrap();
    assert!(matches!(bid.bid_status, BidStatus::Pending));
    let r = app.accept_transfer_bid(bid.id, 30);
    assert!(matches!(r, Ok(Message::Success(_))));
    let moved = app.get_player_by_id(p.id).unwrap();
    assert_eq!(moved.current_club, "Gent");
    assert!(matches!(moved.transfer_status, TransferStatus::Transferred));
    let transfers = app.get_transfers().unwrap();
    assert_eq!(transfers.len(), 1);
    assert_eq!(transfers[0].transfer_fee, 500);
    assert_eq!(transfers[0].player_id, p.id);
    let settled = app.get_transfer_bid_by_id(bid.id).unwrap();
    assert!(matches!(settled.bid_status, BidStatus::Accepted));
}

#[test]
fn accept_bid_computes_remaining_contract_duration() {
    let mut app = FootballApp::new();
    // contract_until = 2000, accepted at now = 500: duration 1500, contract kept at 2000
    let p = app.create_player(player_payload("Ana", "Porto", 100), 10).unwrap();
    let bid = app
        .create_transfer_bid(bid_payload(p.id, "Porto", "Gent", 50), 20)
        .unwrap();
    app.accept_transfer_bid(bid.id, 500).unwrap();
    let t = app.get_transfers().unwrap();
    assert_eq!(t[0].contract_duration, 1_500);
    assert_eq!(t[0].transfer_date, 500);
    assert_eq!(app.get_player_by_id(p.id).unwrap().contract_until, 2_000);
}

#[test]
fn accept_bid_clamps_expired_contract_to_zero() {
    let mut app = FootballApp::new();
    // contract_until = 2000 but accepted at now = 5000: duration clamps to 0
    let p = app.create_player(player_payload("Ana", "Porto", 100), 10).unwrap();
    let bid = app
        .create_transfer_bid(bid_payload(p.id, "Porto", "Gent", 50), 20)
        .unwrap();
    app.accept_transfer_bid(bid.id, 5_000).unwrap();
    let t = app.get_transfers().unwrap();
    assert_eq!(t[0].contract_duration, 0);
    assert_eq!(app.get_player_by_id(p.id).unwrap().contract_until, 5_000);
}

#[test]
fn zero_bid_is_rejected_and_not_stored() {
    let mut app = FootballApp::new();
    let p = app.create_player(player_payload("Ana", "Porto", 100), 10).unwrap();
    let r = app.create_transfer_bid(bid_payload(p.id, "Porto", "Gent", 0), 20);
    assert!(matches!(r, Err(Message::InvalidPayload(_))));
    assert!(matches!(app.get_transfer_bids(), Err(Message::NotFound(_))));
}

#[test]
fn bid_on_missing_player_is_not_found() {
    let mut app = FootballApp::new();
    let r = app.create_transfer_bid(bid_payload(9, "Porto", "Gent", 50), 20);
    assert!(matches!(r, Err(Message::NotFound(_))));
}

#[test]
fn multiple_pending_bids_coexist_and_accepting_one_keeps_the_other_pending() {
    let mut app = FootballApp::new();
    let p = app.create_player(player_payload("Ana", "Porto", 100), 10).unwrap();
    let b1 = app
        .create_transfer_bid(bid_payload(p.id, "Porto", "Gent", 50), 20)
        .unwrap();
    let b2 = app
        .create_transfer_bid(bid_payload(p.id, "Porto", "Lyon", 70), 21)
        .unwrap();
    assert_ne!(b1.id, b2.id);
    app.accept_transfer_bid(b1.id, 30).unwrap();
    let other = app.get_transfer_bid_by_id(b2.id).unwrap();
    assert!(matches!(other.bid_status, BidStatus::Pending));
}

#[test]
fn settling_a_bid_twice_is_a_domain_error() {
    let mut app = FootballApp::new();
    let p = app.create_player(player_payload("Ana", "Porto", 100), 10).unwrap();
    let b1 = app
        .create_transfer_bid(bid_payload(p.id, "Porto", "Gent", 50), 20)
        .unwrap();
    let b2 = app
        .create_transfer_bid(bid_payload(p.id, "Porto", "Lyon", 70), 21)
        .unwrap();
    app.accept_transfer_bid(b1.id, 30).unwrap();
    assert!(matches!(
        app.accept_transfer_bid(b1.id, 31),
        Err(Message::Error(_))
    ));
    app.reject_transfer_bid(b2.id).unwrap();
    assert!(matches!(
        app.reject_transfer_bid(b2.id),
        Err(Message::Error(_))
    ));
    assert!(matches!(
        app.accept_transfer_bid(b2.id, 32),
        Err(Message::Error(_))
    ));
}

#[test]
fn settling_a_missing_bid_is_not_found() {
    let mut app = FootballApp::new();
    assert!(matches!(
        app.accept_transfer_bid(4, 30),
        Err(Message::NotFound(_))
    ));
    assert!(matches!(
        app.reject_transfer_bid(4),
        Err(Message::NotFound(_))
    ));
}

#[test]
fn reject_bid_changes_only_the_status() {
    let mut app = FootballApp::new();
    let p = app.create_player(player_payload("Ana", "Porto", 100), 10).unwrap();
    let b = app
        .create_transfer_bid(bid_payload(p.id, "Porto", "Gent", 50), 20)
        .unwrap();
    app.reject_transfer_bid(b.id).unwrap();
    let rejected = app.get_transfer_bid_by_id(b.id).unwrap();
    assert!(matches!(rejected.bid_status, BidStatus::Rejected));
    assert_eq!(rejected.bid_amount, 50);
    // no transfer was materialized, and the player did not move
    assert!(matches!(app.get_transfers(), Err(Message::NotFound(_))));
    let player = app.get_player_by_id(p.id).unwrap();
    assert!(matches!(player.transfer_status, TransferStatus::Available));
    assert_eq!(player.current_club, "Porto");
}

#[test]
fn delete_player_cascades_and_spares_unrelated_records() {
    let mut app = FootballApp::new();
    let p1 = app.create_player(player_payload("Ana", "Porto", 100), 10).unwrap();
    let p2 = app.create_player(player_payload("Bea", "Gent", 100), 11).unwrap();
    let b1 = app
        .create_transfer_bid(bid_payload(p1.id, "Porto", "Gent", 50), 20)
        .unwrap();
    let b2 = app
        .create_transfer_bid(bid_payload(p2.id, "Gent", "Lyon", 60), 21)
        .unwrap();
    let t1 = app
        .create_transfer(
            TransferPayload {
                player_id: p1.id,
                from_club: "Porto".to_string(),
                to_club: "Lyon".to_string(),
                transfer_fee: 300,
                transfer_date: 50,
                contract_duration: 100,
            },
            60,
        )
        .unwrap();
    let t2 = app
        .create_transfer(
            TransferPayload {
                player_id: p2.id,
                from_club: "Gent".to_string(),
                to_club: "Porto".to_string(),
                transfer_fee: 400,
                transfer_date: 51,
                contract_duration: 100,
            },
            61,
        )
        .unwrap();
    let r = app.delete_player(p1.id);
    assert!(matches!(r, Ok(Message::Success(_))));
    // the player, its transfer and its bid are gone
    assert!(matches!(app.get_player_by_id(p1.id), Err(Message::NotFound(_))));
    assert!(matches!(app.get_transfer_by_id(t1.id), Err(Message::NotFound(_))));
    assert!(matches!(
        app.get_transfer_bid_by_id(b1.id),
        Err(Message::NotFound(_))
    ));
    // unrelated records remain
    assert!(app.get_player_by_id(p2.id).is_ok());
    assert_eq!(app.get_transfer_by_id(t2.id).unwrap().transfer_fee, 400);
    assert_eq!(app.get_transfer_bid_by_id(b2.id).unwrap().bid_amount, 60);
}

#[test]
fn delete_missing_player_is_not_found() {
    let mut app = FootballApp::new();
    assert!(matches!(app.delete_player(3), Err(Message::NotFound(_))));
}

#[test]
fn ids_are_never_reused_after_delete() {
    let mut app = FootballApp::new();
    let p1 = app.create_player(player_payload("Ana", "Porto", 100), 10).unwrap();
    app.delete_player(p1.id).unwrap();
    let p2 = app.create_player(player_payload("Bea", "Gent", 100), 11).unwrap();
    assert!(p2.id > p1.id);
}

#[test]
fn records_survive_the_byte_roundtrip_with_unicode_fields() {
    let mut app = FootballApp::new();
    let payload = PlayerPayload {
        name: "Zoë Ćirić 選手".to_string(),
        position: "Golgetter ⚽".to_string(),
        current_club: "São Paulo".to_string(),
        market_value: 77,
        contract_until: 123_456_789,
        age: 31,
        nationality: "Việt Nam".to_string(),
    };
    let p = app.create_player(payload, 99).unwrap();
    let fetched = app.get_player_by_id(p.id).unwrap();
    assert_eq!(fetched.name, "Zoë Ćirić 選手");
    assert_eq!(fetched.position, "Golgetter ⚽");
    assert_eq!(fetched.current_club, "São Paulo");
    assert_eq!(fetched.market_value, 77);
    assert_eq!(fetched.contract_until, 123_456_789);
    assert_eq!(fetched.age, 31);
    assert_eq!(fetched.nationality, "Việt Nam");
    assert_eq!(fetched.created_at, 99);
}

#[test]
fn empty_list_queries_are_not_found() {
    let app = FootballApp::new();
    assert!(matches!(app.get_players(), Err(Message::NotFound(_))));
    assert!(matches!(app.get_transfers(), Err(Message::NotFound(_))));
    assert!(matches!(app.get_transfer_bids(), Err(Message::NotFound(_))));
}
