use prediction_market::{
    MarketError, MarketEvent, PredictionMarketContract, Pubkey, TransferIntent,
};

fn key(b: u8) -> Pubkey {
    Pubkey::new_from_array([b; 32])
}

fn labels(names: &[&str]) -> Vec<String> {
    names.iter().map(|s| s.to_string()).collect()
}

fn two_way_market(store: &mut PredictionMarketContract, creator: Pubkey) -> u64 {
    store
        .create_market("who wins".to_string(), labels(&["A", "B"]), creator)
        .unwrap()
}

fn paid(payouts: &[TransferIntent]) -> Vec<(Pubkey, u64)> {
    payouts.iter().map(|t| (t.recipient, t.amount)).collect()
}

#[test]
fn single_winner_takes_the_pot() {
    let mut store = PredictionMarketContract::default();
    let creator = key(9);
    let id = two_way_market(&mut store, creator);
    store.place_bet(id, "A".to_string(), key(1), 100).unwrap();
    store.place_bet(id, "B".to_string(), key(2), 300).unwrap();
    let payouts = store.settle_market(id, "A".to_string(), creator).unwrap();
    assert_eq!(paid(&payouts), vec![(key(1), 400)]);
}

#[test]
fn pool_equal_to_pot_pays_back_stakes() {
    let mut store = PredictionMarketContract::default();
    let creator = key(9);
    let id = two_way_market(&mut store, creator);
    store.place_bet(id, "A".to_string(), key(1), 100).unwrap();
    store.place_bet(id, "A".to_string(), key(2), 300).unwrap();
    assert_eq!(store.get_total_staked(id), 400);
    let payouts = store.settle_market(id, "A".to_string(), creator).unwrap();
    assert_eq!(paid(&payouts), vec![(key(1), 100), (key(2), 300)]);
}

#[test]
fn withdraw_before_resolution_fails() {
    let mut store = PredictionMarketContract::default();
    let creator = key(9);
    let id = two_way_market(&mut store, creator);
    store.place_bet(id, "A".to_string(), key(1), 50).unwrap();
    assert_eq!(store.withdraw_funds(id, creator), Err(MarketError::NotYetResolved));
    assert_eq!(store.get_total_staked(id), 50);
}

#[test]
fn stake_total_tracks_bets() {
    let mut store = PredictionMarketContract::default();
    let id = two_way_market(&mut store, key(9));
    let amounts = [5u64, 17, 1, 250];
    let mut expected = 0u64;
    for (i, a) in amounts.iter().enumerate() {
        let label = if i % 2 == 0 { "A" } else { "B" };
        store.place_bet(id, label.to_string(), key(i as u8), *a).unwrap();
        expected += a;
        let m = store.get_market(id).unwrap();
        let sum: u64 = m.bets.iter().map(|b| b.amount).sum();
        assert_eq!(m.total_staked, expected);
        assert_eq!(sum, expected);
    }
    let m = store.get_market(id).unwrap();
    assert_eq!(m.stake_on(&"A".to_string()), 6);
    assert_eq!(m.stake_on(&"B".to_string()), 267);
}

#[test]
fn second_resolution_is_refused_and_changes_nothing() {
    let mut store = PredictionMarketContract::default();
    let creator = key(9);
    let id = two_way_market(&mut store, creator);
    store.place_bet(id, "A".to_string(), key(1), 10).unwrap();
    store.place_bet(id, "B".to_string(), key(2), 20).unwrap();
    store.settle_market(id, "A".to_string(), creator).unwrap();
    assert_eq!(
        store.settle_market(id, "B".to_string(), creator),
        Err(MarketError::AlreadyResolved)
    );
    let m = store.get_market(id).unwrap();
    assert!(m.resolved);
    assert_eq!(m.winning_outcome, Some("A".to_string()));
    assert_eq!(m.total_staked, 30);
    assert_eq!(m.bets.len(), 2);
}

#[test]
fn bet_after_resolution_is_refused() {
    let mut store = PredictionMarketContract::default();
    let creator = key(9);
    let id = two_way_market(&mut store, creator);
    store.place_bet(id, "A".to_string(), key(1), 10).unwrap();
    store.settle_market(id, "A".to_string(), creator).unwrap();
    assert_eq!(
        store.place_bet(id, "B".to_string(), key(2), 5),
        Err(MarketError::AlreadyResolved)
    );
    assert_eq!(store.get_total_staked(id), 10);
}

#[test]
fn payouts_add_up_with_rounding() {
    let mut store = PredictionMarketContract::default();
    let creator = key(9);
    let id = two_way_market(&mut store, creator);
    store.place_bet(id, "A".to_string(), key(1), 1).unwrap();
    store.place_bet(id, "A".to_string(), key(2), 1).unwrap();
    store.place_bet(id, "A".to_string(), key(3), 1).unwrap();
    store.place_bet(id, "B".to_string(), key(4), 1).unwrap();
    let payouts = store.settle_market(id, "A".to_string(), creator).unwrap();
    // floor(4 / 3) = 1 each; the one left over goes to the first largest bet
    assert_eq!(paid(&payouts), vec![(key(1), 2), (key(2), 1), (key(3), 1)]);
}

#[test]
fn remainder_goes_to_first_largest_bet() {
    let mut store = PredictionMarketContract::default();
    let creator = key(9);
    let id = two_way_market(&mut store, creator);
    store.place_bet(id, "A".to_string(), key(1), 1).unwrap();
    store.place_bet(id, "B".to_string(), key(4), 4).unwrap();
    store.place_bet(id, "A".to_string(), key(2), 5).unwrap();
    store.place_bet(id, "A".to_string(), key(3), 5).unwrap();
    let payouts = store.settle_market(id, "A".to_string(), creator).unwrap();
    // pot 15, pool 11: floors 1, 6, 6 sum to 13; the 2 left go to the first 5
    assert_eq!(paid(&payouts), vec![(key(1), 1), (key(2), 8), (key(3), 6)]);
    let total: u64 = payouts.iter().map(|t| t.amount).sum();
    assert_eq!(total, 15);
}

#[test]
fn large_stakes_do_not_overflow_payouts() {
    let mut store = PredictionMarketContract::default();
    let creator = key(9);
    let id = two_way_market(&mut store, creator);
    store.place_bet(id, "A".to_string(), key(1), u64::MAX - 10).unwrap();
    store.place_bet(id, "B".to_string(), key(2), 10).unwrap();
    let payouts = store.settle_market(id, "A".to_string(), creator).unwrap();
    assert_eq!(paid(&payouts), vec![(key(1), u64::MAX)]);
}

#[test]
fn zero_winning_pool_leaves_market_open() {
    let mut store = PredictionMarketContract::default();
    let creator = key(9);
    let id = two_way_market(&mut store, creator);
    store.place_bet(id, "B".to_string(), key(2), 30).unwrap();
    assert_eq!(
        store.settle_market(id, "A".to_string(), creator),
        Err(MarketError::ZeroWinningPool)
    );
    let m = store.get_market(id).unwrap();
    assert!(!m.resolved);
    assert_eq!(m.winning_outcome, None);
    store.place_bet(id, "A".to_string(), key(1), 10).unwrap();
    let payouts = store.settle_market(id, "A".to_string(), creator).unwrap();
    assert_eq!(paid(&payouts), vec![(key(1), 40)]);
}

#[test]
fn ids_are_sequential() {
    let mut store = PredictionMarketContract::default();
    assert_eq!(two_way_market(&mut store, key(1)), 0);
    assert_eq!(two_way_market(&mut store, key(2)), 1);
    assert_eq!(two_way_market(&mut store, key(3)), 2);
    assert_eq!(store.get_market(1).unwrap().id, 1);
    assert_eq!(store.get_market(2).unwrap().creator, key(3));
}

#[test]
fn invalid_outcome_sets_are_refused() {
    let mut store = PredictionMarketContract::default();
    assert_eq!(
        store.create_market("none".to_string(), Vec::new(), key(1)),
        Err(MarketError::InvalidOutcomeSet)
    );
    assert_eq!(
        store.create_market("dup".to_string(), labels(&["A", "B", "A"]), key(1)),
        Err(MarketError::InvalidOutcomeSet)
    );
    assert_eq!(
        store.create_market("one".to_string(), labels(&["only"]), key(1)),
        Ok(0)
    );
}

#[test]
fn unknown_market_is_not_found() {
    let mut store = PredictionMarketContract::default();
    assert_eq!(store.get_market(0).err(), Some(MarketError::NotFound));
    assert_eq!(
        store.place_bet(0, "A".to_string(), key(1), 1),
        Err(MarketError::NotFound)
    );
    assert_eq!(
        store.settle_market(3, "A".to_string(), key(1)),
        Err(MarketError::NotFound)
    );
    assert_eq!(store.withdraw_funds(7, key(1)), Err(MarketError::NotFound));
    assert_eq!(store.get_total_staked(0), 0);
}

#[test]
fn bad_bets_are_refused() {
    let mut store = PredictionMarketContract::default();
    let id = two_way_market(&mut store, key(9));
    assert_eq!(
        store.place_bet(id, "C".to_string(), key(1), 10),
        Err(MarketError::InvalidPrediction)
    );
    assert_eq!(
        store.place_bet(id, "A".to_string(), key(1), 0),
        Err(MarketError::ZeroAmount)
    );
    store.place_bet(id, "A".to_string(), key(1), u64::MAX).unwrap();
    assert_eq!(
        store.place_bet(id, "B".to_string(), key(2), 1),
        Err(MarketError::Overflow)
    );
    assert_eq!(store.get_total_staked(id), u64::MAX);
    assert_eq!(store.get_market(id).unwrap().bets.len(), 1);
}

#[test]
fn only_creator_resolves() {
    let mut store = PredictionMarketContract::default();
    let creator = key(9);
    let id = two_way_market(&mut store, creator);
    store.place_bet(id, "A".to_string(), key(1), 10).unwrap();
    assert_eq!(
        store.settle_market(id, "A".to_string(), key(1)),
        Err(MarketError::Unauthorized)
    );
    assert!(!store.get_market(id).unwrap().resolved);
    assert_eq!(
        store.settle_market(id, "Z".to_string(), creator),
        Err(MarketError::InvalidOutcome)
    );
    assert!(store.settle_market(id, "A".to_string(), creator).is_ok());
}

#[test]
fn withdrawal_after_resolution() {
    let mut store = PredictionMarketContract::default();
    let creator = key(9);
    let id = two_way_market(&mut store, creator);
    store.place_bet(id, "A".to_string(), key(1), 10).unwrap();
    store.place_bet(id, "B".to_string(), key(2), 20).unwrap();
    store.settle_market(id, "B".to_string(), creator).unwrap();
    assert_eq!(store.withdraw_funds(id, key(2)), Err(MarketError::Unauthorized));
    let first = store.withdraw_funds(id, creator).unwrap();
    assert_eq!(first, TransferIntent { recipient: creator, amount: 0 });
    let second = store.withdraw_funds(id, creator).unwrap();
    assert_eq!(second.amount, 0);
    let m = store.get_market(id).unwrap();
    assert_eq!(m.total_staked, 30);
    assert_eq!(m.distributed_amount, 30);
}

#[test]
fn events_record_successful_operations_only() {
    let mut store = PredictionMarketContract::default();
    let creator = key(9);
    let id = two_way_market(&mut store, creator);
    store.place_bet(id, "A".to_string(), key(1), 7).unwrap();
    assert!(store.place_bet(id, "A".to_string(), key(1), 0).is_err());
    assert!(store.withdraw_funds(id, creator).is_err());
    store.settle_market(id, "A".to_string(), creator).unwrap();
    store.withdraw_funds(id, creator).unwrap();
    assert_eq!(
        store.events(),
        &vec![
            MarketEvent::MarketCreated { market_id: 0, creator },
            MarketEvent::BetPlaced {
                market_id: 0,
                bettor: key(1),
                prediction: "A".to_string(),
                amount: 7,
            },
            MarketEvent::MarketResolved { market_id: 0, winning_outcome: "A".to_string() },
            MarketEvent::FundsWithdrawn { market_id: 0, recipient: creator, amount: 0 },
        ]
    );
}
