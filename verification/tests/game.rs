use landlord::card::Hand;
use landlord::game::Game;

#[test]
fn new_game_shape() {
    let g = Game::new(3);
    assert!(!g.playing());
    assert_eq!(g.landlord(), 3);
    assert!(g.turn() < 3);
    assert_eq!(g.winner(), None);
    assert_eq!(g.played_mask(), 0);
    assert_eq!(g.score_delta(), 0);
}

#[test]
fn deal_conserves_the_deck() {
    // P5: all seats plus the bonus pile hold exactly one full deck.
    let hands = Hand::deal_hands(3);
    assert_eq!(hands.len(), 4);
    assert_eq!(hands[0].len(), 17);
    assert_eq!(hands[1].len(), 17);
    assert_eq!(hands[2].len(), 17);
    assert_eq!(hands[3].len(), 3);
    let mut seen = vec![0usize; 54];
    for h in &hands {
        for c in h.iter() {
            assert!(c.0 < 54);
            seen[c.0] += 1;
        }
    }
    assert!(seen.iter().all(|&n| n == 1));

    let hands = Hand::deal_hands(4);
    assert_eq!(hands.len(), 5);
    assert_eq!(hands[4].len(), 8);
    let mut seen = vec![0usize; 54];
    for h in &hands {
        for c in h.iter() {
            seen[c.0] += 1;
        }
    }
    assert!(seen.iter().all(|&n| n == 2));
}

#[test]
fn bid_turn_rotation() {
    // P4: an accepted pass moves the turn to the next seat.
    let mut g = Game::new(3);
    let t = g.turn();
    assert_eq!(g.bid(t, 0).unwrap(), false);
    assert_eq!(g.turn(), (t + 1) % 3);
}

#[test]
fn bid_errors() {
    let mut g = Game::new(3);
    let t = g.turn();
    assert_eq!(g.bid((t + 1) % 3, 1).unwrap_err(), "not your turn");
    assert_eq!(g.bid(t, 1).unwrap(), false);
    let t2 = g.turn();
    assert_eq!(g.bid(t2, 1).unwrap_err(), "must bid higher than previous bid");
    assert_eq!(g.bid(t2, 3).unwrap(), false);
    // a bid of 3 ends the bidding at once; the bidder is the landlord
    assert!(g.playing());
    assert_eq!(g.landlord(), t2);
    assert_eq!(g.turn(), t2);
    assert_eq!(g.bid(t2, 0).unwrap_err(), "bidding is over");
}

#[test]
fn bidding_scenario_two_passes_after_high_bid() {
    // seat A bids 1, seat B bids 2, the other two turns pass:
    // players - 1 == 2 consecutive passes end the bidding at seat B.
    let mut g = Game::new(3);
    let a = g.turn();
    let b = (a + 1) % 3;
    let c = (a + 2) % 3;
    assert_eq!(g.bid(a, 1).unwrap(), false);
    assert_eq!(g.bid(b, 2).unwrap(), false);
    assert_eq!(g.bid(c, 0).unwrap(), false);
    assert_eq!(g.bid(a, 0).unwrap(), false);
    assert!(g.playing());
    assert_eq!(g.landlord(), b);
    assert_eq!(g.turn(), b);
    assert_eq!(g.score_delta(), 2);
}

#[test]
fn bidding_scenario_all_pass_redeals() {
    // P7: three passes with no bid signal a redeal instead of an error.
    let mut g = Game::new(3);
    let t = g.turn();
    assert_eq!(g.bid(t, 0).unwrap(), false);
    assert_eq!(g.bid((t + 1) % 3, 0).unwrap(), false);
    assert_eq!(g.bid((t + 2) % 3, 0).unwrap(), true);
}

#[test]
fn landlord_gets_bonus_cards() {
    let mut g = Game::new(3);
    let t = g.turn();
    g.bid(t, 3).unwrap();
    // the landlord's hand JSON now lists 17 + 3 cards
    let json = g.serialize_cards(t);
    let vals: Vec<u64> = serde_json::from_str(&json).unwrap();
    assert_eq!(vals.len(), 20);
    let mut sorted = vals.clone();
    sorted.sort();
    assert_eq!(vals, sorted);
}

#[test]
fn play_phase_errors() {
    let mut g = Game::new(3);
    let t = g.turn();
    let pass = Hand::new(3, vec![]).unwrap();
    assert_eq!(g.play(t, pass).unwrap_err(), "still bidding");
    g.bid(t, 3).unwrap();
    let pass = Hand::new(3, vec![]).unwrap();
    assert_eq!(g.play((t + 1) % 3, pass).unwrap_err(), "not your turn");
    let pass = Hand::new(3, vec![]).unwrap();
    assert_eq!(g.play(t, pass).unwrap_err(), "cannot pass");
}

#[test]
fn play_removes_cards_and_rotates() {
    let mut g = Game::new(3);
    let t = g.turn();
    g.bid(t, 3).unwrap();
    let json = g.serialize_cards(t);
    let vals: Vec<usize> = serde_json::from_str(&json).unwrap();
    let lowest = vals[0];
    let hand = Hand::new(3, vec![lowest]).unwrap();
    g.play(t, hand).unwrap();
    assert_eq!(g.turn(), (t + 1) % 3);
    let after: Vec<usize> = serde_json::from_str(&g.serialize_cards(t)).unwrap();
    assert_eq!(after.len(), 19);
    // a card the seat does not hold is rejected
    let missing = Hand::new(3, vec![lowest]).unwrap();
    let next = g.turn();
    // a single deck holds each card once, so the next seat cannot hold it
    assert_eq!(g.play(next, missing).unwrap_err(), "cards not in hand");
}

#[test]
fn serialize_is_idempotent() {
    // P2: serializing twice without mutation yields identical output.
    let g = Game::new(3);
    assert_eq!(g.serialize(), g.serialize());
    let mut g2 = Game::new(4);
    let t = g2.turn();
    g2.bid(t, 3).unwrap();
    assert_eq!(g2.serialize(), g2.serialize());
}

#[test]
fn serialize_shape() {
    let mut g = Game::new(3);
    let v: serde_json::Value = serde_json::from_str(&g.serialize()).unwrap();
    assert_eq!(v["bid"], 0);
    assert_eq!(v["mult"], 1);
    assert_eq!(v["passes"], 0);
    let left = v["cards_left"].as_array().unwrap();
    assert_eq!(left.len(), 3);
    assert!(left.iter().all(|n| n.as_u64() == Some(17)));
    assert!(v.get("last_play").is_none());
    assert!(v.get("winner").is_none());
    let t = g.turn();
    g.bid(t, 3).unwrap();
    let v: serde_json::Value = serde_json::from_str(&g.serialize()).unwrap();
    assert_eq!(v["landlord"], t as u64);
    assert_eq!(v["last_play"]["kind"], "Pass");
    assert!(v["bonus"].is_string());
}
