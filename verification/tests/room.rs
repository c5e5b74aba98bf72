use landlord::lobby::Lobby;

fn three_seated() -> Lobby {
    let mut l = Lobby::new();
    l.join(1, "alice".to_string(), 100).unwrap();
    l.join(2, "bob".to_string(), 200).unwrap();
    l.join(3, "carol".to_string(), 300).unwrap();
    l
}

#[test]
fn join_assigns_seats_and_rejects() {
    let mut l = Lobby::new();
    l.join(7, "alice".to_string(), 10).unwrap();
    assert_eq!(l.user_idx(7), Some(0));
    assert_eq!(l.user_idx(8), None);
    assert_eq!(l.join(7, "alice".to_string(), 11).unwrap_err().0, "already joined the lobby");
    l.join(8, "bob".to_string(), 12).unwrap();
    l.join(9, "carol".to_string(), 13).unwrap();
    l.join(10, "dave".to_string(), 14).unwrap();
    assert_eq!(l.join(11, "erin".to_string(), 15).unwrap_err().0, "lobby is full");
    assert_eq!(l.user_idx(10), Some(3));
}

#[test]
fn start_needs_three_players() {
    let mut l = Lobby::new();
    l.join(1, "alice".to_string(), 1).unwrap();
    l.join(2, "bob".to_string(), 2).unwrap();
    assert_eq!(l.start(3).unwrap_err().0, "not enough players");
    l.join(3, "carol".to_string(), 4).unwrap();
    l.start(5).unwrap();
    assert_eq!(l.start(6).unwrap_err().0, "game in progress");
}

#[test]
fn actions_before_start_are_rejected() {
    let mut l = three_seated();
    assert_eq!(l.bid(0, 1, 400).unwrap_err().0, "game not started");
    assert_eq!(l.play(0, vec![10], 400).unwrap_err().0, "still bidding");
}

#[test]
fn chat_timestamps_strictly_increase() {
    // P6: timestamps strictly increase even when the clock ties or runs
    // backwards.
    let mut l = Lobby::new();
    l.send_msg(9, "a".to_string(), 100);
    l.send_msg(9, "b".to_string(), 100);
    l.send_msg(9, "c".to_string(), 50);
    l.send_msg(9, "d".to_string(), 170);
    let msgs = l.chat_before(None, 50);
    let times: Vec<u64> = msgs.iter().map(|m| m.time).collect();
    assert_eq!(times, vec![100, 101, 102, 170]);
}

#[test]
fn chat_before_pagination() {
    let mut l = Lobby::new();
    for i in 0..10u64 {
        l.send_msg(0, format!("m{}", i), 1000 + i);
    }
    let all = l.chat_before(None, 50);
    assert_eq!(all.len(), 10);
    let last_two = l.chat_before(None, 2);
    assert_eq!(last_two.len(), 2);
    assert_eq!(last_two[0].text, "m8");
    assert_eq!(last_two[1].text, "m9");
    let before = l.chat_before(Some(1005), 3);
    assert_eq!(before.len(), 3);
    assert_eq!(before[0].text, "m2");
    assert_eq!(before[2].text, "m4");
    let none = l.chat_before(Some(1000), 5);
    assert_eq!(none.len(), 0);
}

#[test]
fn join_announces_in_chat() {
    let l = three_seated();
    let msgs = l.chat_before(None, 50);
    assert_eq!(msgs.len(), 3);
    assert_eq!(msgs[0].text, "alice joined the game.");
    assert_eq!(msgs[0].idx, 9);
    assert_eq!(msgs[2].text, "carol joined the game.");
}

#[test]
fn serialize_exact_lobby_snapshot() {
    let l = three_seated();
    assert_eq!(
        l.serialize(),
        "{\"status\":\"Lobby\",\"players\":[{\"name\":\"alice\",\"score\":0},{\"name\":\"bob\",\"score\":0},{\"name\":\"carol\",\"score\":0}]}"
    );
}

#[test]
fn serialize_escapes_names() {
    let mut l = Lobby::new();
    l.join(1, "a\"b\\c\nd".to_string(), 1).unwrap();
    let s = l.serialize();
    assert!(s.contains("a\\\"b\\\\c\\nd"));
    let v: serde_json::Value = serde_json::from_str(&s).unwrap();
    assert_eq!(v["players"][0]["name"], "a\"b\\c\nd");
}

#[test]
fn serialize_idx_adds_seat_and_hand() {
    let mut l = three_seated();
    let v: serde_json::Value = serde_json::from_str(&l.serialize_idx(1)).unwrap();
    assert_eq!(v["idx"], 1);
    assert!(v.get("hand").is_none());
    l.start(400).unwrap();
    let v: serde_json::Value = serde_json::from_str(&l.serialize_idx(1)).unwrap();
    assert_eq!(v["idx"], 1);
    assert_eq!(v["hand"].as_array().unwrap().len(), 17);
    // the per-viewer snapshot shows only the viewer's own hand
    let w: serde_json::Value = serde_json::from_str(&l.serialize_idx(2)).unwrap();
    assert_eq!(w["hand"].as_array().unwrap().len(), 17);
    let shared: serde_json::Value = serde_json::from_str(&l.serialize()).unwrap();
    assert!(shared.get("hand").is_none());
    assert!(shared.get("idx").is_none());
}

fn turn_of(l: &Lobby) -> usize {
    let v: serde_json::Value = serde_json::from_str(&l.serialize()).unwrap();
    v["game"]["turn"].as_u64().unwrap() as usize
}

fn hand_of(l: &Lobby, idx: usize) -> Vec<usize> {
    let v: serde_json::Value = serde_json::from_str(&l.serialize_idx(idx)).unwrap();
    v["hand"].as_array().unwrap().iter().map(|n| n.as_u64().unwrap() as usize).collect()
}

#[test]
fn redeal_when_nobody_bids() {
    let mut l = three_seated();
    l.start(400).unwrap();
    let mut now = 500;
    for _ in 0..3 {
        let t = turn_of(&l);
        l.bid(t, 0, now).unwrap();
        now += 1;
    }
    // the room silently redealt and is still bidding
    let v: serde_json::Value = serde_json::from_str(&l.serialize()).unwrap();
    assert_eq!(v["status"], "Bidding");
    let msgs = l.chat_before(None, 1);
    assert!(msgs[0].text.starts_with("No one bid. Redealing cards. "));
    assert!(msgs[0].text.ends_with(" begins the bidding."));
}

#[test]
fn full_game_scores_are_zero_sum() {
    // P3: drive a whole game (the landlord leads a lowest single, the
    // peasants always pass) and check that the score deltas cancel.
    let mut l = three_seated();
    let mut now = 1000u64;
    l.start(now).unwrap();
    now += 1;
    let t = turn_of(&l);
    l.bid(t, 3, now).unwrap();
    now += 1;
    let v: serde_json::Value = serde_json::from_str(&l.serialize()).unwrap();
    assert_eq!(v["status"], "Playing");
    assert_eq!(v["game"]["landlord"].as_u64().unwrap() as usize, t);
    let mut guard = 0;
    loop {
        let v: serde_json::Value = serde_json::from_str(&l.serialize()).unwrap();
        if v["status"] == "Finished" {
            break;
        }
        let seat = turn_of(&l);
        if seat == t {
            let hand = hand_of(&l, seat);
            l.play(seat, vec![hand[0]], now).unwrap();
        } else {
            l.play(seat, vec![], now).unwrap();
        }
        now += 1;
        guard += 1;
        assert!(guard < 200);
    }
    let v: serde_json::Value = serde_json::from_str(&l.serialize()).unwrap();
    assert_eq!(v["game"]["winner"].as_u64().unwrap() as usize, t);
    let scores: Vec<i64> =
        v["players"].as_array().unwrap().iter().map(|p| p["score"].as_i64().unwrap()).collect();
    assert_eq!(scores.iter().sum::<i64>(), 0);
    // the landlord won alone: the others paid the same stake
    assert!(scores[t] > 0);
    let msgs = l.chat_before(None, 2);
    assert!(msgs[1].text.starts_with("The landlord wins +"));
}

#[test]
fn play_announces_actions() {
    let mut l = three_seated();
    l.start(50).unwrap();
    let t = turn_of(&l);
    l.bid(t, 1, 60).unwrap();
    let msgs = l.chat_before(None, 1);
    let names = ["alice", "bob", "carol"];
    assert_eq!(msgs[0].text, format!("{} bid 1.", names[t]));
    let t2 = turn_of(&l);
    l.bid(t2, 0, 61).unwrap();
    let msgs = l.chat_before(None, 1);
    assert_eq!(msgs[0].text, format!("{} passed.", names[t2]));
}

#[test]
fn serialize_escapes_control_characters() {
    let mut l = Lobby::new();
    l.join(1, "a\u{1}b".to_string(), 1).unwrap();
    let s = l.serialize();
    assert!(s.contains("a\\u0001b"));
    let v: serde_json::Value = serde_json::from_str(&s).unwrap();
    assert_eq!(v["players"][0]["name"], "a\u{1}b");
}

#[test]
fn four_player_room_starts_a_double_deck_game() {
    let mut l = Lobby::new();
    l.join(1, "alice".to_string(), 1).unwrap();
    l.join(2, "bob".to_string(), 2).unwrap();
    l.join(3, "carol".to_string(), 3).unwrap();
    l.join(4, "dave".to_string(), 4).unwrap();
    l.start(5).unwrap();
    let v: serde_json::Value = serde_json::from_str(&l.serialize()).unwrap();
    let left = v["game"]["cards_left"].as_array().unwrap();
    assert_eq!(left.len(), 4);
    assert!(left.iter().all(|n| n.as_u64() == Some(25)));
}
