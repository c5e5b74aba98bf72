use landlord::card::{join, Card, Hand, HandName};

#[test]
fn create_pass() {
    let h = Hand::new(3, vec![]).unwrap();
    assert!(h.is_pass());
}

#[test]
fn create_single() {
    let h = Hand::new(3, vec![10]).unwrap();
    assert_eq!(h.kind.name, HandName::Single);
    assert_eq!(h.kind.mult, 1);

    let sj = Hand::new(3, vec![52]).unwrap();
    let bj = Hand::new(3, vec![53]).unwrap();
    assert!(sj.can_play(&h).is_ok());
    assert!(bj.can_play(&sj).is_ok());
}

#[test]
fn create_straight() {
    let h = Hand::new(3, vec![10, 14, 18, 22, 26]).unwrap();
    assert_eq!(h.kind.name, HandName::Single);
    assert_eq!(h.kind.mult, 5);
    Hand::new(3, vec![10, 14, 18, 22]).unwrap_err();
}

#[test]
fn create_pair() {
    let h = Hand::new(3, vec![10, 11]).unwrap();
    assert_eq!(h.kind.name, HandName::Pair);
    assert_eq!(h.kind.mult, 1);

    let sjs = Hand::new(4, vec![52, 52]).unwrap();
    assert_eq!(sjs.kind.name, HandName::Pair);
    Hand::new(4, vec![52, 53]).unwrap_err();
}

#[test]
fn create_pair_chain() {
    let h = Hand::new(3, vec![10, 11, 12, 13, 16, 17]).unwrap();
    assert_eq!(h.kind.name, HandName::Pair);
    assert_eq!(h.kind.mult, 3);
    Hand::new(3, vec![10, 11, 12, 23]).unwrap_err();
}

#[test]
fn create_triple() {
    let h = Hand::new(3, vec![0, 1, 2]).unwrap();
    assert_eq!(h.kind.name, HandName::Triple);
    assert_eq!(h.kind.mult, 1);
    Hand::new(4, vec![52, 52, 53]).unwrap_err();
}

#[test]
fn create_triple_chain() {
    let h = Hand::new(3, vec![0, 1, 2, 4, 5, 6]).unwrap();
    assert_eq!(h.kind.name, HandName::Triple);
    assert_eq!(h.kind.mult, 2);
    Hand::new(3, vec![0, 1, 2, 8, 9, 10]).unwrap_err();
}

#[test]
fn create_triple_single() {
    let h = Hand::new(3, vec![0, 1, 2, 10]).unwrap();
    assert_eq!(h.kind.name, HandName::TripleSingle);
    assert_eq!(h.kind.mult, 1);
    Hand::new(4, vec![0, 1, 2, 10]).unwrap_err();
    Hand::new(3, vec![0, 1, 2, 10, 12]).unwrap_err();
}

#[test]
fn create_triple_single_chain() {
    let h = Hand::new(3, vec![0, 1, 2, 4, 5, 6, 10, 12]).unwrap();
    assert_eq!(h.kind.name, HandName::TripleSingle);
    assert_eq!(h.kind.mult, 2);
    Hand::new(3, vec![0, 1, 2, 4, 5, 6, 10, 11]).unwrap_err();
}

#[test]
fn create_triple_pair() {
    let h = Hand::new(3, vec![0, 1, 2, 10, 11]).unwrap();
    assert_eq!(h.kind.name, HandName::TriplePair);
    assert_eq!(h.kind.mult, 1);
    Hand::new(4, vec![0, 1, 2, 10, 11]).unwrap();
    Hand::new(4, vec![0, 1, 2, 52, 53]).unwrap_err();
}

#[test]
fn create_triple_pair_chain() {
    let chain = Hand::new(3, vec![0, 1, 2, 4, 5, 6, 10, 11, 12, 13]).unwrap();
    assert_eq!(chain.kind.name, HandName::TriplePair);
    assert_eq!(chain.kind.mult, 2);
}

#[test]
fn create_quad_single() {
    let h = Hand::new(4, vec![0, 1, 2, 3, 10, 12]).unwrap();
    assert_eq!(h.kind.name, HandName::QuadSingle);
    assert_eq!(h.kind.mult, 1);
    Hand::new(3, vec![0, 1, 2, 3, 10, 12]).unwrap_err();
}

#[test]
fn create_quad_pair() {
    let h = Hand::new(4, vec![0, 1, 2, 3, 10, 11, 12, 13]).unwrap();
    assert_eq!(h.kind.name, HandName::QuadPair);
    assert_eq!(h.kind.mult, 1);
    Hand::new(3, vec![0, 1, 2, 3, 10, 11, 12, 13]).unwrap_err();
}

#[test]
fn create_bomb() {
    let h = Hand::new(3, vec![0, 1, 2, 3]).unwrap();
    assert_eq!(h.kind.name, HandName::Bomb);
    assert_eq!(h.kind.mult, 4);
    assert!(h.is_double(3));

    let h = Hand::new(4, vec![0, 0, 1, 2, 3]).unwrap();
    assert_eq!(h.kind.name, HandName::Bomb);
    assert_eq!(h.kind.mult, 5);
    assert!(!h.is_double(4));

    let h = Hand::new(4, vec![0, 0, 1, 1, 2, 3]).unwrap();
    assert!(h.is_double(4));
}

#[test]
fn create_rocket() {
    let h = Hand::new(3, vec![52, 53]).unwrap();
    assert_eq!(h.kind.name, HandName::Rocket);
    assert!(h.is_double(3));
    Hand::new(4, vec![52, 53]).unwrap_err();

    let h = Hand::new(4, vec![52, 52, 53, 53]).unwrap();
    assert_eq!(h.kind.name, HandName::Rocket);
    assert!(h.is_double(4));
}

#[test]
fn classify_round_trip_keeps_cards() {
    let inputs: Vec<Vec<usize>> = vec![
        vec![10],
        vec![10, 11],
        vec![0, 1, 2, 3],
        vec![52, 53],
        vec![0, 1, 2, 4, 5, 6, 10, 12],
        vec![10, 14, 18, 22, 26],
    ];
    for cards in inputs {
        let h = Hand::new(3, cards.clone()).unwrap();
        let vals: Vec<usize> = h.cards().iter().map(|c| c.0).collect();
        assert_eq!(vals, cards);
    }
}

#[test]
fn classify_error_messages() {
    assert_eq!(Hand::new(3, vec![54]).unwrap_err(), "invalid cards");
    assert_eq!(Hand::new(3, vec![11, 10]).unwrap_err(), "unsorted cards");
    assert_eq!(Hand::new(3, vec![10, 14]).unwrap_err(), "cards cannot from a hand");
}

#[test]
fn bomb_beats_single_rocket_beats_all() {
    let single = Hand::new(3, vec![10]).unwrap();
    let bomb = Hand::new(3, vec![0, 1, 2, 3]).unwrap();
    assert_eq!(bomb.kind.mult, 4);
    assert!(bomb.can_play(&single).is_ok());

    let rocket = Hand::new(3, vec![52, 53]).unwrap();
    let pair = Hand::new(3, vec![10, 11]).unwrap();
    assert!(rocket.can_play(&single).is_ok());
    assert!(rocket.can_play(&pair).is_ok());
    assert!(rocket.can_play(&bomb).is_ok());
    assert!(bomb.can_play(&rocket).is_err());
}

#[test]
fn can_play_error_messages() {
    let single = Hand::new(3, vec![10]).unwrap();
    let pair = Hand::new(3, vec![10, 11]).unwrap();
    let low_single = Hand::new(3, vec![4]).unwrap();
    let straight5 = Hand::new(3, vec![10, 14, 18, 22, 26]).unwrap();
    assert_eq!(pair.can_play(&single).unwrap_err(), "hand type does not match");
    assert_eq!(straight5.can_play(&single).unwrap_err(), "number of cards do not match");
    assert_eq!(low_single.can_play(&single).unwrap_err(), "hand is lower than previous play");

    let bomb4 = Hand::new(3, vec![0, 1, 2, 3]).unwrap();
    let bomb4_high = Hand::new(3, vec![8, 9, 10, 11]).unwrap();
    let bomb5 = Hand::new(4, vec![4, 4, 5, 6, 7]).unwrap();
    assert_eq!(bomb4.can_play(&bomb5).unwrap_err(), "bomb has less cards than previous play");
    assert_eq!(bomb4.can_play(&bomb4_high).unwrap_err(), "bomb is lower than previous play");
    assert!(bomb4_high.can_play(&bomb4).is_ok());
}

#[test]
fn join_renders_cards() {
    let cards = vec![Card(0), Card(30), Card(52), Card(53)];
    assert_eq!(join(&cards), "3♣️, 10♥️, J🃟, J🃏");
}
