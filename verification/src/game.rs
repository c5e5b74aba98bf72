//! The per-room game state machine: per-seat hands, bidding, trick play,
//! the pass counter, the score multiplier and the phase bits that detect
//! domination.
use crate::card::{
    conservation, copy_cards, count_cards, lemma_count_absent, lemma_count_push,
    lemma_count_split, lemma_count_take_step, piles_view, sort_cards, sorted_cards, sub_counts,
    Card, Hand, HandName, HandType,
};
use vstd::prelude::*;
use vstd::string::StringExecFns;
use crate::text::{spec_dec, u64_to_dec};
use crate::card::spec_join;

verus! {

/// The mathematical value of a `Game`.
pub ghost struct GameV {
    pub players: usize,
    /// One pile per seat; the last pile holds the hidden bonus cards.
    pub cards: Seq<Seq<Card>>,
    pub turn: usize,
    pub bid: usize,
    pub mult: usize,
    /// The landlord seat; `players` while the bid is still open.
    pub landlord: usize,
    pub last_idx: usize,
    pub last_play: Hand,
    pub passes: usize,
    pub winner: Option<usize>,
    /// Three bits: landlord led, a peasant played, the landlord played a
    /// second hand. A finished game with a bit missing is a domination.
    pub played_mask: usize,
}

/// The structural invariant every live game keeps.
pub open spec fn game_inv(g: GameV) -> bool {
    &&& (g.players == 3 || g.players == 4)
    &&& g.cards.len() == g.players + 1
    &&& (forall|i: int| 0 <= i < g.cards.len() ==> sorted_cards(#[trigger] g.cards[i]))
    &&& g.turn < g.players
    &&& g.landlord <= g.players
    &&& g.last_idx < g.players
    &&& g.passes <= g.players
    &&& (g.landlord != g.players ==> g.passes < g.players)
    &&& (g.winner matches Some(w) ==> w < g.players)
    &&& g.last_play.wf()
    &&& (g.landlord == g.players ==> conservation(g.players as int, g.cards))
}

/// The seat whose turn comes after `idx`.
pub open spec fn spec_next_turn(idx: usize, players: usize) -> usize {
    (((idx + 1) as int) % (players as int)) as usize
}

/// The pass counter after one more pass; it never leaves `0..=players`,
/// so a game that already signalled a redeal keeps signalling it.
pub open spec fn bumped_passes(passes: usize, players: usize) -> usize {
    if passes < players {
        (passes + 1) as usize
    } else {
        passes
    }
}

/// Doubling the score multiplier, saturating at the largest value.
pub open spec fn spec_double(m: usize) -> usize {
    if m <= usize::MAX / 2 {
        (2 * m) as usize
    } else {
        usize::MAX
    }
}

/// The score multiplier times the bid, saturating at the largest value.
pub open spec fn spec_sat_mul(a: usize, b: usize) -> usize {
    if a * b <= usize::MAX {
        (a * b) as usize
    } else {
        usize::MAX
    }
}

/// The phase bits after seat `idx` plays a non-pass hand.
pub open spec fn next_mask(mask: usize, idx: usize, landlord: usize) -> usize {
    mask | (if idx == landlord {
        if mask & 1 != 0 {
            4usize
        } else {
            1usize
        }
    } else {
        2usize
    })
}

/// Relies on `rand::random_range` over `0..n`: a uniformly random value
/// of the non-empty range.
#[verifier::external_body]
fn random_below(n: usize) -> (r: usize)
    requires
        n > 0,
    ensures
        r < n,
{
    rand::random_range(0..n)
}

/// Remove the cards of `hand` from the sorted pile `pile`, or report that
/// some card is missing.
fn remove_cards(pile: &Vec<Card>, hand: &Vec<Card>) -> (r: Option<Vec<Card>>)
    requires
        sorted_cards(pile@),
        sorted_cards(hand@),
    ensures
        match r {
            Some(rest) => sub_counts(hand@, pile@) && sorted_cards(rest@) && rest@.len()
                + hand@.len() == pile@.len() && (forall|c: Card|
                #[trigger] count_cards(rest@, c) + count_cards(hand@, c) == count_cards(
                    pile@,
                    c,
                )),
            None => !sub_counts(hand@, pile@),
        },
{
    let mut out: Vec<Card> = Vec::new();
    let mut i: usize = 0;
    let mut j: usize = 0;
    proof {
        assert(pile@.take(0) =~= Seq::<Card>::empty());
        assert(hand@.take(0) =~= Seq::<Card>::empty());
    }
    while i < pile.len()
        invariant
            i <= pile@.len(),
            j <= hand@.len(),
            out@.len() + j == i,
            sorted_cards(out@),
            forall|c: Card| #[trigger] count_cards(out@, c) + count_cards(hand@.take(j as int), c)
                == count_cards(pile@.take(i as int), c),
            forall|k: int| 0 <= k < out@.len() && j < hand@.len() ==> out@[k].0 < hand@[j as int].0,
            forall|k: int, m: int| 0 <= k < out@.len() && i <= m < pile@.len() ==> out@[k].0
                <= pile@[m].0,
        decreases pile@.len() - i,
    {
        let pc = pile[i];
        let mut advance = false;
        if j < hand.len() {
            let hc = hand[j];
            if hc.0 < pc.0 {
                proof {
                    lemma_count_absent(out@, hc);
                    assert forall|m: int| i <= m < pile@.len() implies pile@[m] != hc by {
                        assert(pile@[m].0 >= pile@[i as int].0);
                    }
                    lemma_count_absent(pile@.skip(i as int), hc);
                    lemma_count_split(pile@, i as int, hc);
                    lemma_count_take_step(hand@, j as int, hc);
                    lemma_count_split(hand@, j as int + 1, hc);
                    assert(count_cards(hand@, hc) > count_cards(pile@, hc));
                }
                return None;
            }
            if hc.0 == pc.0 {
                proof {
                    assert(hc == pc);
                    lemma_count_take_step(pile@, i as int, hc);
                    lemma_count_take_step(hand@, j as int, hc);
                    assert forall|c: Card| #[trigger] count_cards(out@, c) + count_cards(
                        hand@.take(j as int + 1),
                        c,
                    ) == count_cards(pile@.take(i as int + 1), c) by {
                        lemma_count_take_step(pile@, i as int, c);
                        lemma_count_take_step(hand@, j as int, c);
                    }
                }
                j += 1;
                advance = true;
            }
        }
        if !advance {
            proof {
                assert forall|c: Card| #[trigger] count_cards(out@.push(pc), c) + count_cards(
                    hand@.take(j as int),
                    c,
                ) == count_cards(pile@.take(i as int + 1), c) by {
                    lemma_count_push(out@, pc, c);
                    lemma_count_take_step(pile@, i as int, c);
                }
            }
            out.push(pc);
        }
        i += 1;
    }
    if j < hand.len() {
        let hc = hand[j];
        proof {
            assert(pile@.take(pile@.len() as int) =~= pile@);
            lemma_count_absent(out@, hc);
            lemma_count_take_step(hand@, j as int, hc);
            lemma_count_split(hand@, j as int + 1, hc);
            assert(count_cards(hand@, hc) > count_cards(pile@, hc));
        }
        return None;
    }
    proof {
        assert(pile@.take(pile@.len() as int) =~= pile@);
        assert(hand@.take(hand@.len() as int) =~= hand@);
        assert forall|c: Card| #[trigger] count_cards(hand@, c) <= count_cards(pile@, c) by {
            assert(count_cards(out@, c) + count_cards(hand@, c) == count_cards(pile@, c));
        }
    }
    Some(out)
}

/// Mutable per-room game state. The bid phase runs while `landlord`
/// equals `players`; the first emptied hand sets `winner`.
pub struct Game {
    players: usize,
    cards: Vec<Vec<Card>>,  // last element contains hidden cards
    turn: usize,
    bid: usize,
    mult: usize,
    landlord: usize,
    last_idx: usize,
    last_play: Hand,
    passes: usize,
    winner: Option<usize>,
    played_mask: usize,
}

impl View for Game {
    type V = GameV;

    closed spec fn view(&self) -> GameV {
        GameV {
            players: self.players,
            cards: piles_view(self.cards@),
            turn: self.turn,
            bid: self.bid,
            mult: self.mult,
            landlord: self.landlord,
            last_idx: self.last_idx,
            last_play: self.last_play,
            passes: self.passes,
            winner: self.winner,
            played_mask: self.played_mask,
        }
    }
}

impl Game {
    pub open spec fn wf(self) -> bool {
        game_inv(self@)
    }

    /// Deal a fresh game: shuffled sorted hands, a random opening turn,
    /// no bid, multiplier 1 and the bid phase open. The piles together
    /// hold exactly the full deck.
    pub fn new(players: usize) -> (g: Game)
        requires
            players == 3 || players == 4,
        ensures
            g.wf(),
            g@.players == players,
            g@.turn < players,
            g@.bid == 0,
            g@.mult == 1,
            g@.landlord == players,
            g@.last_idx == 0,
            g@.passes == 0,
            g@.winner is None,
            g@.played_mask == 0,
            g@.last_play.kind.name == HandName::Pass,
            g@.cards.len() == players + 1,
            forall|i: int| 0 <= i < players ==> (#[trigger] g@.cards[i]).len() == (if players == 3 {
                17int
            } else {
                25int
            }),
            g@.cards[players as int].len() == (if players == 3 {
                3int
            } else {
                8int
            }),
            conservation(players as int, g@.cards),
    {
        Game {
            players,
            cards: Hand::deal_hands(players),
            turn: random_below(players),
            bid: 0,
            mult: 1,
            landlord: players,
            last_idx: 0,
            last_play: Hand::pass(),
            passes: 0,
            winner: None,
            played_mask: 0,
        }
    }

    pub fn landlord(&self) -> (r: usize)
        ensures
            r == self@.landlord,
    {
        self.landlord
    }

    /// Whether the bid phase is over and a landlord has been assigned.
    pub fn playing(&self) -> (r: bool)
        ensures
            r == (self@.landlord != self@.players),
    {
        self.landlord != self.players
    }

    /// The per-seat score stake: multiplier times bid, saturating.
    pub fn score_delta(&self) -> (r: usize)
        ensures
            r == spec_sat_mul(self@.mult, self@.bid),
    {
        match self.mult.checked_mul(self.bid) {
            Some(v) => v,
            None => usize::MAX,
        }
    }

    pub fn turn(&self) -> (r: usize)
        ensures
            r == self@.turn,
    {
        self.turn
    }

    pub fn winner(&self) -> (r: Option<usize>)
        ensures
            r == self@.winner,
    {
        self.winner
    }

    pub fn played_mask(&self) -> (r: usize)
        ensures
            r == self@.played_mask,
    {
        self.played_mask
    }

    /// Place a bid (`val == 0` passes). On success `Ok(true)` signals that
    /// everyone passed and the caller must redeal.
    ///
    /// A pass raises the pass counter; a bid must strictly exceed the
    /// current one. Bidding ends, assigning the landlord and handing over
    /// the bonus pile, when `players - 1` passes follow a bid or the bid
    /// reaches 3; otherwise the turn moves on to the next seat.
    pub fn bid(&mut self, idx: usize, val: usize) -> (r: Result<bool, String>)
        requires
            old(self).wf(),
        ensures
            final(self).wf(),
            old(self)@.landlord != old(self)@.players ==> (r matches Err(e) && e@
                == "bidding is over"@ && final(self)@ == old(self)@),
            old(self)@.landlord == old(self)@.players && old(self)@.turn != idx ==> (r matches Err(
            e) && e@ == "not your turn"@ && final(self)@ == old(self)@),
            old(self)@.landlord == old(self)@.players && old(self)@.turn == idx && val != 0 && val
                <= old(self)@.bid ==> (r matches Err(e) && e@
                == "must bid higher than previous bid"@ && final(self)@ == old(self)@),
            r == Ok::<bool, String>(false) && old(self)@.landlord == old(self)@.players
                && final(self)@.landlord != final(self)@.players ==> ({
                let o = old(self)@;
                let n = final(self)@;
                &&& n.cards.len() == o.cards.len()
                &&& (forall|k: int| 0 <= k < n.cards.len() && k != n.landlord ==> n.cards[k]
                    == o.cards[k])
                &&& (forall|c: Card| #[trigger] count_cards(n.cards[n.landlord as int], c)
                    == count_cards(o.cards[n.landlord as int], c) + count_cards(
                    o.cards[o.players as int],
                    c,
                ))
            }),
            old(self)@.landlord == old(self)@.players && old(self)@.turn == idx && (val == 0 || val
                > old(self)@.bid) ==> ({
                let o = old(self)@;
                let n = final(self)@;
                let p: usize = if val == 0 {
                    bumped_passes(o.passes, o.players)
                } else {
                    0usize
                };
                let b: usize = if val == 0 {
                    o.bid
                } else {
                    val
                };
                let li: usize = if val == 0 {
                    o.last_idx
                } else {
                    idx
                };
                if (p == o.players - 1 && b > 0) || b == 3 {
                    &&& r matches Ok(redeal) && redeal == false
                    &&& n.landlord == li
                    &&& n.turn == li
                    &&& n.passes == 0
                    &&& n.bid == b
                    &&& n.last_idx == li
                    &&& n.players == o.players
                    &&& n.mult == o.mult
                    &&& n.winner == o.winner
                    &&& n.played_mask == o.played_mask
                    &&& n.last_play == o.last_play
                    &&& n.cards.len() == o.cards.len()
                    &&& (forall|k: int| 0 <= k < n.cards.len() && k != li ==> n.cards[k]
                        == o.cards[k])
                    &&& sorted_cards(n.cards[li as int])
                    &&& (forall|c: Card| #[trigger] count_cards(n.cards[li as int], c)
                        == count_cards(o.cards[li as int], c) + count_cards(
                        o.cards[o.players as int],
                        c,
                    ))
                } else if p == o.players {
                    r matches Ok(redeal) && redeal == true && n == GameV { passes: p, ..o }
                } else {
                    r matches Ok(redeal) && redeal == false && n == GameV {
                        passes: p,
                        bid: b,
                        last_idx: li,
                        turn: spec_next_turn(idx, o.players),
                        ..o
                    }
                }
            }),
    {
        if self.playing() {
            return Err("bidding is over".to_owned());
        }
        if self.turn != idx {
            return Err("not your turn".to_owned());
        }
        if val == 0 {
            if self.passes < self.players {
                self.passes = self.passes + 1;
            }
        } else {
            if val <= self.bid {
                return Err("must bid higher than previous bid".to_owned());
            }
            self.passes = 0;
            self.bid = val;
            self.last_idx = idx;
        }
        if (self.passes == self.players - 1 && self.bid > 0) || self.bid == 3 {
            self.passes = 0;
            self.landlord = self.last_idx;
            self.turn = self.landlord;
            // landlord receives the hidden bonus cards
            let hidden = copy_cards(&self.cards[self.players]);
            let mut pile = copy_cards(&self.cards[self.landlord]);
            let ghost orig = pile@;
            proof {
                assert(hidden@ == old(self)@.cards[old(self)@.players as int]);
                assert(orig == old(self)@.cards[self.landlord as int]);
            }
            let mut q: usize = 0;
            while q < hidden.len()
                invariant
                    q <= hidden@.len(),
                    pile@.len() == orig.len() + q,
                    forall|c: Card| #[trigger] count_cards(pile@, c) == count_cards(orig, c)
                        + count_cards(hidden@.take(q as int), c),
                decreases hidden@.len() - q,
            {
                proof {
                    assert forall|c: Card| #[trigger] count_cards(pile@.push(hidden@[q as int]), c)
                        == count_cards(orig, c) + count_cards(hidden@.take(q as int + 1), c) by {
                        lemma_count_push(pile@, hidden@[q as int], c);
                        lemma_count_take_step(hidden@, q as int, c);
                    }
                }
                pile.push(hidden[q]);
                q += 1;
            }
            proof {
                assert(hidden@.take(hidden@.len() as int) =~= hidden@);
            }
            let merged = sort_cards(pile);
            let lord = self.landlord;
            self.cards[lord] = merged;
            proof {
                assert(piles_view(self.cards@) =~= piles_view(old(self).cards@).update(
                    lord as int,
                    merged@,
                ));
            }
            Ok(false)
        } else if self.passes == self.players {
            // no one bid, so redeal
            Ok(true)
        } else {
            self.turn = (idx + 1) % self.players;
            Ok(false)
        }
    }

    /// Play a hand (or pass) for seat `idx` during the trick phase.
    ///
    /// The hand's cards must all be present in the seat's pile. A pass is
    /// refused when there is nothing to pass on or the trick is already
    /// settled; `players - 1` consecutive passes close the trick. A
    /// non-pass hand must beat the standing play; it is then removed from
    /// the seat's pile, doubles the multiplier when it is a doubling
    /// play, records the phase bits, and wins the game when it empties
    /// the pile. The turn always advances to the next seat.
    pub fn play(&mut self, idx: usize, hand: Hand) -> (r: Result<(), String>)
        requires
            old(self).wf(),
            hand.wf(),
        ensures
            final(self).wf(),
            old(self)@.landlord == old(self)@.players ==> (r matches Err(e) && e@
                == "still bidding"@ && final(self)@ == old(self)@),
            old(self)@.landlord != old(self)@.players && old(self)@.winner is Some ==> (r matches
                Err(e) && e@ == "game finished"@ && final(self)@ == old(self)@),
            old(self)@.landlord != old(self)@.players && old(self)@.winner is None && old(
                self,
            )@.turn != idx ==> (r matches Err(e) && e@ == "not your turn"@ && final(self)@ == old(
                self,
            )@),
            old(self)@.landlord != old(self)@.players && old(self)@.winner is None && old(
                self,
            )@.turn == idx && !sub_counts(hand.cards@, old(self)@.cards[idx as int]) ==> (r matches
                Err(e) && e@ == "cards not in hand"@ && final(self)@ == old(self)@),
            old(self)@.landlord != old(self)@.players && old(self)@.winner is None && old(
                self,
            )@.turn == idx && sub_counts(hand.cards@, old(self)@.cards[idx as int])
                && hand.kind.name == HandName::Pass ==> (if old(self)@.last_play.kind.name
                == HandName::Pass || old(self)@.passes == old(self)@.players - 1 {
                r matches Err(e) && e@ == "cannot pass"@ && final(self)@ == old(self)@
            } else {
                let o = old(self)@;
                let n = final(self)@;
                let p: usize = (o.passes + 1) as usize;
                &&& r is Ok
                &&& n.cards == o.cards
                &&& n.players == o.players
                &&& n.bid == o.bid
                &&& n.mult == o.mult
                &&& n.landlord == o.landlord
                &&& n.last_idx == o.last_idx
                &&& n.winner == o.winner
                &&& n.played_mask == o.played_mask
                &&& n.turn == spec_next_turn(idx, o.players)
                &&& (p == o.players - 1 ==> n.passes == 0 && n.last_play.kind.name
                    == HandName::Pass && n.last_play.cards@.len() == 0)
                &&& (p != o.players - 1 ==> n.passes == p && n.last_play == o.last_play)
            }),
            old(self)@.landlord != old(self)@.players && old(self)@.winner is None && old(
                self,
            )@.turn == idx && sub_counts(hand.cards@, old(self)@.cards[idx as int])
                && hand.kind.name != HandName::Pass ==> (if !hand.can_beat(old(self)@.last_play) {
                r matches Err(e) && e@ == hand.can_play_msg(old(self)@.last_play) && final(self)@
                    == old(self)@
            } else {
                let o = old(self)@;
                let n = final(self)@;
                &&& r is Ok
                &&& n.players == o.players
                &&& n.bid == o.bid
                &&& n.landlord == o.landlord
                &&& n.turn == spec_next_turn(idx, o.players)
                &&& n.passes == 0
                &&& n.last_idx == idx
                &&& n.last_play == hand
                &&& n.cards.len() == o.cards.len()
                &&& (forall|k: int| 0 <= k < o.cards.len() && k != idx ==> n.cards[k]
                    == o.cards[k])
                &&& sorted_cards(n.cards[idx as int])
                &&& n.cards[idx as int].len() + hand.cards@.len() == o.cards[idx as int].len()
                &&& (forall|c: Card| #[trigger] count_cards(n.cards[idx as int], c) + count_cards(
                    hand.cards@,
                    c,
                ) == count_cards(o.cards[idx as int], c))
                &&& n.winner == (if n.cards[idx as int].len() == 0 {
                    Some(idx)
                } else {
                    o.winner
                })
                &&& n.mult == (if hand.spec_is_double(o.players) {
                    spec_double(o.mult)
                } else {
                    o.mult
                })
                &&& n.played_mask == next_mask(o.played_mask, idx, o.landlord)
            }),
    {
        if !self.playing() {
            return Err("still bidding".to_owned());
        }
        if self.winner.is_some() {
            return Err("game finished".to_owned());
        }
        if self.turn != idx {
            return Err("not your turn".to_owned());
        }
        // check that the hand exists in the seat's cards
        proof {
            assert(sorted_cards(self@.cards[idx as int]));
            assert(self@.cards[idx as int] == self.cards@[idx as int]@);
        }
        let rest = match remove_cards(&self.cards[idx], hand.cards()) {
            None => {
                return Err("cards not in hand".to_owned());
            },
            Some(rest) => rest,
        };
        if hand.is_pass() {
            if self.last_play.is_pass() || self.passes == self.players - 1 {
                return Err("cannot pass".to_owned());
            }
            self.passes = self.passes + 1;
            if self.passes == self.players - 1 {
                self.passes = 0;
                self.last_play = Hand::pass();
            }
        } else {
            match hand.can_play(&self.last_play) {
                Err(e) => {
                    return Err(e);
                },
                Ok(()) => {},
            }
            // remove the cards that were played
            self.cards[idx] = rest;
            proof {
                assert(piles_view(self.cards@) =~= piles_view(old(self).cards@).update(
                    idx as int,
                    self.cards@[idx as int]@,
                ));
            }
            // score keeping
            if self.cards[idx].is_empty() {
                self.winner = Some(idx);
            }
            if hand.is_double(self.players) {
                self.mult = if self.mult <= usize::MAX / 2 {
                    self.mult * 2
                } else {
                    usize::MAX
                };
            }
            self.played_mask = self.played_mask | (if idx == self.landlord {
                if self.played_mask & 1 != 0 {
                    4
                } else {
                    1
                }
            } else {
                2
            });
            self.passes = 0;
            self.last_idx = idx;
            self.last_play = hand;
        }
        self.turn = (idx + 1) % self.players;
        Ok(())
    }
}

impl Default for Game {
    /// A placeholder for a room whose first game has not started; it is
    /// replaced by `Game::new` before any action reaches it.
    fn default() -> (g: Game)
        ensures
            g@.players == 0,
            g@.landlord == 0,
    {
        Game {
            players: 0,
            cards: Vec::new(),
            turn: 0,
            bid: 0,
            mult: 1,
            landlord: 0,
            last_idx: 0,
            last_play: Hand::pass(),
            passes: 0,
            winner: None,
            played_mask: 0,
        }
    }
}

} // verus!

verus! {

/// The JSON name of a hand kind.
pub open spec fn name_label(n: HandName) -> Seq<char> {
    match n {
        HandName::Pass => "Pass"@,
        HandName::Single => "Single"@,
        HandName::Pair => "Pair"@,
        HandName::Triple => "Triple"@,
        HandName::TripleSingle => "Triple + Single"@,
        HandName::TriplePair => "Triple + Pair"@,
        HandName::QuadSingle => "Quad + Singles"@,
        HandName::QuadPair => "Quad + Pairs"@,
        HandName::Bomb => "Bomb"@,
        HandName::Rocket => "Rocket"@,
    }
}

/// The JSON label of a hand kind with its chain marker: a chained single
/// is a "Straight", any other chain appends "Chained".
pub open spec fn kind_label(k: HandType) -> Seq<char> {
    if k.mult == 1 || k.name == HandName::Bomb {
        name_label(k.name)
    } else if k.name == HandName::Single {
        "Straight"@
    } else {
        name_label(k.name) + "Chained"@
    }
}

/// The comma-separated card values of the first `upto` cards of `s`.
pub open spec fn vals_json(s: Seq<Card>, upto: int) -> Seq<char>
    decreases upto,
{
    if upto <= 0 {
        Seq::empty()
    } else if upto == 1 {
        spec_dec(s[0].0 as nat)
    } else {
        vals_json(s, upto - 1) + ","@ + spec_dec(s[upto - 1].0 as nat)
    }
}

/// A JSON array of the card values of `s`.
pub open spec fn cards_json(s: Seq<Card>) -> Seq<char> {
    "["@ + vals_json(s, s.len() as int) + "]"@
}

/// The JSON object for one classified hand: its kind label and cards.
pub open spec fn hand_json(h: Hand) -> Seq<char> {
    "{\"kind\":\""@ + kind_label(h.kind) + "\",\"cards\":"@ + cards_json(h.cards@) + "}"@
}

/// The comma-separated hand sizes of the first `upto` piles.
pub open spec fn lens_json(cards: Seq<Seq<Card>>, upto: int) -> Seq<char>
    decreases upto,
{
    if upto <= 0 {
        Seq::empty()
    } else if upto == 1 {
        spec_dec(cards[0].len())
    } else {
        lens_json(cards, upto - 1) + ","@ + spec_dec(cards[upto - 1].len())
    }
}

/// The canonical JSON snapshot of a game: turn, bid, multiplier, pass
/// counter, hand sizes and last actor always; the last play, the
/// landlord and the bonus cards once the trick phase has begun; the
/// winner once the game is over.
pub open spec fn spec_game_json(g: GameV) -> Seq<char> {
    "{\"turn\":"@ + spec_dec(g.turn as nat) + ",\"bid\":"@ + spec_dec(g.bid as nat) + ",\"mult\":"@
        + spec_dec(g.mult as nat) + ",\"passes\":"@ + spec_dec(g.passes as nat)
        + ",\"cards_left\":["@ + lens_json(g.cards, g.players as int) + "],\"last_idx\":"@
        + spec_dec(g.last_idx as nat) + (if g.landlord != g.players {
        ",\"last_play\":"@ + hand_json(g.last_play) + ",\"landlord\":"@ + spec_dec(
            g.landlord as nat,
        ) + ",\"bonus\":\""@ + spec_join(g.cards[g.players as int]) + "\""@
    } else {
        Seq::<char>::empty()
    }) + (match g.winner {
        Some(w) => ",\"winner\":"@ + spec_dec(w as nat),
        None => Seq::<char>::empty(),
    }) + "}"@
}

/// The per-viewer card field: the seat's cards as a JSON array, or, for
/// the pseudo-seat `players`, the bonus pile as one readable string.
pub open spec fn spec_cards_json_for(g: GameV, idx: usize) -> Seq<char> {
    if idx == g.players {
        "\""@ + spec_join(g.cards[g.players as int]) + "\""@
    } else {
        cards_json(g.cards[idx as int])
    }
}

fn kind_str(k: &HandType) -> (r: String)
    ensures
        r@ == kind_label(*k),
{
    let base = match k.name {
        HandName::Pass => "Pass",
        HandName::Single => "Single",
        HandName::Pair => "Pair",
        HandName::Triple => "Triple",
        HandName::TripleSingle => "Triple + Single",
        HandName::TriplePair => "Triple + Pair",
        HandName::QuadSingle => "Quad + Singles",
        HandName::QuadPair => "Quad + Pairs",
        HandName::Bomb => "Bomb",
        HandName::Rocket => "Rocket",
    };
    if k.mult == 1 || matches!(k.name, HandName::Bomb) {
        base.to_owned()
    } else if matches!(k.name, HandName::Single) {
        "Straight".to_owned()
    } else {
        let mut s = base.to_owned();
        s.append("Chained");
        s
    }
}

fn cards_json_str(cards: &Vec<Card>) -> (r: String)
    ensures
        r@ == cards_json(cards@),
{
    let mut out = "[".to_owned();
    let mut i: usize = 0;
    while i < cards.len()
        invariant
            i <= cards@.len(),
            out@ == "["@ + vals_json(cards@, i as int),
        decreases cards@.len() - i,
    {
        if i > 0 {
            out.append(",");
        }
        let d = u64_to_dec(cards[i].0 as u64);
        out.append(d.as_str());
        proof {
            assert(out@ =~= "["@ + vals_json(cards@, i as int + 1));
        }
        i += 1;
    }
    out.append("]");
    out
}

fn hand_json_str(h: &Hand) -> (r: String)
    ensures
        r@ == hand_json(*h),
{
    let mut out = "{\"kind\":\"".to_owned();
    let k = kind_str(&h.kind);
    out.append(k.as_str());
    out.append("\",\"cards\":");
    let c = cards_json_str(&h.cards);
    out.append(c.as_str());
    out.append("}");
    proof {
        assert(out@ =~= hand_json(*h));
    }
    out
}

impl Game {
    /// The per-viewer card field of `serialize_idx`: a seat's own cards,
    /// or the bonus pile as one readable string.
    pub fn serialize_cards(&self, idx: usize) -> (r: String)
        requires
            self.wf(),
            idx <= self@.players,
        ensures
            r@ == spec_cards_json_for(self@, idx),
    {
        if idx == self.players {
            let mut out = "\"".to_owned();
            let j = crate::card::join(&self.cards[self.players]);
            out.append(j.as_str());
            out.append("\"");
            proof {
                assert(out@ =~= spec_cards_json_for(self@, idx));
            }
            out
        } else {
            cards_json_str(&self.cards[idx])
        }
    }

    /// The hidden bonus pile, rendered as a readable string for the
    /// landlord announcement.
    pub fn landlord_bonus(&self) -> (r: String)
        requires
            self.wf(),
        ensures
            r@ == spec_join(self@.cards[self@.players as int]),
    {
        crate::card::join(&self.cards[self.players])
    }

    /// The canonical JSON snapshot of the game (`spec_game_json`).
    #[verifier::rlimit(50)]
    pub fn serialize(&self) -> (r: String)
        requires
            self.wf(),
        ensures
            r@ == spec_game_json(self@),
    {
        let mut out = "{\"turn\":".to_owned();
        let d = u64_to_dec(self.turn as u64);
        out.append(d.as_str());
        out.append(",\"bid\":");
        let d = u64_to_dec(self.bid as u64);
        out.append(d.as_str());
        out.append(",\"mult\":");
        let d = u64_to_dec(self.mult as u64);
        out.append(d.as_str());
        out.append(",\"passes\":");
        let d = u64_to_dec(self.passes as u64);
        out.append(d.as_str());
        out.append(",\"cards_left\":[");
        let ghost pre = out@;
        let mut i: usize = 0;
        while i < self.players
            invariant
                i <= self@.players,
                self.wf(),
                out@ == pre + lens_json(self@.cards, i as int),
            decreases self@.players - i,
        {
            if i > 0 {
                out.append(",");
            }
            let d = u64_to_dec(self.cards[i].len() as u64);
            out.append(d.as_str());
            proof {
                assert(out@ =~= pre + lens_json(self@.cards, i as int + 1));
            }
            i += 1;
        }
        out.append("],\"last_idx\":");
        let d = u64_to_dec(self.last_idx as u64);
        out.append(d.as_str());
        if self.landlord != self.players {
            out.append(",\"last_play\":");
            let h = hand_json_str(&self.last_play);
            out.append(h.as_str());
            out.append(",\"landlord\":");
            let d = u64_to_dec(self.landlord as u64);
            out.append(d.as_str());
            out.append(",\"bonus\":\"");
            let j = crate::card::join(&self.cards[self.players]);
            out.append(j.as_str());
            out.append("\"");
        }
        match self.winner {
            Some(w) => {
                out.append(",\"winner\":");
                let d = u64_to_dec(w as u64);
                out.append(d.as_str());
            },
            None => {},
        }
        out.append("}");
        proof {
            assert(out@ =~= spec_game_json(self@));
        }
        out
    }
}

} // verus!

verus! {

/// Snapshot idempotence: the serialized snapshot is a function of the
/// game state alone, so serializing twice without a mutation in between
/// yields identical output.
pub proof fn lemma_snapshot_deterministic(g: GameV, a: Seq<char>, b: Seq<char>)
    requires
        a == spec_game_json(g),
        b == spec_game_json(g),
    ensures
        a == b,
{
}

} // verus!

verus! {

proof fn lemma_lens_json_eq(a: Seq<Seq<Card>>, b: Seq<Seq<Card>>, upto: int)
    requires
        upto <= a.len(),
        upto <= b.len(),
        forall|i: int| 0 <= i < upto ==> (#[trigger] a[i]).len() == b[i].len(),
    ensures
        lens_json(a, upto) == lens_json(b, upto),
    decreases upto,
{
    if upto > 0 {
        lemma_lens_json_eq(a, b, upto - 1);
    }
}

/// Redaction: the shared snapshot depends only on how many cards each
/// seat holds, never on which cards they are. Two games that differ
/// only in the seats' hidden hands (equal hand sizes, the same public
/// bonus pile) serialize identically, so broadcasting the shared
/// snapshot to every subscriber reveals no player's hand.
pub proof fn lemma_snapshot_redacts_hands(g1: GameV, g2: GameV)
    requires
        g1.players == g2.players,
        g1.turn == g2.turn,
        g1.bid == g2.bid,
        g1.mult == g2.mult,
        g1.landlord == g2.landlord,
        g1.last_idx == g2.last_idx,
        g1.last_play == g2.last_play,
        g1.passes == g2.passes,
        g1.winner == g2.winner,
        g1.played_mask == g2.played_mask,
        g1.cards.len() == g2.cards.len(),
        g1.cards.len() == g1.players + 1,
        forall|i: int| 0 <= i < g1.cards.len() ==> (#[trigger] g1.cards[i]).len()
            == g2.cards[i].len(),
        g1.cards[g1.players as int] == g2.cards[g2.players as int],
    ensures
        spec_game_json(g1) == spec_game_json(g2),
{
    lemma_lens_json_eq(g1.cards, g2.cards, g1.players as int);
}

} // verus!
