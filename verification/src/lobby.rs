//! The room coordinator: the player roster, the active game, the
//! append-only chat log with strictly increasing timestamps, and the
//! per-viewer state snapshots.
use crate::card::{
    all_below_54, beats, beats_msg, conservation, count_cards, sorted_vals, spec_classify,
    spec_hand_is_double, spec_join, spec_sort_key, sub_counts, Card, Hand, HandName,
};
use crate::game::{
    bumped_passes, game_inv, next_mask, spec_cards_json_for, spec_double, spec_game_json,
    spec_next_turn, spec_sat_mul, Game, GameV,
};
use crate::text::{i64_to_dec, spec_dec, spec_dec_int, spec_escaped, u64_to_dec};
use crate::AppError;
use vstd::prelude::*;
use vstd::string::StringExecFns;

verus! {

/// A message from a client over the real-time connection.
#[derive(Debug)]
pub enum ClientMsg {
    Chat(String),
    Start,
    Bid(usize),
    Play(Vec<usize>),
}

/// One chat entry: its text, the seat that wrote it (9 for system
/// messages) and its timestamp, strictly increasing along the log.
#[derive(Debug)]
pub struct Msg {
    pub text: String,
    pub idx: usize,
    pub time: u64,
}

/// A frame pushed to every subscriber: a chat entry or a serialized
/// state snapshot.
#[derive(Debug)]
pub enum ServerMsg {
    Chat(Msg),
    State(String),
}

/// The room lifecycle. It only moves forward, except that a finished
/// room restarts at `Bidding` on a fresh deal.
#[derive(Eq, PartialEq, Structural, Copy, Clone, Debug)]
pub enum Status {
    Lobby,
    Bidding,
    Playing,
    Finished,
}

struct Player {
    name: String,
    score: i64,
}

/// The mathematical value of a `Lobby`.
pub ghost struct LobbyV {
    pub status: Status,
    /// Session ids; the seat of a session is its position here.
    pub users: Seq<u128>,
    pub names: Seq<Seq<char>>,
    pub scores: Seq<int>,
    pub game: GameV,
    pub chat: Seq<Msg>,
}

/// The structural invariant of a room, chat-timestamp monotonicity
/// included.
pub open spec fn lobby_inv(l: LobbyV) -> bool {
    &&& l.users.len() == l.names.len()
    &&& l.names.len() == l.scores.len()
    &&& l.users.len() <= 4
    &&& (forall|i: int, j: int|
        #![trigger l.users[i], l.users[j]]
        0 <= i < j < l.users.len() ==> l.users[i] != l.users[j])
    &&& (forall|i: int, j: int|
        #![trigger l.chat[i], l.chat[j]]
        0 <= i < j < l.chat.len() ==> l.chat[i].time < l.chat[j].time)
    &&& (l.status != Status::Lobby ==> game_inv(l.game) && 3 <= l.game.players && l.game.players
        <= l.users.len())
    &&& (l.status == Status::Bidding ==> l.game.landlord == l.game.players && l.game.winner
        is None)
    &&& (l.status == Status::Playing ==> l.game.landlord != l.game.players && l.game.winner
        is None)
    &&& (l.status == Status::Finished ==> l.game.winner is Some && l.game.landlord
        != l.game.players)
}

/// Room for a handful more timestamps: every mutating room action needs
/// this much headroom below the end of the 64-bit millisecond range.
pub open spec fn time_cap(l: LobbyV, now: u64) -> bool {
    &&& (l.chat.len() == 0 || l.chat.last().time < u64::MAX - 8)
    &&& now < u64::MAX - 8
}

/// The timestamp the next chat entry gets: the wall clock, bumped just
/// past the last entry when the clock ties or runs behind.
pub open spec fn spec_msg_time(chat: Seq<Msg>, now: u64) -> u64 {
    if chat.len() > 0 && now <= chat.last().time {
        (chat.last().time + 1) as u64
    } else {
        now
    }
}

/// A room: roster, active game and chat log. One lock-guarded value per
/// room; the broadcast channel around it stays outside the engine.
pub struct Lobby {
    status: Status,
    users: Vec<u128>,
    players: Vec<Player>,
    game: Game,
    chat: Vec<Msg>,
}

impl View for Lobby {
    type V = LobbyV;

    closed spec fn view(&self) -> LobbyV {
        LobbyV {
            status: self.status,
            users: self.users@,
            names: self.players@.map_values(|p: Player| p.name@),
            scores: self.players@.map_values(|p: Player| p.score as int),
            game: self.game@,
            chat: self.chat@,
        }
    }
}

impl Lobby {
    pub open spec fn wf(self) -> bool {
        lobby_inv(self@)
    }

    /// A fresh, empty room.
    pub fn new() -> (l: Lobby)
        ensures
            l.wf(),
            l@.status == Status::Lobby,
            l@.users.len() == 0,
            l@.names.len() == 0,
            l@.scores.len() == 0,
            l@.chat.len() == 0,
    {
        Lobby {
            status: Status::Lobby,
            users: Vec::new(),
            players: Vec::new(),
            game: Game::default(),
            chat: Vec::new(),
        }
    }

    /// The seat of a session id, if it has joined this room.
    pub fn user_idx(&self, user: u128) -> (r: Option<usize>)
        ensures
            match r {
                Some(i) => i < self@.users.len() && self@.users[i as int] == user,
                None => forall|k: int| 0 <= k < self@.users.len() ==> self@.users[k] != user,
            },
    {
        let mut i: usize = 0;
        while i < self.users.len()
            invariant
                i <= self@.users.len(),
                forall|k: int| 0 <= k < i ==> self@.users[k] != user,
            decreases self@.users.len() - i,
        {
            if self.users[i] == user {
                return Some(i);
            }
            i += 1;
        }
        None
    }

    /// Append one chat entry, stamped with `now_ms` but always strictly
    /// after the previous entry, and return a copy for broadcasting.
    pub fn send_msg(&mut self, idx: usize, text: String, now_ms: u64) -> (m: Msg)
        requires
            old(self).wf(),
            old(self)@.chat.len() == 0 || old(self)@.chat.last().time < u64::MAX,
            now_ms < u64::MAX,
        ensures
            final(self).wf(),
            m.text == text,
            m.idx == idx,
            m.time == spec_msg_time(old(self)@.chat, now_ms),
            final(self)@.chat == old(self)@.chat.push(m),
            final(self)@ == (LobbyV { chat: final(self)@.chat, ..old(self)@ }),
    {
        let mut time = now_ms;
        if self.chat.len() > 0 {
            let last_t = self.chat[self.chat.len() - 1].time;
            if time <= last_t {
                time = last_t + 1;
            }
        }
        let stored = Msg { text: text.clone(), idx, time };
        self.chat.push(stored);
        Msg { text, idx, time }
    }

    /// Seat a new session in the room: refused when the session already
    /// holds a seat or all four seats are taken; otherwise the session
    /// gets the next seat, a zero score, and a system chat entry
    /// announces the join.
    pub fn join(&mut self, user: u128, username: String, now_ms: u64) -> (r: Result<
        (),
        AppError,
    >)
        requires
            old(self).wf(),
            time_cap(old(self)@, now_ms),
        ensures
            final(self).wf(),
            (exists|k: int|
                0 <= k < old(self)@.users.len() && old(self)@.users[k] == user) ==> (r matches Err(
            e) && e.0@ == "already joined the lobby"@ && final(self)@ == old(self)@),
            (forall|k: int| 0 <= k < old(self)@.users.len() ==> old(self)@.users[k] != user) && old(
                self,
            )@.users.len() >= 4 ==> (r matches Err(e) && e.0@ == "lobby is full"@ && final(self)@
                == old(self)@),
            (forall|k: int| 0 <= k < old(self)@.users.len() ==> old(self)@.users[k] != user) && old(
                self,
            )@.users.len() < 4 ==> ({
                let o = old(self)@;
                let n = final(self)@;
                &&& r is Ok
                &&& n.users == o.users.push(user)
                &&& n.names == o.names.push(username@)
                &&& n.scores == o.scores.push(0int)
                &&& n.status == o.status
                &&& n.game == o.game
                &&& n.chat.len() == o.chat.len() + 1
                &&& n.chat == o.chat.push(n.chat.last())
                &&& n.chat.last().idx == 9
                &&& n.chat.last().text@ == username@ + " joined the game."@
                &&& n.chat.last().time == spec_msg_time(o.chat, now_ms)
            }),
    {
        if self.user_idx(user).is_some() {
            return Err(AppError("already joined the lobby".to_owned()));
        }
        if self.players.len() >= 4 {
            return Err(AppError("lobby is full".to_owned()));
        }
        self.users.push(user);
        let mut text = username.clone();
        self.players.push(Player { name: username, score: 0 });
        proof {
            assert(self@.names =~= old(self)@.names.push(text@));
            assert(self@.scores =~= old(self)@.scores.push(0int));
        }
        text.append(" joined the game.");
        self.send_msg(9, text, now_ms);
        Ok(())
    }

    /// Start a fresh game: refused while one is being bid or played, and
    /// with fewer than three seated players. Deals a new game sized to
    /// the current roster, opens the bidding and announces whose turn it
    /// is.
    pub fn start(&mut self, now_ms: u64) -> (r: Result<(), AppError>)
        requires
            old(self).wf(),
            time_cap(old(self)@, now_ms),
        ensures
            final(self).wf(),
            old(self)@.status == Status::Bidding || old(self)@.status == Status::Playing ==> (
            r matches Err(e) && e.0@ == "game in progress"@ && final(self)@ == old(self)@),
            old(self)@.status == Status::Lobby && old(self)@.users.len() < 3 ==> (r matches Err(e)
                && e.0@ == "not enough players"@ && final(self)@ == old(self)@),
            (old(self)@.status == Status::Lobby && old(self)@.users.len() >= 3) || old(
                self,
            )@.status == Status::Finished ==> ({
                let o = old(self)@;
                let n = final(self)@;
                &&& r is Ok
                &&& n.status == Status::Bidding
                &&& n.users == o.users
                &&& n.names == o.names
                &&& n.scores == o.scores
                &&& n.game.players == o.users.len()
                &&& n.game.bid == 0
                &&& n.game.mult == 1
                &&& n.game.landlord == n.game.players
                &&& n.game.winner is None
                &&& n.game.turn < n.game.players
                &&& conservation(n.game.players as int, n.game.cards)
                &&& n.game.cards.len() == n.game.players + 1
                &&& (forall|i: int| 0 <= i < n.game.players ==> (#[trigger] n.game.cards[i]).len()
                    == (if n.game.players == 3 {
                    17int
                } else {
                    25int
                }))
                &&& n.chat.len() == o.chat.len() + 1
                &&& n.chat == o.chat.push(n.chat.last())
                &&& n.chat.last().idx == 9
                &&& n.chat.last().text@ == "Game started. "@ + o.names[n.game.turn as int]
                    + " begins the bidding."@
                &&& n.chat.last().time == spec_msg_time(o.chat, now_ms)
            }),
    {
        match self.status {
            Status::Lobby => {
                if self.players.len() < 3 {
                    return Err(AppError("not enough players".to_owned()));
                }
            },
            Status::Bidding | Status::Playing => {
                return Err(AppError("game in progress".to_owned()));
            },
            Status::Finished => {},
        }
        self.game = Game::new(self.players.len());
        self.status = Status::Bidding;
        let turn = self.game.turn();
        let mut text = "Game started. ".to_owned();
        let name = self.players[turn].name.clone();
        text.append(name.as_str());
        text.append(" begins the bidding.");
        self.send_msg(9, text, now_ms);
        Ok(())
    }
}

} // verus!

verus! {

impl Lobby {
    /// Forward a bid to the game. A redeal signal silently deals a fresh
    /// game and re-announces the bidding; the bid (or pass) is announced
    /// otherwise, and when it ends the bidding the room moves to the
    /// trick phase and the landlord and bonus cards are announced.
    pub fn bid(&mut self, idx: usize, val: usize, now_ms: u64) -> (r: Result<(), AppError>)
        requires
            old(self).wf(),
            time_cap(old(self)@, now_ms),
        ensures
            final(self).wf(),
            old(self)@.status == Status::Lobby ==> (r matches Err(e) && e.0@
                == "game not started"@ && final(self)@ == old(self)@),
            old(self)@.status != Status::Lobby && old(self)@.game.landlord != old(
                self,
            )@.game.players ==> (r matches Err(e) && e.0@ == "bidding is over"@ && final(self)@
                == old(self)@),
            old(self)@.status != Status::Lobby && old(self)@.game.landlord == old(
                self,
            )@.game.players && old(self)@.game.turn != idx ==> (r matches Err(e) && e.0@
                == "not your turn"@ && final(self)@ == old(self)@),
            old(self)@.status != Status::Lobby && old(self)@.game.landlord == old(
                self,
            )@.game.players && old(self)@.game.turn == idx && val != 0 && val <= old(
                self,
            )@.game.bid ==> (r matches Err(e) && e.0@ == "must bid higher than previous bid"@
                && final(self)@ == old(self)@),
            old(self)@.status != Status::Lobby && old(self)@.game.landlord == old(
                self,
            )@.game.players && old(self)@.game.turn == idx && (val == 0 || val > old(
                self,
            )@.game.bid) ==> ({
                let o = old(self)@;
                let n = final(self)@;
                let p: usize = if val == 0 {
                    bumped_passes(o.game.passes, o.game.players)
                } else {
                    0usize
                };
                let b: usize = if val == 0 {
                    o.game.bid
                } else {
                    val
                };
                let li: usize = if val == 0 {
                    o.game.last_idx
                } else {
                    idx
                };
                let bid_text = if val == 0 {
                    o.names[idx as int] + " passed."@
                } else {
                    o.names[idx as int] + " bid "@ + spec_dec(val as nat) + "."@
                };
                &&& r is Ok
                &&& n.users == o.users
                &&& n.names == o.names
                &&& n.scores == o.scores
                &&& if (p == o.game.players - 1 && b > 0) || b == 3 {
                    // the bidding ends: landlord assigned, bonus handed over
                    &&& n.status == Status::Playing
                    &&& n.game.players == o.game.players
                    &&& n.game.landlord == li
                    &&& n.game.turn == li
                    &&& n.game.bid == b
                    &&& n.game.passes == 0
                    &&& n.game.winner is None
                    &&& n.game.mult == o.game.mult
                    &&& n.game.cards.len() == o.game.cards.len()
                    &&& (forall|k: int| 0 <= k < n.game.cards.len() && k != li ==> n.game.cards[k]
                        == o.game.cards[k])
                    &&& (forall|c: Card| #[trigger] count_cards(n.game.cards[li as int], c)
                        == count_cards(o.game.cards[li as int], c) + count_cards(
                        o.game.cards[o.game.players as int],
                        c,
                    ))
                    &&& n.chat.len() == o.chat.len() + 2
                    &&& n.chat.take(o.chat.len() as int) == o.chat
                    &&& n.chat[o.chat.len() as int].idx == 9
                    &&& n.chat[o.chat.len() as int].text@ == bid_text
                    &&& n.chat[o.chat.len() as int + 1].idx == 9
                    &&& n.chat[o.chat.len() as int + 1].text@ == o.names[li as int]
                        + " is the landlord! Bonus cards: "@ + spec_join(
                        o.game.cards[o.game.players as int],
                    )
                } else if p == o.game.players {
                    // nobody ever bid: a fresh deal restarts the bidding
                    &&& n.status == o.status
                    &&& n.game.players == o.users.len()
                    &&& n.game.bid == 0
                    &&& n.game.mult == 1
                    &&& n.game.landlord == n.game.players
                    &&& n.game.winner is None
                    &&& n.game.turn < n.game.players
                    &&& conservation(n.game.players as int, n.game.cards)
                    &&& n.game.cards.len() == n.game.players + 1
                    &&& (forall|i: int| 0 <= i < n.game.players ==> (
                    #[trigger] n.game.cards[i]).len() == (if n.game.players == 3 {
                        17int
                    } else {
                        25int
                    }))
                    &&& n.chat.len() == o.chat.len() + 1
                    &&& n.chat.take(o.chat.len() as int) == o.chat
                    &&& n.chat[o.chat.len() as int].idx == 9
                    &&& n.chat[o.chat.len() as int].text@ == "No one bid. Redealing cards. "@
                        + o.names[n.game.turn as int] + " begins the bidding."@
                } else {
                    &&& n.status == o.status
                    &&& n.game == (GameV {
                        passes: p,
                        bid: b,
                        last_idx: li,
                        turn: spec_next_turn(idx, o.game.players),
                        ..o.game
                    })
                    &&& n.chat.len() == o.chat.len() + 1
                    &&& n.chat.take(o.chat.len() as int) == o.chat
                    &&& n.chat[o.chat.len() as int].idx == 9
                    &&& n.chat[o.chat.len() as int].text@ == bid_text
                }
            }),
    {
        if matches!(self.status, Status::Lobby) {
            return Err(AppError("game not started".to_owned()));
        }
        let redeal = match self.game.bid(idx, val) {
            Err(e) => {
                return Err(AppError(e));
            },
            Ok(b) => b,
        };
        if redeal {
            self.game = Game::new(self.players.len());
            let turn = self.game.turn();
            let mut text = "No one bid. Redealing cards. ".to_owned();
            let name = self.players[turn].name.clone();
            text.append(name.as_str());
            text.append(" begins the bidding.");
            self.send_msg(9, text, now_ms);
            proof {
                assert(self@.chat.take(old(self)@.chat.len() as int) =~= old(self)@.chat);
            }
        } else {
            let ended = self.game.playing();
            if ended {
                self.status = Status::Playing;
                proof {
                    assert(old(self)@.game.landlord == old(self)@.game.players);
                }
            }
            let mut text = self.players[idx].name.clone();
            if val == 0 {
                text.append(" passed.");
            } else {
                text.append(" bid ");
                let d = u64_to_dec(val as u64);
                text.append(d.as_str());
                text.append(".");
            }
            self.send_msg(9, text, now_ms);
            if ended {
                let lord = self.game.landlord();
                let mut t2 = self.players[lord].name.clone();
                t2.append(" is the landlord! Bonus cards: ");
                let bonus = self.game.landlord_bonus();
                t2.append(bonus.as_str());
                self.send_msg(9, t2, now_ms);
            }
            proof {
                assert(self@.chat.take(old(self)@.chat.len() as int) =~= old(self)@.chat);
            }
        }
        Ok(())
    }
}

} // verus!

verus! {

/// Clamping an unbounded value into the 64-bit signed range.
pub open spec fn clamp_i64(x: int) -> int {
    if x > i64::MAX {
        i64::MAX as int
    } else if x < i64::MIN {
        i64::MIN as int
    } else {
        x
    }
}

/// The stake one seat pays after a finished game: the game's saturated
/// `mult * bid`, doubled once more on a domination (a phase bit missing
/// from `played_mask`), clamped to the signed 64-bit range.
pub open spec fn spec_stake(sd: usize, mask: usize) -> int {
    let d0 = clamp_i64(sd as int);
    if mask < 6 {
        clamp_i64(2 * d0)
    } else {
        d0
    }
}

/// The scores after settlement: every seat pays `delta` and the landlord
/// additionally receives `ldelta`, each step clamped to the signed
/// 64-bit range.
pub open spec fn spec_settled(scores: Seq<int>, delta: int, ldelta: int, landlord: int) -> Seq<
    int,
> {
    let reduced = Seq::new(scores.len(), |k: int| clamp_i64(scores[k] - delta));
    reduced.update(landlord, clamp_i64(reduced[landlord] + ldelta))
}

fn sat_add_i64(a: i64, b: i64) -> (r: i64)
    ensures
        r as int == clamp_i64(a as int + b as int),
{
    match a.checked_add(b) {
        Some(v) => v,
        None => if b > 0 {
            i64::MAX
        } else {
            i64::MIN
        },
    }
}

fn sat_sub_i64(a: i64, b: i64) -> (r: i64)
    ensures
        r as int == clamp_i64(a as int - b as int),
{
    match a.checked_sub(b) {
        Some(v) => v,
        None => if b < 0 {
            i64::MAX
        } else {
            i64::MIN
        },
    }
}

fn sat_mul_i64(a: i64, b: i64) -> (r: i64)
    ensures
        r as int == clamp_i64(a as int * b as int),
{
    match a.checked_mul(b) {
        Some(v) => v,
        None => {
            proof {
                assert(a != 0 && b != 0);
            }
            if (a < 0) != (b < 0) {
                proof {
                    assert((a as int) * (b as int) < 0) by (nonlinear_arith)
                        requires
                            a != 0,
                            b != 0,
                            (a < 0) != (b < 0);
                }
                i64::MIN
            } else {
                proof {
                    assert((a as int) * (b as int) > 0) by (nonlinear_arith)
                        requires
                            a != 0,
                            b != 0,
                            (a < 0) == (b < 0);
                }
                i64::MAX
            }
        },
    }
}

} // verus!

verus! {

impl Lobby {
    /// Classify and play a hand (an empty list passes) for seat `idx`.
    ///
    /// Classification, turn, containment and strength failures come back
    /// as errors and change nothing. An accepted play is announced; when
    /// it empties the seat's hand the room is finished: the winner is
    /// announced, a domination doubles the stake once more, every seat
    /// pays the stake and the landlord receives the pot, all clamped to
    /// the 64-bit score range.
    #[verifier::rlimit(100)]
    pub fn play(&mut self, idx: usize, cards: Vec<usize>, now_ms: u64) -> (r: Result<
        (),
        AppError,
    >)
        requires
            old(self).wf(),
            time_cap(old(self)@, now_ms),
        ensures
            final(self).wf(),
            old(self)@.status == Status::Lobby ==> (r matches Err(e) && e.0@ == "still bidding"@
                && final(self)@ == old(self)@),
            old(self)@.status != Status::Lobby && cards@.len() > 0 && !all_below_54(cards@) ==> (
            r matches Err(e) && e.0@ == "invalid cards"@ && final(self)@ == old(self)@),
            old(self)@.status != Status::Lobby && cards@.len() > 0 && all_below_54(cards@)
                && !sorted_vals(cards@) ==> (r matches Err(e) && e.0@ == "unsorted cards"@ && final(
            self)@ == old(self)@),
            old(self)@.status != Status::Lobby && cards@.len() > 0 && all_below_54(cards@)
                && sorted_vals(cards@) && spec_classify(old(self)@.names.len() as int, cards@)
                is None ==> (r matches Err(e) && e.0@ == "cards cannot from a hand"@ && final(
            self)@ == old(self)@),
            old(self)@.status != Status::Lobby && (cards@.len() == 0 || (all_below_54(cards@)
                && sorted_vals(cards@) && spec_classify(old(self)@.names.len() as int, cards@)
                is Some)) ==> ({
                let o = old(self)@;
                let n = final(self)@;
                let s = cards@;
                let hn = if s.len() == 0 {
                    HandName::Pass
                } else {
                    (spec_classify(o.names.len() as int, s)->Some_0).0
                };
                let hm = if s.len() == 0 {
                    1int
                } else {
                    (spec_classify(o.names.len() as int, s)->Some_0).1
                };
                let hand_cards = s.map_values(|v: usize| Card(v));
                if o.game.landlord == o.game.players {
                    r matches Err(e) && e.0@ == "still bidding"@ && n == o
                } else if o.game.winner is Some {
                    r matches Err(e) && e.0@ == "game finished"@ && n == o
                } else if o.game.turn != idx {
                    r matches Err(e) && e.0@ == "not your turn"@ && n == o
                } else if !sub_counts(hand_cards, o.game.cards[idx as int]) {
                    r matches Err(e) && e.0@ == "cards not in hand"@ && n == o
                } else if hn == HandName::Pass {
                    if o.game.last_play.kind.name == HandName::Pass || o.game.passes
                        == o.game.players - 1 {
                        r matches Err(e) && e.0@ == "cannot pass"@ && n == o
                    } else {
                        let p: usize = (o.game.passes + 1) as usize;
                        &&& r is Ok
                        &&& n.status == o.status
                        &&& n.users == o.users
                        &&& n.names == o.names
                        &&& n.scores == o.scores
                        &&& n.game.cards == o.game.cards
                        &&& n.game.players == o.game.players
                        &&& n.game.bid == o.game.bid
                        &&& n.game.mult == o.game.mult
                        &&& n.game.landlord == o.game.landlord
                        &&& n.game.winner == o.game.winner
                        &&& n.game.turn == spec_next_turn(idx, o.game.players)
                        &&& (p == o.game.players - 1 ==> n.game.passes == 0
                            && n.game.last_play.kind.name == HandName::Pass)
                        &&& (p != o.game.players - 1 ==> n.game.passes == p && n.game.last_play
                            == o.game.last_play)
                        &&& n.chat.len() == o.chat.len() + 1
                        &&& n.chat.take(o.chat.len() as int) == o.chat
                        &&& n.chat.last().idx == 9
                        &&& n.chat.last().text@ == o.names[idx as int] + " passed."@
                    }
                } else if !beats(hn, hm as usize, spec_sort_key(s), o.game.last_play) {
                    r matches Err(e) && e.0@ == beats_msg(hn, hm as usize, o.game.last_play) && n
                        == o
                } else {
                    let g = n.game;
                    let played_text = o.names[idx as int] + " played "@ + spec_join(hand_cards)
                        + "."@;
                    &&& r is Ok
                    &&& n.users == o.users
                    &&& n.names == o.names
                    &&& g.players == o.game.players
                    &&& g.bid == o.game.bid
                    &&& g.landlord == o.game.landlord
                    &&& g.turn == spec_next_turn(idx, o.game.players)
                    &&& g.passes == 0
                    &&& g.last_idx == idx
                    &&& g.last_play.kind.name == hn
                    &&& g.last_play.kind.mult as int == hm
                    &&& g.last_play.cards@ == hand_cards
                    &&& g.cards.len() == o.game.cards.len()
                    &&& (forall|k: int| 0 <= k < g.cards.len() && k != idx ==> g.cards[k]
                        == o.game.cards[k])
                    &&& g.cards[idx as int].len() + s.len() == o.game.cards[idx as int].len()
                    &&& (forall|c: Card| #[trigger] count_cards(g.cards[idx as int], c)
                        + count_cards(hand_cards, c) == count_cards(
                        o.game.cards[idx as int],
                        c,
                    ))
                    &&& g.mult == (if spec_hand_is_double(hn, hm, o.game.players) {
                        spec_double(o.game.mult)
                    } else {
                        o.game.mult
                    })
                    &&& g.played_mask == next_mask(o.game.played_mask, idx, o.game.landlord)
                    &&& g.winner == (if g.cards[idx as int].len() == 0 {
                        Some(idx)
                    } else {
                        Option::<usize>::None
                    })
                    &&& if g.cards[idx as int].len() != 0 {
                        // the game goes on
                        &&& n.status == o.status
                        &&& n.scores == o.scores
                        &&& n.chat.len() == o.chat.len() + 1
                        &&& n.chat.take(o.chat.len() as int) == o.chat
                        &&& n.chat.last().idx == 9
                        &&& n.chat.last().text@ == played_text
                    } else {
                        // the game is over: settle the scores
                        let stake = spec_stake(spec_sat_mul(g.mult, g.bid), g.played_mask);
                        let pot = clamp_i64(stake * o.names.len() as int);
                        let won = idx == g.landlord;
                        let delta = if won {
                            stake
                        } else {
                            -stake
                        };
                        let ldelta = if won {
                            pot
                        } else {
                            -pot
                        };
                        &&& n.status == Status::Finished
                        &&& n.scores == spec_settled(o.scores, delta, ldelta, g.landlord as int)
                        &&& n.chat.len() == o.chat.len() + (if g.played_mask < 6 {
                            4int
                        } else {
                            3int
                        })
                        &&& n.chat.take(o.chat.len() as int) == o.chat
                        &&& (forall|m: int| o.chat.len() <= m < n.chat.len() ==> (
                        #[trigger] n.chat[m]).idx == 9)
                        &&& n.chat[o.chat.len() as int].text@ == played_text
                        &&& n.chat[o.chat.len() as int + 1].text@ == o.names[idx as int]
                            + " played all their cards!"@
                        &&& (g.played_mask < 6 ==> n.chat[o.chat.len() as int + 2].text@ == (if
                            g.played_mask & 4 != 0 {
                            "LANDLORD"@
                        } else {
                            "PEASANT"@
                        }) + " DOMINATION! Score doubles."@)
                        &&& n.chat.last().text@ == (if won {
                            "The landlord wins +"@ + spec_dec_int(pot) + ". Peasants lose -"@
                                + spec_dec_int(stake) + "."@
                        } else {
                            "Peasants win +"@ + spec_dec_int(stake) + ". The landlord loses -"@
                                + spec_dec_int(pot) + "."@
                        })
                    }
                }
            }),
    {
        if matches!(self.status, Status::Lobby) {
            return Err(AppError("still bidding".to_owned()));
        }
        let hand = match Hand::new(self.players.len(), cards) {
            Err(e) => {
                return Err(AppError(e));
            },
            Ok(h) => h,
        };
        let was_pass = hand.is_pass();
        let joined = if was_pass {
            None
        } else {
            Some(crate::card::join(hand.cards()))
        };
        let ghost hand_ghost = hand;
        proof {
            assert(hand_ghost.cards@ =~= cards@.map_values(|v: usize| Card(v)));
        }
        match self.game.play(idx, hand) {
            Err(e) => {
                return Err(AppError(e));
            },
            Ok(()) => {},
        }
        let winner_opt = self.game.winner();
        if winner_opt.is_some() {
            self.status = Status::Finished;
        }
        let mut text = self.players[idx].name.clone();
        if was_pass {
            text.append(" passed.");
        } else {
            text.append(" played ");
            if let Some(j) = &joined {
                text.append(j.as_str());
            }
            text.append(".");
        }
        self.send_msg(9, text, now_ms);
        proof {
            assert(self@.chat.take(old(self)@.chat.len() as int) =~= old(self)@.chat);
        }
        if let Some(winner) = winner_opt {
            let mut t = self.players[winner].name.clone();
            t.append(" played all their cards!");
            self.send_msg(9, t, now_ms);

            let landlord = self.game.landlord();
            let mask = self.game.played_mask();
            let sd = self.game.score_delta();
            let sd64 = sd as u64;
            let mut delta: i64 = if sd64 > i64::MAX as u64 {
                i64::MAX
            } else {
                sd64 as i64
            };
            if mask < 6 {
                delta = sat_mul_i64(delta, 2);
                let mut t = if mask & 4 != 0 {
                    "LANDLORD".to_owned()
                } else {
                    "PEASANT".to_owned()
                };
                t.append(" DOMINATION! Score doubles.");
                self.send_msg(9, t, now_ms);
            }
            proof {
                assert(delta as int == spec_stake(sd, mask));
            }
            let mut landlord_delta: i64 = sat_mul_i64(delta, self.players.len() as i64);
            proof {
                assert(landlord_delta as int == clamp_i64(spec_stake(sd, mask) * old(
                    self,
                )@.names.len() as int));
            }
            let msg: String;
            if winner == landlord {
                let mut m = "The landlord wins +".to_owned();
                let d = i64_to_dec(landlord_delta);
                m.append(d.as_str());
                m.append(". Peasants lose -");
                let d = i64_to_dec(delta);
                m.append(d.as_str());
                m.append(".");
                msg = m;
            } else {
                let mut m = "Peasants win +".to_owned();
                let d = i64_to_dec(delta);
                m.append(d.as_str());
                m.append(". The landlord loses -");
                let d = i64_to_dec(landlord_delta);
                m.append(d.as_str());
                m.append(".");
                msg = m;
                delta = -delta;
                landlord_delta = -landlord_delta;
            }
            proof {
                let g = self.game@;
                let stake = spec_stake(spec_sat_mul(g.mult, g.bid), g.played_mask);
                let pot = clamp_i64(stake * old(self)@.names.len() as int);
                assert(delta as int == (if winner == landlord { stake } else { -stake }));
                assert(landlord_delta as int == (if winner == landlord { pot } else { -pot }));
                assert(msg@ =~= (if winner == landlord {
                    "The landlord wins +"@ + spec_dec_int(pot) + ". Peasants lose -"@
                        + spec_dec_int(stake) + "."@
                } else {
                    "Peasants win +"@ + spec_dec_int(stake) + ". The landlord loses -"@
                        + spec_dec_int(pot) + "."@
                }));
            }
            self.send_msg(9, msg, now_ms);
            proof {
                assert(self@.chat.take(old(self)@.chat.len() as int) =~= old(self)@.chat);
            }

            let ghost mid = self@;
            let mut k: usize = 0;
            while k < self.players.len()
                invariant
                    k <= self@.scores.len(),
                    self@.scores.len() == mid.scores.len(),
                    self@ == (LobbyV { scores: self@.scores, ..mid }),
                    forall|m: int| 0 <= m < k ==> self@.scores[m] == clamp_i64(
                        mid.scores[m] - delta as int,
                    ),
                    forall|m: int| k <= m < mid.scores.len() ==> self@.scores[m] == mid.scores[m],
                decreases self@.scores.len() - k,
            {
                let ghost before = self@;
                let old_score = self.players[k].score;
                let nm = self.players[k].name.clone();
                let v = sat_sub_i64(old_score, delta);
                self.players[k] = Player { name: nm, score: v };
                proof {
                    assert(self@.names =~= before.names);
                    assert(self@.scores =~= before.scores.update(k as int, v as int));
                    assert(self@.users == before.users);
                }
                k += 1;
            }
            let old_score = self.players[landlord].score;
            let nm = self.players[landlord].name.clone();
            let v2 = sat_add_i64(old_score, landlord_delta);
            let ghost before = self@;
            self.players[landlord] = Player { name: nm, score: v2 };
            proof {
                assert(self@.names =~= before.names);
                assert(self@.scores =~= before.scores.update(landlord as int, v2 as int));
                assert(self@.users == before.users);
                let red = Seq::new(mid.scores.len(), |k: int| clamp_i64(mid.scores[k] - delta as int));
                assert(before.scores =~= red);
                assert(self@.scores =~= spec_settled(
                    mid.scores,
                    delta as int,
                    landlord_delta as int,
                    landlord as int,
                ));
            }
        }
        Ok(())
    }
}

} // verus!

verus! {

/// How many chat entries come strictly before time `t` in a log with
/// strictly increasing timestamps.
pub open spec fn spec_cut(chat: Seq<Msg>, t: u64) -> int
    decreases chat.len(),
{
    if chat.len() == 0 {
        0
    } else if chat.last().time < t {
        chat.len() as int
    } else {
        spec_cut(chat.drop_last(), t)
    }
}

pub proof fn lemma_cut_bounds(chat: Seq<Msg>, t: u64)
    requires
        forall|i: int, j: int|
            #![trigger chat[i], chat[j]]
            0 <= i < j < chat.len() ==> chat[i].time < chat[j].time,
    ensures
        0 <= spec_cut(chat, t) <= chat.len(),
        forall|k: int| 0 <= k < spec_cut(chat, t) ==> (#[trigger] chat[k]).time < t,
        forall|k: int| spec_cut(chat, t) <= k < chat.len() ==> (#[trigger] chat[k]).time >= t,
    decreases chat.len(),
{
    if chat.len() > 0 && !(chat.last().time < t) {
        lemma_cut_bounds(chat.drop_last(), t);
        assert forall|k: int| spec_cut(chat, t) <= k < chat.len() implies (#[trigger] chat[k]).time
            >= t by {
            if k < chat.len() - 1 {
                assert(chat.drop_last()[k] == chat[k]);
            }
        }
        assert forall|k: int| 0 <= k < spec_cut(chat, t) implies (#[trigger] chat[k]).time < t by {
            assert(chat.drop_last()[k] == chat[k]);
        }
    }
}

impl Lobby {
    /// The number of chat entries in the log.
    pub fn chat_len(&self) -> (r: usize)
        ensures
            r == self@.chat.len(),
    {
        self.chat.len()
    }

    /// Up to `limit` chat entries strictly before the cutoff (the log's
    /// end when no cutoff time is given), oldest first.
    pub fn chat_before(&self, time: Option<u64>, limit: usize) -> (r: Vec<Msg>)
        requires
            self.wf(),
        ensures
            ({
                let pos = match time {
                    Some(t) => spec_cut(self@.chat, t),
                    None => self@.chat.len() as int,
                };
                let start = if pos >= limit {
                    pos - limit
                } else {
                    0int
                };
                r@ == self@.chat.subrange(start, pos)
            }),
    {
        let pos: usize = match time {
            Some(t) => {
                proof {
                    lemma_cut_bounds(self@.chat, t);
                }
                let mut lo: usize = 0;
                let mut hi: usize = self.chat.len();
                while lo < hi
                    invariant
                        lo <= hi,
                        hi <= self@.chat.len(),
                        forall|k: int| 0 <= k < lo ==> (#[trigger] self@.chat[k]).time < t,
                        forall|k: int| hi <= k < self@.chat.len() ==> (
                        #[trigger] self@.chat[k]).time >= t,
                    decreases hi - lo,
                {
                    let mid = lo + (hi - lo) / 2;
                    if self.chat[mid].time < t {
                        lo = mid + 1;
                    } else {
                        hi = mid;
                    }
                }
                proof {
                    if lo < spec_cut(self@.chat, t) {
                        assert(self@.chat[lo as int].time < t);
                    }
                    if spec_cut(self@.chat, t) < lo {
                        assert(self@.chat[spec_cut(self@.chat, t)].time >= t);
                    }
                }
                lo
            },
            None => self.chat.len(),
        };
        let start: usize = if pos >= limit {
            pos - limit
        } else {
            0
        };
        let mut out: Vec<Msg> = Vec::new();
        let mut k: usize = start;
        proof {
            assert(self@.chat.subrange(start as int, start as int) =~= Seq::<Msg>::empty());
        }
        while k < pos
            invariant
                start <= k,
                k <= pos,
                pos <= self@.chat.len(),
                out@ == self@.chat.subrange(start as int, k as int),
            decreases pos - k,
        {
            let m = Msg {
                text: self.chat[k].text.clone(),
                idx: self.chat[k].idx,
                time: self.chat[k].time,
            };
            proof {
                assert(m == self@.chat[k as int]);
                assert(self@.chat.subrange(start as int, k as int + 1) =~= self@.chat.subrange(
                    start as int,
                    k as int,
                ).push(self@.chat[k as int]));
            }
            out.push(m);
            k += 1;
        }
        out
    }
}

/// The JSON label of a room status.
pub open spec fn status_label(s: Status) -> Seq<char> {
    match s {
        Status::Lobby => "Lobby"@,
        Status::Bidding => "Bidding"@,
        Status::Playing => "Playing"@,
        Status::Finished => "Finished"@,
    }
}

/// The players array of the snapshot: each seat's escaped name and its
/// score.
pub open spec fn players_json(names: Seq<Seq<char>>, scores: Seq<int>, upto: int) -> Seq<char>
    decreases upto,
{
    if upto <= 0 {
        Seq::empty()
    } else {
        let one = "{\"name\":\""@ + spec_escaped(names[upto - 1]) + "\",\"score\":"@
            + spec_dec_int(scores[upto - 1]) + "}"@;
        if upto == 1 {
            one
        } else {
            players_json(names, scores, upto - 1) + ","@ + one
        }
    }
}

/// The canonical JSON snapshot of a room: its status and players, and
/// the game once the room has left the `Lobby` status.
pub open spec fn spec_lobby_json(l: LobbyV) -> Seq<char> {
    "{\"status\":\""@ + status_label(l.status) + "\",\"players\":["@ + players_json(
        l.names,
        l.scores,
        l.names.len() as int,
    ) + "]"@ + (if l.status != Status::Lobby {
        ",\"game\":"@ + spec_game_json(l.game)
    } else {
        Seq::<char>::empty()
    }) + "}"@
}

/// The per-viewer JSON snapshot: the shared snapshot plus the viewer's
/// seat and, once a game exists, the viewer's own cards.
pub open spec fn spec_lobby_idx_json(l: LobbyV, idx: usize) -> Seq<char> {
    "{\"status\":\""@ + status_label(l.status) + "\",\"players\":["@ + players_json(
        l.names,
        l.scores,
        l.names.len() as int,
    ) + "]"@ + (if l.status != Status::Lobby {
        ",\"game\":"@ + spec_game_json(l.game)
    } else {
        Seq::<char>::empty()
    }) + ",\"idx\":"@ + spec_dec(idx as nat) + (if l.status != Status::Lobby {
        ",\"hand\":"@ + spec_cards_json_for(l.game, idx)
    } else {
        Seq::<char>::empty()
    }) + "}"@
}

impl Lobby {
    #[verifier::rlimit(50)]
    fn serialize_prefix(&self) -> (r: String)
        requires
            self.wf(),
        ensures
            r@ == "{\"status\":\""@ + status_label(self@.status) + "\",\"players\":["@
                + players_json(self@.names, self@.scores, self@.names.len() as int) + "]"@ + (if
            self@.status != Status::Lobby {
                ",\"game\":"@ + spec_game_json(self@.game)
            } else {
                Seq::<char>::empty()
            }),
    {
        let mut out = "{\"status\":\"".to_owned();
        match self.status {
            Status::Lobby => out.append("Lobby"),
            Status::Bidding => out.append("Bidding"),
            Status::Playing => out.append("Playing"),
            Status::Finished => out.append("Finished"),
        }
        out.append("\",\"players\":[");
        let ghost pre = out@;
        let mut i: usize = 0;
        while i < self.players.len()
            invariant
                i <= self@.names.len(),
                self.wf(),
                self@.names.len() == self.players@.len(),
                out@ == pre + players_json(self@.names, self@.scores, i as int),
            decreases self.players@.len() - i,
        {
            if i > 0 {
                out.append(",");
            }
            out.append("{\"name\":\"");
            let esc = crate::text::escape_json(self.players[i].name.as_str());
            out.append(esc.as_str());
            out.append("\",\"score\":");
            let d = i64_to_dec(self.players[i].score);
            out.append(d.as_str());
            out.append("}");
            proof {
                assert(out@ =~= pre + players_json(self@.names, self@.scores, i as int + 1));
            }
            i += 1;
        }
        out.append("]");
        if !matches!(self.status, Status::Lobby) {
            out.append(",\"game\":");
            let g = self.game.serialize();
            out.append(g.as_str());
        }
        out
    }

    /// The canonical JSON snapshot shared by every subscriber
    /// (`spec_lobby_json`).
    pub fn serialize(&self) -> (r: String)
        requires
            self.wf(),
        ensures
            r@ == spec_lobby_json(self@),
    {
        let mut out = self.serialize_prefix();
        out.append("}");
        proof {
            assert(out@ =~= spec_lobby_json(self@));
        }
        out
    }

    /// The snapshot a specific seated viewer receives: the shared
    /// snapshot plus their seat index and their own cards
    /// (`spec_lobby_idx_json`). A player only ever sees their own hand.
    pub fn serialize_idx(&self, idx: usize) -> (r: String)
        requires
            self.wf(),
            idx < self@.users.len(),
        ensures
            r@ == spec_lobby_idx_json(self@, idx),
    {
        let mut out = self.serialize_prefix();
        out.append(",\"idx\":");
        let d = u64_to_dec(idx as u64);
        out.append(d.as_str());
        if !matches!(self.status, Status::Lobby) {
            out.append(",\"hand\":");
            let h = self.game.serialize_cards(idx);
            out.append(h.as_str());
        }
        out.append("}");
        proof {
            assert(out@ =~= spec_lobby_idx_json(self@, idx));
        }
        out
    }
}

} // verus!

verus! {

/// The sum of a sequence of scores.
pub open spec fn sum_int(s: Seq<int>) -> int
    decreases s.len(),
{
    if s.len() == 0 {
        0
    } else {
        sum_int(s.drop_last()) + s.last()
    }
}

proof fn lemma_sum_update(s: Seq<int>, i: int, v: int)
    requires
        0 <= i < s.len(),
    ensures
        sum_int(s.update(i, v)) == sum_int(s) - s[i] + v,
    decreases s.len(),
{
    if i == s.len() - 1 {
        assert(s.update(i, v).drop_last() =~= s.drop_last());
        assert(s.update(i, v).last() == v);
    } else {
        assert(s.update(i, v).drop_last() =~= s.drop_last().update(i, v));
        lemma_sum_update(s.drop_last(), i, v);
        assert(s.update(i, v).last() == s.last());
    }
}

proof fn lemma_sum_shift(s: Seq<int>, reduced: Seq<int>, delta: int)
    requires
        reduced.len() == s.len(),
        forall|k: int| 0 <= k < s.len() ==> reduced[k] == #[trigger] s[k] - delta,
    ensures
        sum_int(reduced) == sum_int(s) - s.len() * delta,
    decreases s.len(),
{
    if s.len() == 0 {
    } else {
        assert(reduced.drop_last().len() == s.drop_last().len());
        assert forall|k: int| 0 <= k < s.drop_last().len() implies reduced.drop_last()[k]
            == #[trigger] s.drop_last()[k] - delta by {
            assert(reduced.drop_last()[k] == reduced[k]);
            assert(s.drop_last()[k] == s[k]);
        }
        lemma_sum_shift(s.drop_last(), reduced.drop_last(), delta);
        assert(s.len() as int * delta == (s.len() - 1) as int * delta + delta)
            by (nonlinear_arith);
    }
}

/// Zero-sum settlement: after a finished game, as long as no seat's
/// score clamps at the 64-bit range, the score deltas cancel out
/// exactly: the pot the landlord receives equals what all seats pay
/// together, so the sum of all scores is unchanged.
pub proof fn lemma_settlement_zero_sum(scores: Seq<int>, delta: int, landlord: int)
    requires
        0 <= landlord < scores.len(),
        forall|k: int| 0 <= k < scores.len() ==> i64::MIN <= #[trigger] scores[k] - delta
            <= i64::MAX,
        i64::MIN <= scores[landlord] - delta + delta * scores.len() <= i64::MAX,
    ensures
        sum_int(spec_settled(scores, delta, delta * scores.len() as int, landlord)) == sum_int(
            scores,
        ),
{
    let reduced = Seq::new(scores.len(), |k: int| clamp_i64(scores[k] - delta));
    assert(forall|k: int| 0 <= k < scores.len() ==> reduced[k] == #[trigger] scores[k] - delta);
    lemma_sum_shift(scores, reduced, delta);
    let pot = delta * scores.len() as int;
    let settled = spec_settled(scores, delta, pot, landlord);
    assert(clamp_i64(reduced[landlord] + pot) == scores[landlord] - delta + pot);
    lemma_sum_update(reduced, landlord, scores[landlord] - delta + pot);
    assert(settled =~= reduced.update(landlord, scores[landlord] - delta + pot));
    assert(scores.len() as int * delta == delta * scores.len() as int) by (nonlinear_arith);
    assert(sum_int(settled) == sum_int(scores) - scores.len() * delta - (scores[landlord] - delta)
        + (scores[landlord] - delta + pot));
}

} // verus!
