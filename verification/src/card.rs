//! Card values, hand classification and hand comparison.
//!
//! A card is an integer in `[0, 54)`: values `0..52` encode `rank * 4 + suit`
//! (so rank `12` is the "2"), `52` is the small joker (rank `13`) and `53`
//! the big joker (rank `14`). A `Hand` is a validated combination of cards
//! together with its classified kind and a strength key.
use rand::seq::SliceRandom;
use vstd::prelude::*;
use vstd::string::StringExecFns;

verus! {

/// Rank of a card value: `value / 4`, except the big joker which has its
/// own rank `14`.
pub open spec fn spec_rank(c: int) -> int {
    if c == 53 {
        14
    } else {
        c / 4
    }
}

/// How many cards of `s` have rank `r`.
pub open spec fn rank_count(s: Seq<usize>, r: int) -> nat
    decreases s.len(),
{
    if s.len() == 0 {
        0
    } else {
        rank_count(s.drop_last(), r) + (if spec_rank(s.last() as int) == r {
            1nat
        } else {
            0nat
        })
    }
}

/// The ranks below `below` that occur exactly `m` times in `s`, ascending.
pub open spec fn ranks_asc(s: Seq<usize>, m: nat, below: int) -> Seq<usize>
    decreases below,
{
    if below <= 0 {
        Seq::empty()
    } else {
        ranks_asc(s, m, below - 1) + (if rank_count(s, below - 1) == m {
            seq![(below - 1) as usize]
        } else {
            Seq::empty()
        })
    }
}

/// The multiplicity bucket of the hand: all ranks occurring exactly `m`
/// times, ascending. Rank values are always below 15.
pub open spec fn bucket(s: Seq<usize>, m: nat) -> Seq<usize> {
    ranks_asc(s, m, 15)
}

/// How many ranks below `below` occur four or more times in `s`.
pub open spec fn big_count(s: Seq<usize>, below: int) -> nat
    decreases below,
{
    if below <= 0 {
        0
    } else {
        big_count(s, below - 1) + (if rank_count(s, below - 1) >= 4 {
            1nat
        } else {
            0nat
        })
    }
}

/// All card values of `s` are legal card values.
pub open spec fn all_below_54(s: Seq<usize>) -> bool {
    forall|i: int| 0 <= i < s.len() ==> s[i] < 54
}

/// `s` is sorted ascending (duplicates allowed).
pub open spec fn sorted_vals(s: Seq<usize>) -> bool {
    forall|i: int, j: int| 0 <= i < j < s.len() ==> s[i] <= s[j]
}

/// A bucket forms a valid chain of minimum length `sz`: either a single
/// group, or consecutive ranks that stop below rank 12 (chains may never
/// include the "2" or the jokers).
pub open spec fn spec_chain(v: Seq<usize>, sz: int) -> bool {
    ||| v.len() == 1
    ||| (v.len() >= sz && v.last() < 12 && (forall|i: int|
        0 <= i < v.len() - 1 ==> #[trigger] v[i] + 1 == v[i + 1]))
}

/// The strength key of a hand: all ranks present, listed by multiplicity
/// descending and, within one multiplicity, by rank descending.
pub open spec fn ranks_desc(s: Seq<usize>, m: nat, below: int) -> Seq<usize>
    decreases below,
{
    if below <= 0 {
        Seq::empty()
    } else {
        (if rank_count(s, below - 1) == m {
            seq![(below - 1) as usize]
        } else {
            Seq::empty()
        }) + ranks_desc(s, m, below - 1)
    }
}

/// The strength key entries for multiplicities `m, m - 1, ..., 1`.
pub open spec fn sort_key_from(s: Seq<usize>, m: nat) -> Seq<usize>
    decreases m,
{
    if m == 0 {
        Seq::empty()
    } else {
        ranks_desc(s, m, 15) + sort_key_from(s, (m - 1) as nat)
    }
}

/// The full strength key of the card values `s`.
pub open spec fn spec_sort_key(s: Seq<usize>) -> Seq<usize> {
    sort_key_from(s, s.len())
}

/// The classification kind of a hand.
#[derive(Eq, PartialEq, Structural, Copy, Clone, Debug)]
pub enum HandName {
    Pass,
    Single,
    Pair,
    Triple,
    TripleSingle,
    TriplePair,
    QuadSingle,
    QuadPair,
    Bomb,
    Rocket,
}

/// The decision table: what kind (and chain length or bomb size) a sorted,
/// valid, non-empty list of card values classifies as, or `None` when the
/// cards form no legal combination.
pub open spec fn spec_classify(players: int, s: Seq<usize>) -> Option<(HandName, int)> {
    let single = bucket(s, 1).len() as int;
    let pair = bucket(s, 2).len() as int;
    let trip = bucket(s, 3).len() as int;
    let big = big_count(s, 15) as int;
    if big > 0 {
        if big == 1 && trip == 0 {
            if single == 0 && pair == 0 {
                Some((HandName::Bomb, s.len() as int))
            } else if players == 4 {
                if single == 2 && pair == 0 {
                    Some((HandName::QuadSingle, 1))
                } else if single == 0 && pair == 2 {
                    Some((HandName::QuadPair, 1))
                } else {
                    None
                }
            } else {
                None
            }
        } else {
            None
        }
    } else if trip > 0 {
        if bucket(s, 3)[0] < 13 && spec_chain(bucket(s, 3), 2) {
            if single == 0 && pair == 0 {
                Some((HandName::Triple, trip))
            } else if trip == single && pair == 0 && players == 3 {
                Some((HandName::TripleSingle, trip))
            } else if trip == pair && single == 0 {
                Some((HandName::TriplePair, trip))
            } else {
                None
            }
        } else {
            None
        }
    } else if pair > 0 {
        if single == 0 {
            if pair == 2 && bucket(s, 2)[0] == 13 {
                Some((HandName::Rocket, 1))
            } else if spec_chain(bucket(s, 2), 3) {
                Some((HandName::Pair, pair))
            } else {
                None
            }
        } else {
            None
        }
    } else {
        if single == 2 && bucket(s, 1)[0] == 13 && players == 3 {
            Some((HandName::Rocket, 1))
        } else if spec_chain(bucket(s, 1), 5) {
            Some((HandName::Single, single))
        } else {
            None
        }
    }
}

/// A playing card, identified by its raw value in `[0, 54)`.
#[derive(Eq, PartialEq, Structural, Copy, Clone, Debug)]
pub struct Card(pub usize);

impl Card {
    /// The rank used for grouping and strength comparison.
    pub fn rank(&self) -> (r: usize)
        ensures
            r as int == spec_rank(self.0 as int),
            self.0 < 54 ==> r < 15,
    {
        match self.0 {
            53 => 14,
            _ => self.0 / 4,
        }
    }
}

/// The card values of a sequence of cards.
pub open spec fn card_vals(s: Seq<Card>) -> Seq<usize> {
    s.map_values(|c: Card| c.0)
}

/// Lexicographic strict order on strength keys, with a shorter prefix
/// ordered first (the order the strength comparison uses).
pub open spec fn lex_lt(a: Seq<usize>, b: Seq<usize>) -> bool
    decreases a.len(),
{
    if b.len() == 0 {
        false
    } else if a.len() == 0 {
        true
    } else if a[0] < b[0] {
        true
    } else if a[0] > b[0] {
        false
    } else {
        lex_lt(a.drop_first(), b.drop_first())
    }
}

/// The classified kind of a hand plus its `mult`: the chain length, or for
/// a bomb the number of its cards.
#[derive(Eq, PartialEq, Structural, Copy, Clone, Debug)]
pub struct HandType {
    pub name: HandName,
    pub mult: usize,
}

/// A validated combination of cards: its kind, its strength key (ranks by
/// multiplicity descending, then rank descending) and the cards themselves.
#[derive(Debug)]
pub struct Hand {
    pub kind: HandType,
    pub sort_key: Vec<usize>,
    pub cards: Vec<Card>,
}

impl Hand {
    /// Structural well-formedness: cards are sorted legal values and the
    /// empty hand is exactly the canonical pass.
    pub open spec fn wf(self) -> bool {
        &&& sorted_cards(self.cards@)
        &&& (forall|k: int| 0 <= k < self.cards@.len() ==> (#[trigger] self.cards@[k]).0 < 54)
        &&& (self.kind.name == HandName::Pass <==> self.cards@.len() == 0)
        &&& (self.kind.name == HandName::Pass ==> self.sort_key@ == Seq::<usize>::empty()
            && self.kind.mult == 1)
    }

    /// The canonical pass (empty) hand.
    pub fn pass() -> (h: Hand)
        ensures
            h.kind.name == HandName::Pass,
            h.kind.mult == 1,
            h.cards@ == Seq::<Card>::empty(),
            h.sort_key@ == Seq::<usize>::empty(),
            h.wf(),
    {
        Hand { kind: HandType { name: HandName::Pass, mult: 1 }, sort_key: Vec::new(), cards: Vec::new() }
    }

    pub fn cards(&self) -> (r: &Vec<Card>)
        ensures
            r@ == self.cards@,
    {
        &self.cards
    }

    pub fn is_pass(&self) -> (r: bool)
        ensures
            r == (self.kind.name == HandName::Pass),
    {
        self.kind.name == HandName::Pass
    }

    /// Whether playing this hand doubles the score multiplier: every
    /// rocket does, and a bomb does for a 3-player table or when it has at
    /// least 6 cards.
    pub open spec fn spec_is_double(self, players: usize) -> bool {
        spec_hand_is_double(self.kind.name, self.kind.mult as int, players)
    }

    pub fn is_double(&self, players: usize) -> (r: bool)
        ensures
            r == self.spec_is_double(players),
    {
        self.kind.name == HandName::Rocket || (self.kind.name == HandName::Bomb && (players == 3
            || self.kind.mult >= 6))
    }

    /// Whether this hand legally follows `last` (see `beats`).
    pub open spec fn can_beat(self, last: Hand) -> bool {
        beats(self.kind.name, self.kind.mult, self.sort_key@, last)
    }

    /// The error the strength comparison reports when this hand cannot
    /// follow `last` (see `beats_msg`).
    pub open spec fn can_play_msg(self, last: Hand) -> Seq<char> {
        beats_msg(self.kind.name, self.kind.mult, last)
    }
}

/// Whether a hand of kind `name` and arity `mult` doubles the score
/// multiplier when played: every rocket does, and a bomb does for a
/// 3-player table or when it has at least 6 cards.
pub open spec fn spec_hand_is_double(name: HandName, mult: int, players: usize) -> bool {
    name == HandName::Rocket || (name == HandName::Bomb && (players == 3 || mult >= 6))
}

/// Whether a hand of kind `name`, arity `mult` and strength key `key`
/// legally follows `last`: kinds differ only when the last play is a
/// pass, this hand is a rocket, or this hand is a bomb and the last play
/// is not a rocket; two bombs compare by card count then strength key;
/// equal kinds otherwise need an equal `mult` and a strictly greater
/// strength key.
pub open spec fn beats(name: HandName, mult: usize, key: Seq<usize>, last: Hand) -> bool {
    if name != last.kind.name {
        last.kind.name == HandName::Pass || name == HandName::Rocket || (name == HandName::Bomb
            && last.kind.name != HandName::Rocket)
    } else if name == HandName::Bomb {
        mult > last.kind.mult || (mult == last.kind.mult && lex_lt(last.sort_key@, key))
    } else {
        mult == last.kind.mult && lex_lt(last.sort_key@, key)
    }
}

/// The error the strength comparison reports when a hand of kind `name`
/// and arity `mult` cannot follow `last`.
pub open spec fn beats_msg(name: HandName, mult: usize, last: Hand) -> Seq<char> {
    if name != last.kind.name {
        "hand type does not match"@
    } else if name == HandName::Bomb {
        if mult < last.kind.mult {
            "bomb has less cards than previous play"@
        } else {
            "bomb is lower than previous play"@
        }
    } else {
        if mult != last.kind.mult {
            "number of cards do not match"@
        } else {
            "hand is lower than previous play"@
        }
    }
}

impl Default for Hand {
    /// The default hand is the canonical pass.
    fn default() -> (h: Hand)
        ensures
            h.kind.name == HandName::Pass,
            h.kind.mult == 1,
            h.cards@ == Seq::<Card>::empty(),
            h.sort_key@ == Seq::<usize>::empty(),
            h.wf(),
    {
        Hand::pass()
    }
}

/// Whether `v` (a bucket of ranks, each below 15) forms a valid chain of
/// minimum length `sz`.
fn is_valid_chain(v: &Vec<usize>, sz: usize) -> (r: bool)
    requires
        1 <= sz,
        forall|k: int| 0 <= k < v@.len() ==> v@[k] < 15,
    ensures
        r == spec_chain(v@, sz as int),
{
    if v.len() == 1 {
        return true;
    }
    if v.len() < sz || v.len() == 0 {
        return false;
    }
    if v[v.len() - 1] >= 12 {
        return false;
    }
    let mut i: usize = 0;
    while i + 1 < v.len()
        invariant
            i < v@.len(),
            forall|k: int| 0 <= k < i ==> #[trigger] v@[k] + 1 == v@[k + 1],
        decreases v@.len() - i,
    {
        if v[i] + 1 != v[i + 1] {
            return false;
        }
        i += 1;
    }
    true
}

/// Whether the strength key `a@` is strictly greater than `b@` in the
/// lexicographic order.
fn key_gt(a: &Vec<usize>, b: &Vec<usize>) -> (r: bool)
    ensures
        r == lex_lt(b@, a@),
{
    let mut i: usize = 0;
    proof {
        assert(b@.skip(0) =~= b@);
        assert(a@.skip(0) =~= a@);
    }
    loop
        invariant
            i <= a@.len(),
            i <= b@.len(),
            lex_lt(b@, a@) == lex_lt(b@.skip(i as int), a@.skip(i as int)),
        decreases a@.len() - i,
    {
        if i < a.len() && i < b.len() {
            if b[i] < a[i] {
                return true;
            }
            if b[i] > a[i] {
                return false;
            }
            proof {
                assert(b@.skip(i as int + 1) =~= b@.skip(i as int).drop_first());
                assert(a@.skip(i as int + 1) =~= a@.skip(i as int).drop_first());
            }
            i += 1;
        } else if i < a.len() {
            return true;
        } else {
            return false;
        }
    }
}

impl Hand {
    /// Classify a list of card values, for a table of `players` seats,
    /// into a validated `Hand`.
    ///
    /// The empty list is the canonical pass. Otherwise the values must be
    /// legal and sorted ascending, and the run-length buckets of the ranks
    /// must match one row of the decision table (`spec_classify`).
    pub fn new(players: usize, cards: Vec<usize>) -> (r: Result<Hand, String>)
        ensures
            cards@.len() == 0 ==> (r matches Ok(h) && h.kind.name == HandName::Pass
                && h.kind.mult == 1 && h.cards@ == Seq::<Card>::empty()),
            cards@.len() > 0 && !all_below_54(cards@) ==> (r matches Err(e) && e@
                == "invalid cards"@),
            cards@.len() > 0 && all_below_54(cards@) && !sorted_vals(cards@) ==> (r matches Err(e)
                && e@ == "unsorted cards"@),
            cards@.len() > 0 && all_below_54(cards@) && sorted_vals(cards@) ==> (match
                spec_classify(players as int, cards@) {
                Some(nm) => r matches Ok(h) && h.kind.name == nm.0 && h.kind.mult as int == nm.1
                    && card_vals(h.cards@) == cards@ && h.sort_key@ == spec_sort_key(cards@),
                None => r matches Err(e) && e@ == "cards cannot from a hand"@,
            }),
            r matches Ok(h) ==> h.wf(),
    {
        if cards.len() == 0 {
            return Ok(Hand::pass());
        }
        // a normal user should not see these errors
        let mut i: usize = 0;
        while i < cards.len()
            invariant
                i <= cards@.len(),
                forall|k: int| 0 <= k < i ==> cards@[k] < 54,
            decreases cards@.len() - i,
        {
            if cards[i] >= 54 {
                return Err("invalid cards".to_owned());
            }
            i += 1;
        }
        let mut i: usize = 1;
        while i < cards.len()
            invariant
                1 <= i,
                cards@.len() > 0,
                i <= cards@.len(),
                forall|a: int, b: int| 0 <= a < b < i ==> cards@[a] <= cards@[b],
            decreases cards@.len() - i,
        {
            if cards[i - 1] > cards[i] {
                return Err("unsorted cards".to_owned());
            }
            assert forall|a: int| 0 <= a < i implies cards@[a] <= cards@[i as int] by {
                if a < i - 1 {
                    assert(cards@[a] <= cards@[i - 1]);
                }
            }
            i += 1;
        }
        assert(sorted_vals(cards@));

        // count the multiplicity of every rank
        let mut counts: Vec<usize> = Vec::new();
        let mut r: usize = 0;
        while r < 15
            invariant
                counts@.len() == r,
                r <= 15,
                forall|k: int| 0 <= k < r ==> counts@[k] == 0,
            decreases 15 - r,
        {
            counts.push(0);
            r += 1;
        }
        proof {
            assert(cards@.take(0) =~= Seq::<usize>::empty());
            assert forall|rr: int| 0 <= rr < 15 implies counts@[rr] == rank_count(cards@.take(0),
                rr) by {
                assert(rank_count(Seq::<usize>::empty(), rr) == 0);
            }
        }
        let mut i: usize = 0;
        while i < cards.len()
            invariant
                counts@.len() == 15,
                i <= cards@.len(),
                all_below_54(cards@),
                forall|rr: int| 0 <= rr < 15 ==> counts@[rr] == rank_count(cards@.take(i as int), rr),
                forall|rr: int| 0 <= rr < 15 ==> counts@[rr] <= i,
            decreases cards@.len() - i,
        {
            let c = Card(cards[i]);
            let rk = c.rank();
            proof {
                assert(cards@.take(i as int + 1).drop_last() =~= cards@.take(i as int));
                assert(cards@.take(i as int + 1).last() == cards@[i as int]);
                assert forall|rr: int| 0 <= rr < 15 implies rank_count(cards@.take(i as int + 1), rr)
                    == rank_count(cards@.take(i as int), rr) + (if spec_rank(cards@[i as int] as int)
                    == rr {
                    1nat
                } else {
                    0nat
                }) by {}
            }
            let cur = counts[rk];
            counts[rk] = cur + 1;
            i += 1;
        }
        proof {
            assert(cards@.take(cards@.len() as int) =~= cards@);
        }
        assert(forall|rr: int| 0 <= rr < 15 ==> counts@[rr] == rank_count(cards@, rr));

        // gather the buckets
        let mut b1: Vec<usize> = Vec::new();
        let mut b2: Vec<usize> = Vec::new();
        let mut b3: Vec<usize> = Vec::new();
        let mut nbig: usize = 0;
        let mut r: usize = 0;
        while r < 15
            invariant
                r <= 15,
                counts@.len() == 15,
                forall|rr: int| 0 <= rr < 15 ==> counts@[rr] == rank_count(cards@, rr),
                b1@ == ranks_asc(cards@, 1, r as int),
                b2@ == ranks_asc(cards@, 2, r as int),
                b3@ == ranks_asc(cards@, 3, r as int),
                nbig as nat == big_count(cards@, r as int),
                nbig <= r,
                forall|k: int| 0 <= k < b1@.len() ==> b1@[k] < 15,
                forall|k: int| 0 <= k < b2@.len() ==> b2@[k] < 15,
                forall|k: int| 0 <= k < b3@.len() ==> b3@[k] < 15,
            decreases 15 - r,
        {
            if counts[r] == 1 {
                proof {
                    assert(b1@ + seq![r as usize] =~= b1@.push(r as usize));
                    assert(b2@ + Seq::<usize>::empty() =~= b2@);
                    assert(b3@ + Seq::<usize>::empty() =~= b3@);
                }
                b1.push(r);
            } else if counts[r] == 2 {
                proof {
                    assert(b1@ + Seq::<usize>::empty() =~= b1@);
                    assert(b2@ + seq![r as usize] =~= b2@.push(r as usize));
                    assert(b3@ + Seq::<usize>::empty() =~= b3@);
                }
                b2.push(r);
            } else if counts[r] == 3 {
                proof {
                    assert(b1@ + Seq::<usize>::empty() =~= b1@);
                    assert(b2@ + Seq::<usize>::empty() =~= b2@);
                    assert(b3@ + seq![r as usize] =~= b3@.push(r as usize));
                }
                b3.push(r);
            } else {
                proof {
                    assert(b1@ + Seq::<usize>::empty() =~= b1@);
                    assert(b2@ + Seq::<usize>::empty() =~= b2@);
                    assert(b3@ + Seq::<usize>::empty() =~= b3@);
                }
                if counts[r] >= 4 {
                    nbig = nbig + 1;
                }
            }
            r += 1;
        }

        let single = b1.len();
        let pair = b2.len();
        let trip = b3.len();

        // the decision table
        let mut name = HandName::Pass;
        let mut mult: usize = 1;
        if nbig > 0 {
            if nbig == 1 && trip == 0 {
                if single == 0 && pair == 0 {
                    name = HandName::Bomb;
                    mult = cards.len();
                } else if players == 4 {
                    if single == 2 && pair == 0 {
                        name = HandName::QuadSingle;
                    } else if single == 0 && pair == 2 {
                        name = HandName::QuadPair;
                    }
                }
            }
        } else if trip > 0 {
            if b3[0] < 13 && is_valid_chain(&b3, 2) {
                if single == 0 && pair == 0 {
                    name = HandName::Triple;
                    mult = trip;
                } else if trip == single && pair == 0 && players == 3 {
                    name = HandName::TripleSingle;
                    mult = trip;
                } else if trip == pair && single == 0 {
                    name = HandName::TriplePair;
                    mult = trip;
                }
            }
        } else if pair > 0 {
            if single == 0 {
                if pair == 2 && b2[0] == 13 {
                    name = HandName::Rocket;
                } else if is_valid_chain(&b2, 3) {
                    name = HandName::Pair;
                    mult = pair;
                }
            }
        } else {
            if single == 2 && b1[0] == 13 && players == 3 {
                name = HandName::Rocket;
            } else if is_valid_chain(&b1, 5) {
                name = HandName::Single;
                mult = single;
            }
        }

        if name == HandName::Pass {
            assert(spec_classify(players as int, cards@) is None);
            return Err("cards cannot from a hand".to_owned());
        }
        assert(spec_classify(players as int, cards@) == Some((name, mult as int)));

        // the strength key
        let mut key: Vec<usize> = Vec::new();
        let mut m: usize = cards.len();
        proof {
            assert(key@ + sort_key_from(cards@, m as nat) =~= sort_key_from(cards@, m as nat));
        }
        while m > 0
            invariant
                m <= cards@.len(),
                counts@.len() == 15,
                forall|rr: int| 0 <= rr < 15 ==> counts@[rr] == rank_count(cards@, rr),
                key@ + sort_key_from(cards@, m as nat) == spec_sort_key(cards@),
            decreases m,
        {
            let mut r: usize = 15;
            proof {
                assert(key@ + (ranks_desc(cards@, m as nat, 15) + sort_key_from(cards@, (m
                    - 1) as nat)) =~= (key@ + ranks_desc(cards@, m as nat, 15)) + sort_key_from(
                    cards@, (m - 1) as nat));
            }
            while r > 0
                invariant
                    r <= 15,
                    m >= 1,
                    counts@.len() == 15,
                    forall|rr: int| 0 <= rr < 15 ==> counts@[rr] == rank_count(cards@, rr),
                    (key@ + ranks_desc(cards@, m as nat, r as int)) + sort_key_from(cards@, (m
                        - 1) as nat) == spec_sort_key(cards@),
                decreases r,
            {
                if counts[r - 1] == m {
                    proof {
                        assert((key@.push((r - 1) as usize) + ranks_desc(cards@, m as nat, r as int
                            - 1)) =~= key@ + (seq![(r - 1) as usize] + ranks_desc(cards@, m as nat,
                            r as int - 1)));
                    }
                    key.push(r - 1);
                } else {
                    proof {
                        assert((key@ + ranks_desc(cards@, m as nat, r as int - 1)) =~= key@ + (
                        Seq::<usize>::empty() + ranks_desc(cards@, m as nat, r as int - 1)));
                    }
                }
                r -= 1;
            }
            proof {
                assert(key@ + ranks_desc(cards@, m as nat, 0) =~= key@);
            }
            m -= 1;
        }
        proof {
            assert(key@ + sort_key_from(cards@, 0) =~= key@);
        }

        // the validated cards
        let mut cv: Vec<Card> = Vec::new();
        let mut i: usize = 0;
        while i < cards.len()
            invariant
                i <= cards@.len(),
                cv@.len() == i,
                forall|k: int| 0 <= k < i ==> cv@[k] == Card(cards@[k]),
            decreases cards@.len() - i,
        {
            cv.push(Card(cards[i]));
            i += 1;
        }
        proof {
            assert(card_vals(cv@) =~= cards@);
        }

        Ok(Hand { kind: HandType { name, mult }, sort_key: key, cards: cv })
    }

    /// Whether this hand may be played on top of `last_play`.
    ///
    /// Different kinds only combine when the last play is a pass, this
    /// hand is a rocket, or this hand is a bomb and the last play is not a
    /// rocket. Two bombs compare by card count, then strength key. Equal
    /// kinds otherwise need an equal `mult` and a strictly greater key.
    pub fn can_play(&self, last_play: &Hand) -> (r: Result<(), String>)
        ensures
            r is Ok <==> self.can_beat(*last_play),
            r matches Err(e) ==> e@ == self.can_play_msg(*last_play),
    {
        if self.kind.name != last_play.kind.name {
            if last_play.is_pass() || self.kind.name == HandName::Rocket || (self.kind.name
                == HandName::Bomb && last_play.kind.name != HandName::Rocket) {
                Ok(())
            } else {
                Err("hand type does not match".to_owned())
            }
        } else if self.kind.name == HandName::Bomb {
            if self.kind.mult < last_play.kind.mult {
                Err("bomb has less cards than previous play".to_owned())
            } else if self.kind.mult == last_play.kind.mult && !key_gt(&self.sort_key,
                &last_play.sort_key) {
                Err("bomb is lower than previous play".to_owned())
            } else {
                Ok(())
            }
        } else {
            if self.kind.mult != last_play.kind.mult {
                Err("number of cards do not match".to_owned())
            } else if !key_gt(&self.sort_key, &last_play.sort_key) {
                Err("hand is lower than previous play".to_owned())
            } else {
                Ok(())
            }
        }
    }
}

} // verus!

verus! {

/// How many cards of `s` equal `c`.
pub open spec fn count_cards(s: Seq<Card>, c: Card) -> nat
    decreases s.len(),
{
    if s.len() == 0 {
        0
    } else {
        count_cards(s.drop_last(), c) + (if s.last() == c {
            1nat
        } else {
            0nat
        })
    }
}

/// Every card of `a` occurs in `b` at least as often.
pub open spec fn sub_counts(a: Seq<Card>, b: Seq<Card>) -> bool {
    forall|c: Card| #[trigger] count_cards(a, c) <= count_cards(b, c)
}

/// `s` is sorted ascending by card value.
pub open spec fn sorted_cards(s: Seq<Card>) -> bool {
    forall|i: int, j: int| 0 <= i < j < s.len() ==> s[i].0 <= s[j].0
}

/// The total number of cards equal to `c` over a list of piles.
pub open spec fn total_count(piles: Seq<Seq<Card>>, c: Card) -> nat
    decreases piles.len(),
{
    if piles.len() == 0 {
        0
    } else {
        total_count(piles.drop_last(), c) + count_cards(piles.last(), c)
    }
}

/// How often `c` occurs in a full deck: once per legal card value, twice
/// when two decks are merged for a 4-player table.
pub open spec fn deck_count(players: int, c: Card) -> nat {
    if c.0 < 54 {
        if players == 4 {
            2
        } else {
            1
        }
    } else {
        0
    }
}

/// The views of a list of piles.
pub open spec fn piles_view(r: Seq<Vec<Card>>) -> Seq<Seq<Card>> {
    r.map_values(|p: Vec<Card>| p@)
}

/// Card conservation: the piles together hold exactly the full deck.
pub open spec fn conservation(players: int, piles: Seq<Seq<Card>>) -> bool {
    forall|c: Card| #[trigger] total_count(piles, c) == deck_count(players, c)
}

pub proof fn lemma_count_push(s: Seq<Card>, x: Card, c: Card)
    ensures
        count_cards(s.push(x), c) == count_cards(s, c) + (if x == c {
            1nat
        } else {
            0nat
        }),
{
    assert(s.push(x).drop_last() =~= s);
}

pub proof fn lemma_count_concat(a: Seq<Card>, b: Seq<Card>, c: Card)
    ensures
        count_cards(a + b, c) == count_cards(a, c) + count_cards(b, c),
    decreases b.len(),
{
    if b.len() == 0 {
        assert(a + b =~= a);
    } else {
        assert((a + b).drop_last() =~= a + b.drop_last());
        lemma_count_concat(a, b.drop_last(), c);
    }
}

pub proof fn lemma_count_absent(s: Seq<Card>, c: Card)
    requires
        forall|k: int| 0 <= k < s.len() ==> s[k] != c,
    ensures
        count_cards(s, c) == 0,
    decreases s.len(),
{
    if s.len() > 0 {
        lemma_count_absent(s.drop_last(), c);
    }
}

pub proof fn lemma_count_insert(s: Seq<Card>, i: int, x: Card, c: Card)
    requires
        0 <= i <= s.len(),
    ensures
        count_cards(s.insert(i, x), c) == count_cards(s, c) + (if x == c {
            1nat
        } else {
            0nat
        }),
{
    assert(s.insert(i, x) =~= (s.subrange(0, i) + seq![x]) + s.subrange(i, s.len() as int));
    assert(s.subrange(0, i) + s.subrange(i, s.len() as int) =~= s);
    lemma_count_concat(s.subrange(0, i) + seq![x], s.subrange(i, s.len() as int), c);
    lemma_count_concat(s.subrange(0, i), seq![x], c);
    lemma_count_concat(s.subrange(0, i), s.subrange(i, s.len() as int), c);
    assert(count_cards(seq![x], c) == (if x == c {
        1nat
    } else {
        0nat
    })) by {
        assert(seq![x].drop_last() =~= Seq::<Card>::empty());
        assert(count_cards(Seq::<Card>::empty(), c) == 0);
        assert(seq![x].last() == x);
    }
}

pub proof fn lemma_total_push(piles: Seq<Seq<Card>>, p: Seq<Card>, c: Card)
    ensures
        total_count(piles.push(p), c) == total_count(piles, c) + count_cards(p, c),
{
    assert(piles.push(p).drop_last() =~= piles);
}

/// Sort a pile of cards ascending by value; the cards themselves are kept.
pub fn sort_cards(v: Vec<Card>) -> (r: Vec<Card>)
    ensures
        sorted_cards(r@),
        r@.len() == v@.len(),
        forall|c: Card| #[trigger] count_cards(r@, c) == count_cards(v@, c),
{
    let mut out: Vec<Card> = Vec::new();
    let mut i: usize = 0;
    proof {
        assert(v@.take(0) =~= Seq::<Card>::empty());
    }
    while i < v.len()
        invariant
            i <= v@.len(),
            out@.len() == i,
            sorted_cards(out@),
            forall|c: Card| #[trigger] count_cards(out@, c) == count_cards(v@.take(i as int), c),
        decreases v@.len() - i,
    {
        let x = v[i];
        let mut k: usize = 0;
        while k < out.len() && out[k].0 <= x.0
            invariant
                k <= out@.len(),
                forall|m: int| 0 <= m < k ==> out@[m].0 <= x.0,
            decreases out@.len() - k,
        {
            k += 1;
        }
        proof {
            out@.insert_ensures(k as int, x);
            assert forall|c: Card| #[trigger] count_cards(out@.insert(k as int, x), c)
                == count_cards(v@.take(i as int + 1), c) by {
                lemma_count_insert(out@, k as int, x, c);
                assert(v@.take(i as int + 1).drop_last() =~= v@.take(i as int));
                assert(v@.take(i as int + 1).last() == v@[i as int]);
            }
            assert forall|a: int, b: int|
                0 <= a < b < out@.insert(k as int, x).len() implies out@.insert(k as int, x)[a].0
                <= out@.insert(k as int, x)[b].0 by {
                let n = out@.insert(k as int, x);
                if b < k {
                } else if a > k {
                } else if a == k && b > k {
                    assert(n[b] == out@[b - 1]);
                    assert(out@[b - 1].0 > x.0 || out@[b - 1].0 >= x.0);
                } else if b == k {
                    assert(n[a] == out@[a]);
                } else {
                    // a < k < b
                    assert(n[a] == out@[a]);
                    assert(n[b] == out@[b - 1]);
                }
            }
        }
        out.insert(k, x);
        i += 1;
    }
    proof {
        assert(v@.take(v@.len() as int) =~= v@);
    }
    out
}

/// Relies on `rand::seq::SliceRandom::shuffle`: an in-place Fisher-Yates
/// permutation of the slice, so the pile holds the same cards afterwards.
#[verifier::external_body]
fn shuffle_cards(v: &mut Vec<Card>)
    ensures
        final(v)@.len() == old(v)@.len(),
        forall|c: Card| #[trigger] count_cards(final(v)@, c) == count_cards(old(v)@, c),
{
    v.shuffle(&mut rand::rng());
}

impl Hand {
    /// Shuffle one full deck (two for a 4-player table) and deal it into
    /// `players` sorted hands plus the sorted hidden bonus pile.
    pub fn deal_hands(players: usize) -> (r: Vec<Vec<Card>>)
        requires
            players == 3 || players == 4,
        ensures
            r@.len() == players + 1,
            forall|i: int| 0 <= i < r@.len() ==> sorted_cards(#[trigger] r@[i]@),
            forall|i: int| 0 <= i < players ==> (#[trigger] r@[i]@).len() == (if players == 3 {
                17int
            } else {
                25int
            }),
            r@[players as int]@.len() == (if players == 3 {
                3int
            } else {
                8int
            }),
            conservation(players as int, piles_view(r@)),
    {
        let mut deck: Vec<Card> = Vec::new();
        let mut v: usize = 0;
        while v < 54
            invariant
                v <= 54,
                deck@.len() == v,
                forall|c: Card| #[trigger] count_cards(deck@, c) == (if c.0 < v {
                    1nat
                } else {
                    0nat
                }),
            decreases 54 - v,
        {
            proof {
                assert forall|c: Card| #[trigger] count_cards(deck@.push(Card(v)), c) == (if c.0 < v
                    + 1 {
                    1nat
                } else {
                    0nat
                }) by {
                    lemma_count_push(deck@, Card(v), c);
                }
            }
            deck.push(Card(v));
            v += 1;
        }
        if players == 4 {
            let mut v: usize = 0;
            while v < 54
                invariant
                    v <= 54,
                    deck@.len() == 54 + v,
                    forall|c: Card| #[trigger] count_cards(deck@, c) == (if c.0 < v {
                        2nat
                    } else if c.0 < 54 {
                        1nat
                    } else {
                        0nat
                    }),
                decreases 54 - v,
            {
                proof {
                    assert forall|c: Card| #[trigger] count_cards(deck@.push(Card(v)), c) == (if c.0
                        < v + 1 {
                        2nat
                    } else if c.0 < 54 {
                        1nat
                    } else {
                        0nat
                    }) by {
                        lemma_count_push(deck@, Card(v), c);
                    }
                }
                deck.push(Card(v));
                v += 1;
            }
        }
        assert(forall|c: Card| #[trigger] count_cards(deck@, c) == deck_count(players as int, c));

        shuffle_cards(&mut deck);

        let per_hand: usize = if players == 3 {
            17
        } else {
            25
        };
        let mut piles: Vec<Vec<Card>> = Vec::new();
        let mut rest = deck;
        let mut t: usize = 0;
        while t < players
            invariant
                t <= players,
                players == 3 || players == 4,
                per_hand == (if players == 3 {
                    17int
                } else {
                    25int
                }),
                piles@.len() == t,
                rest@.len() + t * per_hand == (if players == 3 {
                    54int
                } else {
                    108int
                }),
                forall|i: int| 0 <= i < t ==> sorted_cards(#[trigger] piles@[i]@),
                forall|i: int| 0 <= i < t ==> (#[trigger] piles@[i]@).len() == per_hand,
                forall|c: Card| total_count(piles_view(piles@), c) + #[trigger] count_cards(rest@,
                    c) == deck_count(players as int, c),
            decreases players - t,
        {
            let ghost prev = rest@;
            let tail = rest.split_off(per_hand);
            let ghost head = rest@;
            let sorted = sort_cards(rest);
            proof {
                assert(head + tail@ =~= prev);
                assert forall|c: Card| total_count(piles_view(piles@.push(sorted)), c)
                    + #[trigger] count_cards(tail@, c) == deck_count(players as int, c) by {
                    assert(piles_view(piles@.push(sorted)) =~= piles_view(piles@).push(sorted@));
                    lemma_total_push(piles_view(piles@), sorted@, c);
                    lemma_count_concat(head, tail@, c);
                }
            }
            piles.push(sorted);
            rest = tail;
            t += 1;
        }
        let bonus = sort_cards(rest);
        proof {
            assert forall|c: Card| #[trigger] total_count(piles_view(piles@.push(bonus)), c)
                == deck_count(players as int, c) by {
                assert(piles_view(piles@.push(bonus)) =~= piles_view(piles@).push(bonus@));
                lemma_total_push(piles_view(piles@), bonus@, c);
            }
        }
        piles.push(bonus);
        piles
    }
}

} // verus!

verus! {

/// A copy of a pile of cards.
pub fn copy_cards(v: &Vec<Card>) -> (r: Vec<Card>)
    ensures
        r@ == v@,
{
    let mut out: Vec<Card> = Vec::new();
    let mut i: usize = 0;
    while i < v.len()
        invariant
            i <= v@.len(),
            out@ == v@.take(i as int),
        decreases v@.len() - i,
    {
        proof {
            assert(v@.take(i as int + 1) =~= v@.take(i as int).push(v@[i as int]));
        }
        out.push(v[i]);
        i += 1;
    }
    proof {
        assert(v@.take(v@.len() as int) =~= v@);
    }
    out
}

pub proof fn lemma_count_split(s: Seq<Card>, i: int, c: Card)
    requires
        0 <= i <= s.len(),
    ensures
        count_cards(s, c) == count_cards(s.take(i), c) + count_cards(s.skip(i), c),
{
    assert(s.take(i) + s.skip(i) =~= s);
    lemma_count_concat(s.take(i), s.skip(i), c);
}

pub proof fn lemma_count_take_step(s: Seq<Card>, i: int, c: Card)
    requires
        0 <= i < s.len(),
    ensures
        count_cards(s.take(i + 1), c) == count_cards(s.take(i), c) + (if s[i] == c {
            1nat
        } else {
            0nat
        }),
{
    assert(s.take(i + 1).drop_last() =~= s.take(i));
    assert(s.take(i + 1).last() == s[i]);
}

} // verus!

verus! {

/// The display label of a rank: the jokers both read "J".
pub open spec fn rank_label(r: int) -> Seq<char> {
    if r == 0 {
        "3"@
    } else if r == 1 {
        "4"@
    } else if r == 2 {
        "5"@
    } else if r == 3 {
        "6"@
    } else if r == 4 {
        "7"@
    } else if r == 5 {
        "8"@
    } else if r == 6 {
        "9"@
    } else if r == 7 {
        "10"@
    } else if r == 8 {
        "J"@
    } else if r == 9 {
        "Q"@
    } else if r == 10 {
        "K"@
    } else if r == 11 {
        "A"@
    } else if r == 12 {
        "2"@
    } else {
        "J"@
    }
}

/// The display label of a card's suit; the jokers have card faces of
/// their own.
pub open spec fn suit_label(c: Card) -> Seq<char> {
    if c.0 == 52 {
        "🃟"@
    } else if c.0 == 53 {
        "🃏"@
    } else if c.0 % 4 == 0 {
        "♣️"@
    } else if c.0 % 4 == 1 {
        "♦️"@
    } else if c.0 % 4 == 2 {
        "♥️"@
    } else {
        "♠️"@
    }
}

/// The display label of a card: its rank label then its suit label.
pub open spec fn card_label(c: Card) -> Seq<char> {
    rank_label(spec_rank(c.0 as int)) + suit_label(c)
}

/// The labels of a list of cards, separated by ", ".
pub open spec fn spec_join(s: Seq<Card>) -> Seq<char>
    decreases s.len(),
{
    if s.len() == 0 {
        Seq::empty()
    } else if s.len() == 1 {
        card_label(s[0])
    } else {
        spec_join(s.drop_last()) + ", "@ + card_label(s.last())
    }
}

fn rank_str(c: Card) -> (r: &'static str)
    ensures
        r@ == rank_label(spec_rank(c.0 as int)),
{
    let rk = c.rank();
    match rk {
        0 => "3",
        1 => "4",
        2 => "5",
        3 => "6",
        4 => "7",
        5 => "8",
        6 => "9",
        7 => "10",
        8 => "J",
        9 => "Q",
        10 => "K",
        11 => "A",
        12 => "2",
        _ => "J",
    }
}

fn suit_str(c: Card) -> (r: &'static str)
    ensures
        r@ == suit_label(c),
{
    if c.0 == 52 {
        "🃟"
    } else if c.0 == 53 {
        "🃏"
    } else {
        match c.0 % 4 {
            0 => "♣️",
            1 => "♦️",
            2 => "♥️",
            _ => "♠️",
        }
    }
}

/// Render a list of cards as a human-readable, comma-separated string.
pub fn join(cards: &Vec<Card>) -> (r: String)
    ensures
        r@ == spec_join(cards@),
{
    let mut out = String::new();
    let mut i: usize = 0;
    proof {
        assert(cards@.take(0) =~= Seq::<Card>::empty());
    }
    while i < cards.len()
        invariant
            i <= cards@.len(),
            out@ == spec_join(cards@.take(i as int)),
        decreases cards@.len() - i,
    {
        if i > 0 {
            out.append(", ");
        }
        out.append(rank_str(cards[i]));
        out.append(suit_str(cards[i]));
        proof {
            assert(cards@.take(i as int + 1).drop_last() =~= cards@.take(i as int));
            assert(cards@.take(i as int + 1).last() == cards@[i as int]);
            assert(out@ =~= spec_join(cards@.take(i as int + 1)));
        }
        i += 1;
    }
    proof {
        assert(cards@.take(cards@.len() as int) =~= cards@);
    }
    out
}

} // verus!
