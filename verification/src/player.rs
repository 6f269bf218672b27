//! A player and the rounds the player has played.

use vstd::prelude::*;

use crate::error::ScoreError;
use crate::round::Round;

verus! {

/// The sum of the scores of `rounds`.
pub open spec fn total_of(rounds: Seq<Round>) -> nat
    decreases rounds.len(),
{
    if rounds.len() == 0 {
        0
    } else {
        total_of(rounds.drop_last()) + rounds.last().score as nat
    }
}

/// The number of rounds among `rounds` in which a phase was completed.
pub open spec fn advances_of(rounds: Seq<Round>) -> nat {
    rounds.filter(|round: Round| round.phased_up).len()
}

/// A player as a mathematical value: the name and the rounds played, oldest
/// first.
pub struct PlayerView {
    pub name: Seq<char>,
    pub rounds: Seq<Round>,
}

impl PlayerView {
    /// The phase the player is working on. Phases count from one, and every
    /// round that completed a phase moves the player on by one.
    pub open spec fn phase(self) -> nat {
        1 + advances_of(self.rounds)
    }

    /// The sum of the scores of all rounds played.
    pub open spec fn total_score(self) -> nat {
        total_of(self.rounds)
    }

    /// The player after one more round with the given result.
    pub open spec fn add_round(self, score: usize, phased_up: bool) -> PlayerView {
        PlayerView { name: self.name, rounds: self.rounds.push(Round { score, phased_up }) }
    }

    /// The player after the rounds `results`, recorded one by one in order.
    pub open spec fn add_rounds(self, results: Seq<Round>) -> PlayerView
        decreases results.len(),
    {
        if results.len() == 0 {
            self
        } else {
            let last = results.last();
            self.add_rounds(results.drop_last()).add_round(last.score, last.phased_up)
        }
    }
}

/// A name, which is never empty.
#[derive(Debug)]
struct Name {
    text: String,
}

impl Name {
    #[verifier::type_invariant]
    spec fn not_empty(&self) -> bool {
        self.text@.len() > 0
    }
}

/// One participant: a name that is never empty, and the rounds played so far
/// in the order they were played.
#[derive(Debug)]
pub struct Player {
    name: Name,
    rounds: Vec<Round>,
}

impl View for Player {
    type V = PlayerView;

    closed spec fn view(&self) -> PlayerView {
        PlayerView { name: self.name.text@, rounds: self.rounds@ }
    }
}

impl Player {
    /// A player called `name` who has not played yet. An empty name is
    /// refused.
    pub fn new(name: &str) -> (made: Result<Player, ScoreError>)
        ensures
            match made {
                Ok(player) => {
                    &&& name@.len() > 0
                    &&& player@.name == name@
                    &&& player@.rounds == Seq::<Round>::empty()
                    &&& player@.phase() == 1
                    &&& player@.total_score() == 0
                },
                Err(e) => name@.len() == 0 && e == ScoreError::InvalidName,
            },
    {
        if name.is_empty() {
            Err(ScoreError::InvalidName)
        } else {
            proof {
                lemma_before_first_round(
                    PlayerView { name: name@, rounds: Seq::<Round>::empty() },
                );
            }
            Ok(Player { name: Name { text: name.to_owned() }, rounds: Vec::new() })
        }
    }

    /// The player's name.
    pub fn name(&self) -> (name: &str)
        ensures
            name@ == self@.name,
            name@.len() > 0,
    {
        proof {
            use_type_invariant(&self.name);
        }
        self.name.text.as_str()
    }

    /// The phase the player is working on: one more than the number of
    /// rounds in which the player completed a phase.
    pub fn phase(&self) -> (phase: u128)
        ensures
            phase == self@.phase(),
            phase == 1 + advances_of(self@.rounds),
    {
        let mut advances: u128 = 0;
        let mut i: usize = 0;
        while i < self.rounds.len()
            invariant
                i <= self.rounds.len(),
                advances == advances_of(self.rounds@.take(i as int)),
                advances <= i,
            decreases self.rounds.len() - i,
        {
            proof {
                lemma_advances_push(self.rounds@.take(i as int), self.rounds@[i as int]);
                assert(self.rounds@.take(i + 1) =~= self.rounds@.take(i as int).push(
                    self.rounds@[i as int],
                ));
            }
            if self.rounds[i].phased_up {
                advances = advances + 1;
            }
            i = i + 1;
        }
        assert(self.rounds@.take(i as int) =~= self.rounds@);
        advances + 1
    }

    /// The sum of the scores of all rounds played.
    pub fn total_score(&self) -> (total: u128)
        ensures
            total == self@.total_score(),
            total == total_of(self@.rounds),
    {
        let mut total: u128 = 0;
        let mut i: usize = 0;
        while i < self.rounds.len()
            invariant
                i <= self.rounds.len(),
                total == total_of(self.rounds@.take(i as int)),
                total <= i * usize::MAX,
            decreases self.rounds.len() - i,
        {
            proof {
                lemma_total_push(self.rounds@.take(i as int), self.rounds@[i as int]);
                assert(self.rounds@.take(i + 1) =~= self.rounds@.take(i as int).push(
                    self.rounds@[i as int],
                ));
                assert((i + 1) * usize::MAX <= usize::MAX * usize::MAX) by (nonlinear_arith)
                    requires
                        i + 1 <= usize::MAX,
                ;
                assert(usize::MAX * usize::MAX <= u128::MAX) by (nonlinear_arith)
                    requires
                        usize::MAX <= 0xffff_ffff_ffff_ffff,
                ;
                assert((i + 1) * usize::MAX == i * usize::MAX + usize::MAX) by (nonlinear_arith);
            }
            total = total + self.rounds[i].score as u128;
            i = i + 1;
        }
        assert(self.rounds@.take(i as int) =~= self.rounds@);
        total
    }

    /// Records the result of the next round. Nothing that was recorded
    /// before changes.
    pub fn add_round(&mut self, score: usize, phased_up: bool)
        ensures
            final(self)@ == old(self)@.add_round(score, phased_up),
            final(self)@.name == old(self)@.name,
            final(self)@.rounds == old(self)@.rounds.push(Round { score, phased_up }),
            final(self)@.rounds.len() == old(self)@.rounds.len() + 1,
            forall|i: int|
                0 <= i < old(self)@.rounds.len() ==> final(self)@.rounds[i] == old(self)@.rounds[i],
            final(self)@.total_score() == old(self)@.total_score() + score,
            final(self)@.phase() == old(self)@.phase() + if phased_up {
                1nat
            } else {
                0nat
            },
    {
        proof {
            lemma_total_push(self.rounds@, Round { score, phased_up });
            lemma_advances_push(self.rounds@, Round { score, phased_up });
        }
        self.rounds.push(Round::new(score, phased_up));
    }

    /// The round with index `i`, the first round played having index 0.
    /// An index that is not below the number of rounds played is an error.
    pub fn get_round(&self, i: usize) -> (found: Result<&Round, ScoreError>)
        ensures
            match found {
                Ok(round) => i < self@.rounds.len() && *round == self@.rounds[i as int],
                Err(e) => {
                    &&& i >= self@.rounds.len()
                    &&& e == ScoreError::RoundOutOfRange { index: i, len: self@.rounds.len() as usize }
                },
            },
    {
        if i < self.rounds.len() {
            Ok(&self.rounds[i])
        } else {
            Err(ScoreError::RoundOutOfRange { index: i, len: self.rounds.len() })
        }
    }

    /// All rounds played, oldest first.
    pub fn get_rounds(&self) -> (rounds: &Vec<Round>)
        ensures
            rounds@ == self@.rounds,
    {
        &self.rounds
    }
}

/// The players of a game as mathematical values, in the same order.
pub open spec fn views(players: Seq<Player>) -> Seq<PlayerView> {
    players.map_values(|player: Player| player@)
}

/// One more round adds its score to the total.
pub proof fn lemma_total_push(rounds: Seq<Round>, round: Round)
    ensures
        total_of(rounds.push(round)) == total_of(rounds) + round.score,
{
    assert(rounds.push(round).drop_last() =~= rounds);
}

/// One more round adds one to the number of completed phases if it
/// completed one, and nothing otherwise.
pub proof fn lemma_advances_push(rounds: Seq<Round>, round: Round)
    ensures
        advances_of(rounds.push(round)) == advances_of(rounds) + if round.phased_up {
            1nat
        } else {
            0nat
        },
{
    rounds.lemma_filter_len_push(|round: Round| round.phased_up, round);
}

/// The total of two histories, one after the other, is the sum of their
/// totals.
pub proof fn lemma_total_add(first: Seq<Round>, second: Seq<Round>)
    ensures
        total_of(first + second) == total_of(first) + total_of(second),
    decreases second.len(),
{
    if second.len() == 0 {
        assert(first + second =~= first);
    } else {
        assert((first + second).drop_last() =~= first + second.drop_last());
        lemma_total_add(first, second.drop_last());
    }
}

/// The completed phases of two histories, one after the other, add up.
pub proof fn lemma_advances_add(first: Seq<Round>, second: Seq<Round>)
    ensures
        advances_of(first + second) == advances_of(first) + advances_of(second),
{
    Seq::filter_distributes_over_add(first, second, |round: Round| round.phased_up);
}

/// A player who has not played yet is in phase 1 and has a total score of
/// zero.
pub proof fn lemma_before_first_round(player: PlayerView)
    requires
        player.rounds.len() == 0,
    ensures
        player.phase() == 1,
        player.total_score() == 0,
{
    assert(player.rounds =~= Seq::<Round>::empty());
    assert(advances_of(Seq::<Round>::empty()) == 0) by {
        reveal(Seq::filter);
    }
}

/// Recording rounds only ever appends: after any number of rounds the
/// history is the old history followed by the new rounds in the order in
/// which they were recorded. It has grown by exactly their number, every
/// round that was there before is still in its place, and the name is the
/// same.
pub proof fn lemma_rounds_are_appended(player: PlayerView, results: Seq<Round>)
    ensures
        player.add_rounds(results).name == player.name,
        player.add_rounds(results).rounds == player.rounds + results,
        player.add_rounds(results).rounds.len() == player.rounds.len() + results.len(),
        forall|i: int|
            0 <= i < player.rounds.len() ==> player.add_rounds(results).rounds[i]
                == player.rounds[i],
        forall|i: int|
            0 <= i < results.len() ==> player.add_rounds(results).rounds[player.rounds.len() + i]
                == results[i],
    decreases results.len(),
{
    if results.len() == 0 {
        assert(player.rounds + results =~= player.rounds);
    } else {
        lemma_rounds_are_appended(player, results.drop_last());
        let last = results.last();
        assert(Round { score: last.score, phased_up: last.phased_up } == last);
        assert((player.rounds + results.drop_last()).push(last) =~= player.rounds + results);
    }
}

/// After any number of rounds the total score has grown by the sum of
/// their scores. For a player who had not played before, it is that sum.
pub proof fn lemma_total_after_rounds(player: PlayerView, results: Seq<Round>)
    ensures
        player.add_rounds(results).total_score() == player.total_score() + total_of(results),
        player.add_rounds(results).total_score() >= player.total_score(),
        player.rounds.len() == 0 ==> player.add_rounds(results).total_score() == total_of(results),
{
    lemma_rounds_are_appended(player, results);
    lemma_total_add(player.rounds, results);
    if player.rounds.len() == 0 {
        lemma_before_first_round(player);
    }
}

/// After any number of rounds the phase has grown by the number of those
/// rounds that completed a phase. For a player who had not played before,
/// it is one more than that number.
pub proof fn lemma_phase_after_rounds(player: PlayerView, results: Seq<Round>)
    ensures
        player.add_rounds(results).phase() == player.phase() + advances_of(results),
        player.add_rounds(results).phase() >= player.phase(),
        player.rounds.len() == 0 ==> player.add_rounds(results).phase() == 1 + advances_of(
            results,
        ),
{
    lemma_rounds_are_appended(player, results);
    lemma_advances_add(player.rounds, results);
    if player.rounds.len() == 0 {
        lemma_before_first_round(player);
    }
}

} // verus!
