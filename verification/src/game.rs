//! When a game is over, and who has won it.

use vstd::prelude::*;

use crate::error::ScoreError;
use crate::player::{views, Player, PlayerView};
use crate::round::Round;

verus! {

/// The number of phases that a game has unless it is played otherwise.
pub const DEFAULT_FINAL_PHASE: u128 = 10;

/// Whether `players` are the players that a game starts with when it is
/// set up for `names`: one player for every name, in the same order, none
/// of whom has played yet.
pub open spec fn starts_with(players: Seq<PlayerView>, names: Seq<String>) -> bool {
    &&& players.len() == names.len()
    &&& forall|j: int|
        0 <= j < names.len() ==> (#[trigger] players[j]).name == names[j]@ && players[j].rounds
            == Seq::<Round>::empty()
}

/// The players of a new game, one for every name in the given order. If
/// one of the names is empty, there is no game.
pub fn new_players(names: &Vec<String>) -> (made: Result<Vec<Player>, ScoreError>)
    ensures
        match made {
            Ok(players) => {
                &&& forall|j: int| 0 <= j < names.len() ==> (#[trigger] names[j])@.len() > 0
                &&& starts_with(views(players@), names@)
            },
            Err(e) => {
                &&& exists|j: int| 0 <= j < names.len() && (#[trigger] names[j])@.len() == 0
                &&& e == ScoreError::InvalidName
            },
        },
{
    let mut players: Vec<Player> = Vec::new();
    let mut j: usize = 0;
    while j < names.len()
        invariant
            j <= names.len(),
            forall|k: int| 0 <= k < j ==> (#[trigger] names[k])@.len() > 0,
            starts_with(views(players@), names@.take(j as int)),
        decreases names.len() - j,
    {
        let ghost before = views(players@);
        match Player::new(names[j].as_str()) {
            Ok(player) => {
                players.push(player);
                proof {
                    let now = views(players@);
                    let wanted = names@.take(j + 1);
                    assert forall|k: int| 0 <= k < wanted.len() implies (#[trigger] now[k]).name
                        == wanted[k]@ && now[k].rounds == Seq::<Round>::empty() by {
                        if k < j {
                            assert(now[k] == before[k]);
                            assert(wanted[k] == names@.take(j as int)[k]);
                        }
                    }
                }
            },
            Err(e) => {
                return Err(e);
            },
        }
        j = j + 1;
    }
    assert(names@.take(j as int) =~= names@);
    Ok(players)
}

/// Whether `player` has completed all phases of a game of `final_phase`
/// phases, and so is working on the phase after the last.
pub open spec fn finished(player: PlayerView, final_phase: nat) -> bool {
    player.phase() == final_phase + 1
}

/// Whether nobody among `players` has completed all phases.
pub open spec fn undecided(players: Seq<PlayerView>, final_phase: nat) -> bool {
    forall|j: int| 0 <= j < players.len() ==> !finished(#[trigger] players[j], final_phase)
}

/// Whether the player with index `w` wins: the player has completed all
/// phases, nobody who has completed all phases has a lower total score, and
/// of those who have the same total score the player comes first.
pub open spec fn wins(players: Seq<PlayerView>, final_phase: nat, w: int) -> bool {
    &&& 0 <= w < players.len()
    &&& finished(players[w], final_phase)
    &&& forall|j: int|
        0 <= j < players.len() && finished(#[trigger] players[j], final_phase)
            ==> players[w].total_score() <= players[j].total_score()
    &&& forall|j: int|
        0 <= j < w && finished(#[trigger] players[j], final_phase) ==> players[w].total_score()
            < players[j].total_score()
}

/// At most one player wins.
pub proof fn lemma_winner_is_unique(players: Seq<PlayerView>, final_phase: nat, a: int, b: int)
    requires
        wins(players, final_phase, a),
        wins(players, final_phase, b),
    ensures
        a == b,
{
    if a < b {
        assert(finished(players[a], final_phase));
    } else if b < a {
        assert(finished(players[b], final_phase));
    }
}

/// Somebody wins as soon as somebody has completed all phases, and not
/// before.
pub proof fn lemma_winner_exists(players: Seq<PlayerView>, final_phase: nat)
    ensures
        undecided(players, final_phase) <==> !exists|w: int| wins(players, final_phase, w),
{
    if undecided(players, final_phase) {
        assert forall|w: int| !wins(players, final_phase, w) by {
            if 0 <= w < players.len() {
                assert(!finished(players[w], final_phase));
            }
        }
    } else {
        let w = first_best(players, final_phase, players.len() as int);
        lemma_first_best(players, final_phase, players.len() as int);
        assert(wins(players, final_phase, w));
    }
}

/// The index of the winner among the first `n` players, or -1 if none of
/// them has completed all phases.
spec fn first_best(players: Seq<PlayerView>, final_phase: nat, n: int) -> int
    decreases n,
{
    if n <= 0 {
        -1
    } else {
        let before = first_best(players, final_phase, n - 1);
        if !finished(players[n - 1], final_phase) {
            before
        } else if before < 0 || players[n - 1].total_score() < players[before].total_score() {
            n - 1
        } else {
            before
        }
    }
}

proof fn lemma_first_best(players: Seq<PlayerView>, final_phase: nat, n: int)
    requires
        0 <= n <= players.len(),
    ensures
        ({
            let w = first_best(players, final_phase, n);
            if w < 0 {
                forall|j: int| 0 <= j < n ==> !finished(#[trigger] players[j], final_phase)
            } else {
                &&& w < n
                &&& finished(players[w], final_phase)
                &&& forall|j: int|
                    0 <= j < n && finished(#[trigger] players[j], final_phase)
                        ==> players[w].total_score() <= players[j].total_score()
                &&& forall|j: int|
                    0 <= j < w && finished(#[trigger] players[j], final_phase)
                        ==> players[w].total_score() < players[j].total_score()
            }
        }),
    decreases n,
{
    if n > 0 {
        lemma_first_best(players, final_phase, n - 1);
    }
}

/// The index of the player who has won the game of `final_phase` phases, if
/// the game is over.
///
/// The game is over as soon as a player has completed all phases. Of the
/// players who have, the one with the lowest total score wins; if several
/// have that score, the first of them in the given order wins.
pub fn winner(players: &Vec<Player>, final_phase: u128) -> (won: Option<usize>)
    ensures
        match won {
            Some(w) => wins(views(players@), final_phase as nat, w as int),
            None => undecided(views(players@), final_phase as nat),
        },
{
    let ghost all = views(players@);
    let mut best: Option<usize> = None;
    let mut best_total: u128 = 0;
    let mut j: usize = 0;
    while j < players.len()
        invariant
            j <= players.len(),
            all == views(players@),
            match best {
                Some(w) => {
                    &&& w < j
                    &&& finished(all[w as int], final_phase as nat)
                    &&& best_total == all[w as int].total_score()
                    &&& forall|k: int|
                        0 <= k < j && finished(#[trigger] all[k], final_phase as nat) ==> best_total
                            <= all[k].total_score()
                    &&& forall|k: int|
                        0 <= k < w && finished(#[trigger] all[k], final_phase as nat) ==> best_total
                            < all[k].total_score()
                },
                None => forall|k: int|
                    0 <= k < j ==> !finished(#[trigger] all[k], final_phase as nat),
            },
        decreases players.len() - j,
    {
        let player: &Player = &players[j];
        assert(all[j as int] == player@);
        if player.phase() - 1 == final_phase {
            let total: u128 = player.total_score();
            match best {
                Some(_) => {
                    if total < best_total {
                        best = Some(j);
                        best_total = total;
                    }
                },
                None => {
                    best = Some(j);
                    best_total = total;
                },
            }
        }
        j = j + 1;
    }
    best
}

} // verus!
