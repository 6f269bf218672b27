//! The standings of a game as a table of text, ready to be shown.
//!
//! The table has a title row, one row for every round that any player has
//! played, and a row of totals. The first column names the row; every other
//! column belongs to one player, so all rows are of the same length.

use vstd::prelude::*;

use crate::decimal::{decimal, decimal_text};
use crate::player::{views, Player, PlayerView};
use crate::round::Round;

verus! {

/// One cell of the table: its text, and whether it is shown in bold.
#[derive(Debug, PartialEq, Eq)]
pub struct Cell {
    pub text: String,
    pub bold: bool,
}

/// A cell as a mathematical value.
pub struct CellView {
    pub text: Seq<char>,
    pub bold: bool,
}

impl View for Cell {
    type V = CellView;

    open spec fn view(&self) -> CellView {
        CellView { text: self.text@, bold: self.bold }
    }
}

/// The standings: the title row, the rows of the rounds from the first
/// round on, and the row of totals.
#[derive(Debug, PartialEq, Eq)]
pub struct Standings {
    pub title: Vec<Cell>,
    pub rounds: Vec<Vec<Cell>>,
    pub totals: Vec<Cell>,
}

/// The standings as a mathematical value.
pub struct StandingsView {
    pub title: Seq<CellView>,
    pub rounds: Seq<Seq<CellView>>,
    pub totals: Seq<CellView>,
}

/// A row of cells as mathematical values.
pub open spec fn row_view(row: Seq<Cell>) -> Seq<CellView> {
    row.map_values(|cell: Cell| cell@)
}

impl View for Standings {
    type V = StandingsView;

    open spec fn view(&self) -> StandingsView {
        StandingsView {
            title: row_view(self.title@),
            rounds: self.rounds@.map_values(|row: Vec<Cell>| row_view(row@)),
            totals: row_view(self.totals@),
        }
    }
}

/// The largest number of rounds that any of `players` has played; zero if
/// there are no players.
pub open spec fn most_rounds(players: Seq<PlayerView>) -> nat
    decreases players.len(),
{
    if players.len() == 0 {
        0
    } else {
        let before = most_rounds(players.drop_last());
        let last = players.last().rounds.len();
        if last > before {
            last
        } else {
            before
        }
    }
}

/// What a player's column is headed with: the name and the current phase.
pub open spec fn heading(player: PlayerView) -> Seq<char> {
    player.name + ": "@ + decimal(player.phase())
}

/// How the result of a round is shown: the score, followed by a plus sign
/// if the round completed a phase.
pub open spec fn round_text(round: Round) -> Seq<char> {
    if round.phased_up {
        decimal(round.score as nat) + "+"@
    } else {
        decimal(round.score as nat)
    }
}

/// What a player's column shows for the round with index `i`: the result
/// of that round, or nothing if the player has not played it.
pub open spec fn entry(player: PlayerView, i: int) -> Seq<char> {
    if 0 <= i < player.rounds.len() {
        round_text(player.rounds[i])
    } else {
        Seq::empty()
    }
}

/// How the round with index `i` is named: rounds are numbered from one.
pub open spec fn round_label(i: int) -> Seq<char> {
    "Round "@ + decimal((i + 1) as nat)
}

/// What a player's column ends with: the total score.
pub open spec fn total_text(player: PlayerView) -> Seq<char> {
    "Total: "@ + decimal(player.total_score())
}

/// The title row: the heading of the first column, then one heading for
/// every player, all in bold.
pub open spec fn title_row(players: Seq<PlayerView>) -> Seq<CellView> {
    Seq::new(
        players.len() + 1,
        |j: int|
            if j == 0 {
                CellView { text: "Round"@, bold: true }
            } else {
                CellView { text: heading(players[j - 1]), bold: true }
            },
    )
}

/// The row of the round with index `i`: its name in bold, then every
/// player's entry for that round.
pub open spec fn round_row(players: Seq<PlayerView>, i: int) -> Seq<CellView> {
    Seq::new(
        players.len() + 1,
        |j: int|
            if j == 0 {
                CellView { text: round_label(i), bold: true }
            } else {
                CellView { text: entry(players[j - 1], i), bold: false }
            },
    )
}

/// The last row: an empty cell, then every player's total in bold.
pub open spec fn total_row(players: Seq<PlayerView>) -> Seq<CellView> {
    Seq::new(
        players.len() + 1,
        |j: int|
            if j == 0 {
                CellView { text: Seq::empty(), bold: false }
            } else {
                CellView { text: total_text(players[j - 1]), bold: true }
            },
    )
}

/// The standings of `players`: the title row; one row for every round up to
/// the largest number of rounds that any player has played; and the row of
/// totals.
pub open spec fn standings_of(players: Seq<PlayerView>) -> StandingsView {
    StandingsView {
        title: title_row(players),
        rounds: Seq::new(most_rounds(players), |i: int| round_row(players, i)),
        totals: total_row(players),
    }
}

/// No player has played more rounds than `most_rounds` says, and, if there
/// are players at all, one of them has played exactly that many.
pub proof fn lemma_most_rounds(players: Seq<PlayerView>)
    ensures
        forall|j: int| 0 <= j < players.len() ==> players[j].rounds.len() <= most_rounds(players),
        players.len() == 0 ==> most_rounds(players) == 0,
        players.len() > 0 ==> exists|j: int|
            0 <= j < players.len() && players[j].rounds.len() == most_rounds(players),
    decreases players.len(),
{
    if players.len() > 0 {
        let before = players.drop_last();
        lemma_most_rounds(before);
        assert forall|j: int| 0 <= j < players.len() implies players[j].rounds.len()
            <= most_rounds(players) by {
            if j < before.len() {
                assert(before[j] == players[j]);
            }
        }
        if players.last().rounds.len() > most_rounds(before) {
            assert(players[players.len() - 1].rounds.len() == most_rounds(players));
        } else if before.len() > 0 {
            let j = choose|j: int|
                0 <= j < before.len() && before[j].rounds.len() == most_rounds(before);
            assert(players[j].rounds.len() == most_rounds(players));
        } else {
            assert(players[0].rounds.len() == most_rounds(players));
        }
    }
}

/// The largest number of rounds that any of `players` has played.
fn rounds_played(players: &Vec<Player>) -> (played: usize)
    ensures
        played == most_rounds(views(players@)),
{
    let mut played: usize = 0;
    let mut j: usize = 0;
    while j < players.len()
        invariant
            j <= players.len(),
            played == most_rounds(views(players@).take(j as int)),
        decreases players.len() - j,
    {
        let count: usize = players[j].get_rounds().len();
        proof {
            let all = views(players@);
            assert(all.take(j + 1).drop_last() =~= all.take(j as int));
            assert(all.take(j + 1).last() == players@[j as int]@);
        }
        if count > played {
            played = count;
        }
        j = j + 1;
    }
    assert(views(players@).take(j as int) =~= views(players@));
    played
}

/// The text of a player's column heading.
fn heading_text(player: &Player) -> (text: String)
    ensures
        text@ == heading(player@),
{
    let mut text: String = player.name().to_owned();
    text.append(": ");
    text.append(decimal_text(player.phase()).as_str());
    text
}

/// The text of a player's entry for the round with index `i`.
fn entry_text(player: &Player, i: usize) -> (text: String)
    ensures
        text@ == entry(player@, i as int),
{
    match player.get_round(i) {
        Ok(round) => {
            let mut text: String = decimal_text(round.score as u128);
            if round.phased_up {
                text.append("+");
            }
            text
        },
        Err(_) => String::new(),
    }
}

/// The text that names the round with index `i`.
fn round_label_text(i: usize) -> (text: String)
    ensures
        text@ == round_label(i as int),
{
    let mut text: String = "Round ".to_owned();
    text.append(decimal_text(i as u128 + 1).as_str());
    text
}

/// The text of a player's total.
fn total_text_of(player: &Player) -> (text: String)
    ensures
        text@ == total_text(player@),
{
    let mut text: String = "Total: ".to_owned();
    text.append(decimal_text(player.total_score()).as_str());
    text
}

/// The title row for `players`.
fn make_title_row(players: &Vec<Player>) -> (row: Vec<Cell>)
    ensures
        row_view(row@) == title_row(views(players@)),
{
    let mut row: Vec<Cell> = Vec::new();
    row.push(Cell { text: "Round".to_owned(), bold: true });
    let mut j: usize = 0;
    while j < players.len()
        invariant
            j <= players.len(),
            row@.len() == j + 1,
            forall|k: int| 0 <= k <= j ==> row@[k]@ == title_row(views(players@))[k],
        decreases players.len() - j,
    {
        row.push(Cell { text: heading_text(&players[j]), bold: true });
        j = j + 1;
    }
    assert(row_view(row@) =~= title_row(views(players@)));
    row
}

/// The row of the round with index `i` for `players`.
fn make_round_row(players: &Vec<Player>, i: usize) -> (row: Vec<Cell>)
    ensures
        row_view(row@) == round_row(views(players@), i as int),
{
    let mut row: Vec<Cell> = Vec::new();
    row.push(Cell { text: round_label_text(i), bold: true });
    let mut j: usize = 0;
    while j < players.len()
        invariant
            j <= players.len(),
            row@.len() == j + 1,
            forall|k: int| 0 <= k <= j ==> row@[k]@ == round_row(views(players@), i as int)[k],
        decreases players.len() - j,
    {
        row.push(Cell { text: entry_text(&players[j], i), bold: false });
        j = j + 1;
    }
    assert(row_view(row@) =~= round_row(views(players@), i as int));
    row
}

/// The row of totals for `players`.
fn make_total_row(players: &Vec<Player>) -> (row: Vec<Cell>)
    ensures
        row_view(row@) == total_row(views(players@)),
{
    let mut row: Vec<Cell> = Vec::new();
    row.push(Cell { text: String::new(), bold: false });
    let mut j: usize = 0;
    while j < players.len()
        invariant
            j <= players.len(),
            row@.len() == j + 1,
            forall|k: int| 0 <= k <= j ==> row@[k]@ == total_row(views(players@))[k],
        decreases players.len() - j,
    {
        row.push(Cell { text: total_text_of(&players[j]), bold: true });
        j = j + 1;
    }
    assert(row_view(row@) =~= total_row(views(players@)));
    row
}

/// The standings of `players`, one column for each in the given order.
///
/// There is a row for every round that any player has played. Where a
/// player has played fewer rounds than another, the cells of the rounds
/// that are missing are empty.
pub fn standings(players: &Vec<Player>) -> (table: Standings)
    ensures
        table@ == standings_of(views(players@)),
        table@.title.len() == players@.len() + 1,
        table@.totals.len() == players@.len() + 1,
        table@.rounds.len() == most_rounds(views(players@)),
        forall|i: int|
            0 <= i < table@.rounds.len() ==> (#[trigger] table@.rounds[i]).len() == players@.len()
                + 1,
{
    let played: usize = rounds_played(players);
    let title: Vec<Cell> = make_title_row(players);
    let mut rows: Vec<Vec<Cell>> = Vec::new();
    let mut i: usize = 0;
    while i < played
        invariant
            i <= played,
            rows@.len() == i,
            forall|k: int| 0 <= k < i ==> row_view(#[trigger] rows@[k]@) == round_row(views(players@), k),
        decreases played - i,
    {
        rows.push(make_round_row(players, i));
        i = i + 1;
    }
    let table = Standings { title, rounds: rows, totals: make_total_row(players) };
    assert(table@.rounds =~= standings_of(views(players@)).rounds);
    table
}

} // verus!
