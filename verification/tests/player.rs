use phase_score::error::ScoreError;
use phase_score::player::Player;
use phase_score::round::Round;

fn player(name: &str) -> Player {
    Player::new(name).unwrap()
}

#[test]
fn round_keeps_what_it_was_given() {
    let round = Round::new(15, true);
    assert_eq!(round.score, 15);
    assert!(round.phased_up);
    let round = Round::new(0, false);
    assert_eq!(round.score, 0);
    assert!(!round.phased_up);
}

#[test]
fn round_is_won_with_no_points_only() {
    assert!(Round::new(0, false).won());
    assert!(Round::new(0, true).won());
    assert!(!Round::new(1, true).won());
    assert!(!Round::new(usize::MAX, false).won());
}

#[test]
fn new_player_keeps_the_name() {
    assert_eq!(player("Alice").name(), "Alice");
    assert_eq!(player(" ").name(), " ");
}

#[test]
fn new_player_without_a_name_is_refused() {
    assert_eq!(Player::new("").err(), Some(ScoreError::InvalidName));
}

#[test]
fn new_player_is_in_phase_one_with_no_points() {
    let p = player("Alice");
    assert_eq!(p.phase(), 1);
    assert_eq!(p.total_score(), 0);
    assert!(p.get_rounds().is_empty());
}

#[test]
fn total_score_is_the_sum_of_the_scores() {
    let mut p = player("Alice");
    let scores: [usize; 5] = [15, 0, 40, 5, 125];
    let mut sum: u128 = 0;
    for (n, score) in scores.iter().enumerate() {
        p.add_round(*score, n % 2 == 0);
        sum += *score as u128;
        assert_eq!(p.total_score(), sum);
    }
    assert_eq!(p.total_score(), 185);
}

#[test]
fn total_score_does_not_wrap() {
    let mut p = player("Alice");
    p.add_round(usize::MAX, false);
    p.add_round(usize::MAX, false);
    p.add_round(1, false);
    assert_eq!(p.total_score(), 2 * (usize::MAX as u128) + 1);
}

#[test]
fn phase_is_one_more_than_the_rounds_that_phased_up() {
    let mut p = player("Alice");
    let flags = [true, false, false, true, true, false];
    let mut advances: u128 = 0;
    for flag in flags {
        p.add_round(10, flag);
        if flag {
            advances += 1;
        }
        assert_eq!(p.phase(), 1 + advances);
    }
    assert_eq!(p.phase(), 4);
}

#[test]
fn phase_goes_beyond_what_a_byte_holds() {
    let mut p = player("Alice");
    for _ in 0..300 {
        p.add_round(0, true);
    }
    assert_eq!(p.phase(), 301);
}

#[test]
fn phase_and_total_never_go_down() {
    let mut p = player("Alice");
    let results = [(5, false), (0, true), (0, false), (30, true)];
    for (score, phased_up) in results {
        let phase = p.phase();
        let total = p.total_score();
        p.add_round(score, phased_up);
        assert!(p.phase() >= phase);
        assert!(p.total_score() >= total);
    }
}

#[test]
fn add_round_appends_one_round_and_keeps_the_others() {
    let mut p = player("Alice");
    let results = [(5, false), (0, true), (70, false), (30, true)];
    for (n, (score, phased_up)) in results.iter().enumerate() {
        let before: Vec<Round> = p.get_rounds().clone();
        p.add_round(*score, *phased_up);
        assert_eq!(p.get_rounds().len(), n + 1);
        assert_eq!(&p.get_rounds()[..n], &before[..]);
        for (i, old) in before.iter().enumerate() {
            assert_eq!(p.get_round(i), Ok(old));
        }
        assert_eq!(p.get_round(n), Ok(&Round::new(*score, *phased_up)));
        assert_eq!(p.name(), "Alice");
    }
}

#[test]
fn get_round_gives_the_rounds_in_the_order_played() {
    let mut p = player("Bob");
    p.add_round(15, false);
    p.add_round(0, true);
    assert_eq!(p.get_round(0), Ok(&Round { score: 15, phased_up: false }));
    assert_eq!(p.get_round(1), Ok(&Round { score: 0, phased_up: true }));
    assert_eq!(
        p.get_rounds(),
        &vec![Round { score: 15, phased_up: false }, Round { score: 0, phased_up: true }]
    );
}

#[test]
fn get_round_at_the_number_of_rounds_is_an_error() {
    let mut p = player("Bob");
    assert_eq!(p.get_round(0), Err(ScoreError::RoundOutOfRange { index: 0, len: 0 }));
    p.add_round(0, false);
    p.add_round(0, false);
    assert_eq!(p.get_round(2), Err(ScoreError::RoundOutOfRange { index: 2, len: 2 }));
    assert_eq!(
        p.get_round(usize::MAX),
        Err(ScoreError::RoundOutOfRange { index: usize::MAX, len: 2 })
    );
}
