use boardgame_analyzer::models::BoardGame;
use boardgame_analyzer::rating::Rating;
use boardgame_analyzer::recommend::{recommend_games_by_players, recommend_games_by_rating};

fn at(value: f32) -> Rating {
    Rating::from_bits(value.to_bits())
}

fn game(name: &str, min: Option<u8>, max: Option<u8>, rating: Option<f32>) -> BoardGame {
    BoardGame {
        Name: name.to_string(),
        YearPublished: Some(2020),
        MinPlayers: min,
        MaxPlayers: max,
        MfgPlaytime: 60,
        AvgRating: rating.map(at),
    }
}

fn names(games: &[&BoardGame]) -> Vec<String> {
    games.iter().map(|g| g.Name.clone()).collect()
}

fn shelf() -> Vec<BoardGame> {
    vec![
        game("duel", Some(2), Some(2), Some(7.8)),
        game("party", Some(4), Some(10), Some(6.1)),
        game("solo", Some(1), Some(1), None),
        game("family", Some(2), Some(6), Some(7.0)),
        game("no max", Some(2), None, Some(9.0)),
        game("no min", None, Some(5), Some(8.5)),
        game("unknown", None, None, None),
        game("inverted", Some(6), Some(3), Some(5.0)),
    ]
}

#[test]
fn by_players_on_two_games() {
    let games =
        vec![game("a", Some(2), Some(4), Some(7.0)), game("b", Some(3), Some(5), Some(8.0))];
    assert!(recommend_games_by_players(&games, 6).is_empty());
    assert_eq!(names(&recommend_games_by_players(&games, 3)), vec!["a", "b"]);
    assert_eq!(names(&recommend_games_by_players(&games, 2)), vec!["a"]);
    assert_eq!(names(&recommend_games_by_players(&games, 5)), vec!["b"]);
    assert!(recommend_games_by_players(&games, 1).is_empty());
}

#[test]
fn by_players_keeps_order_and_refers_to_the_input() {
    let games = shelf();
    let recommended = recommend_games_by_players(&games, 2);
    assert_eq!(names(&recommended), vec!["duel", "family"]);
    assert!(std::ptr::eq(recommended[0], &games[0]));
    assert!(std::ptr::eq(recommended[1], &games[3]));
}

#[test]
fn by_players_includes_both_bounds() {
    let games = shelf();
    assert_eq!(names(&recommend_games_by_players(&games, 4)), vec!["party", "family"]);
    assert_eq!(names(&recommend_games_by_players(&games, 10)), vec!["party"]);
    assert_eq!(names(&recommend_games_by_players(&games, 6)), vec!["party", "family"]);
    assert!(recommend_games_by_players(&games, 11).is_empty());
    assert!(recommend_games_by_players(&games, 0).is_empty());
}

#[test]
fn by_players_leaves_out_games_that_lack_a_bound() {
    let games = shelf();
    for players in 0..=255u8 {
        for g in recommend_games_by_players(&games, players) {
            let (min, max) = (g.MinPlayers.unwrap(), g.MaxPlayers.unwrap());
            assert!(min <= players && players <= max);
        }
    }
    assert_eq!(names(&recommend_games_by_players(&games, 1)), vec!["solo"]);
}

#[test]
fn by_players_leaves_out_bounds_the_wrong_way_round() {
    let games = vec![game("inverted", Some(6), Some(3), None)];
    for players in 0..=255u8 {
        assert!(recommend_games_by_players(&games, players).is_empty());
    }
}

#[test]
fn by_players_of_no_games() {
    assert!(recommend_games_by_players(&[], 3).is_empty());
}

#[test]
fn by_rating_counts_an_unrated_game_as_zero() {
    let games = vec![game("unrated", Some(2), Some(4), None)];
    assert_eq!(names(&recommend_games_by_rating(&games, at(0.0))), vec!["unrated"]);
    assert_eq!(names(&recommend_games_by_rating(&games, at(-0.0))), vec!["unrated"]);
    assert_eq!(names(&recommend_games_by_rating(&games, at(-1.0))), vec!["unrated"]);
    assert!(recommend_games_by_rating(&games, at(0.1)).is_empty());
}

#[test]
fn by_rating_keeps_order_and_refers_to_the_input() {
    let games = shelf();
    let recommended = recommend_games_by_rating(&games, at(7.0));
    assert_eq!(names(&recommended), vec!["duel", "family", "no max", "no min"]);
    assert!(std::ptr::eq(recommended[0], &games[0]));
    assert!(std::ptr::eq(recommended[1], &games[3]));
    assert!(std::ptr::eq(recommended[2], &games[4]));
    assert!(std::ptr::eq(recommended[3], &games[5]));
}

#[test]
fn by_rating_includes_the_bar_itself() {
    let games = shelf();
    assert_eq!(names(&recommend_games_by_rating(&games, at(9.0))), vec!["no max"]);
    assert!(recommend_games_by_rating(&games, at(9.1)).is_empty());
    assert_eq!(recommend_games_by_rating(&games, at(0.0)).len(), games.len());
}

#[test]
fn by_rating_every_result_reaches_the_bar() {
    let games = shelf();
    for bar in [-1.0f32, 0.0, 5.0, 6.1, 7.0, 7.8, 8.5, 9.0, 10.0] {
        for g in recommend_games_by_rating(&games, at(bar)) {
            let rating = g.AvgRating.map_or(0.0, |r| f32::from_bits(r.to_bits()));
            assert!(rating >= bar);
        }
    }
}

#[test]
fn by_rating_raising_the_bar_never_recommends_more() {
    let games = shelf();
    let bars = [-1.0f32, 0.0, 5.0, 6.1, 7.0, 7.8, 8.5, 9.0, 10.0];
    let mut last = usize::MAX;
    for bar in bars {
        let count = recommend_games_by_rating(&games, at(bar)).len();
        assert!(count <= last);
        last = count;
    }
    assert_eq!(recommend_games_by_rating(&games, at(-1.0)).len(), 8);
    assert_eq!(recommend_games_by_rating(&games, at(5.0)).len(), 6);
    assert_eq!(recommend_games_by_rating(&games, at(10.0)).len(), 0);
}

#[test]
fn by_rating_with_nan() {
    let mut games = shelf();
    games.push(game("nan", None, None, Some(f32::NAN)));
    assert!(recommend_games_by_rating(&games, at(f32::NAN)).is_empty());
    let all = recommend_games_by_rating(&games, at(f32::NEG_INFINITY));
    assert_eq!(all.len(), games.len() - 1);
    assert!(all.iter().all(|g| g.Name != "nan"));
}

#[test]
fn by_rating_of_no_games() {
    assert!(recommend_games_by_rating(&[], at(0.0)).is_empty());
}
