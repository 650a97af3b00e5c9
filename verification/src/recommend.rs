//! Recommendations: the games of a collection that meet a wish.

use crate::models::BoardGame;
use crate::rating::Rating;
use vstd::prelude::*;

verus! {

/// The test that a game can be played by `players` people.
pub open spec fn fits_players(players: u8) -> spec_fn(BoardGame) -> bool {
    |g: BoardGame| g.supports(players)
}

/// The test that a game is rated at least `min_rating`, an unrated game
/// counting as rated 0.0.
pub open spec fn reaches_rating(min_rating: Rating) -> spec_fn(BoardGame) -> bool {
    |g: BoardGame| g.rating_or_zero().ge(min_rating)
}

/// The games that `players` people can play, in the order of the collection.
pub open spec fn supporting(games: Seq<BoardGame>, players: u8) -> Seq<BoardGame> {
    games.filter(fits_players(players))
}

/// The games rated at least `min_rating`, in the order of the collection. An
/// unrated game counts as rated 0.0 here.
pub open spec fn rated_at_least(games: Seq<BoardGame>, min_rating: Rating) -> Seq<BoardGame> {
    games.filter(reaches_rating(min_rating))
}

/// The records that a sequence of references points to.
pub open spec fn records(refs: Seq<&BoardGame>) -> Seq<BoardGame> {
    refs.map_values(|g: &BoardGame| *g)
}

/// The games that `desired_players` people can play.
///
/// A game is recommended exactly when both bounds of its player range are
/// present and `desired_players` lies between them, bounds included. The
/// result keeps the order of `games` and refers to its records.
pub fn recommend_games_by_players(games: &[BoardGame], desired_players: u8) -> (recommended: Vec<
    &BoardGame,
>)
    ensures
        records(recommended@) == supporting(games@, desired_players),
        forall|i: int|
            0 <= i < recommended@.len() ==> games@.contains(*#[trigger] recommended@[i])
                && recommended@[i].supports(desired_players),
{
    let mut recommended: Vec<&BoardGame> = Vec::new();
    let mut n: usize = 0;
    while n < games.len()
        invariant
            n <= games@.len(),
            records(recommended@) == supporting(games@.take(n as int), desired_players),
        decreases games@.len() - n,
    {
        proof {
            reveal(Seq::filter);
            assert(games@.take(n + 1).drop_last() =~= games@.take(n as int));
        }
        let game = &games[n];
        let fits = if let (Some(min), Some(max)) = (game.MinPlayers, game.MaxPlayers) {
            min <= desired_players && desired_players <= max
        } else {
            false
        };
        if fits {
            recommended.push(game);
        }
        n += 1;
    }
    proof {
        assert(games@.take(n as int) =~= games@);
        lemma_filter_facts(games@, fits_players(desired_players));
        assert forall|i: int| 0 <= i < recommended@.len() implies *#[trigger] recommended@[i]
            == supporting(games@, desired_players)[i] by {
            assert(records(recommended@)[i] == *recommended@[i]);
        }
    }
    recommended
}

/// The games rated at least `min_rating`.
///
/// A game is recommended exactly when its rating, with 0.0 in place of a
/// missing one, is at least `min_rating`. The result keeps the order of
/// `games` and refers to its records.
pub fn recommend_games_by_rating(games: &[BoardGame], min_rating: Rating) -> (recommended: Vec<
    &BoardGame,
>)
    ensures
        records(recommended@) == rated_at_least(games@, min_rating),
        forall|i: int|
            0 <= i < recommended@.len() ==> games@.contains(*#[trigger] recommended@[i])
                && recommended@[i].rating_or_zero().ge(min_rating),
{
    let mut recommended: Vec<&BoardGame> = Vec::new();
    let mut n: usize = 0;
    while n < games.len()
        invariant
            n <= games@.len(),
            records(recommended@) == rated_at_least(games@.take(n as int), min_rating),
        decreases games@.len() - n,
    {
        proof {
            reveal(Seq::filter);
            assert(games@.take(n + 1).drop_last() =~= games@.take(n as int));
        }
        let game = &games[n];
        let rating = match game.AvgRating {
            Some(r) => r,
            None => Rating::from_bits(0),
        };
        if rating.ge(min_rating) {
            recommended.push(game);
        }
        n += 1;
    }
    proof {
        assert(games@.take(n as int) =~= games@);
        lemma_filter_facts(games@, reaches_rating(min_rating));
        assert forall|i: int| 0 <= i < recommended@.len() implies *#[trigger] recommended@[i]
            == rated_at_least(games@, min_rating)[i] by {
            assert(records(recommended@)[i] == *recommended@[i]);
        }
    }
    recommended
}

/// Raising the rating asked for never lengthens the recommendation: the games
/// recommended at the higher rating are those among the games recommended at
/// the lower rating that reach the higher one.
pub proof fn lemma_raising_rating_recommends_fewer(
    games: Seq<BoardGame>,
    lower: Rating,
    higher: Rating,
)
    requires
        higher.ge(lower),
    ensures
        rated_at_least(games, higher) == rated_at_least(rated_at_least(games, lower), higher),
        rated_at_least(games, higher).len() <= rated_at_least(games, lower).len(),
    decreases games.len(),
{
    reveal(Seq::filter);
    if games.len() > 0 {
        let rest = games.drop_last();
        lemma_raising_rating_recommends_fewer(rest, lower, higher);
        if reaches_rating(lower)(games.last()) {
            assert(rated_at_least(rest, lower).push(games.last()).drop_last() =~= rated_at_least(
                rest,
                lower,
            ));
        }
    }
    rated_at_least(games, lower).lemma_filter_len(reaches_rating(higher));
}

/// What is kept by a filter satisfies it and comes from the sequence.
proof fn lemma_filter_facts(games: Seq<BoardGame>, keep: spec_fn(BoardGame) -> bool)
    ensures
        forall|i: int|
            0 <= i < games.filter(keep).len() ==> keep(#[trigger] games.filter(keep)[i])
                && games.contains(games.filter(keep)[i]),
{
    let kept = games.filter(keep);
    assert forall|i: int| 0 <= i < kept.len() implies keep(#[trigger] kept[i]) && games.contains(
        kept[i],
    ) by {
        games.lemma_filter_pred(keep, i);
        assert(kept.contains(kept[i]));
        games.lemma_filter_contains_rev(keep, kept[i]);
    }
}

} // verus!
