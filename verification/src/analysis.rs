//! Summary statistics over a collection of board games.

use crate::models::BoardGame;
use crate::rating::Rating;
use crate::recommend::{fits_players, supporting};
use std::collections::HashMap;
use vstd::prelude::*;
use vstd::std_specs::hash::group_hash_axioms;

verus! {

/// The ratings that are present, in the order of their records.
pub open spec fn present_ratings(games: Seq<BoardGame>) -> Seq<Rating> {
    games.filter_map(|g: BoardGame| g.AvgRating)
}

/// The ratings over which the average rating is taken.
///
/// The average rating of a collection is the sum of the ratings that are
/// present, divided by their number; unrated games count neither as zero nor
/// towards the divisor. This function settles which ratings those are and in
/// which order they are summed, and whether there is an average at all: the
/// result is `None` exactly when no game is rated. The sum and the quotient
/// are floating-point arithmetic and are left to the caller.
pub fn analyze_average_rating(games: &[BoardGame]) -> (ratings: Option<Vec<Rating>>)
    ensures
        ratings is None <==> present_ratings(games@).len() == 0,
        ratings is None <==> forall|i: int|
            0 <= i < games@.len() ==> (#[trigger] games@[i]).AvgRating is None,
        ratings matches Some(present) ==> present@ == present_ratings(games@),
{
    let mut present: Vec<Rating> = Vec::new();
    let mut n: usize = 0;
    while n < games.len()
        invariant
            n <= games@.len(),
            present@ == present_ratings(games@.take(n as int)),
            present@.len() == 0 <==> forall|i: int|
                0 <= i < n ==> (#[trigger] games@[i]).AvgRating is None,
        decreases games@.len() - n,
    {
        proof {
            assert(games@.take(n + 1).drop_last() =~= games@.take(n as int));
        }
        if let Some(rating) = games[n].AvgRating {
            present.push(rating);
        }
        n += 1;
    }
    proof {
        assert(games@.take(n as int) =~= games@);
    }
    if present.len() > 0 {
        Some(present)
    } else {
        None
    }
}

/// Whether record `i` holds the first rating of the collection: it is rated
/// and no record before it is.
pub open spec fn is_first_rated(games: Seq<BoardGame>, i: int) -> bool {
    &&& 0 <= i < games.len()
    &&& games[i].AvgRating is Some
    &&& forall|j: int| 0 <= j < i ==> (#[trigger] games[j]).AvgRating is None
}

/// Whether the first rating of the collection is a NaN.
pub open spec fn first_rating_is_nan(games: Seq<BoardGame>) -> bool {
    exists|i: int| is_first_rated(games, i) && games[i].rating().is_nan()
}

/// Whether record `i` is the one reported as highest rated.
///
/// It is the first of the rated records whose rating no rating exceeds.
/// Ratings compare as binary32 numbers, so a NaN compares false with
/// everything: it displaces no other rating and no other rating displaces it.
/// Where the first rating of the collection is a NaN, the record that holds it
/// is therefore the one reported; a NaN anywhere else is passed over.
pub open spec fn is_highest_rated(games: Seq<BoardGame>, i: int) -> bool {
    &&& 0 <= i < games.len()
    &&& games[i].AvgRating is Some
    &&& if first_rating_is_nan(games) {
        is_first_rated(games, i)
    } else {
        &&& !games[i].rating().is_nan()
        &&& forall|j: int|
            0 <= j < games.len() && (#[trigger] games[j]).AvgRating is Some
                ==> !games[j].rating().gt(games[i].rating())
        &&& forall|j: int|
            0 <= j < i && (#[trigger] games[j]).AvgRating is Some ==> !games[j].rating().ge(
                games[i].rating(),
            )
    }
}

/// Whether record `i` is the one reported as lowest rated: the first of the
/// rated records whose rating is above no other rating, with a NaN treated as
/// in [`is_highest_rated`].
pub open spec fn is_lowest_rated(games: Seq<BoardGame>, i: int) -> bool {
    &&& 0 <= i < games.len()
    &&& games[i].AvgRating is Some
    &&& if first_rating_is_nan(games) {
        is_first_rated(games, i)
    } else {
        &&& !games[i].rating().is_nan()
        &&& forall|j: int|
            0 <= j < games.len() && (#[trigger] games[j]).AvgRating is Some
                ==> !games[j].rating().lt(games[i].rating())
        &&& forall|j: int|
            0 <= j < i && (#[trigger] games[j]).AvgRating is Some ==> !games[i].rating().ge(
                games[j].rating(),
            )
    }
}

/// At most one record is the highest rated.
pub proof fn lemma_highest_rated_unique(games: Seq<BoardGame>, i: int, j: int)
    requires
        is_highest_rated(games, i),
        is_highest_rated(games, j),
    ensures
        i == j,
{
}

/// At most one record is the lowest rated.
pub proof fn lemma_lowest_rated_unique(games: Seq<BoardGame>, i: int, j: int)
    requires
        is_lowest_rated(games, i),
        is_lowest_rated(games, j),
    ensures
        i == j,
{
}

/// The highest rating is at least the lowest one, unless the first rating of
/// the collection is a NaN: that record is then both extremes, and a NaN is
/// not at least itself.
pub proof fn lemma_highest_not_below_lowest(games: Seq<BoardGame>, high: int, low: int)
    requires
        is_highest_rated(games, high),
        is_lowest_rated(games, low),
        !first_rating_is_nan(games),
    ensures
        games[high].rating().ge(games[low].rating()),
{
}

/// Every rating that the average is taken over lies between the two extremes:
/// none exceeds the rating of the highest rated game, and none is less than
/// the rating of the lowest rated one.
pub proof fn lemma_present_ratings_within_extremes(games: Seq<BoardGame>, high: int, low: int)
    requires
        is_highest_rated(games, high),
        is_lowest_rated(games, low),
    ensures
        forall|k: int|
            0 <= k < present_ratings(games).len() ==> !(#[trigger] present_ratings(games)[k]).gt(
                games[high].rating(),
            ) && !present_ratings(games)[k].lt(games[low].rating()),
{
    let present = present_ratings(games);
    assert forall|k: int| 0 <= k < present.len() implies !(#[trigger] present[k]).gt(
        games[high].rating(),
    ) && !present[k].lt(games[low].rating()) by {
        assert(present.contains(present[k]));
        games.lemma_filter_map_contains(|g: BoardGame| g.AvgRating, present[k]);
        let g = choose|g: BoardGame| #[trigger]
            games.contains(g) && g.AvgRating == Some(present[k]);
        let i = choose|i: int| 0 <= i < games.len() && games[i] == g;
        assert(games[i].AvgRating is Some);
    }
}

/// The first rated record is both extremes of the collection that ends with
/// it.
proof fn lemma_extremes_start(games: Seq<BoardGame>)
    requires
        games.len() > 0,
        is_first_rated(games, games.len() - 1),
    ensures
        is_highest_rated(games, games.len() - 1),
        is_lowest_rated(games, games.len() - 1),
{
}

/// The extremes of a collection that has grown by one record.
proof fn lemma_extremes_step(games: Seq<BoardGame>, high: int, low: int)
    requires
        games.len() > 0,
        is_highest_rated(games.drop_last(), high),
        is_lowest_rated(games.drop_last(), low),
    ensures
        games.last().AvgRating is None ==> is_highest_rated(games, high) && is_lowest_rated(
            games,
            low,
        ),
        games.last().AvgRating is Some ==> is_highest_rated(
            games,
            if games.last().rating().gt(games[high].rating()) {
                games.len() - 1
            } else {
                high
            },
        ),
        games.last().AvgRating is Some ==> is_lowest_rated(
            games,
            if games.last().rating().lt(games[low].rating()) {
                games.len() - 1
            } else {
                low
            },
        ),
{
    let before = games.drop_last();
    let last = games.len() - 1;
    assert forall|j: int| 0 <= j < last implies #[trigger] games[j] == before[j] by {}
    assert forall|j: int| 0 <= j < last implies is_first_rated(games, j)
        == #[trigger] is_first_rated(before, j) by {
        assert forall|k: int| 0 <= k < j implies #[trigger] before[k] == games[k] by {}
    }
    assert(!is_first_rated(games, last)) by {
        assert(before[high].AvgRating is Some);
    }
    assert(first_rating_is_nan(games) == first_rating_is_nan(before)) by {
        if first_rating_is_nan(games) {
            let i = choose|i: int| is_first_rated(games, i) && games[i].rating().is_nan();
            assert(is_first_rated(before, i) && before[i].rating().is_nan());
        }
        if first_rating_is_nan(before) {
            let i = choose|i: int| is_first_rated(before, i) && before[i].rating().is_nan();
            assert(is_first_rated(games, i) && games[i].rating().is_nan());
        }
    }
}

/// The highest and the lowest rated game, in this order.
///
/// Only rated games take part. Among games of equal rating the first one is
/// reported; with a single rated game both results are that game. Both are
/// `None` exactly when no game is rated. The highest rating is at least the
/// lowest, except where the first rating of the collection is a NaN: the
/// game that holds it is then both results.
pub fn find_extreme_rated_games(games: &[BoardGame]) -> (extremes: (
    Option<&BoardGame>,
    Option<&BoardGame>,
))
    ensures
        extremes.0 is None <==> forall|i: int|
            0 <= i < games@.len() ==> (#[trigger] games@[i]).AvgRating is None,
        extremes.1 is None <==> extremes.0 is None,
        extremes.0 matches Some(highest) ==> exists|i: int|
            is_highest_rated(games@, i) && *highest == games@[i],
        extremes.1 matches Some(lowest) ==> exists|i: int|
            is_lowest_rated(games@, i) && *lowest == games@[i],
        extremes.0 matches Some(highest) ==> extremes.1 matches Some(lowest) ==> (
        !first_rating_is_nan(games@) ==> highest.rating().ge(lowest.rating())),
{
    let mut highest: Option<usize> = None;
    let mut lowest: Option<usize> = None;
    let mut n: usize = 0;
    while n < games.len()
        invariant
            n <= games@.len(),
            highest is None <==> forall|i: int|
                0 <= i < n ==> (#[trigger] games@[i]).AvgRating is None,
            lowest is None <==> highest is None,
            highest matches Some(h) ==> is_highest_rated(games@.take(n as int), h as int),
            lowest matches Some(l) ==> is_lowest_rated(games@.take(n as int), l as int),
        decreases games@.len() - n,
    {
        proof {
            assert(games@.take(n + 1).drop_last() =~= games@.take(n as int));
        }
        if let Some(rating) = games[n].AvgRating {
            match (highest, lowest) {
                (Some(h), Some(l)) => {
                    proof {
                        lemma_extremes_step(games@.take(n + 1), h as int, l as int);
                    }
                    if rating.gt(games[h].AvgRating.unwrap()) {
                        highest = Some(n);
                    }
                    if rating.lt(games[l].AvgRating.unwrap()) {
                        lowest = Some(n);
                    }
                },
                _ => {
                    proof {
                        lemma_extremes_start(games@.take(n + 1));
                    }
                    highest = Some(n);
                    lowest = Some(n);
                },
            }
        } else {
            proof {
                if let (Some(h), Some(l)) = (highest, lowest) {
                    lemma_extremes_step(games@.take(n + 1), h as int, l as int);
                }
            }
        }
        n += 1;
    }
    proof {
        assert(games@.take(n as int) =~= games@);
        if let (Some(h), Some(l)) = (highest, lowest) {
            if !first_rating_is_nan(games@) {
                lemma_highest_not_below_lowest(games@, h as int, l as int);
            }
        }
    }
    (
        match highest {
            Some(h) => Some(&games[h]),
            None => None,
        },
        match lowest {
            Some(l) => Some(&games[l]),
            None => None,
        },
    )
}

/// How many games of the collection `players` people can play.
pub open spec fn supporters(games: Seq<BoardGame>, players: u8) -> nat {
    supporting(games, players).len()
}

/// For each player count that some game supports, the number of games that
/// support it. A player count that no game supports is not a key.
pub open spec fn player_count_histogram(games: Seq<BoardGame>) -> Map<u8, usize> {
    Map::new(|k: u8| supporters(games, k) > 0, |k: u8| supporters(games, k) as usize)
}

/// The histogram of `games` with one more game counted for each player count
/// from `from` up to but not including `upto`.
spec fn histogram_amid(games: Seq<BoardGame>, from: int, upto: int) -> Map<u8, usize> {
    Map::new(
        |k: u8| supporters(games, k) > 0 || from <= k < upto,
        |k: u8|
            if from <= k < upto {
                (supporters(games, k) + 1) as usize
            } else {
                supporters(games, k) as usize
            },
    )
}

/// How many games support each player count.
///
/// A game with both bounds of its player range present counts once for every
/// player count from its minimum to its maximum, bounds included; a game that
/// lacks a bound, or whose minimum exceeds its maximum, counts nowhere. The
/// count under a key is the number of games that
/// [`recommend_games_by_players`](crate::recommend::recommend_games_by_players)
/// returns for it, and a player count for which that is none is not a key.
pub fn count_games_per_player_count(games: &[BoardGame]) -> (histogram: HashMap<u8, usize>)
    ensures
        histogram@ == player_count_histogram(games@),
        histogram_total(histogram@) == total_span(games@),
        histogram_total(histogram@) >= playable_games(games@),
        ranges_in_order(games@) ==> histogram_total(histogram@) >= ranged_games(games@),
{
    broadcast use group_hash_axioms;

    let mut histogram: HashMap<u8, usize> = HashMap::new();
    let mut n: usize = 0;
    assert(histogram@ =~= player_count_histogram(games@.take(0))) by {
        assert forall|k: u8| supporters(games@.take(0), k) == 0 by {
            games@.take(0).lemma_filter_len(fits_players(k));
        }
    }
    while n < games.len()
        invariant
            n <= games@.len(),
            histogram@ == player_count_histogram(games@.take(n as int)),
        decreases games@.len() - n,
    {
        let game = &games[n];
        let ghost before = games@.take(n as int);
        let ghost after = games@.take(n + 1);
        proof {
            assert(after.drop_last() =~= before);
            assert forall|k: u8| #[trigger]
                supporters(after, k) == supporters(before, k) + if game.supports(k) {
                    1nat
                } else {
                    0nat
                } && supporters(before, k) <= n by {
                reveal(Seq::filter);
                before.lemma_filter_len(fits_players(k));
            }
        }
        if let (Some(min), Some(max)) = (game.MinPlayers, game.MaxPlayers) {
            let mut players: u16 = min as u16;
            assert(histogram@ =~= histogram_amid(before, min as int, players as int));
            while players <= max as u16
                invariant
                    n < usize::MAX,
                    min <= players,
                    players <= max + 1 || players == min,
                    forall|k: u8| #[trigger] supporters(before, k) <= n,
                    histogram@ == histogram_amid(before, min as int, players as int),
                decreases max + 1 - players,
            {
                let k: u8 = players as u8;
                assert(supporters(before, k) <= n);
                *histogram.entry(k).or_insert(0) += 1;
                players += 1;
                assert(histogram@ =~= histogram_amid(before, min as int, players as int));
            }
            assert(histogram@ =~= player_count_histogram(after)) by {
                assert forall|k: u8| game.supports(k) == (min <= k < players) by {}
            }
        } else {
            assert(histogram@ =~= player_count_histogram(after));
        }
        n += 1;
    }
    proof {
        assert(games@.take(n as int) =~= games@);
        lemma_histogram_total_is_total_span(games@);
        lemma_histogram_total_covers_games(games@);
    }
    histogram
}

/// The sum of the counts that a histogram holds for the player counts below
/// `keys`.
pub open spec fn histogram_total_below(histogram: Map<u8, usize>, keys: nat) -> nat
    decreases keys,
{
    if keys == 0 {
        0
    } else {
        let k = (keys - 1) as u8;
        histogram_total_below(histogram, (keys - 1) as nat) + if histogram.contains_key(k) {
            histogram[k] as nat
        } else {
            0
        }
    }
}

/// The sum of all counts of a histogram.
pub open spec fn histogram_total(histogram: Map<u8, usize>) -> nat {
    histogram_total_below(histogram, 256)
}

/// The sum, over the games, of the number of player counts each supports.
pub open spec fn total_span(games: Seq<BoardGame>) -> nat
    decreases games.len(),
{
    if games.len() == 0 {
        0
    } else {
        total_span(games.drop_last()) + games.last().span()
    }
}

/// The number of games that support at least one player count.
pub open spec fn playable_games(games: Seq<BoardGame>) -> nat {
    games.filter(|g: BoardGame| g.span() > 0).len()
}

/// The number of games with both bounds of the player range present.
pub open spec fn ranged_games(games: Seq<BoardGame>) -> nat {
    games.filter(|g: BoardGame| g.has_player_range()).len()
}

/// Whether no game has its bounds the wrong way round.
pub open spec fn ranges_in_order(games: Seq<BoardGame>) -> bool {
    forall|i: int|
        0 <= i < games.len() && (#[trigger] games[i]).has_player_range() ==> games[i].span() > 0
}

/// The sum over the player counts below `keys` of the games supporting each.
spec fn supporters_below(games: Seq<BoardGame>, keys: nat) -> nat
    decreases keys,
{
    if keys == 0 {
        0
    } else {
        supporters_below(games, (keys - 1) as nat) + supporters(games, (keys - 1) as u8)
    }
}

/// The number of player counts below `keys` that a game supports.
spec fn covered_below(game: BoardGame, keys: nat) -> nat
    decreases keys,
{
    if keys == 0 {
        0
    } else {
        covered_below(game, (keys - 1) as nat) + if game.supports((keys - 1) as u8) {
            1nat
        } else {
            0nat
        }
    }
}

/// Key by key, the counts of the histogram are the numbers of supporters.
proof fn lemma_histogram_total_below(games: Seq<BoardGame>, keys: nat)
    requires
        games.len() <= usize::MAX,
        keys <= 256,
    ensures
        histogram_total_below(player_count_histogram(games), keys) == supporters_below(
            games,
            keys,
        ),
    decreases keys,
{
    if keys > 0 {
        lemma_histogram_total_below(games, (keys - 1) as nat);
        games.lemma_filter_len(fits_players((keys - 1) as u8));
    }
}

/// One more game adds, under each key, one where the game supports it.
proof fn lemma_supporters_below_step(games: Seq<BoardGame>, keys: nat)
    requires
        games.len() > 0,
        keys <= 256,
    ensures
        supporters_below(games, keys) == supporters_below(games.drop_last(), keys)
            + covered_below(games.last(), keys),
    decreases keys,
{
    if keys > 0 {
        lemma_supporters_below_step(games, (keys - 1) as nat);
        reveal(Seq::filter);
    }
}

/// The player counts below `keys` that a game supports are those of its
/// range that lie below `keys`.
proof fn lemma_covered_below(game: BoardGame, keys: nat)
    requires
        keys <= 256,
    ensures
        covered_below(game, keys) == match (game.MinPlayers, game.MaxPlayers) {
            (Some(min), Some(max)) if min <= max && min < keys => if keys <= max {
                keys - min
            } else {
                max - min + 1
            },
            _ => 0,
        },
    decreases keys,
{
    if keys > 0 {
        lemma_covered_below(game, (keys - 1) as nat);
    }
}

/// Summed over all player counts, the supporters are the spans of the games.
proof fn lemma_supporters_below_is_total_span(games: Seq<BoardGame>, keys: nat)
    requires
        keys <= 256,
    ensures
        games.len() == 0 ==> supporters_below(games, keys) == 0,
        keys == 256 ==> supporters_below(games, keys) == total_span(games),
    decreases games.len(), keys,
{
    if games.len() == 0 {
        if keys > 0 {
            lemma_supporters_below_is_total_span(games, (keys - 1) as nat);
            games.lemma_filter_len(fits_players((keys - 1) as u8));
        }
    } else if keys == 256 {
        lemma_supporters_below_is_total_span(games.drop_last(), keys);
        lemma_supporters_below_step(games, keys);
        lemma_covered_below(games.last(), keys);
    }
}

/// The counts of the histogram add up to the number of player counts that the
/// games support, each game taken by itself: a game is counted once for every
/// player count in its range.
pub proof fn lemma_histogram_total_is_total_span(games: Seq<BoardGame>)
    requires
        games.len() <= usize::MAX,
    ensures
        histogram_total(player_count_histogram(games)) == total_span(games),
{
    lemma_histogram_total_below(games, 256);
    lemma_supporters_below_is_total_span(games, 256);
}

/// The counts of the histogram add up to at least the number of games that
/// take part in it. These are the games that support some player count; where
/// no game has its bounds the wrong way round, they are the games with both
/// bounds present.
pub proof fn lemma_histogram_total_covers_games(games: Seq<BoardGame>)
    requires
        games.len() <= usize::MAX,
    ensures
        histogram_total(player_count_histogram(games)) >= playable_games(games),
        ranges_in_order(games) ==> histogram_total(player_count_histogram(games)) >= ranged_games(
            games,
        ),
{
    lemma_histogram_total_is_total_span(games);
    lemma_total_span_covers_games(games);
}

/// Every game that supports a player count adds at least one to the spans.
proof fn lemma_total_span_covers_games(games: Seq<BoardGame>)
    ensures
        total_span(games) >= playable_games(games),
        ranges_in_order(games) ==> playable_games(games) == ranged_games(games),
    decreases games.len(),
{
    reveal(Seq::filter);
    if games.len() > 0 {
        lemma_total_span_covers_games(games.drop_last());
        if ranges_in_order(games) {
            let rest = games.drop_last();
            assert forall|i: int|
                0 <= i < rest.len() && (#[trigger] rest[i]).has_player_range() implies rest[i]
                .span() > 0 by {
                assert(rest[i] == games[i]);
            }
            assert(games.last() == games[games.len() - 1]);
        }
    }
}

/// The sum of the suggested playtimes of the collection, in minutes.
pub open spec fn total_playtime(games: Seq<BoardGame>) -> nat
    decreases games.len(),
{
    if games.len() == 0 {
        0
    } else {
        total_playtime(games.drop_last()) + games.last().MfgPlaytime as nat
    }
}

/// An average playtime as an exact fraction, `minutes / games`. The sum is
/// wide enough for a collection of any length.
#[derive(Clone, Copy, Debug)]
pub struct PlaytimeAverage {
    /// The sum of the suggested playtimes, in minutes.
    pub minutes: u128,
    /// The number of games the sum was taken over.
    pub games: usize,
}

/// The average suggested playtime over all games.
///
/// Every game has a playtime, so the divisor is the number of games, and the
/// result is `None` exactly when the collection is empty. The average is
/// returned as the exact sum and divisor; the quotient is floating-point
/// arithmetic and is left to the caller.
pub fn average_play_time(games: &[BoardGame]) -> (average: Option<PlaytimeAverage>)
    ensures
        average is None <==> games@.len() == 0,
        average matches Some(a) ==> a.minutes == total_playtime(games@) && a.games
            == games@.len(),
{
    let mut minutes: u128 = 0;
    let mut n: usize = 0;
    while n < games.len()
        invariant
            n <= games@.len(),
            minutes == total_playtime(games@.take(n as int)),
            minutes <= n * u16::MAX,
        decreases games@.len() - n,
    {
        proof {
            assert(games@.take(n + 1).drop_last() =~= games@.take(n as int));
        }
        minutes += games[n].MfgPlaytime as u128;
        n += 1;
    }
    proof {
        assert(games@.take(n as int) =~= games@);
    }
    if n > 0 {
        Some(PlaytimeAverage { minutes, games: n })
    } else {
        None
    }
}

} // verus!
