//! The record model: one board game of the dataset.

use crate::rating::Rating;
use vstd::prelude::*;

verus! {

/// One board game. A record is plain data; the analytics only read it.
///
/// The player range is inclusive and holds only where both bounds are
/// present. Nothing checks that `MinPlayers <= MaxPlayers`: a record with the
/// bounds the wrong way round supports no player count at all.
#[allow(non_snake_case)]
#[derive(Clone, Debug)]
pub struct BoardGame {
    /// The name of the game.
    pub Name: String,
    /// The year the game was published, where known.
    pub YearPublished: Option<u16>,
    /// The least number of players, where known.
    pub MinPlayers: Option<u8>,
    /// The greatest number of players, where known.
    pub MaxPlayers: Option<u8>,
    /// The playtime the manufacturer suggests, in minutes.
    pub MfgPlaytime: u16,
    /// The average user rating; `None` for a game nobody has rated.
    pub AvgRating: Option<Rating>,
}

impl BoardGame {
    /// The rating of a rated game.
    pub open spec fn rating(self) -> Rating
        recommends
            self.AvgRating is Some,
    {
        self.AvgRating->0
    }

    /// The rating, with 0.0 standing in for a missing one.
    pub open spec fn rating_or_zero(self) -> Rating {
        match self.AvgRating {
            Some(r) => r,
            None => Rating { bits: 0 },
        }
    }

    /// Whether both bounds of the player range are present.
    pub open spec fn has_player_range(self) -> bool {
        self.MinPlayers is Some && self.MaxPlayers is Some
    }

    /// Whether the game can be played by `players` people: both bounds are
    /// present and `players` lies between them, bounds included.
    pub open spec fn supports(self, players: u8) -> bool {
        &&& self.MinPlayers matches Some(min)
        &&& self.MaxPlayers matches Some(max)
        &&& min <= players <= max
    }

    /// How many different player counts the game supports.
    pub open spec fn span(self) -> nat {
        match (self.MinPlayers, self.MaxPlayers) {
            (Some(min), Some(max)) if min <= max => (max - min + 1) as nat,
            _ => 0,
        }
    }
}

} // verus!
