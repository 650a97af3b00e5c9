//! Analytics over an in-memory collection of board-game records.
//!
//! * [`models`] holds the record, [`models::BoardGame`].
//! * [`rating`] holds [`rating::Rating`], a binary32 number carried as its bit
//!   pattern, with the order of such numbers stated over the integers.
//! * [`analysis`] computes the summary statistics: the ratings to average,
//!   the highest and the lowest rated game, the number of games for each
//!   player count, and the average playtime.
//! * [`recommend`] selects the games that suit a number of players or reach
//!   a rating.
//!
//! Every function is total and only reads the collection it is given. What a
//! function returns is pinned down by its contract, and what holds across
//! functions is stated and proved in the `lemma_` functions beside them.
//! Floating-point arithmetic is the one thing left to the caller: the two
//! averages are returned as what is to be summed and divided.

pub mod analysis;
pub mod models;
pub mod rating;
pub mod recommend;
