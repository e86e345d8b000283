//! The per-game state machine that sorts players' ratings into speed categories.
use vstd::prelude::*;
use core::ops::Range;
use histogram::Histogram;
use vstd::multiset::Multiset;
use crate::accumulator::{
    EXACT_LIMIT, all_bins, empty_histogram, entry_count, histogram_mean, histogram_stddev,
    record_value, recorded, rounded_mean, rounded_stddev, value_limit,
};
use crate::digits::{decimal_value, is_digit, keep_digits, read_decimal};
use crate::text::{contains_folded, contains_ignoring_case, same_bytes};
use crate::time_control::{
    estimated_length, estimated_length_of,
};

verus! {

/// The largest rating that a pool records.
pub const MAX_RATING: u64 = 3500;

/// The byte `?`, which ends a rating that is not known.
pub const UNKNOWN_MARKER: u8 = 63;

/// A speed category: its name and the estimated game lengths, in seconds, that fall in it.
pub struct PerfType {
    pub name: &'static str,
    pub speed: Range<u64>,
}

impl PerfType {
    pub open spec fn holds(self, t: int) -> bool {
        self.speed.start <= t < self.speed.end
    }
}

/// A speed category with the histogram of the ratings recorded for it.
pub struct RatingPool {
    pub histogram: Histogram,
    pub perf_type: PerfType,
}

/// One histogram of ratings for each speed category, and the state of the game being read.
pub struct Ratings {
    pub rating_pools: Vec<RatingPool>,
    /// The category of the current game, once its time control is known.
    pub pool: Option<usize>,
    pub white_rating: Option<u64>,
    pub black_rating: Option<u64>,
    /// Games whose category could not be found.
    pub games_skipped: usize,
    /// Games whose event names them casual.
    pub casual: usize,
    pub rated: bool,
}

/// Why a game's ratings could not be recorded.
#[derive(Debug, Clone, Copy, PartialEq, Eq)]
pub struct RatingOutOfRange {
    pub rating: u64,
}

/// What the report gives for one speed category.
pub struct CategorySummary {
    pub name: &'static str,
    pub total_count: u64,
    pub mean: Option<u64>,
    pub stddev: Option<u64>,
}

/// Each range ends no later than the next one starts: the ranges are disjoint and ascending, and
/// a game length falls in at most one of them.
pub open spec fn ascending_ranges(types: Seq<PerfType>) -> bool {
    forall|i: int, j: int|
        0 <= i < j < types.len() ==> #[trigger] types[i].speed.end <= #[trigger] types[j].speed.start
}

/// The first category from `from` on whose range holds `t`.
pub open spec fn pool_from(types: Seq<PerfType>, t: int, from: int) -> Option<usize>
    decreases types.len() - from,
{
    if from < 0 || from >= types.len() {
        None
    } else if types[from].holds(t) {
        Some(from as usize)
    } else {
        pool_from(types, t, from + 1)
    }
}

/// The first category whose range holds the game length `t`.
pub open spec fn pool_for(types: Seq<PerfType>, t: int) -> Option<usize> {
    pool_from(types, t, 0)
}

/// The category of a game with time control `tc`.
pub open spec fn pool_for_time_control(types: Seq<PerfType>, tc: Seq<u8>) -> Option<usize> {
    match estimated_length_of(tc) {
        Some(t) => pool_for(types, t),
        None => None,
    }
}

/// The rating that the text `s` gives: none where it ends in `?`; else the number that its
/// digits spell, with every other byte left out, where there is at least one digit and the
/// number fits in a `u64`.
pub open spec fn rating_of(s: Seq<u8>) -> Option<u64> {
    if s.len() > 0 && s.last() == UNKNOWN_MARKER {
        None
    } else if keep_digits(s).len() == 0 || decimal_value(keep_digits(s)) > u64::MAX {
        None
    } else {
        Some(decimal_value(keep_digits(s)) as u64)
    }
}

/// `casual`, in ASCII.
pub open spec fn casual_word() -> Seq<u8> {
    seq![99, 97, 115, 117, 97, 108]
}

/// `simul`, in ASCII.
pub open spec fn simul_word() -> Seq<u8> {
    seq![115, 105, 109, 117, 108]
}

/// An event is casual where its name holds `casual` or `simul`, in any case.
pub open spec fn is_casual_event(event: Seq<u8>) -> bool {
    contains_folded(event, casual_word()) || contains_folded(event, simul_word())
}

/// The header key `Event`.
pub open spec fn event_key() -> Seq<u8> {
    seq![69, 118, 101, 110, 116]
}

/// The header key `WhiteElo`.
pub open spec fn white_elo_key() -> Seq<u8> {
    seq![87, 104, 105, 116, 101, 69, 108, 111]
}

/// The header key `BlackElo`.
pub open spec fn black_elo_key() -> Seq<u8> {
    seq![66, 108, 97, 99, 107, 69, 108, 111]
}

/// The header key `TimeControl`.
pub open spec fn time_control_key() -> Seq<u8> {
    seq![84, 105, 109, 101, 67, 111, 110, 116, 114, 111, 108]
}

/// `m` plus the rating `r`, where there is one.
pub open spec fn with_rating(m: Multiset<u64>, r: Option<u64>) -> Multiset<u64> {
    match r {
        Some(v) => m.insert(v),
        None => m,
    }
}

/// The rating `r` is known and above what a pool records.
pub open spec fn above_max(r: Option<u64>) -> bool {
    r matches Some(v) && v > MAX_RATING
}

/// The rows `(value, count)` of the values below `n` that `m` holds, in ascending order of value.
pub open spec fn frequency_table(m: Multiset<u64>, n: nat) -> Seq<(u64, u64)>
    decreases n,
{
    if n == 0 {
        Seq::empty()
    } else {
        let v = (n - 1) as u64;
        let rows = frequency_table(m, (n - 1) as nat);
        if m.count(v) > 0 {
            rows.push((v, m.count(v) as u64))
        } else {
            rows
        }
    }
}

/// The headers of a game as byte strings, key first.
pub open spec fn header_view(headers: Seq<(Vec<u8>, Vec<u8>)>) -> Seq<(Seq<u8>, Seq<u8>)> {
    headers.map_values(|h: (Vec<u8>, Vec<u8>)| (h.0@, h.1@))
}

/// The category that a game's headers give: that of its last time control.
pub open spec fn game_pool(types: Seq<PerfType>, headers: Seq<(Seq<u8>, Seq<u8>)>) -> Option<usize>
    decreases headers.len(),
{
    if headers.len() == 0 {
        None
    } else if headers.last().0 == time_control_key() {
        pool_for_time_control(types, headers.last().1)
    } else {
        game_pool(types, headers.drop_last())
    }
}

/// The rating that a game's headers give under `key`: that of its last such header.
pub open spec fn game_rating(key: Seq<u8>, headers: Seq<(Seq<u8>, Seq<u8>)>) -> Option<u64>
    decreases headers.len(),
{
    if headers.len() == 0 {
        None
    } else if headers.last().0 == key {
        rating_of(headers.last().1)
    } else {
        game_rating(key, headers.drop_last())
    }
}

/// How many of a game's event headers name it casual.
pub open spec fn casual_events(headers: Seq<(Seq<u8>, Seq<u8>)>) -> nat
    decreases headers.len(),
{
    if headers.len() == 0 {
        0
    } else {
        casual_events(headers.drop_last()) + if headers.last().0 == event_key()
            && is_casual_event(headers.last().1) {
            1nat
        } else {
            0nat
        }
    }
}

/// A game that falls in a category and has a known rating above the maximum: it cannot be
/// recorded.
pub open spec fn game_refused(types: Seq<PerfType>, headers: Seq<(Seq<u8>, Seq<u8>)>) -> bool {
    &&& game_pool(types, headers) is Some
    &&& above_max(game_rating(white_elo_key(), headers)) || above_max(
        game_rating(black_elo_key(), headers),
    )
}

/// No game of `games` is refused.
pub open spec fn all_games_recordable(
    types: Seq<PerfType>,
    games: Seq<Vec<(Vec<u8>, Vec<u8>)>>,
) -> bool {
    forall|k: int| 0 <= k < games.len() ==> !game_refused(types, #[trigger] header_view(games[k]@))
}

/// What the pool at `p` holds after `games`, starting from `m`: the known ratings of each game
/// that falls in it, added to `m`.
pub open spec fn recorded_after(
    types: Seq<PerfType>,
    games: Seq<Vec<(Vec<u8>, Vec<u8>)>>,
    p: int,
    m: Multiset<u64>,
) -> Multiset<u64>
    decreases games.len(),
{
    if games.len() == 0 {
        m
    } else {
        let before = recorded_after(types, games.drop_last(), p, m);
        let hs = header_view(games.last()@);
        if game_pool(types, hs) matches Some(q) && q as int == p {
            with_rating(
                with_rating(before, game_rating(white_elo_key(), hs)),
                game_rating(black_elo_key(), hs),
            )
        } else {
            before
        }
    }
}

/// How many of `games` fall in a category.
pub open spec fn resolved_games(types: Seq<PerfType>, games: Seq<Vec<(Vec<u8>, Vec<u8>)>>) -> nat
    decreases games.len(),
{
    if games.len() == 0 {
        0
    } else {
        resolved_games(types, games.drop_last()) + if game_pool(
            types,
            header_view(games.last()@),
        ) is Some {
            1nat
        } else {
            0nat
        }
    }
}

/// How many headers `games` hold in all.
pub open spec fn total_headers(games: Seq<Vec<(Vec<u8>, Vec<u8>)>>) -> nat
    decreases games.len(),
{
    if games.len() == 0 {
        0
    } else {
        total_headers(games.drop_last()) + games.last()@.len()
    }
}

/// `r` as a new game starts: no category and neither rating known, all else kept.
pub open spec fn began(r: Ratings) -> Ratings {
    Ratings { pool: None, white_rating: None, black_rating: None, ..r }
}

/// Starting a game twice in a row leaves the state that starting it once leaves, whatever the
/// category and ratings were before.
pub proof fn lemma_begin_headers_idempotent(r: Ratings)
    ensures
        began(began(r)) == began(r),
        began(r).pool is None,
        began(r).white_rating is None,
        began(r).black_rating is None,
{
}

impl Ratings {
    /// The speed categories, in the order they are tried.
    pub open spec fn perf_types(self) -> Seq<PerfType> {
        self.rating_pools@.map_values(|p: RatingPool| p.perf_type)
    }

    /// The ratings recorded in the pool at `i`.
    pub open spec fn recorded_at(self, i: int) -> Multiset<u64> {
        recorded(self.rating_pools@[i].histogram)
    }

    pub open spec fn wf(self) -> bool {
        &&& ascending_ranges(self.perf_types())
        &&& self.pool matches Some(i) ==> i < self.rating_pools@.len()
        &&& forall|i: int|
            0 <= i < self.rating_pools@.len() ==> value_limit(
                #[trigger] self.rating_pools@[i].histogram,
            ) == MAX_RATING
        &&& forall|i: int, v: u64|
            0 <= i < self.rating_pools@.len() && #[trigger] recorded(
                self.rating_pools@[i].histogram,
            ).count(v) > 0 ==> v <= MAX_RATING
        &&& forall|i: int|
            0 <= i < self.rating_pools@.len() ==> #[trigger] recorded(
                self.rating_pools@[i].histogram,
            ).len() <= u64::MAX
    }

    /// Room to record two more ratings in every pool.
    pub open spec fn has_room(self) -> bool {
        forall|i: int|
            0 <= i < self.rating_pools@.len() ==> #[trigger] recorded(
                self.rating_pools@[i].histogram,
            ).len() + 2 < u64::MAX
    }

    /// An empty pool for each category, in the order given.
    pub fn new(perf_types: Vec<PerfType>) -> (r: Ratings)
        requires
            ascending_ranges(perf_types@),
        ensures
            r.wf(),
            r.perf_types() == perf_types@,
            forall|i: int| 0 <= i < r.rating_pools@.len() ==> #[trigger] r.recorded_at(i) =~= Multiset::empty(),
            r.pool is None,
            r.white_rating is None,
            r.black_rating is None,
            r.games_skipped == 0,
            r.casual == 0,
            !r.rated,
    {
        let mut rating_pools: Vec<RatingPool> = Vec::new();
        let mut i: usize = 0;
        while i < perf_types.len()
            invariant
                i <= perf_types@.len(),
                rating_pools@.len() == i,
                forall|k: int| 0 <= k < i ==> (#[trigger] rating_pools@[k]).perf_type == perf_types@[k],
                forall|k: int| 0 <= k < i ==> value_limit(#[trigger] rating_pools@[k].histogram) == MAX_RATING,
                forall|k: int| 0 <= k < i ==> recorded(#[trigger] rating_pools@[k].histogram) =~= Multiset::empty(),
            decreases perf_types@.len() - i,
        {
            let perf_type = PerfType {
                name: perf_types[i].name,
                speed: Range { start: perf_types[i].speed.start, end: perf_types[i].speed.end },
            };
            rating_pools.push(RatingPool { histogram: empty_histogram(MAX_RATING), perf_type });
            i += 1;
        }
        let r = Ratings {
            rating_pools,
            pool: None,
            white_rating: None,
            black_rating: None,
            games_skipped: 0,
            casual: 0,
            rated: false,
        };
        assert(r.perf_types() =~= perf_types@);
        r
    }

    /// The first pool whose range holds the game length `t`.
    pub fn pool_for_length(&self, t: u64) -> (r: Option<usize>)
        ensures
            r == pool_for(self.perf_types(), t as int),
            r matches Some(i) ==> i < self.rating_pools@.len(),
    {
        let ghost types = self.perf_types();
        let mut i: usize = 0;
        while i < self.rating_pools.len()
            invariant
                types == self.perf_types(),
                i <= types.len(),
                pool_for(types, t as int) == pool_from(types, t as int, i as int),
            decreases types.len() - i,
        {
            let speed = &self.rating_pools[i].perf_type.speed;
            if speed.start <= t && t < speed.end {
                return Some(i);
            }
            i += 1;
        }
        None
    }

    /// Finds the category of the current game from its time control.
    pub fn set_pool(&mut self, timecontrol_text: &[u8])
        requires
            old(self).wf(),
        ensures
            final(self).wf(),
            final(self).pool == pool_for_time_control(old(self).perf_types(), timecontrol_text@),
            final(self).rating_pools == old(self).rating_pools,
            final(self).white_rating == old(self).white_rating,
            final(self).black_rating == old(self).black_rating,
            final(self).games_skipped == old(self).games_skipped,
            final(self).casual == old(self).casual,
            final(self).rated == old(self).rated,
    {
        let pool = match estimated_length(timecontrol_text) {
            Some(t) => self.pool_for_length(t),
            None => {
                proof {
                    if let Some(t) = estimated_length_of(timecontrol_text@) {
                        lemma_no_pool_beyond(self.perf_types(), t, 0);
                    }
                }
                None
            },
        };
        self.pool = pool;
    }

    /// Notes whether the current game is casual, and counts it if so.
    pub fn set_rated(&mut self, event: &[u8])
        requires
            old(self).casual < usize::MAX,
        ensures
            final(self).rated == !is_casual_event(event@),
            final(self).casual == old(self).casual + if is_casual_event(event@) { 1int } else { 0int },
            final(self).rating_pools == old(self).rating_pools,
            final(self).pool == old(self).pool,
            final(self).white_rating == old(self).white_rating,
            final(self).black_rating == old(self).black_rating,
            final(self).games_skipped == old(self).games_skipped,
    {
        if is_casual(event) {
            self.rated = false;
            self.casual = self.casual + 1;
        } else {
            self.rated = true;
        }
    }

    pub fn set_black_rating(&mut self, rating: &[u8])
        ensures
            *final(self) == (Ratings { black_rating: rating_of(rating@), ..*old(self) }),
    {
        self.black_rating = Ratings::parse_rating(rating);
    }

    pub fn set_white_rating(&mut self, rating: &[u8])
        ensures
            *final(self) == (Ratings { white_rating: rating_of(rating@), ..*old(self) }),
    {
        self.white_rating = Ratings::parse_rating(rating);
    }

    /// The rating that the header text `rating` gives.
    pub fn parse_rating(rating: &[u8]) -> (r: Option<u64>)
        ensures
            r == rating_of(rating@),
    {
        let n = rating.len();
        if n > 0 && rating[n - 1] == UNKNOWN_MARKER {
            return None;
        }
        let mut digits: Vec<u8> = Vec::new();
        let mut i: usize = 0;
        while i < n
            invariant
                n == rating@.len(),
                i <= n,
                digits@ == keep_digits(rating@.take(i as int)),
                forall|k: int| 0 <= k < digits@.len() ==> is_digit(#[trigger] digits@[k]),
            decreases n - i,
        {
            assert(rating@.take(i + 1).drop_last() =~= rating@.take(i as int));
            let c = rating[i];
            if c >= 48 && c <= 57 {
                digits.push(c);
            }
            i += 1;
        }
        assert(rating@.take(n as int) =~= rating@);
        if digits.len() == 0 {
            return None;
        }
        let d = digits.as_slice();
        assert(d@.subrange(0, d@.len() as int) =~= d@);
        read_decimal(d, 0, d.len())
    }


    /// Takes one header of the current game: its event, either player's rating or its time
    /// control. Other keys change nothing.
    pub fn header(&mut self, key: &[u8], value: &[u8])
        requires
            old(self).wf(),
            old(self).casual < usize::MAX,
        ensures
            final(self).wf(),
            final(self).rating_pools == old(self).rating_pools,
            final(self).games_skipped == old(self).games_skipped,
            final(self).pool == if key@ == time_control_key() {
                pool_for_time_control(old(self).perf_types(), value@)
            } else {
                old(self).pool
            },
            final(self).white_rating == if key@ == white_elo_key() {
                rating_of(value@)
            } else {
                old(self).white_rating
            },
            final(self).black_rating == if key@ == black_elo_key() {
                rating_of(value@)
            } else {
                old(self).black_rating
            },
            final(self).rated == if key@ == event_key() {
                !is_casual_event(value@)
            } else {
                old(self).rated
            },
            final(self).casual == old(self).casual + if key@ == event_key() && is_casual_event(
                value@,
            ) {
                1int
            } else {
                0int
            },
    {
        let event: Vec<u8> = vec![69, 118, 101, 110, 116];
        let white: Vec<u8> = vec![87, 104, 105, 116, 101, 69, 108, 111];
        let black: Vec<u8> = vec![66, 108, 97, 99, 107, 69, 108, 111];
        let time_control: Vec<u8> = vec![84, 105, 109, 101, 67, 111, 110, 116, 114, 111, 108];
        assert(event@ =~= event_key());
        assert(white@ =~= white_elo_key());
        assert(black@ =~= black_elo_key());
        assert(time_control@ =~= time_control_key());
        assert(white_elo_key()[0] != black_elo_key()[0]);
        if same_bytes(key, event.as_slice()) {
            self.set_rated(value);
        } else if same_bytes(key, white.as_slice()) {
            self.set_white_rating(value);
        } else if same_bytes(key, black.as_slice()) {
            self.set_black_rating(value);
        } else if same_bytes(key, time_control.as_slice()) {
            self.set_pool(value);
        }
    }

    /// Records `rating` in the pool at `pool`; a rating above the maximum is refused.
    pub fn increment(&mut self, pool: usize, rating: u64) -> (r: Result<(), RatingOutOfRange>)
        requires
            old(self).wf(),
            pool < old(self).rating_pools@.len(),
            old(self).recorded_at(pool as int).len() < u64::MAX,
        ensures
            final(self).wf(),
            r is Err <==> rating > MAX_RATING,
            r is Err ==> r == Err::<(), _>(RatingOutOfRange { rating }) && *final(self) == *old(self),
            r is Ok ==> final(self).recorded_at(pool as int) == old(self).recorded_at(pool as int).insert(rating),
            final(self).rating_pools@.len() == old(self).rating_pools@.len(),
            final(self).perf_types() == old(self).perf_types(),
            forall|j: int| 0 <= j < old(self).rating_pools@.len() && j != pool
                ==> #[trigger] final(self).rating_pools@[j] == old(self).rating_pools@[j],
            final(self).pool == old(self).pool,
            final(self).white_rating == old(self).white_rating,
            final(self).black_rating == old(self).black_rating,
            final(self).games_skipped == old(self).games_skipped,
            final(self).casual == old(self).casual,
            final(self).rated == old(self).rated,
    {
        if rating > MAX_RATING {
            return Err(RatingOutOfRange { rating });
        }
        let _ = record_value(&mut self.rating_pools[pool].histogram, rating);
        assert(self.perf_types() =~= old(self).perf_types());
        Ok(())
    }


    /// Ends the headers of the current game. A game with a category has each known rating
    /// recorded in that category's pool; one without is counted as skipped. Where a known
    /// rating is above the maximum, nothing is recorded and the first such rating is returned.
    pub fn end_headers(&mut self) -> (r: Result<(), RatingOutOfRange>)
        requires
            old(self).wf(),
            old(self).has_room(),
            old(self).games_skipped < usize::MAX,
        ensures
            final(self).wf(),
            final(self).rating_pools@.len() == old(self).rating_pools@.len(),
            final(self).perf_types() == old(self).perf_types(),
            final(self).pool == old(self).pool,
            final(self).white_rating == old(self).white_rating,
            final(self).black_rating == old(self).black_rating,
            final(self).casual == old(self).casual,
            final(self).rated == old(self).rated,
            match old(self).pool {
                None => {
                    &&& r is Ok
                    &&& final(self).games_skipped == old(self).games_skipped + 1
                    &&& final(self).rating_pools@ == old(self).rating_pools@
                },
                Some(i) => {
                    &&& final(self).games_skipped == old(self).games_skipped
                    &&& if above_max(old(self).white_rating) {
                        &&& r == Err::<(), _>(RatingOutOfRange { rating: old(self).white_rating->0 })
                        &&& final(self).rating_pools@ == old(self).rating_pools@
                    } else if above_max(old(self).black_rating) {
                        &&& r == Err::<(), _>(RatingOutOfRange { rating: old(self).black_rating->0 })
                        &&& final(self).rating_pools@ == old(self).rating_pools@
                    } else {
                        &&& r is Ok
                        &&& final(self).recorded_at(i as int) == with_rating(
                            with_rating(old(self).recorded_at(i as int), old(self).white_rating),
                            old(self).black_rating,
                        )
                        &&& forall|j: int| 0 <= j < old(self).rating_pools@.len() && j != i
                            ==> #[trigger] final(self).rating_pools@[j] == old(self).rating_pools@[j]
                    }
                },
            },
    {
        match self.pool {
            Some(pool) => {
                if let Some(rating) = self.white_rating {
                    if rating > MAX_RATING {
                        return Err(RatingOutOfRange { rating });
                    }
                }
                if let Some(rating) = self.black_rating {
                    if rating > MAX_RATING {
                        return Err(RatingOutOfRange { rating });
                    }
                }
                if let Some(rating) = self.white_rating {
                    let _ = self.increment(pool, rating);
                }
                if let Some(rating) = self.black_rating {
                    let _ = self.increment(pool, rating);
                }
                Ok(())
            },
            None => {
                self.games_skipped = self.games_skipped + 1;
                Ok(())
            },
        }
    }


    /// Reads one game from its headers: starts it, takes each header in order, and ends it.
    pub fn read_game(&mut self, headers: &Vec<(Vec<u8>, Vec<u8>)>) -> (r: Result<(), RatingOutOfRange>)
        requires
            old(self).wf(),
            old(self).has_room(),
            old(self).games_skipped < usize::MAX,
            old(self).casual + headers@.len() < usize::MAX,
        ensures
            ({
                let hs = header_view(headers@);
                let types = old(self).perf_types();
                let white = game_rating(white_elo_key(), hs);
                let black = game_rating(black_elo_key(), hs);
                &&& final(self).wf()
                &&& final(self).perf_types() == types
                &&& final(self).pool == game_pool(types, hs)
                &&& final(self).white_rating == white
                &&& final(self).black_rating == black
                &&& final(self).casual == old(self).casual + casual_events(hs)
                &&& casual_events(hs) <= hs.len()
                &&& forall|i: int|
                    0 <= i < old(self).rating_pools@.len() ==> #[trigger] final(self).recorded_at(
                        i,
                    ).len() <= old(self).recorded_at(i).len() + 2
                &&& match game_pool(types, hs) {
                    None => {
                        &&& r is Ok
                        &&& final(self).games_skipped == old(self).games_skipped + 1
                        &&& final(self).rating_pools@ == old(self).rating_pools@
                    },
                    Some(p) => {
                        &&& final(self).games_skipped == old(self).games_skipped
                        &&& (r is Err <==> above_max(white) || above_max(black))
                        &&& r is Err ==> final(self).rating_pools@ == old(self).rating_pools@
                        &&& r is Ok ==> final(self).recorded_at(p as int) == with_rating(
                            with_rating(old(self).recorded_at(p as int), white),
                            black,
                        )
                        &&& forall|j: int|
                            0 <= j < old(self).rating_pools@.len() && j != p
                                ==> #[trigger] final(self).rating_pools@[j]
                                == old(self).rating_pools@[j]
                    },
                }
            }),
    {
        let ghost types = self.perf_types();
        let ghost start = *self;
        let ghost hs = header_view(headers@);
        self.begin_headers();
        let mut i: usize = 0;
        while i < headers.len()
            invariant
                self.wf(),
                self.rating_pools == start.rating_pools,
                types == start.perf_types(),
                hs == header_view(headers@),
                self.games_skipped == start.games_skipped,
                i <= headers@.len(),
                casual_events(hs.take(i as int)) <= i,
                self.casual == start.casual + casual_events(hs.take(i as int)),
                start.casual + headers@.len() < usize::MAX,
                self.pool == game_pool(types, hs.take(i as int)),
                self.white_rating == game_rating(white_elo_key(), hs.take(i as int)),
                self.black_rating == game_rating(black_elo_key(), hs.take(i as int)),
            decreases headers@.len() - i,
        {
            let (key, value) = (&headers[i].0, &headers[i].1);
            self.header(key.as_slice(), value.as_slice());
            assert(hs.take(i + 1).drop_last() =~= hs.take(i as int));
            assert(hs.take(i + 1).last() == (key@, value@));
            i += 1;
        }
        assert(hs.take(headers@.len() as int) =~= hs);
        self.end_headers()
    }

    /// Reads `games` in order, stopping at the first whose rating is above the maximum. Where
    /// all are read, the count of skipped games has grown by those that fall in no category.
    pub fn read_games(&mut self, games: &Vec<Vec<(Vec<u8>, Vec<u8>)>>) -> (r: Result<(), RatingOutOfRange>)
        requires
            old(self).wf(),
            forall|i: int| 0 <= i < old(self).rating_pools@.len() ==> #[trigger] old(self).recorded_at(i).len()
                + 2 * games@.len() + 2 < u64::MAX,
            old(self).games_skipped + games@.len() < usize::MAX,
            old(self).casual + total_headers(games@) < usize::MAX,
        ensures
            final(self).wf(),
            final(self).perf_types() == old(self).perf_types(),
            r is Ok <==> all_games_recordable(old(self).perf_types(), games@),
            r is Ok ==> final(self).games_skipped == old(self).games_skipped + games@.len()
                - resolved_games(old(self).perf_types(), games@),
            r is Ok ==> forall|p: int|
                0 <= p < old(self).rating_pools@.len() ==> #[trigger] final(self).recorded_at(p)
                    == recorded_after(old(self).perf_types(), games@, p, old(self).recorded_at(p)),
    {
        let ghost start = *old(self);
        let mut i: usize = 0;
        while i < games.len()
            invariant
                *old(self) == start,
                self.wf(),
                self.perf_types() == start.perf_types(),
                self.rating_pools@.len() == start.rating_pools@.len(),
                i <= games@.len(),
                forall|k: int| 0 <= k < start.rating_pools@.len() ==> #[trigger] start.recorded_at(k).len()
                    + 2 * games@.len() + 2 < u64::MAX,
                forall|k: int| 0 <= k < start.rating_pools@.len() ==> #[trigger] self.recorded_at(k).len()
                    <= start.recorded_at(k).len() + 2 * i,
                start.games_skipped + games@.len() < usize::MAX,
                start.casual + total_headers(games@) < usize::MAX,
                self.casual <= start.casual + total_headers(games@.take(i as int)),
                self.games_skipped == start.games_skipped + i - resolved_games(start.perf_types(), games@.take(i as int)),
                resolved_games(start.perf_types(), games@.take(i as int)) <= i,
                all_games_recordable(start.perf_types(), games@.take(i as int)),
                forall|p: int|
                    0 <= p < start.rating_pools@.len() ==> #[trigger] self.recorded_at(p)
                        == recorded_after(start.perf_types(), games@.take(i as int), p, start.recorded_at(p)),
            decreases games@.len() - i,
        {
            proof {
                assert(games@.take(i + 1).drop_last() =~= games@.take(i as int));
                lemma_total_headers_prefix(games@, i + 1);
                assert forall|k: int| 0 <= k < self.rating_pools@.len() implies #[trigger] recorded(
                    self.rating_pools@[k].histogram,
                ).len() + 2 < u64::MAX by {
                    assert(self.recorded_at(k).len() <= start.recorded_at(k).len() + 2 * i);
                    assert(start.recorded_at(k).len() + 2 * games@.len() + 2 < u64::MAX);
                }
            }
            let ghost before = *self;
            let r = self.read_game(&games[i]);
            let ghost hs = header_view(games@[i as int]@);
            if r.is_err() {
                assert(game_refused(start.perf_types(), hs));
                assert(!all_games_recordable(start.perf_types(), games@));
                return r;
            }
            proof {
                let next = games@.take(i + 1);
                assert(next.last() == games@[i as int]);
                assert forall|k: int| 0 <= k < next.len() implies !game_refused(
                    start.perf_types(),
                    #[trigger] header_view(next[k]@),
                ) by {
                    if k < i {
                        assert(next[k] == games@.take(i as int)[k]);
                    }
                }
                assert forall|p: int| 0 <= p < start.rating_pools@.len() implies #[trigger] self.recorded_at(p)
                    == recorded_after(start.perf_types(), next, p, start.recorded_at(p)) by {
                    assert(before.recorded_at(p) == recorded_after(
                        start.perf_types(), games@.take(i as int), p, start.recorded_at(p)));
                    assert(next.drop_last() =~= games@.take(i as int));
                    match game_pool(start.perf_types(), hs) {
                        Some(q) => {
                            if q as int != p {
                                assert(self.rating_pools@[p] == before.rating_pools@[p]);
                            }
                        },
                        None => {
                            assert(self.rating_pools@[p] == before.rating_pools@[p]);
                        },
                    }
                }
            }
            i += 1;
        }
        assert(games@.take(games@.len() as int) =~= games@);
        Ok(())
    }

    /// Ends the current game. Nothing in it after the headers is read.
    pub fn end_game(&mut self)
        ensures
            *final(self) == *old(self),
    {
    }

    /// Whether the next game can be taken: each pool has room for two more ratings, and the
    /// count of skipped games for one more.
    pub fn can_take_game(&self) -> (r: bool)
        requires
            self.wf(),
        ensures
            r == (self.has_room() && self.games_skipped < usize::MAX),
    {
        if self.games_skipped == usize::MAX {
            return false;
        }
        let mut i: usize = 0;
        while i < self.rating_pools.len()
            invariant
                self.wf(),
                i <= self.rating_pools@.len(),
                forall|k: int| 0 <= k < i ==> #[trigger] recorded(self.rating_pools@[k].histogram).len() + 2 < u64::MAX,
            decreases self.rating_pools@.len() - i,
        {
            if entry_count(&self.rating_pools[i].histogram) >= u64::MAX - 2 {
                return false;
            }
            i += 1;
        }
        true
    }

    /// How many ratings the pool at `pool` holds.
    pub fn total_count(&self, pool: usize) -> (r: u64)
        requires
            self.wf(),
            pool < self.rating_pools@.len(),
        ensures
            r as nat == self.recorded_at(pool as int).len(),
    {
        entry_count(&self.rating_pools[pool].histogram)
    }

    /// For each category, in order: its name, how many ratings it holds, and their mean and
    /// standard deviation, which are absent where it holds none.
    pub fn summarize(&self) -> (r: Vec<CategorySummary>)
        requires
            self.wf(),
        ensures
            r@.len() == self.rating_pools@.len(),
            forall|i: int|
                0 <= i < r@.len() ==> {
                    let m = self.recorded_at(i);
                    &&& #[trigger] r@[i].name == self.rating_pools@[i].perf_type.name
                    &&& r@[i].total_count as nat == m.len()
                    &&& r@[i].mean == if m.len() == 0 { None } else { Some(rounded_mean(m)) }
                    &&& r@[i].stddev == if m.len() == 0 { None } else { Some(rounded_stddev(m)) }
                },
    {
        let mut r: Vec<CategorySummary> = Vec::new();
        let mut i: usize = 0;
        while i < self.rating_pools.len()
            invariant
                self.wf(),
                i <= self.rating_pools@.len(),
                r@.len() == i,
                forall|k: int|
                    0 <= k < i ==> {
                        let m = self.recorded_at(k);
                        &&& #[trigger] r@[k].name == self.rating_pools@[k].perf_type.name
                        &&& r@[k].total_count as nat == m.len()
                        &&& r@[k].mean == if m.len() == 0 { None } else { Some(rounded_mean(m)) }
                        &&& r@[k].stddev == if m.len() == 0 { None } else { Some(rounded_stddev(m)) }
                    },
            decreases self.rating_pools@.len() - i,
        {
            let h = &self.rating_pools[i].histogram;
            r.push(
                CategorySummary {
                    name: self.rating_pools[i].perf_type.name,
                    total_count: entry_count(h),
                    mean: histogram_mean(h),
                    stddev: histogram_stddev(h),
                },
            );
            i += 1;
        }
        r
    }

    /// The rows `(rating, count)` of the pool at `pool`, in ascending order of rating, one for
    /// each rating it holds.
    pub fn export(&self, pool: usize) -> (r: Vec<(u64, u64)>)
        requires
            self.wf(),
            pool < self.rating_pools@.len(),
        ensures
            r@ == frequency_table(self.recorded_at(pool as int), (MAX_RATING + 1) as nat),
    {
        let h = &self.rating_pools[pool].histogram;
        let bins = all_bins(h);
        let ghost m = recorded(*h);
        let mut rows: Vec<(u64, u64)> = Vec::new();
        let mut i: usize = 0;
        while i < bins.len()
            invariant
                bins@.len() == MAX_RATING + 1,
                i <= bins@.len(),
                m == self.recorded_at(pool as int),
                m.len() <= u64::MAX,
                forall|k: int| 0 <= k < bins@.len() ==> #[trigger] bins@[k] == (k as u64, m.count(k as u64) as u64),
                rows@ == frequency_table(m, i as nat),
            decreases bins@.len() - i,
        {
            let (value, count) = bins[i];
            assert(m.count(i as u64) <= m.len());
            assert(bins@[i as int] == (i as u64, m.count(i as u64) as u64));
            if count > 0 {
                rows.push((value, count));
            }
            i += 1;
        }
        rows
    }

    /// Starts a new game: its category and both ratings are not yet known.
    pub fn begin_headers(&mut self)
        ensures
            *final(self) == began(*old(self)),
    {
        self.pool = None;
        self.white_rating = None;
        self.black_rating = None;
    }
}

/// The five default categories: ultrabullet below 30 s, bullet to 180 s, blitz to 480 s, rapid
/// to 1500 s and classical to 21600 s.
pub open spec fn default_perf_types(types: Seq<PerfType>) -> bool {
    &&& types.len() == 5
    &&& types[0].name@ == "ultrabullet"@ && types[0].speed.start == 0 && types[0].speed.end == 30
    &&& types[1].name@ == "bullet"@ && types[1].speed.start == 30 && types[1].speed.end == 180
    &&& types[2].name@ == "blitz"@ && types[2].speed.start == 180 && types[2].speed.end == 480
    &&& types[3].name@ == "rapid"@ && types[3].speed.start == 480 && types[3].speed.end == 1500
    &&& types[4].name@ == "classical"@ && types[4].speed.start == 1500 && types[4].speed.end
        == 21600
}

impl Default for Ratings {
    fn default() -> (r: Ratings)
        ensures
            r.wf(),
            default_perf_types(r.perf_types()),
            forall|i: int| 0 <= i < r.rating_pools@.len() ==> #[trigger] r.recorded_at(i) =~= Multiset::empty(),
            r.pool is None,
            r.white_rating is None,
            r.black_rating is None,
            r.games_skipped == 0,
            r.casual == 0,
            !r.rated,
    {
        let types = vec![
            PerfType { name: "ultrabullet", speed: Range { start: 0, end: 30 } },
            PerfType { name: "bullet", speed: Range { start: 30, end: 180 } },
            PerfType { name: "blitz", speed: Range { start: 180, end: 480 } },
            PerfType { name: "rapid", speed: Range { start: 480, end: 1500 } },
            PerfType { name: "classical", speed: Range { start: 1500, end: 21600 } },
        ];
        Ratings::new(types)
    }
}

proof fn lemma_total_headers_prefix(games: Seq<Vec<(Vec<u8>, Vec<u8>)>>, i: int)
    requires
        0 <= i <= games.len(),
    ensures
        total_headers(games.take(i)) <= total_headers(games),
    decreases games.len() - i,
{
    if i < games.len() {
        lemma_total_headers_prefix(games, i + 1);
        assert(games.take(i + 1).drop_last() =~= games.take(i));
    } else {
        assert(games.take(i) =~= games);
    }
}

/// No category holds a length beyond every `u64`.
proof fn lemma_no_pool_beyond(types: Seq<PerfType>, t: int, from: int)
    requires
        t > u64::MAX,
        0 <= from,
    ensures
        pool_from(types, t, from) is None,
    decreases types.len() - from,
{
    if from < types.len() {
        lemma_no_pool_beyond(types, t, from + 1);
    }
}

/// Whether the event named `event` is casual.
pub fn is_casual(event: &[u8]) -> (r: bool)
    ensures
        r == is_casual_event(event@),
{
    let casual: Vec<u8> = vec![99, 97, 115, 117, 97, 108];
    let simul: Vec<u8> = vec![115, 105, 109, 117, 108];
    assert(casual@ =~= casual_word());
    assert(simul@ =~= simul_word());
    contains_ignoring_case(event, casual.as_slice()) || contains_ignoring_case(event, simul.as_slice())
}

} // verus!
