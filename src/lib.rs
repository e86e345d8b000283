//! Rating histograms of chess games, grouped by the speed of their time control.
mod accumulator;
mod digits;
mod laws;
mod ratings;
mod text;
mod time_control;

pub use accumulator::{EXACT_LIMIT, recorded, rounded_mean, rounded_stddev, value_limit};
pub use digits::{decimal_text, decimal_value, is_digit, keep_digits, read_decimal};
pub use laws::{
    count_below, lemma_event_does_not_gate, lemma_export_round_trip, lemma_one_known_rating, lemma_rating_of_digits,
    lemma_run_export, lemma_time_control_category, row_total,
};
pub use ratings::{
    CategorySummary, MAX_RATING, PerfType, RatingOutOfRange, RatingPool, Ratings, UNKNOWN_MARKER,
    above_max, all_games_recordable, ascending_ranges, began, black_elo_key, casual_events, casual_word,
    default_perf_types, event_key, frequency_table, game_pool, game_rating, game_refused, header_view,
    is_casual, is_casual_event, lemma_begin_headers_idempotent, pool_for, pool_for_time_control,
    pool_from, rating_of, recorded_after, resolved_games, simul_word, time_control_key, total_headers,
    white_elo_key, with_rating,
};
pub use text::{contains_folded, contains_ignoring_case, fold_case, occurs_folded_at, same_bytes};
pub use time_control::{
    EXPECTED_MOVES, PLUS, estimated_length, estimated_length_of, first_match,
    lemma_time_control_text, match_at, run_end, time_control_of, time_control_text,
};
