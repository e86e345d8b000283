//! What holds of the library across its functions and over all inputs.
use vstd::prelude::*;
use vstd::multiset::Multiset;
use crate::digits::{decimal_value, is_digit, lemma_keep_all_digits};
use crate::ratings::{
    MAX_RATING, PerfType, UNKNOWN_MARKER, above_max, all_games_recordable, black_elo_key, event_key,
    frequency_table, game_pool, game_rating, game_refused, header_view, pool_for,
    pool_for_time_control, pool_from, rating_of, recorded_after, time_control_key, white_elo_key, with_rating,
};
use crate::time_control::{lemma_time_control_text, time_control_text};

verus! {

/// The first category from `from` on whose range holds `t` is the one that is found.
proof fn lemma_pool_from_first(types: Seq<PerfType>, t: int, from: int, i: int)
    requires
        0 <= from <= i < types.len(),
        types[i].holds(t),
        forall|j: int| from <= j < i ==> !#[trigger] types[j].holds(t),
    ensures
        pool_from(types, t, from) == Some(i as usize),
    decreases i - from,
{
    if from < i {
        lemma_pool_from_first(types, t, from + 1, i);
    }
}

/// Where no range from `from` on holds `t`, no category is found.
proof fn lemma_pool_from_none(types: Seq<PerfType>, t: int, from: int)
    requires
        0 <= from,
        forall|j: int| from <= j < types.len() ==> !#[trigger] types[j].holds(t),
    ensures
        pool_from(types, t, from) is None,
    decreases types.len() - from,
{
    if from < types.len() {
        lemma_pool_from_none(types, t, from + 1);
    }
}

/// A game with time control `<initial>+<increment>` falls in the category whose range holds
/// `initial + 40 * increment`, where exactly one range holds it; where none does, it falls in
/// no category.
pub proof fn lemma_time_control_category(types: Seq<PerfType>, initial: nat, increment: nat)
    ensures
        forall|i: int|
            0 <= i < types.len() && #[trigger] types[i].holds((initial + 40 * increment) as int) && (
            forall|j: int|
                0 <= j < types.len() && j != i ==> !types[j].holds((initial + 40 * increment) as int))
                ==> pool_for_time_control(types, time_control_text(initial, increment)) == Some(
                i as usize,
            ),
        (forall|j: int| 0 <= j < types.len() ==> !#[trigger] types[j].holds((initial + 40 * increment) as int))
            ==> pool_for_time_control(types, time_control_text(initial, increment)) is None,
{
    lemma_time_control_text(initial, increment);
    let t: int = (initial + 40 * increment) as int;
    assert forall|i: int|
        0 <= i < types.len() && #[trigger] types[i].holds(t) && (forall|j: int|
            0 <= j < types.len() && j != i ==> !types[j].holds(t)) implies pool_for(types, t)
        == Some(i as usize) by {
        lemma_pool_from_first(types, t, 0, i);
    }
    if forall|j: int| 0 <= j < types.len() ==> !#[trigger] types[j].holds(t) {
        lemma_pool_from_none(types, t, 0);
    }
}

/// Recording the ratings of a multiset `m`, all at most `n - 1`, and exporting gives one row
/// `(v, c)` for each rating `v` that `m` holds, with `c` the number of times it holds `v`, in
/// strictly ascending order of rating; ratings that `m` does not hold have no row,
/// and the counts add up to the number of ratings recorded.
pub proof fn lemma_export_round_trip(m: Multiset<u64>, n: nat)
    requires
        n <= u64::MAX + 1,
        forall|v: u64| #[trigger] m.count(v) > 0 ==> v < n,
        m.len() <= u64::MAX,
    ensures
        forall|a: int, b: int|
            0 <= a < b < frequency_table(m, n).len() ==> #[trigger] frequency_table(m, n)[a].0
                < #[trigger] frequency_table(m, n)[b].0,
        forall|a: int|
            0 <= a < frequency_table(m, n).len() ==> {
                let (v, c) = #[trigger] frequency_table(m, n)[a];
                c > 0 && c == m.count(v)
            },
        forall|v: u64|
            #[trigger] m.count(v) > 0 ==> exists|a: int|
                0 <= a < frequency_table(m, n).len() && #[trigger] frequency_table(m, n)[a].0 == v,
        row_total(frequency_table(m, n)) == m.len(),
{
    lemma_frequency_table(m, n);
    lemma_row_total(m, n);
    lemma_count_below_len(m, n);
}

proof fn lemma_frequency_table(m: Multiset<u64>, n: nat)
    requires
        n <= u64::MAX + 1,
        m.len() <= u64::MAX,
    ensures
        forall|a: int, b: int|
            0 <= a < b < frequency_table(m, n).len() ==> #[trigger] frequency_table(m, n)[a].0
                < #[trigger] frequency_table(m, n)[b].0,
        forall|a: int|
            0 <= a < frequency_table(m, n).len() ==> {
                let (v, c) = #[trigger] frequency_table(m, n)[a];
                c > 0 && c == m.count(v) && v < n
            },
        forall|v: u64|
            #[trigger] m.count(v) > 0 && v < n ==> exists|a: int|
                0 <= a < frequency_table(m, n).len() && #[trigger] frequency_table(m, n)[a].0 == v,
    decreases n,
{
    if n > 0 {
        lemma_frequency_table(m, (n - 1) as nat);
        let rows = frequency_table(m, (n - 1) as nat);
        let t = frequency_table(m, n);
        let last = (n - 1) as u64;
        assert(m.count(last) <= m.len());
        assert forall|v: u64| #[trigger] m.count(v) > 0 && v < n implies exists|a: int|
            0 <= a < t.len() && #[trigger] t[a].0 == v by {
            if v < n - 1 {
                let a = choose|a: int| 0 <= a < rows.len() && #[trigger] rows[a].0 == v;
                assert(t[a] == rows[a]);
            } else {
                assert(t[rows.len() as int].0 == v);
            }
        }
    }
}

/// A rating made of digits alone reads as the number they spell, where that fits in a `u64`;
/// a rating that ends in `?` reads as none.
pub proof fn lemma_rating_of_digits(s: Seq<u8>)
    ensures
        s.len() > 0 && (forall|i: int| 0 <= i < s.len() ==> is_digit(#[trigger] s[i]))
            && decimal_value(s) <= u64::MAX ==> rating_of(s) == Some(decimal_value(s) as u64),
        s.len() > 0 && s.last() == UNKNOWN_MARKER ==> rating_of(s) is None,
{
    if forall|i: int| 0 <= i < s.len() ==> is_digit(#[trigger] s[i]) {
        lemma_keep_all_digits(s);
        if s.len() > 0 {
            assert(is_digit(s[s.len() - 1]));
        }
    }
}


/// The sum of the counts of `rows`.
pub open spec fn row_total(rows: Seq<(u64, u64)>) -> nat
    decreases rows.len(),
{
    if rows.len() == 0 {
        0
    } else {
        row_total(rows.drop_last()) + rows.last().1 as nat
    }
}

/// How many elements of `m`, each counted as often as it occurs, lie below `n`.
pub open spec fn count_below(m: Multiset<u64>, n: nat) -> nat
    decreases n,
{
    if n == 0 {
        0
    } else {
        count_below(m, (n - 1) as nat) + m.count((n - 1) as u64)
    }
}

proof fn lemma_row_total(m: Multiset<u64>, n: nat)
    requires
        n <= u64::MAX + 1,
        m.len() <= u64::MAX,
    ensures
        row_total(frequency_table(m, n)) == count_below(m, n),
    decreases n,
{
    if n > 0 {
        lemma_row_total(m, (n - 1) as nat);
        let v = (n - 1) as u64;
        let rows = frequency_table(m, (n - 1) as nat);
        assert(m.count(v) <= m.len());
        if m.count(v) > 0 {
            assert(rows.push((v, m.count(v) as u64)).drop_last() =~= rows);
        }
    }
}

proof fn lemma_count_below_empty(n: nat)
    ensures
        count_below(Multiset::empty(), n) == 0,
    decreases n,
{
    if n > 0 {
        lemma_count_below_empty((n - 1) as nat);
    }
}

proof fn lemma_count_below_insert(m: Multiset<u64>, x: u64, n: nat)
    requires
        n <= u64::MAX + 1,
    ensures
        count_below(m.insert(x), n) == count_below(m, n) + if x < n { 1nat } else { 0nat },
    decreases n,
{
    if n > 0 {
        lemma_count_below_insert(m, x, (n - 1) as nat);
    }
}

proof fn lemma_count_below_len(m: Multiset<u64>, n: nat)
    requires
        n <= u64::MAX + 1,
        forall|v: u64| #[trigger] m.count(v) > 0 ==> v < n,
    ensures
        count_below(m, n) == m.len(),
    decreases m.len(),
{
    broadcast use vstd::multiset::group_multiset_axioms;

    vstd::multiset::lemma_multiset_empty_len(m);
    if m.len() == 0 {
        assert(m =~= Multiset::empty());
        lemma_count_below_empty(n);
    } else {
        let v = choose|v: u64| 0 < m.count(v);
        let rest = m.remove(v);
        assert(m =~= rest.insert(v));
        assert forall|u: u64| #[trigger] rest.count(u) > 0 implies u < n by {
            assert(m.count(u) >= rest.count(u));
        }
        lemma_count_below_len(rest, n);
        lemma_count_below_insert(rest, v, n);
    }
}

proof fn lemma_recorded_after(
    types: Seq<PerfType>,
    games: Seq<Vec<(Vec<u8>, Vec<u8>)>>,
    p: int,
    m: Multiset<u64>,
)
    requires
        all_games_recordable(types, games),
        forall|v: u64| #[trigger] m.count(v) > 0 ==> v <= MAX_RATING,
    ensures
        forall|v: u64| #[trigger] recorded_after(types, games, p, m).count(v) > 0 ==> v <= MAX_RATING,
        recorded_after(types, games, p, m).len() <= m.len() + 2 * games.len(),
    decreases games.len(),
{
    if games.len() > 0 {
        let front = games.drop_last();
        assert forall|k: int| 0 <= k < front.len() implies !game_refused(
            types,
            #[trigger] header_view(front[k]@),
        ) by {
            assert(front[k] == games[k]);
        }
        lemma_recorded_after(types, front, p, m);
        let hs = header_view(games.last()@);
        assert(!game_refused(types, header_view(games[games.len() - 1]@)));
        assert(!above_max(game_rating(white_elo_key(), hs)) || game_pool(types, hs) is None);
    }
}

/// Reading a run of games, none of them refused, into pools that start empty, and exporting the
/// pool at `p`, gives the frequency table of the known ratings of the games that fall in it:
/// one row per rating, in strictly ascending order, each with how often it occurs, none with
/// a count of zero and none above the maximum; the counts add up to the number of ratings
/// recorded.
pub proof fn lemma_run_export(types: Seq<PerfType>, games: Seq<Vec<(Vec<u8>, Vec<u8>)>>, p: int)
    requires
        all_games_recordable(types, games),
        2 * games.len() <= u64::MAX,
    ensures
        ({
            let m = recorded_after(types, games, p, Multiset::empty());
            let rows = frequency_table(m, (MAX_RATING + 1) as nat);
            &&& forall|a: int, b: int|
                0 <= a < b < rows.len() ==> #[trigger] rows[a].0 < #[trigger] rows[b].0
            &&& forall|a: int|
                0 <= a < rows.len() ==> {
                    let (v, c) = #[trigger] rows[a];
                    c > 0 && c == m.count(v) && v <= MAX_RATING
                }
            &&& forall|v: u64|
                #[trigger] m.count(v) > 0 ==> exists|a: int|
                    0 <= a < rows.len() && #[trigger] rows[a].0 == v
            &&& row_total(rows) == m.len()
        }),
{
    let m = recorded_after(types, games, p, Multiset::empty());
    lemma_recorded_after(types, games, p, Multiset::empty());
    lemma_export_round_trip(m, (MAX_RATING + 1) as nat);
    lemma_frequency_table(m, (MAX_RATING + 1) as nat);
}

/// A game in a category with one known rating adds exactly one rating to that category.
pub proof fn lemma_one_known_rating(m: Multiset<u64>, w: u64)
    ensures
        with_rating(with_rating(m, Some(w)), None).len() == m.len() + 1,
        with_rating(with_rating(m, None), Some(w)).len() == m.len() + 1,
{
}

/// An event header, casual or not, changes neither the category of a game nor its ratings, so
/// whether a game is casual has no bearing on what is recorded for it.
pub proof fn lemma_event_does_not_gate(
    types: Seq<PerfType>,
    headers: Seq<(Seq<u8>, Seq<u8>)>,
    event: Seq<u8>,
)
    ensures
        game_pool(types, headers.push((event_key(), event))) == game_pool(types, headers),
        game_rating(white_elo_key(), headers.push((event_key(), event))) == game_rating(
            white_elo_key(),
            headers,
        ),
        game_rating(black_elo_key(), headers.push((event_key(), event))) == game_rating(
            black_elo_key(),
            headers,
        ),
        game_refused(types, headers.push((event_key(), event))) == game_refused(types, headers),
{
    let longer = headers.push((event_key(), event));
    assert(longer.drop_last() =~= headers);
    assert(event_key().len() != time_control_key().len());
    assert(event_key().len() != white_elo_key().len());
    assert(event_key().len() != black_elo_key().len());
}

} // verus!
