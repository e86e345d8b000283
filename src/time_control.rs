//! Time-control expressions `<initial>+<increment>` and the game length they predict.
use vstd::prelude::*;
use crate::digits::{decimal_text, decimal_value, is_digit, lemma_decimal_text, read_decimal};

verus! {

/// Moves that a game is expected to last: each brings one increment.
pub const EXPECTED_MOVES: u64 = 40;

/// The byte `+` that separates the initial time from the increment.
pub const PLUS: u8 = 43;

/// The end of the run of digits that starts at `i`: the first index from `i` on that holds
/// no digit, or the length of `s`.
pub open spec fn run_end(s: Seq<u8>, i: int) -> int
    decreases s.len() - i,
{
    if i < 0 || i >= s.len() || !is_digit(s[i]) {
        i
    } else {
        run_end(s, i + 1)
    }
}

/// Digits start at `p`, and right after them stand a `+` and another digit.
pub open spec fn match_at(s: Seq<u8>, p: int) -> bool {
    &&& 0 <= p < s.len()
    &&& is_digit(s[p])
    &&& run_end(s, p) + 1 < s.len()
    &&& s[run_end(s, p)] == PLUS
    &&& is_digit(s[run_end(s, p) + 1])
}

/// The first index from `from` on where a time control starts.
pub open spec fn first_match(s: Seq<u8>, from: int) -> Option<int>
    decreases s.len() - from,
{
    if from < 0 || from >= s.len() {
        None
    } else if match_at(s, from) {
        Some(from)
    } else {
        first_match(s, from + 1)
    }
}

/// The initial time and the increment of the first time control found in `s`, each the whole
/// run of digits on its side of the `+`.
pub open spec fn time_control_of(s: Seq<u8>) -> Option<(nat, nat)> {
    match first_match(s, 0) {
        Some(p) => {
            let q = run_end(s, p);
            Some(
                (
                    decimal_value(s.subrange(p, q)),
                    decimal_value(s.subrange(q + 1, run_end(s, q + 1))),
                ),
            )
        },
        None => None,
    }
}

/// The estimated game length in seconds: the initial time plus one increment per expected move.
pub open spec fn estimated_length_of(s: Seq<u8>) -> Option<int> {
    match time_control_of(s) {
        Some((initial, increment)) => Some(initial + EXPECTED_MOVES * increment),
        None => None,
    }
}

/// The text `<initial>+<increment>`, each number in its shortest decimal spelling.
pub open spec fn time_control_text(initial: nat, increment: nat) -> Seq<u8> {
    decimal_text(initial) + seq![PLUS] + decimal_text(increment)
}

proof fn lemma_run_end_monotone(s: Seq<u8>, i: int)
    requires
        0 <= i,
    ensures
        i <= run_end(s, i) <= if i <= s.len() { s.len() as int } else { i },
        forall|k: int| i <= k < run_end(s, i) ==> is_digit(#[trigger] s[k]),
    decreases s.len() - i,
{
    if i < s.len() && is_digit(s[i]) {
        lemma_run_end_monotone(s, i + 1);
    }
}

fn digit_run_end(s: &[u8], i: usize) -> (r: usize)
    requires
        i <= s@.len(),
    ensures
        r as int == run_end(s@, i as int),
{
    let mut j: usize = i;
    while j < s.len() && s[j] >= 48 && s[j] <= 57
        invariant
            i <= j <= s@.len(),
            run_end(s@, j as int) == run_end(s@, i as int),
        decreases s@.len() - j,
    {
        j += 1;
    }
    j
}

/// The estimated game length that the first time control in `tc` gives, `None` where `tc`
/// holds none or where the length does not fit in a `u64`.
pub fn estimated_length(tc: &[u8]) -> (r: Option<u64>)
    ensures
        match estimated_length_of(tc@) {
            Some(t) => if t <= u64::MAX { r == Some(t as u64) } else { r is None },
            None => r is None,
        },
{
    let n = tc.len();
    let mut p: usize = 0;
    while p < n
        invariant
            n == tc@.len(),
            p <= n,
            first_match(tc@, 0) == first_match(tc@, p as int),
        decreases n - p,
    {
        if tc[p] >= 48 && tc[p] <= 57 {
            let q = digit_run_end(tc, p);
            proof {
                lemma_run_end_monotone(tc@, p as int);
            }
            if q < n - 1 && tc[q] == PLUS && tc[q + 1] >= 48 && tc[q + 1] <= 57 {
                assert(match_at(tc@, p as int));
                let e = digit_run_end(tc, q + 1);
                proof {
                    lemma_run_end_monotone(tc@, q + 1);
                }
                let initial = read_decimal(tc, p, q);
                let increment = read_decimal(tc, q + 1, e);
                match (initial, increment) {
                    (Some(a), Some(b)) => {
                        let room: u64 = (u64::MAX - a) / EXPECTED_MOVES;
                        if b > room {
                            assert(a + 40 * b > u64::MAX) by (nonlinear_arith)
                                requires
                                    b > room,
                                    room == (u64::MAX - a) as int / 40,
                            ;
                            return None;
                        }
                        assert(a + 40 * b <= u64::MAX) by (nonlinear_arith)
                            requires
                                b <= room,
                                room == (u64::MAX - a) as int / 40,
                        ;
                        return Some(a + EXPECTED_MOVES * b);
                    },
                    _ => {
                        return None;
                    },
                }
            }
        }
        p += 1;
    }
    None
}

/// The text `<initial>+<increment>` reads back as those two numbers.
pub proof fn lemma_time_control_text(initial: nat, increment: nat)
    ensures
        time_control_of(time_control_text(initial, increment)) == Some((initial, increment)),
        estimated_length_of(time_control_text(initial, increment)) == Some(
            initial + EXPECTED_MOVES * increment,
        ),
{
    let a = decimal_text(initial);
    let b = decimal_text(increment);
    let s = time_control_text(initial, increment);
    lemma_decimal_text(initial);
    lemma_decimal_text(increment);
    assert(s.len() == a.len() + 1 + b.len());
    assert forall|i: int| 0 <= i < a.len() implies s[i] == a[i] by {}
    assert(s[a.len() as int] == PLUS);
    assert forall|i: int| 0 <= i < b.len() implies s[a.len() + 1 + i] == b[i] by {}
    lemma_run_end_through(s, 0, a.len() as int);
    lemma_run_end_through(s, a.len() + 1int, s.len() as int);
    assert(match_at(s, 0));
    assert(s.subrange(0, a.len() as int) =~= a);
    assert(s.subrange(a.len() + 1int, s.len() as int) =~= b);
}

proof fn lemma_run_end_through(s: Seq<u8>, i: int, e: int)
    requires
        0 <= i <= e <= s.len(),
        forall|k: int| i <= k < e ==> is_digit(#[trigger] s[k]),
        e == s.len() || !is_digit(s[e]),
    ensures
        run_end(s, i) == e,
    decreases e - i,
{
    if i < e {
        lemma_run_end_through(s, i + 1, e);
    }
}

} // verus!
