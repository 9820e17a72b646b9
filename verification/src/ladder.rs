//! Ladder generation: the rung map, its validity invariants, and the random
//! placement of rungs.  A rung map assigns every gap between adjacent lanes
//! a strictly ascending list of row indices; adjacent gaps never share a
//! row, so no two rungs ever meet at the same graph vertex.

use rand::seq::IteratorRandom;
use vstd::prelude::*;

verus! {

/// Rows within one gap are strictly ascending (sorted, no duplicates).
pub open spec fn rows_strictly_ascending(rows: Seq<u16>) -> bool {
    forall|i: int, j: int| 0 <= i < j < rows.len() ==> rows[i] < rows[j]
}

/// No row is used by both of two gaps.
pub open spec fn gaps_disjoint(a: Seq<u16>, b: Seq<u16>) -> bool {
    forall|i: int, j: int| 0 <= i < a.len() && 0 <= j < b.len() ==> a[i] != b[j]
}

/// Every gap's row list is strictly ascending.
pub open spec fn map_rows_ascending(m: Seq<Seq<u16>>) -> bool {
    forall|g: int| 0 <= g < m.len() ==> rows_strictly_ascending(#[trigger] m[g])
}

/// Every row index sits inside the ladder, below `row_count`.
pub open spec fn map_rows_bounded(m: Seq<Seq<u16>>, row_count: int) -> bool {
    forall|g: int, i: int|
        0 <= g < m.len() && 0 <= i < m[g].len() ==> #[trigger] m[g][i] < row_count
}

/// Adjacent gaps never share a row, so no two rungs meet at one vertex.
pub open spec fn map_adjacent_disjoint(m: Seq<Seq<u16>>) -> bool {
    forall|g: int| 1 <= g < m.len() ==> gaps_disjoint(m[g - 1], #[trigger] m[g])
}

/// The full validity invariant of a rung map over `row_count` rows.
pub open spec fn valid_bridge_map(m: Seq<Seq<u16>>, row_count: int) -> bool {
    &&& map_rows_ascending(m)
    &&& map_rows_bounded(m, row_count)
    &&& map_adjacent_disjoint(m)
}

/// The mathematical rung map of an exec rung map: one row sequence per gap.
pub open spec fn map_view(m: Seq<Vec<u16>>) -> Seq<Seq<u16>> {
    m.map_values(|v: Vec<u16>| v@)
}

/// Declares rand's thread-local generator so it can appear in signatures;
/// its value is opaque here.
#[verifier::external_type_specification]
#[verifier::external_body]
pub struct ExThreadRng(rand::rngs::ThreadRng);

/// Relies on rand's `Rng::gen_range(low, high)`: it returns a uniformly
/// drawn value in `[low, high)` and panics only when `low >= high`.
#[verifier::external_body]
fn rand_in_range(rng: &mut rand::rngs::ThreadRng, low: u8, high: u8) -> (r: u8)
    requires
        low < high,
    ensures
        low <= r < high,
{
    rand::Rng::gen_range(rng, low, high)
}

/// Relies on rand's `IteratorRandom::choose_multiple`: the result holds
/// `number_of_bridge` values drawn without replacement from the candidate
/// pool — fewer when the pool is smaller — in unspecified order.
#[verifier::external_body]
pub fn calc_bridge_indexes(
    rng: &mut rand::rngs::ThreadRng,
    number_of_bridge: u8,
    vec_candidates: Vec<u16>,
) -> (r: Vec<u16>)
    ensures
        r@.len() == vstd::math::min(number_of_bridge as int, vec_candidates@.len() as int),
        r@.to_multiset().subset_of(vec_candidates@.to_multiset()),
{
    vec_candidates.into_iter().choose_multiple(rng, number_of_bridge as usize)
}

/// Whether `x` occurs in `v`.
fn vec_contains(v: &Vec<u16>, x: u16) -> (b: bool)
    ensures
        b == v@.contains(x),
{
    let mut i: usize = 0;
    while i < v.len()
        invariant
            i <= v@.len(),
            forall|t: int| 0 <= t < i ==> v@[t] != x,
        decreases v@.len() - i,
    {
        if v[i] == x {
            return true;
        }
        i = i + 1;
    }
    false
}

/// Sorts rows ascending by inserting each one at its place.
fn sort_rows(input: &Vec<u16>) -> (r: Vec<u16>)
    ensures
        r@.to_multiset() == input@.to_multiset(),
        r@.len() == input@.len(),
        forall|i: int, j: int| 0 <= i < j < r@.len() ==> r@[i] <= r@[j],
{
    let mut out: Vec<u16> = Vec::new();
    let mut i: usize = 0;
    proof {
        broadcast use vstd::seq_lib::group_to_multiset_ensures;

        assert(input@.take(0) =~= Seq::<u16>::empty());
        assert(out@.to_multiset() =~= input@.take(0).to_multiset());
    }
    while i < input.len()
        invariant
            i <= input@.len(),
            out@.len() == i,
            out@.to_multiset() == input@.take(i as int).to_multiset(),
            forall|p: int, q: int| 0 <= p < q < out@.len() ==> out@[p] <= out@[q],
        decreases input@.len() - i,
    {
        let x = input[i];
        let mut p: usize = 0;
        while p < out.len() && out[p] <= x
            invariant
                p <= out@.len(),
                forall|t: int| 0 <= t < p ==> out@[t] <= x,
            decreases out@.len() - p,
        {
            p = p + 1;
        }
        proof {
            broadcast use vstd::seq_lib::to_multiset_insert;
            broadcast use vstd::seq_lib::to_multiset_build;

            assert(input@.take(i as int + 1) =~= input@.take(i as int).push(input@[i as int]));
        }
        let ghost prev = out@;
        out.insert(p, x);
        proof {
            assert forall|a: int, b: int| 0 <= a < b < out@.len() implies out@[a] <= out@[b] by {
                if b < p {
                } else if a > p {
                } else if a == p && b > p {
                    assert(out@[b] == prev[b - 1]);
                } else if b == p && a < p {
                } else if a < p && b > p {
                    assert(out@[b] == prev[b - 1]);
                }
            }
        }
        i = i + 1;
    }
    proof {
        assert(input@.take(input@.len() as int) =~= input@);
        broadcast use vstd::seq_lib::group_to_multiset_ensures;
    }
    out
}

proof fn lemma_strictly_ascending_no_duplicates(s: Seq<u16>)
    requires
        rows_strictly_ascending(s),
    ensures
        s.no_duplicates(),
{
    assert forall|i: int, j: int|
        0 <= i < s.len() && 0 <= j < s.len() && i != j implies s[i] != s[j] by {
        if i < j {
            assert(s[i] < s[j]);
        } else {
            assert(s[j] < s[i]);
        }
    }
}

/// Values drawn without replacement from a duplicate-free pool are
/// themselves duplicate-free and all come from the pool.
proof fn lemma_sampled_from_pool(cand: Seq<u16>, sampled: Seq<u16>)
    requires
        rows_strictly_ascending(cand),
        sampled.to_multiset().subset_of(cand.to_multiset()),
    ensures
        sampled.no_duplicates(),
        forall|j: int| 0 <= j < sampled.len() ==> cand.contains(#[trigger] sampled[j]),
{
    broadcast use vstd::seq_lib::group_to_multiset_ensures;

    lemma_strictly_ascending_no_duplicates(cand);
    cand.lemma_multiset_has_no_duplicates();
    assert forall|x: u16| sampled.to_multiset().contains(x) implies sampled.to_multiset().count(
        x,
    ) == 1 by {
        assert(sampled.to_multiset().count(x) <= cand.to_multiset().count(x));
        assert(cand.to_multiset().count(x) > 0);
        assert(cand.to_multiset().contains(x));
    }
    sampled.lemma_multiset_has_no_duplicates_conv();
    assert forall|j: int| 0 <= j < sampled.len() implies cand.contains(#[trigger] sampled[j]) by {
        assert(sampled.contains(sampled[j]));
        assert(sampled.to_multiset().count(sampled[j]) > 0);
        assert(cand.to_multiset().count(sampled[j]) > 0);
    }
}

proof fn lemma_sorted_distinct_is_strict(s: Seq<u16>)
    requires
        s.no_duplicates(),
        forall|i: int, j: int| 0 <= i < j < s.len() ==> s[i] <= s[j],
    ensures
        rows_strictly_ascending(s),
{
}

/// How many entries of `s` lie below `bound`.
spec fn count_rows_below(s: Seq<u16>, bound: int) -> int
    decreases s.len(),
{
    if s.len() == 0 {
        0
    } else {
        count_rows_below(s.drop_last(), bound) + (if s.last() < bound {
            1int
        } else {
            0int
        })
    }
}

/// The number of rows a gap can draw from: every ladder row except those
/// the previous gap already uses.
pub open spec fn gap_pool(m: Seq<Seq<u16>>, g: int, row_count: int) -> int {
    if g == 0 {
        row_count
    } else {
        row_count - m[g - 1].len()
    }
}

proof fn lemma_count_rows_below_zero(s: Seq<u16>)
    ensures
        count_rows_below(s, 0) == 0,
    decreases s.len(),
{
    if s.len() > 0 {
        lemma_count_rows_below_zero(s.drop_last());
    }
}

proof fn lemma_drop_last_no_duplicates(s: Seq<u16>)
    requires
        s.len() > 0,
        s.no_duplicates(),
    ensures
        s.drop_last().no_duplicates(),
{
}

/// Raising the bound by one counts exactly the entry equal to the old
/// bound, when there can be at most one.
proof fn lemma_count_rows_below_step(s: Seq<u16>, b: u16)
    requires
        s.no_duplicates(),
    ensures
        count_rows_below(s, b + 1) == count_rows_below(s, b as int) + (if s.contains(b) {
            1int
        } else {
            0int
        }),
    decreases s.len(),
{
    if s.len() > 0 {
        lemma_drop_last_no_duplicates(s);
        lemma_count_rows_below_step(s.drop_last(), b);
        if s.last() == b {
            assert(!s.drop_last().contains(b)) by {
                if s.drop_last().contains(b) {
                    let i = choose|i: int|
                        0 <= i < s.drop_last().len() && s.drop_last()[i] == b;
                    assert(s[i] == s[s.len() - 1]);
                }
            }
            assert(s.contains(b)) by {
                assert(s[s.len() - 1] == b);
            }
        } else {
            assert(s.contains(b) <==> s.drop_last().contains(b)) by {
                if s.contains(b) {
                    let i = choose|i: int| 0 <= i < s.len() && s[i] == b;
                    assert(s.drop_last()[i] == b);
                }
                if s.drop_last().contains(b) {
                    let i = choose|i: int|
                        0 <= i < s.drop_last().len() && s.drop_last()[i] == b;
                    assert(s[i] == b);
                }
            }
        }
    }
}

proof fn lemma_count_rows_below_all(s: Seq<u16>, bound: int)
    requires
        forall|i: int| 0 <= i < s.len() ==> #[trigger] s[i] < bound,
    ensures
        count_rows_below(s, bound) == s.len(),
    decreases s.len(),
{
    if s.len() > 0 {
        assert(forall|i: int|
            0 <= i < s.drop_last().len() ==> #[trigger] s.drop_last()[i] == s[i]);
        lemma_count_rows_below_all(s.drop_last(), bound);
    }
}

/// Rows that all come from a pool disjoint from `prev` are disjoint from
/// `prev` themselves.
proof fn lemma_disjoint_transfer(prev: Seq<u16>, cand: Seq<u16>, s: Seq<u16>)
    requires
        gaps_disjoint(prev, cand),
        forall|j: int| 0 <= j < s.len() ==> cand.contains(#[trigger] s[j]),
    ensures
        gaps_disjoint(prev, s),
{
    assert forall|i: int, j: int|
        #![trigger prev[i], s[j]]
        0 <= i < prev.len() && 0 <= j < s.len() implies prev[i] != s[j] by {
        let t = choose|t: int| 0 <= t < cand.len() && cand[t] == s[j];
        assert(prev[i] != cand[t]);
    }
}

/// Rows that all come from a pool below `bound` stay below `bound`.
proof fn lemma_bounded_transfer(cand: Seq<u16>, s: Seq<u16>, bound: int)
    requires
        forall|t: int| 0 <= t < cand.len() ==> #[trigger] cand[t] < bound,
        forall|j: int| 0 <= j < s.len() ==> cand.contains(#[trigger] s[j]),
    ensures
        forall|j: int| 0 <= j < s.len() ==> #[trigger] s[j] < bound,
{
    assert forall|j: int| 0 <= j < s.len() implies #[trigger] s[j] < bound by {
        let t = choose|t: int| 0 <= t < cand.len() && cand[t] == s[j];
        assert(cand[t] < bound);
    }
}

/// Builds the whole rung map: for every gap, draws a rung count in
/// `[2, number_of_max_bridges)`, samples that many rows from the rows not
/// used by the previous gap, and stores them sorted ascending.  The result
/// has one entry per gap and satisfies the full ladder invariant.  Every
/// gap receives at least two rungs — fewer only when its pool (the ladder's
/// rows minus those the previous gap uses) runs short, in which case it
/// receives the whole pool.
pub fn calc_bridge_hashmap(
    number_of_blocks: u8,
    number_of_max_bridges: u8,
    y_coordinate: u16,
    rng: &mut rand::rngs::ThreadRng,
) -> (m: Vec<Vec<u16>>)
    requires
        2 <= number_of_blocks,
        2 < number_of_max_bridges,
    ensures
        m@.len() == number_of_blocks - 1,
        valid_bridge_map(map_view(m@), y_coordinate as int),
        forall|g: int| 0 <= g < m@.len() ==> #[trigger] map_view(m@)[g].len()
            < number_of_max_bridges,
        forall|g: int|
            0 <= g < m@.len() ==> vstd::math::min(2, gap_pool(map_view(m@), g, y_coordinate as int))
                <= #[trigger] map_view(m@)[g].len() <= gap_pool(map_view(m@), g, y_coordinate as int),
{
    let mut m: Vec<Vec<u16>> = Vec::new();
    let mut g: u8 = 0;
    while g < number_of_blocks - 1
        invariant
            g <= number_of_blocks - 1,
            2 < number_of_max_bridges,
            m@.len() == g,
            valid_bridge_map(map_view(m@), y_coordinate as int),
            forall|k: int| 0 <= k < m@.len() ==> #[trigger] map_view(m@)[k].len()
                < number_of_max_bridges,
            forall|k: int|
                0 <= k < m@.len() ==> vstd::math::min(
                    2,
                    gap_pool(map_view(m@), k, y_coordinate as int),
                ) <= #[trigger] map_view(m@)[k].len() <= gap_pool(
                    map_view(m@),
                    k,
                    y_coordinate as int,
                ),
        decreases number_of_blocks - 1 - g,
    {
        let number_of_bridge = rand_in_range(rng, 2, number_of_max_bridges);

        // Candidate pool: every row of the ladder that the previous gap
        // does not already use.
        let ghost prev_rows: Seq<u16> = if g >= 1 {
            map_view(m@)[g as int - 1]
        } else {
            Seq::empty()
        };
        proof {
            if g >= 1 {
                lemma_strictly_ascending_no_duplicates(prev_rows);
            }
            lemma_count_rows_below_zero(prev_rows);
        }
        let mut candidates: Vec<u16> = Vec::new();
        let mut row: u16 = 0;
        while row < y_coordinate
            invariant
                row <= y_coordinate,
                m@.len() == g,
                prev_rows == (if g >= 1 {
                    map_view(m@)[g as int - 1]
                } else {
                    Seq::<u16>::empty()
                }),
                prev_rows.no_duplicates(),
                rows_strictly_ascending(candidates@),
                forall|t: int| 0 <= t < candidates@.len() ==> #[trigger] candidates@[t] < row,
                g >= 1 ==> gaps_disjoint(map_view(m@)[g - 1], candidates@),
                candidates@.len() == row - count_rows_below(prev_rows, row as int),
                count_rows_below(prev_rows, row as int) >= 0,
            decreases y_coordinate - row,
        {
            let excluded = if g >= 1 {
                vec_contains(&m[(g - 1) as usize], row)
            } else {
                false
            };
            proof {
                lemma_count_rows_below_step(prev_rows, row);
            }
            if !excluded {
                candidates.push(row);
            }
            row = row + 1;
        }

        proof {
            // The previous gap's rows all lie inside the ladder, so the
            // pool holds exactly the rows the previous gap leaves free.
            if g >= 1 {
                assert(forall|i: int|
                    0 <= i < prev_rows.len() ==> #[trigger] prev_rows[i] < y_coordinate);
            }
            lemma_count_rows_below_all(prev_rows, y_coordinate as int);
            assert(candidates@.len() == y_coordinate - prev_rows.len());
        }

        let sampled = calc_bridge_indexes(rng, number_of_bridge, candidates);
        let sorted = sort_rows(&sampled);

        proof {
            lemma_sampled_from_pool(candidates@, sorted@);
            lemma_sorted_distinct_is_strict(sorted@);
        }

        let ghost old_map = m@;
        m.push(sorted);

        proof {
            assert(map_view(m@) =~= map_view(old_map).push(sorted@));
            if g >= 1 {
                lemma_disjoint_transfer(map_view(old_map)[g as int - 1], candidates@, sorted@);
            }
            lemma_bounded_transfer(candidates@, sorted@, y_coordinate as int);
            assert forall|k: int| 1 <= k < map_view(m@).len() implies gaps_disjoint(
                map_view(m@)[k - 1],
                #[trigger] map_view(m@)[k],
            ) by {
                if k < g as int {
                    assert(gaps_disjoint(map_view(old_map)[k - 1], map_view(old_map)[k]));
                }
            }
        }
        g = g + 1;
    }
    m
}

} // verus!

