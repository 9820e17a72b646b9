//! Pure layout arithmetic: splitting the name row into percentage chunks,
//! spreading a row span across rungs as evenly as possible, and the modular
//! index helpers that cycle the selected lane.

use vstd::prelude::*;

verus! {

/// Cyclic successor of `index` among `0 .. limit`.
pub fn calc_next_index(index: u8, limit: u8) -> (r: u8)
    requires
        1 <= limit,
        index < limit,
    ensures
        r == (index + 1) % (limit as int),
        r < limit,
{
    (index + 1) % limit
}

/// Cyclic predecessor of `index` among `0 .. limit`.
pub fn calc_prev_index(index: u8, limit: u8) -> (r: u8)
    requires
        1 <= limit,
        index < limit,
        index + limit <= u8::MAX,
    ensures
        r == (index + limit - 1) % (limit as int),
        r < limit,
{
    (index + limit - 1) % limit
}

/// Total of the width ratios that one row of `n` name boxes consumes:
/// `n` boxes of `bw` ratio units with `n - 1` spaces of `sw` units between.
pub open spec fn names_total_ratio(n: int, bw: int, sw: int) -> int {
    n * bw + (n - 1) * sw
}

/// Bounds behind the layout arithmetic: with `unit = 100 / total`, neither
/// the whole row (`total` units) nor any single box or space outgrows the
/// hundred percent available.
proof fn lemma_names_unit_bounds(n: int, bw: int, sw: int)
    requires
        2 <= n,
        1 <= names_total_ratio(n, bw, sw),
        0 <= bw,
        0 <= sw,
    ensures
        ({
            let total = names_total_ratio(n, bw, sw);
            let unit = 100int / total;
            &&& 0 <= unit
            &&& total * unit <= 100
            &&& bw * unit <= total * unit
            &&& sw * unit <= total * unit
        }),
{
    let total = names_total_ratio(n, bw, sw);
    let unit = 100int / total;
    vstd::arithmetic::div_mod::lemma_fundamental_div_mod(100, total);
    vstd::arithmetic::div_mod::lemma_mod_bound(100, total);
    vstd::arithmetic::div_mod::lemma_div_pos_is_pos(100, total);
    vstd::arithmetic::mul::lemma_mul_inequality(2, n, bw);
    vstd::arithmetic::mul::lemma_mul_inequality(1, n - 1, sw);
    vstd::arithmetic::mul::lemma_mul_nonnegative(n - 1, sw);
    vstd::arithmetic::mul::lemma_mul_nonnegative(n, bw);
    assert(2 * bw == bw + bw) by (nonlinear_arith);
    assert(1 * sw == sw) by (nonlinear_arith);
    vstd::arithmetic::mul::lemma_mul_inequality(bw, total, unit);
    vstd::arithmetic::mul::lemma_mul_inequality(sw, total, unit);
}

/// One row of boxes and spaces, at `unit` percent per ratio unit, uses
/// exactly `total_ratio * unit` percent.
proof fn lemma_names_row_total(n: int, bw: int, sw: int, unit: int)
    requires
        2 <= n,
    ensures
        (n - 1) * (bw * unit + sw * unit) + bw * unit == names_total_ratio(n, bw, sw) * unit,
{
    broadcast use vstd::arithmetic::mul::group_mul_is_distributive;
    broadcast use vstd::arithmetic::mul::group_mul_basics;

    vstd::arithmetic::mul::lemma_mul_is_associative(n - 1, sw, unit);
    vstd::arithmetic::mul::lemma_mul_is_associative(n, bw, unit);
    assert((n - 1) * (bw * unit) + 1 * (bw * unit) == n * (bw * unit));
}

/// Splits a 100-percent-wide row into `2 * number_of_blocks + 1` percentage
/// chunks: a left margin, then `number_of_blocks` boxes separated by spaces,
/// then a right margin.  Each ratio unit becomes `100 / total_ratio` percent;
/// what `100` leaves over goes to the margins.  If a ratio unit is worth less
/// than one percent, no layout exists and an error value is returned.
pub fn calc_names_layout(
    number_of_blocks: u8,
    block_width_ratio: u8,
    space_width_ratio: u8,
) -> (r: Result<Vec<u16>, (u8, String)>)
    requires
        2 <= number_of_blocks,
        1 <= names_total_ratio(
            number_of_blocks as int,
            block_width_ratio as int,
            space_width_ratio as int,
        ) <= u8::MAX,
    ensures
        ({
            let total = names_total_ratio(
                number_of_blocks as int,
                block_width_ratio as int,
                space_width_ratio as int,
            );
            let unit = 100int / total;
            let margin = 100int - unit * total;
            let n = number_of_blocks as int;
            match r {
                Ok(v) => {
                    &&& unit >= 1
                    &&& v@.len() == 2 * n + 1
                    &&& seq_sum(v@) == 100
                    &&& forall|i: int|
                        #![trigger v@[i]]
                        0 <= i <= 2 * n ==> v@[i] == (if i == 0 {
                            margin / 2
                        } else if i == 2 * n {
                            margin - margin / 2
                        } else if i % 2 == 1 {
                            block_width_ratio * unit
                        } else {
                            space_width_ratio * unit
                        })
                },
                Err((u, m)) => {
                    &&& unit == 0
                    &&& u == 0
                    &&& m@ == "min unit error!, unit_width: 0"@
                },
            }
        }),
{
    let total_ratio: u8 = number_of_blocks * block_width_ratio + (number_of_blocks - 1)
        * space_width_ratio;
    let unit_width: u8 = 100 / total_ratio;

    if unit_width == 0 {
        return Err((unit_width, "min unit error!, unit_width: 0".to_string()));
    }

    proof {
        lemma_names_unit_bounds(
            number_of_blocks as int,
            block_width_ratio as int,
            space_width_ratio as int,
        );
        vstd::arithmetic::mul::lemma_mul_is_commutative(unit_width as int, total_ratio as int);
    }

    let used: u8 = unit_width * total_ratio;
    let margin: u8 = 100 - used;
    let left_margin: u8 = margin / 2;
    let right_margin: u8 = margin - left_margin;

    let block_width: u16 = (block_width_ratio * unit_width) as u16;
    let space_width: u16 = (space_width_ratio * unit_width) as u16;

    let mut vec: Vec<u16> = Vec::new();
    vec.push(left_margin as u16);
    proof {
        lemma_seq_sum_push(Seq::<u16>::empty(), left_margin as u16);
        assert(vec@ =~= Seq::<u16>::empty().push(left_margin as u16));
    }

    let mut x: u8 = 1;
    while x < number_of_blocks
        invariant
            1 <= x <= number_of_blocks,
            block_width == block_width_ratio * (100 as int
                / names_total_ratio(
                number_of_blocks as int,
                block_width_ratio as int,
                space_width_ratio as int,
            )),
            space_width == space_width_ratio * (100 as int
                / names_total_ratio(
                number_of_blocks as int,
                block_width_ratio as int,
                space_width_ratio as int,
            )),
            vec@.len() == 2 * x - 1,
            forall|i: int|
                #![trigger vec@[i]]
                0 <= i < vec@.len() ==> vec@[i] == (if i == 0 {
                    left_margin as int
                } else if i % 2 == 1 {
                    block_width as int
                } else {
                    space_width as int
                }),
            seq_sum(vec@) == left_margin + (x - 1) * (block_width + space_width),
        decreases number_of_blocks - x,
    {
        proof {
            lemma_seq_sum_push(vec@, block_width);
            lemma_seq_sum_push(vec@.push(block_width), space_width);
            vstd::arithmetic::mul::lemma_mul_is_distributive_add_other_way(
                block_width + space_width,
                x as int - 1,
                1,
            );
            vstd::arithmetic::mul::lemma_mul_basics(block_width + space_width);
        }
        vec.push(block_width);
        vec.push(space_width);
        x = x + 1;
    }

    proof {
        lemma_seq_sum_push(vec@, block_width);
        lemma_seq_sum_push(vec@.push(block_width), right_margin as u16);
        lemma_names_row_total(
            number_of_blocks as int,
            block_width_ratio as int,
            space_width_ratio as int,
            100int / names_total_ratio(
                number_of_blocks as int,
                block_width_ratio as int,
                space_width_ratio as int,
            ),
        );
    }
    vec.push(block_width);
    vec.push(right_margin as u16);

    Ok(vec)
}

/// Sum of a sequence of layout values.
pub open spec fn seq_sum(s: Seq<u16>) -> int
    decreases s.len(),
{
    if s.len() == 0 {
        0
    } else {
        seq_sum(s.drop_last()) + s.last()
    }
}

proof fn lemma_seq_sum_push(s: Seq<u16>, x: u16)
    ensures
        seq_sum(s.push(x)) == seq_sum(s) + x,
{
    assert(s.push(x).drop_last() =~= s);
}

proof fn lemma_seq_sum_update(s: Seq<u16>, i: int, x: u16)
    requires
        0 <= i < s.len(),
    ensures
        seq_sum(s.update(i, x)) == seq_sum(s) - s[i] + x,
    decreases s.len(),
{
    if i == s.len() - 1 {
        assert(s.update(i, x).drop_last() =~= s.drop_last());
    } else {
        assert(s.update(i, x).drop_last() =~= s.drop_last().update(i, x));
        lemma_seq_sum_update(s.drop_last(), i, x);
    }
}

/// Height assigned to slot `j` when `h` rows are spread over `n` slots:
/// every slot gets `h / n`, and the `h % n` leftover rows are handed out
/// one each at a stride of `n / (h % n)` slots, starting at slot `0`.
pub open spec fn distributed_height_at(n: int, h: int, j: int) -> int {
    let q = h / n;
    let e = h % n;
    if e > 0 && j % (n / e) == 0 && j / (n / e) < e {
        q + 1
    } else {
        q
    }
}

/// Splits a span of `height` rows as evenly as possible across
/// `number_of_bridge` slots.  Every slot receives the floor share; the
/// remainder is spread one row at a time at a regular stride from slot `0`.
/// The result always sums to exactly `height`.
pub fn calc_distributed_height(number_of_bridge: u16, height: u16) -> (r: Vec<u16>)
    requires
        1 <= number_of_bridge,
    ensures
        r@.len() == number_of_bridge,
        forall|j: int|
            0 <= j < r@.len() ==> r@[j] == distributed_height_at(
                number_of_bridge as int,
                height as int,
                j,
            ),
        seq_sum(r@) == height,
{
    let n = number_of_bridge;
    let bridge_height: u16 = height / n;
    let extra_bridges: u16 = height % n;

    proof {
        vstd::arithmetic::div_mod::lemma_fundamental_div_mod(height as int, n as int);
    }

    let mut vec: Vec<u16> = Vec::new();
    let mut i: usize = 0;
    while i < n as usize
        invariant
            i <= n,
            bridge_height == height as int / n as int,
            vec@.len() == i,
            forall|j: int| 0 <= j < i ==> vec@[j] == bridge_height,
            seq_sum(vec@) == i * bridge_height,
        decreases n - i,
    {
        proof {
            broadcast use vstd::arithmetic::mul::group_mul_is_distributive;
            broadcast use vstd::arithmetic::mul::group_mul_basics;

            lemma_seq_sum_push(vec@, bridge_height);
        }
        vec.push(bridge_height);
        i = i + 1;
    }

    if extra_bridges > 0 {
        let space: usize = (n / extra_bridges) as usize;
        proof {
            // `n` does not divide `height`, so `n >= 2` and the floor share
            // leaves room for one extra row per slot.
            assert(n >= 2);
            vstd::arithmetic::mul::lemma_mul_inequality(2, n as int, bridge_height as int);
            // The stride is at least one slot wide.
            vstd::arithmetic::div_mod::lemma_div_non_zero(n as int, extra_bridges as int);
            vstd::arithmetic::div_mod::lemma_fundamental_div_mod(n as int, extra_bridges as int);
        }
        let mut index: usize = 0;
        let mut k: u16 = 0;
        while k < extra_bridges
            invariant
                k <= extra_bridges,
                0 < extra_bridges < n,
                bridge_height == height as int / n as int,
                extra_bridges == height as int % n as int,
                height == n * bridge_height + extra_bridges,
                2 * bridge_height <= height,
                space == n as int / extra_bridges as int,
                1 <= space,
                extra_bridges * space <= n,
                index == k * space,
                vec@.len() == n,
                forall|j: int|
                    0 <= j < n ==> vec@[j] == (if j % (space as int) == 0 && j / (space as int)
                        < k {
                        bridge_height + 1
                    } else {
                        bridge_height as int
                    }),
                seq_sum(vec@) == n * bridge_height + k,
            decreases extra_bridges - k,
        {
            proof {
                broadcast use vstd::arithmetic::mul::group_mul_is_distributive;
                broadcast use vstd::arithmetic::mul::group_mul_basics;

                // index = k * space stays inside the vector.
                vstd::arithmetic::mul::lemma_mul_inequality(
                    k as int,
                    extra_bridges - 1,
                    space as int,
                );
                assert((extra_bridges - 1) * space == extra_bridges * space - space);
                assert(index < n);
                lemma_seq_sum_update(vec@, index as int, (bridge_height + 1) as u16);
                vstd::arithmetic::div_mod::lemma_mod_multiples_basic(k as int, space as int);
                vstd::arithmetic::div_mod::lemma_div_multiples_vanish(k as int, space as int);
            }
            vec.set(index, bridge_height + 1);
            index = index + space;
            k = k + 1;
            proof {
                assert forall|j: int| 0 <= j < n implies vec@[j] == (if j % (space as int) == 0
                    && j / (space as int) < k {
                    bridge_height + 1
                } else {
                    bridge_height as int
                }) by {
                    if j % (space as int) == 0 && j / (space as int) == k - 1 {
                        vstd::arithmetic::div_mod::lemma_fundamental_div_mod(j, space as int);
                    }
                }
            }
        }
    }

    vec
}

/// Wrap-around law of the index helpers: stepping forward from the last
/// index reaches `0`, and stepping backward from `0` reaches the last index.
pub proof fn lemma_index_wrap(limit: int)
    requires
        1 <= limit,
    ensures
        ((limit - 1) + 1) % limit == 0,
        (0 + limit - 1) % limit == limit - 1,
{
    vstd::arithmetic::div_mod::lemma_mod_self_0(limit);
    vstd::arithmetic::div_mod::lemma_small_mod((limit - 1) as nat, limit as nat);
}

} // verus!

