//! The deduplication / overflow partitioning of a layer's tile list.
//!
//! One LDtk layer may legitimately stack several tiles on one cell, while a
//! rendered sub-layer holds at most one tile per position. The partition
//! repeatedly keeps the first tile seen at each distinct pixel position and
//! defers every later collision to an overflow list, until no collision is
//! left; each pass becomes one sub-layer.

use vstd::prelude::*;
use vstd::multiset::Multiset;
use vstd::seq_lib::lemma_multiset_commutative;
use crate::ldtk::{same_px, TileInstance};

verus! {

/// True when some tile of `s` shares `t`'s pixel position.
pub open spec fn has_px(s: Seq<TileInstance>, t: TileInstance) -> bool {
    exists|j: int| 0 <= j < s.len() && same_px(s[j], t)
}

/// Tiles kept by one partition pass: every tile that is the first of its
/// pixel position, in input order.
pub open spec fn kept_of(s: Seq<TileInstance>) -> Seq<TileInstance>
    decreases s.len(),
{
    if s.len() == 0 {
        Seq::empty()
    } else {
        let pre = s.drop_last();
        if has_px(pre, s.last()) {
            kept_of(pre)
        } else {
            kept_of(pre).push(s.last())
        }
    }
}

/// Tiles deferred by one partition pass: every tile that collides with an
/// earlier one, in input order.
pub open spec fn overflow_of(s: Seq<TileInstance>) -> Seq<TileInstance>
    decreases s.len(),
{
    if s.len() == 0 {
        Seq::empty()
    } else {
        let pre = s.drop_last();
        if has_px(pre, s.last()) {
            overflow_of(pre).push(s.last())
        } else {
            overflow_of(pre)
        }
    }
}

/// One pass splits the list in two: together the kept and deferred tiles are
/// as many as the input, and a nonempty input always keeps its first tile.
pub proof fn lemma_pass_lens(s: Seq<TileInstance>)
    ensures
        kept_of(s).len() + overflow_of(s).len() == s.len(),
        s.len() > 0 ==> kept_of(s).len() > 0,
    decreases s.len(),
{
    if s.len() > 0 {
        lemma_pass_lens(s.drop_last());
    }
}

/// Splitting a nonempty list at its last element, for the `has_px` predicate.
proof fn lemma_has_px_unsnoc(s: Seq<TileInstance>, t: TileInstance)
    requires
        s.len() > 0,
    ensures
        has_px(s, t) == (has_px(s.drop_last(), t) || same_px(s.last(), t)),
{
    let pre = s.drop_last();
    if has_px(s, t) {
        let j = choose|j: int| 0 <= j < s.len() && same_px(s[j], t);
        if j < s.len() - 1 {
            assert(pre[j] == s[j]);
            assert(has_px(pre, t));
        }
    }
    if has_px(pre, t) {
        let j = choose|j: int| 0 <= j < pre.len() && same_px(pre[j], t);
        assert(s[j] == pre[j]);
        assert(has_px(s, t));
    }
    if same_px(s.last(), t) {
        assert(same_px(s[s.len() - 1], t));
        assert(has_px(s, t));
    }
}

/// The kept tiles cover exactly the pixel positions of the input.
pub proof fn lemma_kept_membership(s: Seq<TileInstance>, t: TileInstance)
    ensures
        has_px(kept_of(s), t) == has_px(s, t),
    decreases s.len(),
{
    if s.len() == 0 {
        assert(!has_px(s, t));
        assert(!has_px(kept_of(s), t));
    } else {
        let pre = s.drop_last();
        lemma_kept_membership(pre, t);
        lemma_has_px_unsnoc(s, t);
        if has_px(pre, s.last()) {
            if same_px(s.last(), t) {
                assert(has_px(pre, t)) by {
                    let j = choose|j: int| 0 <= j < pre.len() && same_px(pre[j], s.last());
                    assert(same_px(pre[j], t));
                }
            }
        } else {
            lemma_has_px_unsnoc(kept_of(s), t);
            assert(kept_of(s).drop_last() =~= kept_of(pre));
            assert(kept_of(s).last() == s.last());
        }
    }
}

/// No two tiles of `p` share a pixel position.
pub open spec fn collision_free(p: Seq<TileInstance>) -> bool {
    forall|i: int, j: int| 0 <= i < j < p.len() ==> !same_px(p[i], p[j])
}

/// The kept tiles of one pass are pairwise free of pixel-position collisions.
pub proof fn lemma_kept_collision_free(s: Seq<TileInstance>)
    ensures
        collision_free(kept_of(s)),
    decreases s.len(),
{
    if s.len() > 0 {
        let pre = s.drop_last();
        lemma_kept_collision_free(pre);
        if !has_px(pre, s.last()) {
            lemma_kept_membership(pre, s.last());
            let k = kept_of(s);
            assert(k =~= kept_of(pre).push(s.last()));
            assert forall|i: int, j: int| 0 <= i < j < k.len() implies !same_px(k[i], k[j]) by {
                if j == k.len() - 1 {
                    assert(k[i] == kept_of(pre)[i]);
                    assert(!has_px(kept_of(pre), s.last()));
                }
            }
        }
    }
}

/// Together, the kept and deferred tiles of one pass hold exactly the input
/// tiles, as a multiset.
pub proof fn lemma_pass_multiset(s: Seq<TileInstance>)
    ensures
        kept_of(s).to_multiset().add(overflow_of(s).to_multiset()) =~= s.to_multiset(),
    decreases s.len(),
{
    broadcast use vstd::seq_lib::group_to_multiset_ensures;
    broadcast use vstd::multiset::group_multiset_axioms;

    if s.len() == 0 {
        assert(s.to_multiset() =~= Multiset::<TileInstance>::empty()) by {
            assert(forall|a: TileInstance| !s.contains(a));
        }
        assert(kept_of(s).to_multiset() =~= Multiset::<TileInstance>::empty()) by {
            assert(forall|a: TileInstance| !kept_of(s).contains(a));
        }
        assert(overflow_of(s).to_multiset() =~= Multiset::<TileInstance>::empty()) by {
            assert(forall|a: TileInstance| !overflow_of(s).contains(a));
        }
    } else {
        let pre = s.drop_last();
        lemma_pass_multiset(pre);
        assert(s =~= pre.push(s.last()));
        assert(s.to_multiset() =~= pre.to_multiset().insert(s.last()));
        if has_px(pre, s.last()) {
            assert(overflow_of(s) =~= overflow_of(pre).push(s.last()));
            assert(overflow_of(s).to_multiset() =~= overflow_of(pre).to_multiset().insert(
                s.last(),
            ));
        } else {
            assert(kept_of(s) =~= kept_of(pre).push(s.last()));
            assert(kept_of(s).to_multiset() =~= kept_of(pre).to_multiset().insert(s.last()));
        }
    }
}

/// The ordered partitions of a tile list: the tiles kept by the first pass,
/// then, while any tile was deferred, the partitions of the deferred tiles.
pub open spec fn spec_partition(s: Seq<TileInstance>) -> Seq<Seq<TileInstance>>
    decreases s.len() via spec_partition_decreases
{
    if overflow_of(s).len() == 0 {
        seq![kept_of(s)]
    } else {
        seq![kept_of(s)] + spec_partition(overflow_of(s))
    }
}

#[via_fn]
proof fn spec_partition_decreases(s: Seq<TileInstance>) {
    lemma_pass_lens(s);
}

/// Partition correctness: every produced partition is free of pixel-position
/// collisions, and together the partitions hold exactly the input tiles, as
/// a multiset.
pub proof fn lemma_partition_correct(tiles: Seq<TileInstance>)
    ensures
        forall|k: int| 0 <= k < spec_partition(tiles).len() ==> collision_free(
            #[trigger] spec_partition(tiles)[k],
        ),
        spec_partition(tiles).flatten().to_multiset() =~= tiles.to_multiset(),
    decreases tiles.len(),
{
    broadcast use vstd::multiset::group_multiset_axioms;

    lemma_pass_lens(tiles);
    lemma_kept_collision_free(tiles);
    lemma_pass_multiset(tiles);
    let kept = kept_of(tiles);
    let over = overflow_of(tiles);
    if over.len() == 0 {
        assert(spec_partition(tiles) == seq![kept]);
        spec_partition(tiles).lemma_flatten_one_element();
        assert(spec_partition(tiles).flatten() == kept);
        assert(over.to_multiset() =~= Multiset::<TileInstance>::empty()) by {
            broadcast use vstd::seq_lib::group_to_multiset_ensures;

            assert(forall|a: TileInstance| !over.contains(a));
        }
    } else {
        lemma_partition_correct(over);
        let rest = spec_partition(over);
        let whole = spec_partition(tiles);
        assert(whole == seq![kept] + rest);
        assert(whole.first() == kept);
        assert(whole.drop_first() =~= rest);
        assert(whole.flatten() == kept + rest.flatten());
        lemma_multiset_commutative(kept, rest.flatten());
        assert forall|k: int| 0 <= k < whole.len() implies collision_free(#[trigger] whole[k]) by {
            if k > 0 {
                assert(whole[k] == rest[k - 1]);
            }
        }
    }
}

/// The partition count: at least one partition, and at most one more than
/// the number of tiles.
pub proof fn lemma_partition_count(s: Seq<TileInstance>)
    ensures
        1 <= spec_partition(s).len() <= s.len() + 1,
    decreases s.len(),
{
    lemma_pass_lens(s);
    if overflow_of(s).len() != 0 {
        lemma_partition_count(overflow_of(s));
    }
}

/// Partition determinism: running the partition twice on the same tile list
/// yields identical ordered partitions.
pub proof fn lemma_partition_deterministic(a: Seq<TileInstance>, b: Seq<TileInstance>)
    requires
        a == b,
    ensures
        spec_partition(a) == spec_partition(b),
{
}

/// True when some tile of `v` shares `t`'s pixel position.
fn contains_px(v: &Vec<TileInstance>, t: TileInstance) -> (r: bool)
    ensures
        r == has_px(v@, t),
{
    let mut k: usize = 0;
    while k < v.len()
        invariant
            0 <= k <= v@.len(),
            forall|j: int| 0 <= j < k ==> !same_px(v@[j], t),
        decreases v@.len() - k,
    {
        if v[k].px_x == t.px_x && v[k].px_y == t.px_y {
            assert(same_px(v@[k as int], t));
            return true;
        }
        k += 1;
    }
    false
}

/// Splits a tile list into ordered partitions, each free of pixel-position
/// collisions: each pass keeps the first tile seen at every distinct pixel
/// position and defers the rest to the next pass, via an explicit work list.
pub fn layer_grid_tiles(grid_tiles: Vec<TileInstance>) -> (r: Vec<Vec<TileInstance>>)
    ensures
        r@.map_values(|p: Vec<TileInstance>| p@) == spec_partition(grid_tiles@),
{
    let mut result: Vec<Vec<TileInstance>> = Vec::new();
    let mut work: Vec<TileInstance> = grid_tiles;
    proof {
        assert(result@.map_values(|p: Vec<TileInstance>| p@) + spec_partition(work@)
            =~= spec_partition(grid_tiles@));
    }
    loop
        invariant_except_break
            result@.map_values(|p: Vec<TileInstance>| p@) + spec_partition(work@)
                == spec_partition(grid_tiles@),
        ensures
            result@.map_values(|p: Vec<TileInstance>| p@) == spec_partition(grid_tiles@),
        decreases work@.len(),
    {
        let ghost prev_work = work@;
        let mut kept: Vec<TileInstance> = Vec::new();
        let mut overflow: Vec<TileInstance> = Vec::new();
        let mut i: usize = 0;
        while i < work.len()
            invariant
                0 <= i <= work@.len(),
                kept@ == kept_of(work@.take(i as int)),
                overflow@ == overflow_of(work@.take(i as int)),
            decreases work@.len() - i,
        {
            let t = work[i];
            let collides = contains_px(&kept, t);
            proof {
                let taken = work@.take(i as int);
                lemma_kept_membership(taken, t);
                assert(work@.take(i + 1).drop_last() =~= taken);
                assert(work@.take(i + 1).last() == t);
            }
            if collides {
                overflow.push(t);
            } else {
                kept.push(t);
            }
            i += 1;
        }
        proof {
            assert(work@.take(work@.len() as int) =~= work@);
            lemma_pass_lens(work@);
        }
        let overflow_empty = overflow.len() == 0;
        let ghost old_result = result@;
        result.push(kept);
        proof {
            let ghost partial = old_result.map_values(|p: Vec<TileInstance>| p@);
            assert(result@.map_values(|p: Vec<TileInstance>| p@) =~= partial.push(kept@));
            if overflow_empty {
                assert(spec_partition(prev_work) == seq![kept_of(prev_work)]);
                assert(partial.push(kept@) =~= partial + seq![kept@]);
                assert(result@.map_values(|p: Vec<TileInstance>| p@) =~= spec_partition(
                    grid_tiles@,
                ));
            } else {
                assert(spec_partition(prev_work) == seq![kept_of(prev_work)] + spec_partition(
                    overflow@,
                ));
                assert(partial.push(kept@) + spec_partition(overflow@) =~= partial + (
                seq![kept@] + spec_partition(overflow@)));
                assert(result@.map_values(|p: Vec<TileInstance>| p@) + spec_partition(overflow@)
                    =~= spec_partition(grid_tiles@));
            }
        }
        if overflow_empty {
            break;
        }
        work = overflow;
    }
    result
}

} // verus!
