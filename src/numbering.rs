//! Dotted numeric codes that give each element its position among its
//! siblings at every level.

use vstd::prelude::*;

use crate::text::{decimal, push_char, push_decimal};

verus! {

/// The sibling counters after an element of depth `d`, given the counters
/// before it (one per level, the last at the current depth): one level
/// deeper starts a new counter at 1; the same or a shallower depth drops the
/// deeper counters and counts one more sibling at depth `d`.
pub open spec fn step(counters: Seq<nat>, d: nat) -> Seq<nat> {
    if d >= counters.len() {
        counters.push(1)
    } else {
        counters.take(d + 1 as int).update(d as int, counters[d as int] + 1)
    }
}

/// The counters after the elements of the given depths.
pub open spec fn counters_after(depths: Seq<nat>) -> Seq<nat>
    decreases depths.len(),
{
    if depths.len() == 0 {
        seq![0nat]
    } else {
        step(counters_after(depths.drop_last()), depths.last())
    }
}

/// Each depth is at most one more than the one before it; the first is at
/// most one.
pub open spec fn well_nested(depths: Seq<nat>) -> bool {
    forall|i: int|
        0 <= i < depths.len() ==> #[trigger] depths[i] <= if i == 0 {
            0
        } else {
            depths[i - 1] as int
        } + 1
}

/// `prefix` followed by ".n" for each counter below the top level.
pub open spec fn code_text(prefix: Seq<char>, counters: Seq<nat>) -> Seq<char>
    decreases counters.len(),
{
    if counters.len() <= 1 {
        prefix
    } else {
        code_text(prefix, counters.drop_last()) + seq!['.'] + decimal(counters.last())
    }
}

/// The code of each element of the given depths.
pub open spec fn codes(prefix: Seq<char>, depths: Seq<nat>) -> Seq<Seq<char>> {
    Seq::new(depths.len(), |i: int| code_text(prefix, counters_after(depths.take(i + 1))))
}

/// The depths as mathematical integers.
pub open spec fn depth_views(depths: Seq<usize>) -> Seq<nat> {
    depths.map_values(|d: usize| d as nat)
}

proof fn lemma_counters_len(depths: Seq<nat>)
    requires
        well_nested(depths),
    ensures
        counters_after(depths).len() == if depths.len() == 0 {
            1
        } else {
            depths.last() + 1
        },
    decreases depths.len(),
{
    if depths.len() > 0 {
        let pre = depths.drop_last();
        assert(well_nested(pre)) by {
            assert forall|i: int| 0 <= i < pre.len() implies #[trigger] pre[i] <= if i == 0 {
                0
            } else {
                pre[i - 1] as int
            } + 1 by {
                assert(pre[i] == depths[i]);
                if i > 0 {
                    assert(pre[i - 1] == depths[i - 1]);
                }
            }
        }
        lemma_counters_len(pre);
        assert(depths[depths.len() - 1] == depths.last());
        if depths.len() > 1 {
            assert(pre.last() == depths[depths.len() - 2]);
        }
    }
}

proof fn lemma_well_nested_extend(ds: Seq<nat>, i: int)
    requires
        0 <= i < ds.len(),
        well_nested(ds.take(i)),
        ds[i] <= if i == 0 {
            0
        } else {
            ds[i - 1] as int
        } + 1,
    ensures
        well_nested(ds.take(i + 1)),
{
    let pre = ds.take(i);
    let next = ds.take(i + 1);
    assert forall|k: int| 0 <= k < next.len() implies #[trigger] next[k] <= if k == 0 {
        0
    } else {
        next[k - 1] as int
    } + 1 by {
        if k < i {
            assert(next[k] == pre[k]);
            if k > 0 {
                assert(next[k - 1] == pre[k - 1]);
            }
        }
    }
}

fn advance(levels: &mut Vec<usize>, d: usize, bound: usize)
    requires
        old(levels)@.len() >= 1,
        d <= old(levels)@.len(),
        bound < usize::MAX,
        forall|k: int| 0 <= k < old(levels)@.len() ==> #[trigger] old(levels)@[k] <= bound,
    ensures
        depth_views(final(levels)@) == step(depth_views(old(levels)@), d as nat),
        final(levels)@.len() >= 1,
        forall|k: int| 0 <= k < final(levels)@.len() ==> #[trigger] final(levels)@[k] <= bound + 1,
{
    let ghost before = depth_views(levels@);
    if d == levels.len() {
        levels.push(1);
        assert(depth_views(levels@) =~= before.push(1));
    } else {
        levels.truncate(d + 1);
        let c = levels[d];
        levels.set(d, c + 1);
        assert(depth_views(levels@) =~= before.take(d + 1 as int).update(d as int, before[d as int] + 1));
    }
}

fn code_of(prefix: &str, levels: &Vec<usize>) -> (r: String)
    requires
        levels@.len() >= 1,
    ensures
        r@ == code_text(prefix@, depth_views(levels@)),
{
    let ghost lv = depth_views(levels@);
    let mut code = String::from_str(prefix);
    let mut k: usize = 1;
    while k < levels.len()
        invariant
            1 <= k <= levels@.len(),
            lv == depth_views(levels@),
            code@ == code_text(prefix@, lv.take(k as int)),
        decreases levels@.len() - k,
    {
        assert(lv.take(k + 1).drop_last() =~= lv.take(k as int));
        assert(lv.take(k + 1).last() == levels@[k as int] as nat);
        push_char(&mut code, '.');
        push_decimal(&mut code, levels[k]);
        k = k + 1;
    }
    assert(lv.take(levels@.len() as int) =~= lv);
    code
}

/// The code of each element, given the elements' depths in order: the
/// prefix, then for each level below the top the element's position among
/// its siblings, joined by '.'. `None` when a depth is more than one deeper
/// than the depth before it (the first counts as following depth 0).
pub fn element_codes(depths: &Vec<usize>, prefix: &str) -> (r: Option<Vec<String>>)
    ensures
        r is Some <==> well_nested(depth_views(depths@)),
        r matches Some(v) ==> v@.map_values(|c: String| c@) == codes(
            prefix@,
            depth_views(depths@),
        ),
{
    let ghost ds = depth_views(depths@);
    let mut levels: Vec<usize> = Vec::new();
    levels.push(0);
    let mut out: Vec<String> = Vec::new();
    let mut i: usize = 0;
    assert(ds.take(0) =~= Seq::<nat>::empty());
    assert(depth_views(levels@) =~= seq![0nat]);
    while i < depths.len()
        invariant
            ds == depth_views(depths@),
            i <= depths@.len(),
            well_nested(ds.take(i as int)),
            depth_views(levels@) == counters_after(ds.take(i as int)),
            levels@.len() >= 1,
            forall|k: int| 0 <= k < levels@.len() ==> #[trigger] levels@[k] <= i,
            out@.len() == i,
            forall|k: int|
                0 <= k < i ==> (#[trigger] out@[k])@ == code_text(
                    prefix@,
                    counters_after(ds.take(k + 1)),
                ),
        decreases depths@.len() - i,
    {
        let d = depths[i];
        let ghost pre = ds.take(i as int);
        let ghost next = ds.take(i + 1);
        assert(next.drop_last() =~= pre);
        assert(next.last() == d as nat);
        proof {
            lemma_counters_len(pre);
            assert(i > 0 ==> pre.last() == ds[i - 1]);
        }
        if d > levels.len() {
            proof {
                assert(ds[i as int] == d as nat);
                assert(i > 0 ==> levels@.len() == ds[i - 1] + 1);
                assert(!well_nested(ds));
            }
            return None;
        }
        advance(&mut levels, d, i);
        let code = code_of(prefix, &levels);
        out.push(code);
        proof {
            lemma_well_nested_extend(ds, i as int);
        }
        i = i + 1;
    }
    assert(ds.take(depths@.len() as int) =~= ds);
    assert(out@.map_values(|c: String| c@) =~= codes(prefix@, ds));
    Some(out)
}

} // verus!
