//! Deleting a block removes the blocks that are reached from it, and no
//! others.

use vstd::prelude::*;
use crate::graph::{
    Place, at_place, is_way, lemma_children, lemma_contains, lemma_delete, lemma_delete_cascades,
    lemma_detach, lemma_index, lemma_loosened, lemma_same_ids, lemma_without, loosened, without,
};
use crate::runtime::{RuntimeView, children};
use crate::table::lemma_find;

verus! {

/// Whether a way leads to `x` from one of the blocks of `from`: a run of
/// blocks, each of which holds the next, that starts in `from` and ends
/// with `x`.
pub open spec fn reached(v: RuntimeView, from: Seq<Seq<char>>, x: Seq<char>) -> bool {
    exists|way: Seq<Seq<char>>|
        is_way(v, way) && way.len() > 0 && from.contains(#[trigger] way[0]) && way.last() == x
}

/// A way through the graph without one block is a way through the graph
/// with it.
pub proof fn lemma_way_without(v: RuntimeView, i: int, way: Seq<Seq<char>>)
    requires
        v.ids().no_duplicates(),
        0 <= i < v.blocks.len(),
        is_way(without(v, i), way),
    ensures
        is_way(v, way),
{
    let u = without(v, i);
    lemma_without(v, i);
    assert forall|k: int| 0 <= k < way.len() - 1 implies #[trigger] v.holds(way[k], way[k + 1]) by {
        assert(u.holds(way[k], way[k + 1]));
        let a = way[k];
        assert(u.contains(a));
        assert(a != v.blocks[i].0);
        assert(v.contains(a));
        assert(u.block(a) == v.block(a));
        let p = choose|p: Place| at_place(u.block(a), p) == Some(way[k + 1]);
        assert(at_place(v.block(a), p) == Some(way[k + 1]));
    }
}

/// A block that is removed is reached from one of the blocks that were to
/// be removed.
pub proof fn lemma_removed_is_reached(v: RuntimeView, pending: Seq<Seq<char>>, x: Seq<char>)
    requires
        v.ids().no_duplicates(),
        v.contains(x),
        !v.delete_all(pending).contains(x),
    ensures
        reached(v, pending, x),
    decreases v.blocks.len(), pending.len(),
{
    if pending.len() > 0 {
        let id = pending.last();
        let rest = pending.drop_last();
        assert(pending[pending.len() - 1] == id);
        if !v.contains(id) {
            lemma_removed_is_reached(v, rest, x);
            let way = choose|way: Seq<Seq<char>>|
                is_way(v, way) && way.len() > 0 && rest.contains(#[trigger] way[0]) && way.last()
                    == x;
            let k = choose|k: int| 0 <= k < rest.len() && rest[k] == way[0];
            assert(pending[k] == way[0]);
            assert(is_way(v, way) && way.len() > 0 && pending.contains(way[0]) && way.last() == x);
        } else if x == id {
            let way = seq![id];
            assert(way[0] == id);
            assert(is_way(v, way) && way.len() > 0 && pending.contains(way[0]) && way.last() == x);
        } else {
            let i = v.index_of(id);
            lemma_contains(v, id);
            lemma_index(v, i);
            lemma_find(v.ids(), id);
            let b = v.blocks[i].1;
            let u = without(v, i);
            let more = rest + children(b);
            lemma_without(v, i);
            assert(v.delete_all(pending) == u.delete_all(more));
            lemma_removed_is_reached(u, more, x);
            let way = choose|way: Seq<Seq<char>>|
                is_way(u, way) && way.len() > 0 && more.contains(#[trigger] way[0]) && way.last()
                    == x;
            lemma_way_without(v, i, way);
            let k = choose|k: int| 0 <= k < more.len() && more[k] == way[0];
            if k < rest.len() {
                assert(rest[k] == way[0]);
                assert(pending[k] == way[0]);
                assert(is_way(v, way) && way.len() > 0 && pending.contains(way[0]) && way.last()
                    == x);
            } else {
                assert(children(b)[k - rest.len()] == way[0]);
                assert(children(b).contains(way[0]));
                lemma_children(b, way[0]);
                assert(v.holds(id, way[0]));
                let longer = seq![id] + way;
                assert(longer[0] == id);
                assert forall|j: int| 0 <= j < longer.len() - 1 implies #[trigger] v.holds(
                    longer[j],
                    longer[j + 1],
                ) by {
                    if j > 0 {
                        assert(v.holds(way[j - 1], way[j - 1 + 1]));
                        assert(longer[j] == way[j - 1] && longer[j + 1] == way[j]);
                    } else {
                        assert(longer[1] == way[0]);
                    }
                }
                assert(longer.last() == way.last());
                assert(is_way(v, longer) && longer.len() > 0 && pending.contains(longer[0])
                    && longer.last() == x);
            }
        }
    }
}

/// What a detached graph holds, the graph held before.
pub proof fn lemma_way_detached(v: RuntimeView, id: Seq<char>, way: Seq<Seq<char>>)
    requires
        v.linked(),
        v.contains(id),
        v.detach(id).1 is Ok,
        is_way(v.detach(id).0, way),
    ensures
        is_way(v, way),
{
    let d = v.detach(id).0;
    let l = loosened(v, id);
    lemma_detach(v, id);
    lemma_loosened(v, id);
    lemma_same_ids(v, l);
    lemma_same_ids(l, d);
    assert forall|k: int| 0 <= k < way.len() - 1 implies #[trigger] v.holds(way[k], way[k + 1]) by {
        assert(d.holds(way[k], way[k + 1]));
        let a = way[k];
        let c = way[k + 1];
        lemma_contains(v, a);
        let j = v.index_of(a);
        let p = choose|p: Place| at_place(d.block(a), p) == Some(c);
        assert(at_place(d.blocks[j].1, p) == at_place(l.blocks[j].1, p));
        assert(at_place(l.blocks[j].1, p) == Some(c));
        assert(at_place(v.blocks[j].1, p) == Some(c));
        assert(at_place(v.block(a), p) == Some(c));
    }
}

/// Deleting block `id` removes exactly the blocks to which a way leads from
/// `id`: block `x` is left if and only if the graph held it and no such way
/// leads to it.
pub proof fn lemma_delete_exact(v: RuntimeView, id: Seq<char>, x: Seq<char>)
    requires
        v.linked(),
        v.contains(id),
        v.delete(id).1 is Ok,
    ensures
        v.delete(id).0.contains(x) <==> v.contains(x) && !reached(v, seq![id], x),
{
    let w = v.delete(id).0;
    let d = v.detach(id).0;
    let start = seq![id];
    lemma_delete(v, id);
    lemma_detach(v, id);
    if reached(v, start, x) {
        let way = choose|way: Seq<Seq<char>>|
            is_way(v, way) && way.len() > 0 && start.contains(#[trigger] way[0]) && way.last() == x;
        let k = choose|k: int| 0 <= k < start.len() && start[k] == way[0];
        assert(way[0] == id);
        lemma_delete_cascades(v, id, way, way.len() - 1);
    }
    if v.contains(x) && !w.contains(x) {
        let dropped = d.drop_top_level(id);
        assert(dropped.blocks == d.blocks);
        assert(dropped.ids() == v.ids());
        let gone = dropped.delete_all(start);
        assert(w.blocks == gone.blocks);
        lemma_same_ids(gone, w);
        assert(dropped.contains(x));
        lemma_removed_is_reached(dropped, start, x);
        let way = choose|way: Seq<Seq<char>>|
            is_way(dropped, way) && way.len() > 0 && start.contains(#[trigger] way[0])
                && way.last() == x;
        assert(is_way(d, way)) by {
            assert forall|k: int| 0 <= k < way.len() - 1 implies #[trigger] d.holds(
                way[k],
                way[k + 1],
            ) by {
                assert(dropped.holds(way[k], way[k + 1]));
                let p = choose|p: Place| at_place(dropped.block(way[k]), p) == Some(way[k + 1]);
                assert(at_place(d.block(way[k]), p) == Some(way[k + 1]));
            }
        }
        lemma_way_detached(v, id, way);
        assert(is_way(v, way) && way.len() > 0 && start.contains(way[0]) && way.last() == x);
    }
}

} // verus!
