//! No block is its own ancestor: no way that takes a step leads from a
//! block back to it. Taking links away keeps that, and a new link keeps it
//! where no way leads from the child to the parent.

use vstd::prelude::*;
use crate::graph::{
    Place, at_place, is_way, lemma_attach_input, lemma_attach_next, lemma_contains, lemma_delete,
    lemma_detach, side_place,
};
use crate::reach::{lemma_way_detached, reached};
use crate::runtime::RuntimeView;
use crate::soundness::{
    lemma_create_sound, lemma_default_sound, lemma_set_field_sound, sound_graph,
};
use crate::table::lemma_find;

verus! {

/// Whether no way of one step or more leads from a block back to it.
pub open spec fn acyclic(v: RuntimeView) -> bool {
    forall|way: Seq<Seq<char>>| #[trigger] is_way(v, way) && way.len() > 1 ==> way[0] != way.last()
}

/// Whether `w` is `v` with one place set: `parent` holds `id` at `place`,
/// and every other place holds what it held.
pub open spec fn one_link_more(
    v: RuntimeView,
    w: RuntimeView,
    parent: Seq<char>,
    place: Place,
    id: Seq<char>,
) -> bool {
    &&& v.ids().no_duplicates()
    &&& w.ids() == v.ids()
    &&& w.blocks.len() == v.blocks.len()
    &&& v.contains(parent)
    &&& forall|j: int, p: Place|
        0 <= j < v.blocks.len() ==> #[trigger] at_place(w.blocks[j].1, p) == (if j == v.index_of(
            parent,
        ) && p == place {
            Some(id)
        } else {
            at_place(v.blocks[j].1, p)
        })
}

/// Whether step `k` of `way` goes from `parent` to `id`.
pub open spec fn new_step(way: Seq<Seq<char>>, k: int, parent: Seq<char>, id: Seq<char>) -> bool {
    way[k] == parent && way[k + 1] == id
}

/// The last of the first `hi` steps of `way` that goes from `parent` to
/// `id`, or -1 where none does.
pub proof fn last_new_step(way: Seq<Seq<char>>, hi: int, parent: Seq<char>, id: Seq<char>) -> (m: int)
    requires
        0 <= hi,
    ensures
        -1 <= m < hi || (m == -1 && hi == 0),
        m >= 0 ==> new_step(way, m, parent, id),
        forall|k: int| m < k < hi ==> !new_step(way, k, parent, id),
    decreases hi,
{
    if hi == 0 {
        -1
    } else if new_step(way, hi - 1, parent, id) {
        hi - 1
    } else {
        last_new_step(way, hi - 1, parent, id)
    }
}

/// A part of a way through the graph with the new link that does not take
/// the new link is a way through the graph without it.
pub proof fn lemma_part_is_way(
    v: RuntimeView,
    w: RuntimeView,
    parent: Seq<char>,
    place: Place,
    id: Seq<char>,
    way: Seq<Seq<char>>,
    a: int,
    b: int,
)
    requires
        one_link_more(v, w, parent, place, id),
        is_way(w, way),
        0 <= a <= b <= way.len(),
        forall|k: int| a <= k < b - 1 ==> !new_step(way, k, parent, id),
    ensures
        is_way(v, way.subrange(a, b)),
{
    let part = way.subrange(a, b);
    assert forall|k: int| 0 <= k < part.len() - 1 implies #[trigger] v.holds(
        part[k],
        part[k + 1],
    ) by {
        let x = way[a + k];
        let c = way[a + k + 1];
        assert(w.holds(way[a + k], way[a + k + 1]));
        assert(!new_step(way, a + k, parent, id));
        assert(w.index_of(x) == v.index_of(x));
        lemma_contains(v, x);
        lemma_contains(v, parent);
        let j = v.index_of(x);
        let p = choose|p: Place| at_place(w.block(x), p) == Some(c);
        assert(at_place(w.blocks[j].1, p) == Some(c));
        if j == v.index_of(parent) && p == place {
            assert(x == parent && c == id);
        }
        assert(at_place(v.block(x), p) == Some(c));
    }
}

/// Two ways, the second from where the first ends, make one way.
pub proof fn lemma_joined_ways(v: RuntimeView, x: Seq<Seq<char>>, y: Seq<Seq<char>>)
    requires
        is_way(v, x),
        is_way(v, y),
        x.len() > 0,
        y.len() > 0,
        x.last() == y[0],
    ensures
        is_way(v, x + y.subrange(1, y.len() as int)),
        (x + y.subrange(1, y.len() as int))[0] == x[0],
        (x + y.subrange(1, y.len() as int)).last() == y.last(),
{
    let t = x + y.subrange(1, y.len() as int);
    let n = x.len() as int;
    assert forall|k: int| 0 <= k < t.len() - 1 implies #[trigger] v.holds(t[k], t[k + 1]) by {
        if k + 1 < n {
            assert(v.holds(x[k], x[k + 1]));
        } else if k + 1 == n {
            assert(v.holds(y[0int], y[0int + 1]));
            assert(t[k] == x[n - 1] && t[k + 1] == y[1]);
        } else {
            assert(v.holds(y[k - n + 1], y[k - n + 1 + 1]));
            assert(t[k] == y[k - n + 1] && t[k + 1] == y[k - n + 2]);
        }
    }
}

/// One more link keeps the graph free of cycles where no way led from the
/// child to the parent.
pub proof fn lemma_link_acyclic(
    v: RuntimeView,
    w: RuntimeView,
    parent: Seq<char>,
    place: Place,
    id: Seq<char>,
)
    requires
        one_link_more(v, w, parent, place, id),
        acyclic(v),
        !reached(v, seq![id], parent),
    ensures
        acyclic(w),
{
    let start = seq![id];
    assert(start[0] == id);
    assert forall|way: Seq<Seq<char>>| #[trigger] is_way(w, way) && way.len() > 1 implies way[0]
        != way.last() by {
        if way[0] == way.last() {
            let n = way.len() as int;
            let m = last_new_step(way, n - 1, parent, id);
            if m < 0 {
                lemma_part_is_way(v, w, parent, place, id, way, 0, n);
                assert(way.subrange(0, n) =~= way);
                assert(is_way(v, way));
            } else {
                // from the child to where the way ends
                let tail = way.subrange(m + 1, n);
                lemma_part_is_way(v, w, parent, place, id, way, m + 1, n);
                let q = last_new_step(way, m, parent, id);
                if q >= 0 {
                    let mid = way.subrange(q + 1, m + 1);
                    lemma_part_is_way(v, w, parent, place, id, way, q + 1, m + 1);
                    assert(mid[0] == id && mid.last() == parent);
                    assert(is_way(v, mid) && mid.len() > 0 && start.contains(mid[0]) && mid.last()
                        == parent);
                } else {
                    let head = way.subrange(0, m + 1);
                    lemma_part_is_way(v, w, parent, place, id, way, 0, m + 1);
                    assert(tail.last() == way[n - 1]);
                    assert(head[0] == way[0]);
                    lemma_joined_ways(v, tail, head);
                    let round = tail + head.subrange(1, head.len() as int);
                    assert(round[0] == id);
                    assert(head.last() == parent);
                    assert(is_way(v, round) && round.len() > 0 && start.contains(round[0])
                        && round.last() == parent);
                }
            }
        }
    }
}

/// A graph that holds no more than an acyclic graph held is acyclic.
pub proof fn lemma_fewer_links_acyclic(v: RuntimeView, w: RuntimeView)
    requires
        acyclic(v),
        forall|way: Seq<Seq<char>>| #[trigger] is_way(w, way) ==> is_way(v, way),
    ensures
        acyclic(w),
{
}

/// Attaching a block into an input keeps the graph free of cycles where no
/// way leads from the block to the new parent.
pub proof fn lemma_attach_input_acyclic(
    v: RuntimeView,
    id: Seq<char>,
    parent_id: Seq<char>,
    name: Seq<char>,
    is_shadow: bool,
)
    requires
        v.linked(),
        v.can_attach_input(id, parent_id, name) ==> v.block(id).parent_id is None,
        acyclic(v),
        !reached(v, seq![id], parent_id),
    ensures
        acyclic(v.attach_input(id, parent_id, name, is_shadow)),
{
    if v.can_attach_input(id, parent_id, name) {
        lemma_attach_input(v, id, parent_id, name, is_shadow);
        lemma_find(v.block(parent_id).input_names(), name);
        lemma_link_acyclic(
            v,
            v.attach_input(id, parent_id, name, is_shadow),
            parent_id,
            side_place(v.block(parent_id).input_index(name), is_shadow),
            id,
        );
    }
}

/// Chaining a block after another keeps the graph free of cycles where no
/// way leads from the block to the one it follows.
pub proof fn lemma_attach_next_acyclic(v: RuntimeView, id: Seq<char>, parent_id: Seq<char>)
    requires
        v.linked(),
        v.can_attach_next(id, parent_id) ==> v.block(id).parent_id is None,
        acyclic(v),
        !reached(v, seq![id], parent_id),
    ensures
        acyclic(v.attach_next(id, parent_id)),
{
    if v.can_attach_next(id, parent_id) {
        lemma_attach_next(v, id, parent_id);
        lemma_link_acyclic(v, v.attach_next(id, parent_id), parent_id, Place::Next, id);
    }
}

/// Detaching a block keeps the graph free of cycles.
pub proof fn lemma_detach_acyclic(v: RuntimeView, id: Seq<char>)
    requires
        v.linked(),
        acyclic(v),
    ensures
        acyclic(v.detach(id).0),
{
    if v.contains(id) && v.detach(id).1 is Ok {
        assert forall|way: Seq<Seq<char>>| #[trigger] is_way(v.detach(id).0, way) implies is_way(
            v,
            way,
        ) by {
            lemma_way_detached(v, id, way);
        }
        lemma_fewer_links_acyclic(v, v.detach(id).0);
    } else if v.contains(id) {
        match v.own_xy(id, v.blocks.len()) {
            Err(_) => {},
            Ok(at) => {
                lemma_detach_kept_links(v, id);
            },
        }
    }
}

/// Where detaching fails on the way, the graph holds no more than before.
pub proof fn lemma_detach_kept_links(v: RuntimeView, id: Seq<char>)
    requires
        v.linked(),
        acyclic(v),
        v.contains(id),
        v.detach(id).1 is Err,
    ensures
        acyclic(v.detach(id).0),
{
    let d = v.detach(id).0;
    let l = crate::graph::loosened(v, id);
    lemma_detach(v, id);
    crate::graph::lemma_loosened(v, id);
    match v.own_xy(id, v.blocks.len()) {
        Err(_) => {},
        Ok(at) => {
            crate::graph::lemma_slide_to_links(l, id, at.0, at.1);
            crate::graph::lemma_same_ids(v, l);
            crate::graph::lemma_same_ids(l, d);
            assert forall|way: Seq<Seq<char>>| #[trigger] is_way(d, way) implies is_way(v, way) by {
                assert forall|k: int| 0 <= k < way.len() - 1 implies #[trigger] v.holds(
                    way[k],
                    way[k + 1],
                ) by {
                    assert(d.holds(way[k], way[k + 1]));
                    let a = way[k];
                    let c = way[k + 1];
                    lemma_contains(v, a);
                    let j = v.index_of(a);
                    let p = choose|p: Place| at_place(d.block(a), p) == Some(c);
                    assert(at_place(d.blocks[j].1, p) == at_place(l.blocks[j].1, p));
                    assert(at_place(v.blocks[j].1, p) == Some(c));
                }
            }
            lemma_fewer_links_acyclic(v, d);
        },
    }
}

/// Deleting a block keeps the graph free of cycles.
pub proof fn lemma_delete_acyclic(v: RuntimeView, id: Seq<char>)
    requires
        v.linked(),
        acyclic(v),
    ensures
        acyclic(v.delete(id).0),
{
    let d = v.detach(id).0;
    let w = v.delete(id).0;
    lemma_detach_acyclic(v, id);
    lemma_detach(v, id);
    if v.detach(id).1 is Ok {
        if v.contains(id) {
            lemma_delete(v, id);
            assert forall|way: Seq<Seq<char>>| #[trigger] is_way(w, way) implies is_way(d, way) by {
                assert forall|k: int| 0 <= k < way.len() - 1 implies #[trigger] d.holds(
                    way[k],
                    way[k + 1],
                ) by {
                    assert(w.holds(way[k], way[k + 1]));
                    let a = way[k];
                    assert(w.contains(a));
                    assert(v.contains(a));
                    assert(w.block(a) == d.block(a));
                    let p = choose|p: Place| at_place(w.block(a), p) == Some(way[k + 1]);
                    assert(at_place(d.block(a), p) == Some(way[k + 1]));
                }
            }
            lemma_fewer_links_acyclic(d, w);
        } else {
            let dropped = d.drop_top_level(id);
            let pending = seq![id];
            assert(dropped.delete_all(pending) == dropped) by {
                assert(pending.drop_last() =~= Seq::<Seq<char>>::empty());
                assert(pending.last() == id);
                assert(dropped.delete_all(pending) == dropped.delete_all(pending.drop_last()));
            }
            assert(w.blocks == v.blocks);
            assert forall|way: Seq<Seq<char>>| #[trigger] is_way(w, way) implies is_way(v, way) by {
                assert forall|k: int| 0 <= k < way.len() - 1 implies #[trigger] v.holds(
                    way[k],
                    way[k + 1],
                ) by {
                    assert(w.holds(way[k], way[k + 1]));
                    let p = choose|p: Place| at_place(w.block(way[k]), p) == Some(way[k + 1]);
                    assert(at_place(v.block(way[k]), p) == Some(way[k + 1]));
                }
            }
            lemma_fewer_links_acyclic(v, w);
        }
    }
}

/// A graph with the links of an acyclic graph is acyclic: setting a field
/// and sliding keep the graph free of cycles.
pub proof fn lemma_same_links_acyclic(v: RuntimeView, w: RuntimeView)
    requires
        acyclic(v),
        v.same_links(w),
    ensures
        acyclic(w),
{
    crate::graph::lemma_same_ids(v, w);
    assert forall|way: Seq<Seq<char>>| #[trigger] is_way(w, way) implies is_way(v, way) by {
        assert forall|k: int| 0 <= k < way.len() - 1 implies #[trigger] v.holds(
            way[k],
            way[k + 1],
        ) by {
            assert(w.holds(way[k], way[k + 1]));
            let a = way[k];
            lemma_find(v.ids(), a);
            let j = v.index_of(a);
            let p = choose|p: Place| at_place(w.block(a), p) == Some(way[k + 1]);
            assert(w.blocks[j].1.inputs == v.blocks[j].1.inputs);
            assert(at_place(v.block(a), p) == Some(way[k + 1]));
        }
    }
    lemma_fewer_links_acyclic(v, w);
}

/// A fresh editor has no cycle.
pub proof fn lemma_fresh_acyclic(specs: Seq<(Seq<char>, crate::spec::SpecView)>)
    ensures
        acyclic(RuntimeView::fresh(specs)),
{
    let v = RuntimeView::fresh(specs);
    assert forall|way: Seq<Seq<char>>| #[trigger] is_way(v, way) && way.len() > 1 implies way[0]
        != way.last() by {
        assert(v.holds(way[0int], way[0int + 1]));
        lemma_find(v.ids(), way[0]);
    }
}

/// No way leads from another block to a block without a parent: such a
/// block can take any other block in without becoming its own ancestor.
pub proof fn lemma_parentless_unreached(v: RuntimeView, id: Seq<char>, parent_id: Seq<char>)
    requires
        v.linked(),
        v.contains(parent_id),
        v.block(parent_id).parent_id is None,
        id != parent_id,
    ensures
        !reached(v, seq![id], parent_id),
{
    let start = seq![id];
    crate::graph::lemma_parentless_unheld(v, parent_id);
    if reached(v, start, parent_id) {
        let way = choose|way: Seq<Seq<char>>|
            is_way(v, way) && way.len() > 0 && start.contains(#[trigger] way[0]) && way.last()
                == parent_id;
        let k = choose|k: int| 0 <= k < start.len() && start[k] == way[0];
        assert(way[0] == id);
        let n = way.len() as int;
        assert(n > 1);
        assert(v.holds(way[n - 2], way[n - 2 + 1]));
        let a = way[n - 2];
        lemma_contains(v, a);
        let p = choose|p: Place| at_place(v.block(a), p) == Some(parent_id);
        assert(v.refers(v.index_of(a), p, parent_id));
    }
}

/// Making a block keeps the graph free of cycles.
pub proof fn lemma_create_acyclic(v: RuntimeView, opcode: Seq<char>)
    requires
        v.linked(),
        acyclic(v),
        v.fresh_id() is Some,
    ensures
        acyclic(v.create_single_block(opcode)),
{
    let w = v.create_single_block(opcode);
    let id = v.fresh_id()->0;
    crate::graph::lemma_create_single_block(v, opcode);
    crate::graph::lemma_fresh_id(v);
    crate::graph::lemma_new_block(v.spec_of(opcode), opcode);
    assert forall|way: Seq<Seq<char>>| #[trigger] is_way(w, way) implies is_way(v, way) by {
        assert forall|k: int| 0 <= k < way.len() - 1 implies #[trigger] v.holds(
            way[k],
            way[k + 1],
        ) by {
            assert(w.holds(way[k], way[k + 1]));
            let a = way[k];
            let p = choose|p: Place| at_place(w.block(a), p) == Some(way[k + 1]);
            if a == id {
                assert(at_place(w.block(a), p) is None);
            } else {
                lemma_contains(w, a);
                let j = w.index_of(a);
                if j == v.blocks.len() {
                    assert(w.blocks[j].0 == id);
                }
                assert(w.blocks[j] == v.blocks[j]);
                crate::graph::lemma_index(v, j);
            }
        }
    }
    lemma_fewer_links_acyclic(v, w);
}

/// No way leads to another block from a block that holds nothing.
pub proof fn lemma_childless_unreached(v: RuntimeView, id: Seq<char>, parent_id: Seq<char>)
    requires
        crate::graph::holds_nothing(v.block(id)),
        id != parent_id,
    ensures
        !reached(v, seq![id], parent_id),
{
    let start = seq![id];
    if reached(v, start, parent_id) {
        let way = choose|way: Seq<Seq<char>>|
            is_way(v, way) && way.len() > 0 && start.contains(#[trigger] way[0]) && way.last()
                == parent_id;
        let k = choose|k: int| 0 <= k < start.len() && start[k] == way[0];
        assert(way[0] == id);
        assert(way.len() > 1);
        assert(v.holds(way[0int], way[0int + 1]));
        let p = choose|p: Place| at_place(v.block(id), p) == Some(way[1]);
        assert(at_place(v.block(id), p) is None);
    }
}

/// Filling one input of a block of the graph with its default keeps the
/// graph free of cycles.
pub proof fn lemma_default_acyclic(
    v: RuntimeView,
    parent: Seq<char>,
    name: Seq<char>,
    d: crate::spec::DefaultValueView,
)
    requires
        sound_graph(v),
        acyclic(v),
        v.contains(parent),
    ensures
        acyclic(v.instantiate_default(parent, name, d).0),
        v.instantiate_default(parent, name, d).0.contains(parent),
{
    let op = crate::runtime::default_opcode(d);
    if v.has_spec(op) && v.fresh_id() is Some {
        let child = v.fresh_id()->0;
        let made = v.create_single_block(op);
        crate::graph::lemma_create_single_block(v, op);
        crate::graph::lemma_fresh_id(v);
        crate::graph::lemma_new_block(v.spec_of(op), op);
        lemma_create_sound(v, op);
        lemma_create_acyclic(v, op);
        let filled = match crate::runtime::default_field(d) {
            Some(f) => made.set_field(child, f, crate::runtime::default_text(d), None),
            None => made,
        };
        if crate::runtime::default_field(d) is Some {
            let f = crate::runtime::default_field(d)->0;
            lemma_set_field_sound(made, child, f, crate::runtime::default_text(d), None);
            crate::graph::lemma_set_field_links(
                made,
                child,
                f,
                crate::runtime::default_text(d),
                None,
            );
            lemma_same_links_acyclic(made, filled);
        }
        assert(made.same_links(filled));
        crate::graph::lemma_same_ids(made, filled);
        lemma_contains(made, child);
        let ci = made.index_of(child);
        assert(filled.blocks[ci].1.inputs == made.blocks[ci].1.inputs);
        assert forall|p: Place| (#[trigger] at_place(filled.block(child), p)) is None by {
            assert(at_place(made.block(child), p) is None);
        }
        assert(filled.block(child).parent_id is None);
        lemma_childless_unreached(filled, child, parent);
        lemma_attach_input(filled, child, parent, name, true);
        lemma_attach_input_acyclic(filled, child, parent, name, true);
    }
}

/// Filling the inputs of a block of the graph with their defaults keeps
/// the graph free of cycles.
pub proof fn lemma_defaults_acyclic(
    v: RuntimeView,
    parent: Seq<char>,
    defaults: Seq<(Seq<char>, crate::spec::DefaultValueView)>,
    from: int,
    kids: Seq<Seq<char>>,
)
    requires
        sound_graph(v),
        acyclic(v),
        v.contains(parent),
    ensures
        acyclic(v.instantiate_defaults(parent, defaults, from, kids).0),
    decreases defaults.len() - from,
{
    if 0 <= from < defaults.len() {
        let one = v.instantiate_default(parent, defaults[from].0, defaults[from].1);
        lemma_default_acyclic(v, parent, defaults[from].0, defaults[from].1);
        lemma_default_sound(v, parent, defaults[from].0, defaults[from].1);
        match one.1 {
            Ok(c) => {
                lemma_defaults_acyclic(one.0, parent, defaults, from + 1, kids.push(c));
            },
            Err(_) => {},
        }
    }
}

/// Making a block with its defaults keeps the graph free of cycles.
pub proof fn lemma_template_acyclic(v: RuntimeView, opcode: Seq<char>)
    requires
        sound_graph(v),
        acyclic(v),
    ensures
        acyclic(v.create_block_template(opcode).0),
{
    if v.has_spec(opcode) && v.fresh_id() is Some {
        lemma_create_sound(v, opcode);
        lemma_create_acyclic(v, opcode);
        crate::graph::lemma_create_single_block(v, opcode);
        lemma_defaults_acyclic(
            v.create_single_block(opcode),
            v.fresh_id()->0,
            crate::runtime::defaults_of_lines(v.spec_of(opcode).lines, 0, Seq::empty()),
            0,
            Seq::empty(),
        );
    }
}

} // verus!
