//! The list of top-level blocks agrees with the graph: no id stands in it
//! twice, each of its ids is the id of a block without a parent, and every
//! block without a parent is top-level or an entry of the toolbox.

use vstd::prelude::*;
use crate::bridge::HostCallView;
use crate::graph::{
    lemma_contains, lemma_create_single_block, lemma_fresh_id, lemma_index, lemma_with_block,
    side_place,
};
use crate::runtime::RuntimeView;
use crate::soundness::{
    lemma_set_field_shapes, lemma_slide_shapes, lemma_slide_to_shapes, same_tops,
};
use crate::table::{find, lemma_find, occurs};

verus! {

/// Whether the list of top-level blocks agrees with the graph.
pub open spec fn tidy(v: RuntimeView) -> bool {
    &&& v.top_level.no_duplicates()
    &&& forall|i: int|
        0 <= i < v.top_level.len() ==> v.contains(#[trigger] v.top_level[i]) && v.block(
            v.top_level[i],
        ).parent_id is None
    &&& forall|j: int|
        0 <= j < v.blocks.len() && (#[trigger] v.blocks[j]).1.parent_id is None
            ==> v.top_level.contains(v.blocks[j].0) || v.toolbox.contains(v.blocks[j].0)
}

/// Whether `b` has the ids of `a`, index by index, and the parent links of
/// `a` but for that of block `id`.
pub open spec fn same_parents_but(a: RuntimeView, b: RuntimeView, id: Option<Seq<char>>) -> bool {
    &&& a.blocks.len() == b.blocks.len()
    &&& forall|j: int|
        0 <= j < a.blocks.len() ==> (#[trigger] b.blocks[j]).0 == a.blocks[j].0 && (Some(
            a.blocks[j].0,
        ) != id ==> b.blocks[j].1.parent_id == a.blocks[j].1.parent_id)
}

/// The list `s` without the first `id`, or `s` itself where `id` is not in
/// it.
pub open spec fn without_first(s: Seq<Seq<char>>, id: Seq<char>) -> Seq<Seq<char>> {
    if occurs(s, id) {
        s.remove(find(s, id))
    } else {
        s
    }
}

/// What a list without repeated ids holds after the first `id` left it.
pub proof fn lemma_removed(s: Seq<Seq<char>>, id: Seq<char>)
    requires
        s.no_duplicates(),
    ensures
        without_first(s, id).no_duplicates(),
        !without_first(s, id).contains(id),
        forall|x: Seq<char>| #[trigger] without_first(s, id).contains(x) ==> s.contains(x),
        forall|x: Seq<char>| x != id && #[trigger] s.contains(x) ==> without_first(s, id).contains(x),
{
    lemma_find(s, id);
    let k = find(s, id);
    let w = without_first(s, id);
    if occurs(s, id) {
        assert forall|i: int| 0 <= i < w.len() implies #[trigger] w[i] == (if i < k {
            s[i]
        } else {
            s[i + 1]
        }) by {}
        assert forall|x: Seq<char>| #[trigger] w.contains(x) implies s.contains(x) by {
            let i = choose|i: int| 0 <= i < w.len() && w[i] == x;
            if i < k {
                assert(s[i] == x);
            } else {
                assert(s[i + 1] == x);
            }
        }
        assert forall|x: Seq<char>| x != id && #[trigger] s.contains(x) implies w.contains(x) by {
            let i = choose|i: int| 0 <= i < s.len() && s[i] == x;
            if i < k {
                assert(w[i] == x);
            } else {
                assert(w[i - 1] == x);
            }
        }
        if w.contains(id) {
            let i = choose|i: int| 0 <= i < w.len() && w[i] == id;
            if i < k {
                assert(s[i] == id);
            } else {
                assert(s[i + 1] == id && s[k] == id);
            }
        }
    } else {
        if s.contains(id) {
            let i = choose|i: int| 0 <= i < s.len() && s[i] == id;
            assert(s[i] == id);
        }
    }
}

/// A change that touches neither a parent link nor the two lists keeps the
/// list of top-level blocks in agreement.
pub proof fn lemma_kept(a: RuntimeView, b: RuntimeView)
    requires
        tidy(a),
        a.ids().no_duplicates(),
        same_parents_but(a, b, None),
        same_tops(a, b),
    ensures
        tidy(b),
        b.ids() == a.ids(),
{
    crate::graph::lemma_same_ids(a, b);
    assert forall|i: int| 0 <= i < b.top_level.len() implies b.contains(
        #[trigger] b.top_level[i],
    ) && b.block(b.top_level[i]).parent_id is None by {
        let x = a.top_level[i];
        assert(a.contains(x));
        lemma_contains(a, x);
    }
    assert forall|j: int|
        0 <= j < b.blocks.len() && (#[trigger] b.blocks[j]).1.parent_id is None implies b.top_level.contains(
        b.blocks[j].0,
    ) || b.toolbox.contains(b.blocks[j].0) by {
        assert(a.blocks[j].1.parent_id is None);
    }
}

/// A block that loses its parent and joins the top-level blocks keeps the
/// list in agreement.
pub proof fn lemma_given(a: RuntimeView, b: RuntimeView, id: Seq<char>)
    requires
        tidy(a),
        a.ids().no_duplicates(),
        same_parents_but(a, b, Some(id)),
        a.contains(id),
        a.block(id).parent_id is Some,
        b.block(id).parent_id is None,
        b.top_level == a.top_level.push(id),
        b.toolbox == a.toolbox,
    ensures
        tidy(b),
        b.ids() == a.ids(),
{
    crate::graph::lemma_same_ids(a, b);
    lemma_contains(a, id);
    let n = a.top_level.len() as int;
    assert forall|i: int| 0 <= i < n implies a.top_level[i] != id by {
        assert(a.block(a.top_level[i]).parent_id is None);
    }
    assert forall|i: int| 0 <= i < b.top_level.len() implies b.contains(
        #[trigger] b.top_level[i],
    ) && b.block(b.top_level[i]).parent_id is None by {
        if i < n {
            let x = a.top_level[i];
            assert(b.top_level[i] == x);
            assert(a.contains(x));
            lemma_contains(a, x);
        }
    }
    assert forall|j: int|
        0 <= j < b.blocks.len() && (#[trigger] b.blocks[j]).1.parent_id is None implies b.top_level.contains(
        b.blocks[j].0,
    ) || b.toolbox.contains(b.blocks[j].0) by {
        let x = a.blocks[j].0;
        if x == id {
            assert(b.top_level[n] == id);
        } else {
            assert(a.blocks[j].1.parent_id is None);
            if a.top_level.contains(x) {
                let i = choose|i: int| 0 <= i < n && a.top_level[i] == x;
                assert(b.top_level[i] == x);
            }
        }
    }
}

/// A block that gets a parent and leaves the top-level blocks keeps the
/// list in agreement.
pub proof fn lemma_taken(a: RuntimeView, b: RuntimeView, id: Seq<char>)
    requires
        tidy(a),
        a.ids().no_duplicates(),
        same_parents_but(a, b, Some(id)),
        a.contains(id),
        b.block(id).parent_id is Some,
        b.top_level == a.drop_top_level(id).top_level,
        b.toolbox == a.toolbox,
    ensures
        tidy(b),
        b.ids() == a.ids(),
{
    crate::graph::lemma_same_ids(a, b);
    lemma_contains(a, id);
    lemma_removed(a.top_level, id);
    let w = without_first(a.top_level, id);
    assert(b.top_level == w);
    assert forall|i: int| 0 <= i < b.top_level.len() implies b.contains(
        #[trigger] b.top_level[i],
    ) && b.block(b.top_level[i]).parent_id is None by {
        let x = b.top_level[i];
        assert(w.contains(x));
        assert(x != id);
        assert(a.top_level.contains(x));
        let k = choose|k: int| 0 <= k < a.top_level.len() && a.top_level[k] == x;
        assert(a.contains(a.top_level[k]));
        lemma_contains(a, x);
    }
    assert forall|j: int|
        0 <= j < b.blocks.len() && (#[trigger] b.blocks[j]).1.parent_id is None implies b.top_level.contains(
        b.blocks[j].0,
    ) || b.toolbox.contains(b.blocks[j].0) by {
        let x = a.blocks[j].0;
        lemma_index(a, j);
        lemma_index(b, j);
        assert(x != id);
        assert(a.blocks[j].1.parent_id is None);
        if a.top_level.contains(x) {
            assert(w.contains(x));
        }
    }
}

/// Making a block keeps the list of top-level blocks in agreement.
pub proof fn lemma_create_tidy(v: RuntimeView, opcode: Seq<char>)
    requires
        v.linked(),
        tidy(v),
        v.fresh_id() is Some,
    ensures
        tidy(v.create_single_block(opcode)),
{
    let id = v.fresh_id()->0;
    let w = v.create_single_block(opcode);
    lemma_create_single_block(v, opcode);
    lemma_fresh_id(v);
    let n = v.top_level.len() as int;
    let m = v.blocks.len() as int;
    assert(w.toolbox == v.toolbox);
    assert forall|i: int| 0 <= i < n implies v.top_level[i] != id by {
        assert(v.contains(v.top_level[i]));
    }
    assert forall|i: int| 0 <= i < w.top_level.len() implies w.contains(
        #[trigger] w.top_level[i],
    ) && w.block(w.top_level[i]).parent_id is None by {
        if i < n {
            assert(v.contains(v.top_level[i]));
        }
    }
    assert forall|j: int|
        0 <= j < w.blocks.len() && (#[trigger] w.blocks[j]).1.parent_id is None implies w.top_level.contains(
        w.blocks[j].0,
    ) || w.toolbox.contains(w.blocks[j].0) by {
        if j < m {
            let x = v.blocks[j].0;
            assert(w.blocks[j] == v.blocks[j]);
            if v.top_level.contains(x) {
                let i = choose|i: int| 0 <= i < n && v.top_level[i] == x;
                assert(w.top_level[i] == x);
            }
        } else {
            assert(w.top_level[n] == id);
        }
    }
}

/// Setting a field keeps the list of top-level blocks in agreement.
pub proof fn lemma_set_field_tidy(
    v: RuntimeView,
    id: Seq<char>,
    name: Seq<char>,
    text: Seq<char>,
    data_id: Option<Seq<char>>,
)
    requires
        v.linked(),
        tidy(v),
    ensures
        tidy(v.set_field(id, name, text, data_id)),
{
    let w = v.set_field(id, name, text, data_id);
    crate::graph::lemma_set_field_links(v, id, name, text, data_id);
    lemma_set_field_shapes(v, id, name, text, data_id);
    lemma_kept(v, w);
}

/// Sliding keeps the list of top-level blocks in agreement.
pub proof fn lemma_slide_tidy(v: RuntimeView, id: Seq<char>, dx: i32, dy: i32, depth: nat)
    requires
        v.linked(),
        tidy(v),
    ensures
        tidy(v.slide_by(id, dx, dy, depth).0),
{
    crate::graph::lemma_slide_links(v, id, dx, dy, depth);
    lemma_slide_shapes(v, id, dx, dy, depth);
    lemma_kept(v, v.slide_by(id, dx, dy, depth).0);
}

/// Sliding to a place keeps the list of top-level blocks in agreement.
pub proof fn lemma_slide_to_tidy(v: RuntimeView, id: Seq<char>, x: i32, y: i32)
    requires
        v.ids().no_duplicates(),
        tidy(v),
    ensures
        tidy(v.slide_to(id, x, y).0),
{
    crate::graph::lemma_slide_to_links(v, id, x, y);
    lemma_slide_to_shapes(v, id, x, y);
    lemma_kept(v, v.slide_to(id, x, y).0);
}

/// Attaching a parentless block into an input keeps the list of top-level
/// blocks in agreement: the block leaves the list, and what it pushed out
/// of the input joins it.
pub proof fn lemma_attach_input_tidy(
    v: RuntimeView,
    id: Seq<char>,
    parent_id: Seq<char>,
    name: Seq<char>,
    is_shadow: bool,
)
    requires
        v.linked(),
        tidy(v),
    ensures
        tidy(v.attach_input(id, parent_id, name, is_shadow)),
{
    if v.can_attach_input(id, parent_id, name) {
        let pb = v.block(parent_id);
        let k = pb.input_index(name);
        let pi = v.index_of(parent_id);
        lemma_contains(v, parent_id);
        lemma_contains(v, id);
        lemma_find(pb.input_names(), name);
        let bound = v.with_side(parent_id, k, is_shadow, Some(id));
        lemma_with_block(v, pi, pb.with_input(k, pb.inputs[k].1.with_side(is_shadow, Some(id))));
        lemma_kept(v, bound);
        let gone = v.displaced_by(parent_id, name, is_shadow);
        let evicted = match gone {
            Some(d) => if bound.contains(d) {
                bound.with_parent(d, None).push_top_level(d)
            } else {
                bound
            },
            None => bound,
        };
        if gone is Some && bound.contains(gone->0) {
            let d = gone->0;
            assert(v.refers(pi, side_place(k, is_shadow), d));
            assert(v.contains(d) && v.block(d).parent_id == Some(parent_id));
            lemma_contains(bound, d);
            let di = bound.index_of(d);
            lemma_index(v, di);
            lemma_index(bound, di);
            lemma_with_block(bound, di, crate::block::BlockView { parent_id: None, ..bound.block(d) });
            lemma_index(evicted, di);
            lemma_given(bound, evicted, d);
        }
        assert(tidy(evicted));
        assert(evicted.ids() == v.ids());
        lemma_contains(evicted, id);
        let ci = evicted.index_of(id);
        let bare = evicted.with_parent(id, Some(parent_id));
        lemma_with_block(
            evicted,
            ci,
            crate::block::BlockView { parent_id: Some(parent_id), ..evicted.block(id) },
        );
        let taken = bare.drop_top_level(id);
        lemma_index(taken, ci);
        assert(taken.top_level == evicted.drop_top_level(id).top_level);
        lemma_taken(evicted, taken, id);
        lemma_kept(
            taken,
            taken.sync(
                HostCallView::AttachBlock { id, parent_id, input_name: Some(name), is_shadow },
            ),
        );
    }
}

/// Chaining a block after another keeps the list of top-level blocks in
/// agreement.
pub proof fn lemma_attach_next_tidy(v: RuntimeView, id: Seq<char>, parent_id: Seq<char>)
    requires
        v.linked(),
        tidy(v),
    ensures
        tidy(v.attach_next(id, parent_id)),
{
    if v.can_attach_next(id, parent_id) {
        let pi = v.index_of(parent_id);
        lemma_contains(v, parent_id);
        lemma_contains(v, id);
        let chained = v.with_next(parent_id, Some(id));
        lemma_with_block(
            v,
            pi,
            crate::block::BlockView { next_id: Some(id), ..v.block(parent_id) },
        );
        lemma_kept(v, chained);
        lemma_contains(chained, id);
        let ci = chained.index_of(id);
        let bare = chained.with_parent(id, Some(parent_id));
        lemma_with_block(
            chained,
            ci,
            crate::block::BlockView { parent_id: Some(parent_id), ..chained.block(id) },
        );
        let taken = bare.drop_top_level(id);
        lemma_index(taken, ci);
        assert(taken.top_level == chained.drop_top_level(id).top_level);
        lemma_taken(chained, taken, id);
        lemma_kept(
            taken,
            taken.sync(
                HostCallView::AttachBlock { id, parent_id, input_name: None, is_shadow: false },
            ),
        );
    }
}

/// Detaching a block keeps the list of top-level blocks in agreement: a
/// block that had a parent joins the list.
pub proof fn lemma_detach_tidy(v: RuntimeView, id: Seq<char>)
    requires
        v.linked(),
        tidy(v),
    ensures
        tidy(v.detach(id).0),
{
    if v.contains(id) {
        match v.own_xy(id, v.blocks.len()) {
            Err(_) => {},
            Ok(at) => {
                lemma_contains(v, id);
                let ci = v.index_of(id);
                lemma_index(v, ci);
                let bare = match v.block(id).parent_id {
                    Some(p) => {
                        crate::soundness::lemma_unlink_shapes(v, p, id);
                        let let_go = v.unlink(p, id);
                        crate::graph::lemma_unlink(v, id);
                        assert(same_parents_but(v, let_go, None));
                        lemma_kept(v, let_go);
                        lemma_index(let_go, ci);
                        let pushed = let_go.push_top_level(id);
                        let b = pushed.with_parent(id, None);
                        lemma_with_block(
                            pushed,
                            ci,
                            crate::block::BlockView { parent_id: None, ..pushed.block(id) },
                        );
                        lemma_index(b, ci);
                        lemma_given(let_go, b, id);
                        b
                    },
                    None => {
                        let b = v.with_parent(id, None);
                        lemma_with_block(
                            v,
                            ci,
                            crate::block::BlockView { parent_id: None, ..v.block(id) },
                        );
                        lemma_kept(v, b);
                        b
                    },
                };
                assert(tidy(bare));
                lemma_slide_to_tidy(bare, id, at.0, at.1);
                let moved = bare.slide_to(id, at.0, at.1);
                crate::graph::lemma_slide_to_links(bare, id, at.0, at.1);
                crate::graph::lemma_same_ids(bare, moved.0);
                if moved.1 is Ok {
                    lemma_kept(moved.0, moved.0.sync(HostCallView::DetachBlock { id }));
                }
            },
        }
    }
}

/// Deleting a block keeps the list of top-level blocks in agreement: the
/// block leaves the list, and no block that is removed with it was in it.
pub proof fn lemma_delete_tidy(v: RuntimeView, id: Seq<char>)
    requires
        v.linked(),
        tidy(v),
    ensures
        tidy(v.delete(id).0),
{
    let loose = v.detach(id);
    let d = loose.0;
    let w = v.delete(id).0;
    lemma_detach_tidy(v, id);
    crate::graph::lemma_detach(v, id);
    if loose.1 is Ok {
        if v.contains(id) {
            crate::graph::lemma_delete(v, id);
            lemma_removed(d.top_level, id);
            assert(w.top_level == without_first(d.top_level, id));
            assert forall|i: int| 0 <= i < w.top_level.len() implies w.contains(
                #[trigger] w.top_level[i],
            ) && w.block(w.top_level[i]).parent_id is None by {
                let x = w.top_level[i];
                assert(without_first(d.top_level, id).contains(x));
                assert(d.top_level.contains(x));
                let k = choose|k: int| 0 <= k < d.top_level.len() && d.top_level[k] == x;
                assert(d.contains(d.top_level[k]));
                assert(v.contains(x));
                if !w.contains(x) {
                    assert(x == id || d.block(x).parent_id is Some);
                }
            }
            assert forall|j: int|
                0 <= j < w.blocks.len() && (#[trigger] w.blocks[j]).1.parent_id is None implies w.top_level.contains(
                w.blocks[j].0,
            ) || w.toolbox.contains(w.blocks[j].0) by {
                let x = w.blocks[j].0;
                lemma_index(w, j);
                assert(w.block(x) == d.block(x));
                assert(v.contains(x));
                lemma_contains(d, x);
                let dj = d.index_of(x);
                assert(d.blocks[dj].1.parent_id is None);
                assert(x != id);
                crate::soundness::lemma_detach_shapes(v, id);
                assert(w.toolbox == d.toolbox);
                assert(d.top_level.contains(d.blocks[dj].0) || d.toolbox.contains(d.blocks[dj].0));
                if d.top_level.contains(x) {
                    assert(without_first(d.top_level, id).contains(x));
                }
            }
        } else {
            let dropped = d.drop_top_level(id);
            let pending = seq![id];
            assert(dropped.delete_all(pending) == dropped) by {
                assert(pending.drop_last() =~= Seq::<Seq<char>>::empty());
                assert(pending.last() == id);
                assert(dropped.delete_all(pending) == dropped.delete_all(pending.drop_last()));
            }
            lemma_find(d.top_level, id);
            if occurs(d.top_level, id) {
                assert(d.contains(d.top_level[find(d.top_level, id)]));
            }
            assert(dropped == d);
            lemma_kept(d, w);
        }
    }
}

/// A top-level block that becomes an entry of the toolbox and leaves the
/// list of top-level blocks keeps that list in agreement.
pub proof fn lemma_shelved(a: RuntimeView, b: RuntimeView, id: Seq<char>)
    requires
        tidy(a),
        a.ids().no_duplicates(),
        same_parents_but(a, b, None),
        b.top_level == without_first(a.top_level, id),
        b.toolbox == a.toolbox.push(id),
    ensures
        tidy(b),
{
    crate::graph::lemma_same_ids(a, b);
    lemma_removed(a.top_level, id);
    assert forall|i: int| 0 <= i < b.top_level.len() implies b.contains(
        #[trigger] b.top_level[i],
    ) && b.block(b.top_level[i]).parent_id is None by {
        let x = b.top_level[i];
        assert(without_first(a.top_level, id).contains(x));
        assert(a.top_level.contains(x));
        let k = choose|k: int| 0 <= k < a.top_level.len() && a.top_level[k] == x;
        assert(a.contains(a.top_level[k]));
        lemma_contains(a, x);
    }
    assert forall|j: int|
        0 <= j < b.blocks.len() && (#[trigger] b.blocks[j]).1.parent_id is None implies b.top_level.contains(
        b.blocks[j].0,
    ) || b.toolbox.contains(b.blocks[j].0) by {
        let x = a.blocks[j].0;
        assert(a.blocks[j].1.parent_id is None);
        if x == id {
            assert(b.toolbox[a.toolbox.len() as int] == id);
        } else {
            if a.top_level.contains(x) {
                assert(without_first(a.top_level, id).contains(x));
            }
            if a.toolbox.contains(x) {
                let k = choose|k: int| 0 <= k < a.toolbox.len() && a.toolbox[k] == x;
                assert(b.toolbox[k] == x);
            }
        }
    }
}

/// What `parentless` collects from index `from` on: the ids of the blocks
/// without a parent, each once.
pub proof fn lemma_parentless_from(
    blocks: Seq<(Seq<char>, crate::block::BlockView)>,
    from: int,
    acc: Seq<Seq<char>>,
)
    requires
        0 <= from <= blocks.len(),
        crate::runtime::names(blocks).no_duplicates(),
        acc.no_duplicates(),
        forall|x: Seq<char>| #[trigger]
            acc.contains(x) <==> exists|j: int|
                0 <= j < from && blocks[j].0 == x && blocks[j].1.parent_id is None,
    ensures
        crate::runtime::parentless(blocks, from, acc).no_duplicates(),
        forall|x: Seq<char>| #[trigger]
            crate::runtime::parentless(blocks, from, acc).contains(x) <==> exists|j: int|
                0 <= j < blocks.len() && blocks[j].0 == x && blocks[j].1.parent_id is None,
    decreases blocks.len() - from,
{
    if from < blocks.len() {
        let next = if blocks[from].1.parent_id is None {
            acc.push(blocks[from].0)
        } else {
            acc
        };
        let ids = crate::runtime::names(blocks);
        assert forall|x: Seq<char>| #[trigger]
            next.contains(x) <==> exists|j: int|
                0 <= j < from + 1 && blocks[j].0 == x && blocks[j].1.parent_id is None by {
            if next.contains(x) {
                let k = choose|k: int| 0 <= k < next.len() && next[k] == x;
                if k < acc.len() {
                    assert(acc[k] == x);
                    assert(acc.contains(x));
                } else {
                    assert(blocks[from].0 == x && blocks[from].1.parent_id is None);
                }
            }
            if exists|j: int| 0 <= j < from + 1 && blocks[j].0 == x && blocks[j].1.parent_id is None {
                let j = choose|j: int|
                    0 <= j < from + 1 && blocks[j].0 == x && blocks[j].1.parent_id is None;
                if j < from {
                    assert(acc.contains(x));
                    let k = choose|k: int| 0 <= k < acc.len() && acc[k] == x;
                    assert(next[k] == x);
                } else {
                    assert(next[acc.len() as int] == x);
                }
            }
        }
        assert(next.no_duplicates()) by {
            if blocks[from].1.parent_id is None {
                let x = blocks[from].0;
                if acc.contains(x) {
                    let j = choose|j: int|
                        0 <= j < from && blocks[j].0 == x && blocks[j].1.parent_id is None;
                    assert(ids[j] == ids[from]);
                }
                assert forall|a: int, b: int|
                    0 <= a < next.len() && 0 <= b < next.len() && a != b implies next[a] != next[b] by {
                    if a == acc.len() {
                        assert(acc[b] == next[b]);
                        assert(acc.contains(next[b]));
                    } else if b == acc.len() {
                        assert(acc[a] == next[a]);
                        assert(acc.contains(next[a]));
                    } else {
                        assert(acc[a] == next[a] && acc[b] == next[b]);
                    }
                }
            }
        }
        lemma_parentless_from(blocks, from + 1, next);
    }
}

/// A graph whose top-level blocks are its parentless blocks, and whose
/// toolbox is empty, has its list of top-level blocks in agreement.
pub proof fn lemma_parentless(v: RuntimeView)
    requires
        v.ids().no_duplicates(),
        v.top_level == crate::runtime::parentless(v.blocks, 0, Seq::empty()),
    ensures
        tidy(v),
{
    let empty = Seq::<Seq<char>>::empty();
    lemma_parentless_from(v.blocks, 0, empty);
    assert forall|i: int| 0 <= i < v.top_level.len() implies v.contains(
        #[trigger] v.top_level[i],
    ) && v.block(v.top_level[i]).parent_id is None by {
        let x = v.top_level[i];
        assert(v.top_level.contains(x));
        let j = choose|j: int|
            0 <= j < v.blocks.len() && v.blocks[j].0 == x && v.blocks[j].1.parent_id is None;
        lemma_index(v, j);
    }
    assert forall|j: int|
        0 <= j < v.blocks.len() && (#[trigger] v.blocks[j]).1.parent_id is None implies v.top_level.contains(
        v.blocks[j].0,
    ) || v.toolbox.contains(v.blocks[j].0) by {
        assert(v.blocks[j].0 == v.blocks[j].0 && v.blocks[j].1.parent_id is None);
    }
}

} // verus!
