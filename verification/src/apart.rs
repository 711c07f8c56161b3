//! A copy shares nothing with what was there before: after stamping, no
//! block that was there holds a new block, and no new block holds a block
//! that was there. So stamping makes no block its own ancestor.

use vstd::prelude::*;
use crate::block::{FieldView, InputView};
use crate::copies::lemma_stamp;
use crate::cycles::{
    acyclic, lemma_attach_input_acyclic, lemma_attach_next_acyclic, lemma_create_acyclic,
    lemma_same_links_acyclic, one_link_more,
};
use crate::graph::is_way;
use crate::reach::reached;
use crate::graph::{
    Place, at_place, lemma_attach_input, lemma_attach_next, lemma_contains,
    lemma_create_single_block, lemma_fresh_id, lemma_index, lemma_new_block, lemma_same_ids,
    lemma_set_field_links, lemma_slide_to_links, side_place,
};
use crate::runtime::RuntimeView;
use crate::soundness::{
    lemma_attach_input_sound,
    lemma_attach_next_sound,
    lemma_copy_fields_sound,
    lemma_create_sound,
    lemma_slide_to_sound,
    lemma_stamp_sound,
    sound_graph,
};
use crate::table::lemma_find;

verus! {

/// Whether, in `w`, the blocks of `base` hold blocks of `base` only, and
/// the other blocks hold no block of `base`.
pub open spec fn apart(base: RuntimeView, w: RuntimeView) -> bool {
    forall|j: int, p: Place|
        0 <= j < w.blocks.len() && (#[trigger] at_place(w.blocks[j].1, p)) is Some ==> (
        base.contains(w.blocks[j].0) <==> base.contains(at_place(w.blocks[j].1, p)->0))
}

/// Whether `w` holds every block of `base`.
pub open spec fn holds_all(base: RuntimeView, w: RuntimeView) -> bool {
    forall|x: Seq<char>| #[trigger] base.contains(x) ==> w.contains(x)
}

/// In a linked graph the blocks hold blocks of the graph only.
pub proof fn lemma_apart_itself(u: RuntimeView)
    requires
        u.linked(),
    ensures
        apart(u, u),
        holds_all(u, u),
{
    assert forall|j: int, p: Place|
        0 <= j < u.blocks.len() && (#[trigger] at_place(u.blocks[j].1, p)) is Some implies (
        u.contains(u.blocks[j].0) <==> u.contains(at_place(u.blocks[j].1, p)->0)) by {
        lemma_index(u, j);
        assert(u.refers(j, p, at_place(u.blocks[j].1, p)->0));
    }
}

/// A change that touches no link keeps the two sides apart.
pub proof fn lemma_apart_same_links(base: RuntimeView, a: RuntimeView, b: RuntimeView)
    requires
        apart(base, a),
        holds_all(base, a),
        a.same_links(b),
    ensures
        apart(base, b),
        holds_all(base, b),
{
    lemma_same_ids(a, b);
    assert forall|j: int, p: Place|
        0 <= j < b.blocks.len() && (#[trigger] at_place(b.blocks[j].1, p)) is Some implies (
        base.contains(b.blocks[j].0) <==> base.contains(at_place(b.blocks[j].1, p)->0)) by {
        assert(b.blocks[j].1.inputs == a.blocks[j].1.inputs);
        assert(at_place(a.blocks[j].1, p) == at_place(b.blocks[j].1, p));
    }
}

/// A new block keeps the two sides apart.
pub proof fn lemma_apart_created(base: RuntimeView, v: RuntimeView, opcode: Seq<char>)
    requires
        v.linked(),
        v.fresh_id() is Some,
        apart(base, v),
        holds_all(base, v),
    ensures
        apart(base, v.create_single_block(opcode)),
        holds_all(base, v.create_single_block(opcode)),
        !base.contains(v.fresh_id()->0),
{
    let w = v.create_single_block(opcode);
    lemma_create_single_block(v, opcode);
    lemma_fresh_id(v);
    lemma_new_block(v.spec_of(opcode), opcode);
    assert forall|j: int, p: Place|
        0 <= j < w.blocks.len() && (#[trigger] at_place(w.blocks[j].1, p)) is Some implies (
        base.contains(w.blocks[j].0) <==> base.contains(at_place(w.blocks[j].1, p)->0)) by {
        if j < v.blocks.len() {
            assert(w.blocks[j] == v.blocks[j]);
            assert(at_place(v.blocks[j].1, p) is Some);
        }
    }
}

/// One more link between two blocks of the same side keeps the two sides
/// apart.
pub proof fn lemma_apart_linked(
    base: RuntimeView,
    v: RuntimeView,
    w: RuntimeView,
    parent: Seq<char>,
    place: Place,
    id: Seq<char>,
)
    requires
        apart(base, v),
        holds_all(base, v),
        one_link_more(v, w, parent, place, id),
        base.contains(parent) == base.contains(id),
    ensures
        apart(base, w),
        holds_all(base, w),
{
    assert(w.ids() == v.ids());
    assert forall|x: Seq<char>| w.contains(x) == v.contains(x) by {}
    lemma_contains(v, parent);
    assert forall|j: int, p: Place|
        0 <= j < w.blocks.len() && (#[trigger] at_place(w.blocks[j].1, p)) is Some implies (
        base.contains(w.blocks[j].0) <==> base.contains(at_place(w.blocks[j].1, p)->0)) by {
        assert(w.ids()[j] == v.ids()[j]);
        assert(w.blocks[j].0 == v.blocks[j].0);
        if j == v.index_of(parent) && p == place {
        } else {
            assert(at_place(v.blocks[j].1, p) is Some);
        }
    }
}

/// Copying fields keeps the two sides apart.
pub proof fn lemma_apart_fields(
    base: RuntimeView,
    v: RuntimeView,
    id: Seq<char>,
    fields: Seq<(Seq<char>, FieldView)>,
    from: int,
)
    requires
        apart(base, v),
        holds_all(base, v),
    ensures
        apart(base, v.copy_fields(id, fields, from)),
        holds_all(base, v.copy_fields(id, fields, from)),
    decreases fields.len() - from,
{
    if 0 <= from < fields.len() && v.contains(id) {
        let one = v.set_field(id, fields[from].0, fields[from].1.text, fields[from].1.id);
        lemma_set_field_links(v, id, fields[from].0, fields[from].1.text, fields[from].1.id);
        lemma_apart_same_links(base, v, one);
        lemma_apart_fields(base, one, id, fields, from + 1);
    }
}

/// Stamping keeps the two sides apart, and the copy is on the new side.
pub proof fn lemma_stamp_keeps_apart(
    base: RuntimeView,
    v: RuntimeView,
    id: Seq<char>,
    is_root: bool,
    depth: nat,
)
    requires
        sound_graph(v),
        apart(base, v),
        holds_all(base, v),
    ensures
        apart(base, v.stamp(id, is_root, depth).0),
        holds_all(base, v.stamp(id, is_root, depth).0),
        v.stamp(id, is_root, depth).1 is Ok ==> !base.contains(v.stamp(id, is_root, depth).1->Ok_0),
    decreases depth, 0nat, 0nat,
{
    let source = v.block(id);
    if v.contains(id) && v.has_spec(source.opcode) {
        match v.own_xy(id, v.blocks.len()) {
            Err(_) => {},
            Ok(at) => {
                if v.fresh_id() is Some {
                    let copy = v.fresh_id()->0;
                    let made = v.create_single_block(source.opcode);
                    lemma_create_sound(v, source.opcode);
                    lemma_apart_created(base, v, source.opcode);
                    let placed = if is_root {
                        made.slide_to(copy, at.0, at.1)
                    } else {
                        (made, Ok(()))
                    };
                    if is_root {
                        lemma_slide_to_sound(made, copy, at.0, at.1);
                        lemma_slide_to_links(made, copy, at.0, at.1);
                        lemma_apart_same_links(base, made, placed.0);
                    }
                    if placed.1 is Ok {
                        let filled = placed.0.copy_fields(copy, source.fields, 0);
                        lemma_copy_fields_sound(placed.0, copy, source.fields, 0);
                        lemma_apart_fields(base, placed.0, copy, source.fields, 0);
                        if depth > 0 {
                            let chained = match source.next_id {
                                Some(n) => {
                                    let sub = filled.stamp(n, false, (depth - 1) as nat);
                                    match sub.1 {
                                        Ok(c) => (sub.0.attach_next(c, copy), Ok(())),
                                        Err(e) => (sub.0, Err(e)),
                                    }
                                },
                                None => (filled, Ok(())),
                            };
                            if source.next_id is Some {
                                let n = source.next_id->0;
                                let sub = filled.stamp(n, false, (depth - 1) as nat);
                                lemma_stamp_sound(filled, n, false, (depth - 1) as nat);
                                lemma_stamp_keeps_apart(base, filled, n, false, (depth - 1) as nat);
                                if sub.1 is Ok {
                                    let c = sub.1->Ok_0;
                                    lemma_attach_next_sound(sub.0, c, copy);
                                    lemma_attach_next(sub.0, c, copy);
                                    if sub.0.can_attach_next(c, copy) {
                                        lemma_apart_linked(
                                            base,
                                            sub.0,
                                            sub.0.attach_next(c, copy),
                                            copy,
                                            Place::Next,
                                            c,
                                        );
                                    }
                                }
                            }
                            assert(sound_graph(chained.0));
                            assert(apart(base, chained.0) && holds_all(base, chained.0));
                            if chained.1 is Ok {
                                lemma_stamp_inputs_keep_apart(
                                    base,
                                    chained.0,
                                    copy,
                                    source.inputs,
                                    0,
                                    (depth - 1) as nat,
                                );
                            }
                        }
                    }
                }
            },
        }
    }
}

/// Copying what the inputs hold keeps the two sides apart.
pub proof fn lemma_stamp_inputs_keep_apart(
    base: RuntimeView,
    v: RuntimeView,
    copy: Seq<char>,
    inputs: Seq<(Seq<char>, InputView)>,
    from: int,
    depth: nat,
)
    requires
        sound_graph(v),
        apart(base, v),
        holds_all(base, v),
        !base.contains(copy),
    ensures
        apart(base, v.stamp_inputs(copy, inputs, from, depth).0),
        holds_all(base, v.stamp_inputs(copy, inputs, from, depth).0),
    decreases depth, 1nat, 1 + inputs.len() - from,
{
    if 0 <= from < inputs.len() {
        let name = inputs[from].0;
        let input = inputs[from].1;
        let first: (RuntimeView, Result<(), crate::result::ViiruError>) = match input.shadow_id {
            Some(c) => {
                let sub = v.stamp(c, false, depth);
                match sub.1 {
                    Ok(s) => (sub.0.attach_input(s, copy, name, true), Ok(())),
                    Err(e) => (sub.0, Err(e)),
                }
            },
            None => (v, Ok(())),
        };
        if input.shadow_id is Some {
            let sub = v.stamp(input.shadow_id->0, false, depth);
            lemma_stamp_sound(v, input.shadow_id->0, false, depth);
            lemma_stamp_keeps_apart(base, v, input.shadow_id->0, false, depth);
            if sub.1 is Ok {
                lemma_attached_apart(base, sub.0, sub.1->Ok_0, copy, name, true);
            }
        }
        assert(sound_graph(first.0));
        assert(apart(base, first.0) && holds_all(base, first.0));
        if first.1 is Ok {
            let second: (RuntimeView, Result<(), crate::result::ViiruError>) = match input.block_id {
                Some(c) => {
                    let sub = first.0.stamp(c, false, depth);
                    match sub.1 {
                        Ok(s) => (sub.0.attach_input(s, copy, name, false), Ok(())),
                        Err(e) => (sub.0, Err(e)),
                    }
                },
                None => first,
            };
            if input.block_id is Some {
                let sub = first.0.stamp(input.block_id->0, false, depth);
                lemma_stamp_sound(first.0, input.block_id->0, false, depth);
                lemma_stamp_keeps_apart(base, first.0, input.block_id->0, false, depth);
                if sub.1 is Ok {
                    lemma_attached_apart(base, sub.0, sub.1->Ok_0, copy, name, false);
                }
            }
            assert(sound_graph(second.0));
            assert(apart(base, second.0) && holds_all(base, second.0));
            if second.1 is Ok {
                lemma_stamp_inputs_keep_apart(base, second.0, copy, inputs, from + 1, depth);
            }
        }
    }
}

/// Attaching a new block into an input of a new block keeps the two sides
/// apart and the graph sound.
pub proof fn lemma_attached_apart(
    base: RuntimeView,
    v: RuntimeView,
    id: Seq<char>,
    parent_id: Seq<char>,
    name: Seq<char>,
    is_shadow: bool,
)
    requires
        sound_graph(v),
        apart(base, v),
        holds_all(base, v),
        !base.contains(id),
        !base.contains(parent_id),
        v.contains(id) ==> v.block(id).parent_id is None,
    ensures
        sound_graph(v.attach_input(id, parent_id, name, is_shadow)),
        apart(base, v.attach_input(id, parent_id, name, is_shadow)),
        holds_all(base, v.attach_input(id, parent_id, name, is_shadow)),
{
    lemma_attach_input_sound(v, id, parent_id, name, is_shadow);
    lemma_attach_input(v, id, parent_id, name, is_shadow);
    if v.can_attach_input(id, parent_id, name) {
        lemma_find(v.block(parent_id).input_names(), name);
        lemma_apart_linked(
            base,
            v,
            v.attach_input(id, parent_id, name, is_shadow),
            parent_id,
            side_place(v.block(parent_id).input_index(name), is_shadow),
            id,
        );
    }
}

/// A copy shares nothing with what was there before: after stamping, a
/// block holds a block that was there exactly if it was there itself.
pub proof fn lemma_stamp_apart(u: RuntimeView, id: Seq<char>, is_root: bool, depth: nat)
    requires
        sound_graph(u),
    ensures
        apart(u, u.stamp(id, is_root, depth).0),
        holds_all(u, u.stamp(id, is_root, depth).0),
{
    lemma_apart_itself(u);
    lemma_stamp_keeps_apart(u, u, id, is_root, depth);
}

/// No way leads from a block of the new side to a block that was there.
pub proof fn lemma_new_side_unreached(
    base: RuntimeView,
    w: RuntimeView,
    id: Seq<char>,
    target: Seq<char>,
)
    requires
        apart(base, w),
        !base.contains(id),
        base.contains(target),
    ensures
        !reached(w, seq![id], target),
{
    let start = seq![id];
    if reached(w, start, target) {
        let way = choose|way: Seq<Seq<char>>|
            is_way(w, way) && way.len() > 0 && start.contains(#[trigger] way[0]) && way.last()
                == target;
        let k = choose|k: int| 0 <= k < start.len() && start[k] == way[0];
        assert(way[0] == id);
        lemma_way_stays(base, w, way, way.len() - 1);
    }
}

/// A way that starts on the new side stays there.
pub proof fn lemma_way_stays(base: RuntimeView, w: RuntimeView, way: Seq<Seq<char>>, k: int)
    requires
        apart(base, w),
        is_way(w, way),
        0 <= k < way.len(),
        !base.contains(way[0]),
    ensures
        !base.contains(way[k]),
    decreases k,
{
    if k > 0 {
        lemma_way_stays(base, w, way, k - 1);
        assert(w.holds(way[k - 1], way[k - 1 + 1]));
        let a = way[k - 1];
        lemma_find(w.ids(), a);
        let j = w.index_of(a);
        assert(w.ids()[j] == w.blocks[j].0);
        let p = choose|p: Place| at_place(w.block(a), p) == Some(way[k]);
        assert(at_place(w.blocks[j].1, p) is Some);
    }
}

/// Stamping keeps the graph free of cycles.
pub proof fn lemma_stamp_acyclic(v: RuntimeView, id: Seq<char>, is_root: bool, depth: nat)
    requires
        sound_graph(v),
        acyclic(v),
    ensures
        acyclic(v.stamp(id, is_root, depth).0),
    decreases depth, 0nat, 0nat,
{
    let source = v.block(id);
    if v.contains(id) && v.has_spec(source.opcode) {
        match v.own_xy(id, v.blocks.len()) {
            Err(_) => {},
            Ok(at) => {
                if v.fresh_id() is Some {
                    let copy = v.fresh_id()->0;
                    let made = v.create_single_block(source.opcode);
                    lemma_create_sound(v, source.opcode);
                    lemma_create_acyclic(v, source.opcode);
                    let placed = if is_root {
                        made.slide_to(copy, at.0, at.1)
                    } else {
                        (made, Ok(()))
                    };
                    if is_root {
                        lemma_slide_to_sound(made, copy, at.0, at.1);
                        lemma_slide_to_links(made, copy, at.0, at.1);
                        lemma_same_links_acyclic(made, placed.0);
                    }
                    if placed.1 is Ok {
                        let filled = placed.0.copy_fields(copy, source.fields, 0);
                        lemma_copy_fields_sound(placed.0, copy, source.fields, 0);
                        lemma_fields_acyclic(placed.0, copy, source.fields, 0);
                        lemma_fields_hold(placed.0, copy, source.fields, 0, copy);
                        lemma_create_single_block(v, source.opcode);
                        lemma_same_ids(made, placed.0);
                        assert(filled.contains(copy));
                        if depth > 0 {
                            let chained = match source.next_id {
                                Some(n) => {
                                    let sub = filled.stamp(n, false, (depth - 1) as nat);
                                    match sub.1 {
                                        Ok(c) => (sub.0.attach_next(c, copy), Ok(())),
                                        Err(e) => (sub.0, Err(e)),
                                    }
                                },
                                None => (filled, Ok(())),
                            };
                            if source.next_id is Some {
                                let n = source.next_id->0;
                                let sub = filled.stamp(n, false, (depth - 1) as nat);
                                lemma_stamp_sound(filled, n, false, (depth - 1) as nat);
                                lemma_stamp_acyclic(filled, n, false, (depth - 1) as nat);
                                lemma_stamp(filled, n, false, (depth - 1) as nat);
                                lemma_stamp_apart(filled, n, false, (depth - 1) as nat);
                                if sub.1 is Ok {
                                    let c = sub.1->Ok_0;
                                    lemma_attach_next_sound(sub.0, c, copy);
                                    lemma_attach_next(sub.0, c, copy);
                                    lemma_new_side_unreached(filled, sub.0, c, copy);
                                    lemma_attach_next_acyclic(sub.0, c, copy);
                                }
                            }
                            assert(sound_graph(chained.0));
                            assert(acyclic(chained.0));
                            assert(chained.0.contains(copy));
                            if chained.1 is Ok {
                                lemma_stamp_inputs_acyclic(
                                    chained.0,
                                    copy,
                                    source.inputs,
                                    0,
                                    (depth - 1) as nat,
                                );
                            }
                        }
                    }
                }
            },
        }
    }
}

/// Copying fields keeps the graph free of cycles.
pub proof fn lemma_fields_acyclic(
    v: RuntimeView,
    id: Seq<char>,
    fields: Seq<(Seq<char>, FieldView)>,
    from: int,
)
    requires
        acyclic(v),
    ensures
        acyclic(v.copy_fields(id, fields, from)),
    decreases fields.len() - from,
{
    if 0 <= from < fields.len() && v.contains(id) {
        let one = v.set_field(id, fields[from].0, fields[from].1.text, fields[from].1.id);
        lemma_set_field_links(v, id, fields[from].0, fields[from].1.text, fields[from].1.id);
        lemma_same_links_acyclic(v, one);
        lemma_fields_acyclic(one, id, fields, from + 1);
    }
}

/// Copying fields takes no block out of the graph.
pub proof fn lemma_fields_hold(
    v: RuntimeView,
    id: Seq<char>,
    fields: Seq<(Seq<char>, FieldView)>,
    from: int,
    x: Seq<char>,
)
    ensures
        v.copy_fields(id, fields, from).contains(x) == v.contains(x),
    decreases fields.len() - from,
{
    if 0 <= from < fields.len() && v.contains(id) {
        let one = v.set_field(id, fields[from].0, fields[from].1.text, fields[from].1.id);
        lemma_set_field_links(v, id, fields[from].0, fields[from].1.text, fields[from].1.id);
        lemma_same_ids(v, one);
        lemma_fields_hold(one, id, fields, from + 1, x);
    }
}

/// Copying what the inputs hold keeps the graph free of cycles.
pub proof fn lemma_stamp_inputs_acyclic(
    v: RuntimeView,
    copy: Seq<char>,
    inputs: Seq<(Seq<char>, InputView)>,
    from: int,
    depth: nat,
)
    requires
        sound_graph(v),
        acyclic(v),
        v.contains(copy),
    ensures
        acyclic(v.stamp_inputs(copy, inputs, from, depth).0),
    decreases depth, 1nat, 1 + inputs.len() - from,
{
    if 0 <= from < inputs.len() {
        let name = inputs[from].0;
        let input = inputs[from].1;
        let first: (RuntimeView, Result<(), crate::result::ViiruError>) = match input.shadow_id {
            Some(c) => {
                let sub = v.stamp(c, false, depth);
                match sub.1 {
                    Ok(s) => (sub.0.attach_input(s, copy, name, true), Ok(())),
                    Err(e) => (sub.0, Err(e)),
                }
            },
            None => (v, Ok(())),
        };
        if input.shadow_id is Some {
            lemma_copied_in_acyclic(v, input.shadow_id->0, copy, name, true, depth);
        }
        assert(sound_graph(first.0));
        assert(acyclic(first.0));
        assert(first.0.contains(copy));
        if first.1 is Ok {
            let second: (RuntimeView, Result<(), crate::result::ViiruError>) = match input.block_id {
                Some(c) => {
                    let sub = first.0.stamp(c, false, depth);
                    match sub.1 {
                        Ok(s) => (sub.0.attach_input(s, copy, name, false), Ok(())),
                        Err(e) => (sub.0, Err(e)),
                    }
                },
                None => first,
            };
            if input.block_id is Some {
                lemma_copied_in_acyclic(first.0, input.block_id->0, copy, name, false, depth);
            }
            assert(sound_graph(second.0));
            assert(acyclic(second.0));
            assert(second.0.contains(copy));
            if second.1 is Ok {
                lemma_stamp_inputs_acyclic(second.0, copy, inputs, from + 1, depth);
            }
        }
    }
}

/// Copying a block and attaching the copy into an input keeps the graph
/// sound and free of cycles.
pub proof fn lemma_copied_in_acyclic(
    v: RuntimeView,
    c: Seq<char>,
    copy: Seq<char>,
    name: Seq<char>,
    is_shadow: bool,
    depth: nat,
)
    requires
        sound_graph(v),
        acyclic(v),
        v.contains(copy),
    ensures
        sound_graph(v.stamp(c, false, depth).0),
        acyclic(v.stamp(c, false, depth).0),
        v.stamp(c, false, depth).0.contains(copy),
        v.stamp(c, false, depth).1 is Ok ==> v.stamp(c, false, depth).0.attach_input(
            v.stamp(c, false, depth).1->Ok_0,
            copy,
            name,
            is_shadow,
        ).contains(copy),
        v.stamp(c, false, depth).1 is Ok ==> sound_graph(
            v.stamp(c, false, depth).0.attach_input(
                v.stamp(c, false, depth).1->Ok_0,
                copy,
                name,
                is_shadow,
            ),
        ) && acyclic(
            v.stamp(c, false, depth).0.attach_input(
                v.stamp(c, false, depth).1->Ok_0,
                copy,
                name,
                is_shadow,
            ),
        ),
    decreases depth, 0nat, 1nat,
{
    let sub = v.stamp(c, false, depth);
    lemma_stamp_sound(v, c, false, depth);
    lemma_stamp_acyclic(v, c, false, depth);
    lemma_stamp(v, c, false, depth);
    lemma_stamp_apart(v, c, false, depth);
    assert(sub.0.contains(copy));
    if sub.1 is Ok {
        let s = sub.1->Ok_0;
        lemma_attach_input_sound(sub.0, s, copy, name, is_shadow);
        lemma_attach_input(sub.0, s, copy, name, is_shadow);
        assert(sub.0.attach_input(s, copy, name, is_shadow).contains(copy));
        if sub.0.can_attach_input(s, copy, name) {
            lemma_new_side_unreached(v, sub.0, s, copy);
            lemma_attach_input_acyclic(sub.0, s, copy, name, is_shadow);
        }
    }
}

} // verus!
