//! The graph stays sound under everything that the engine and the keys do
//! to it: its links agree, every block has the inputs and fields that its
//! template names, and the list of top-level blocks agrees with the graph.

use vstd::prelude::*;
use crate::block::{BlockView, FieldView, InputView};
use crate::bridge::HostCallView;
use crate::copies::{lemma_shaped_kept, lemma_stamp, shaped_block, well_shaped};
use crate::graph::{
    lemma_attach_input,
    lemma_attach_next,
    lemma_contains,
    lemma_create_single_block,
    lemma_delete,
    lemma_detach,
    lemma_index,
    lemma_same_ids,
    lemma_same_links,
    lemma_same_links_trans,
    lemma_set_field_links,
    lemma_slide_links,
    lemma_slide_to_links,
};
use crate::result::sum;
use crate::runtime::{RuntimeView, State, default_field, default_opcode, default_text, names};
use crate::spec::DefaultValueView;
use crate::table::lemma_find;
use crate::tops::{
    lemma_attach_input_tidy, lemma_attach_next_tidy, lemma_create_tidy, lemma_delete_tidy,
    lemma_detach_tidy, lemma_kept, lemma_parentless, lemma_set_field_tidy, lemma_shelved,
    lemma_slide_tidy, lemma_slide_to_tidy, tidy,
};

verus! {

/// Whether the links of the graph agree, every block has the inputs and
/// fields that its template names, and the list of top-level blocks agrees
/// with the graph.
pub open spec fn sound_graph(v: RuntimeView) -> bool {
    v.linked() && well_shaped(v) && tidy(v)
}

/// Whether the two lists of ids, of the top-level blocks and of the toolbox,
/// are the same.
pub open spec fn same_tops(a: RuntimeView, b: RuntimeView) -> bool {
    a.top_level == b.top_level && a.toolbox == b.toolbox
}

/// Whether two blocks have the same opcode and the same names of inputs and
/// fields.
pub open spec fn same_shape(a: BlockView, b: BlockView) -> bool {
    a.opcode == b.opcode && names(a.inputs) == names(b.inputs) && names(a.fields) == names(
        b.fields,
    )
}

/// Whether `b` has the templates of `a` and, index by index, blocks of the
/// same ids and shapes.
pub open spec fn same_shapes(a: RuntimeView, b: RuntimeView) -> bool {
    &&& a.specs == b.specs
    &&& a.blocks.len() == b.blocks.len()
    &&& forall|j: int|
        0 <= j < a.blocks.len() ==> (#[trigger] b.blocks[j]).0 == a.blocks[j].0 && same_shape(
            b.blocks[j].1,
            a.blocks[j].1,
        )
}

pub proof fn lemma_shapes_kept(a: RuntimeView, b: RuntimeView)
    requires
        well_shaped(a),
        same_shapes(a, b),
    ensures
        well_shaped(b),
{
    lemma_shaped_kept(a, b);
}

pub proof fn lemma_shapes_trans(a: RuntimeView, b: RuntimeView, c: RuntimeView)
    requires
        same_shapes(a, b),
        same_shapes(b, c),
    ensures
        same_shapes(a, c),
{
    assert forall|j: int| 0 <= j < a.blocks.len() implies (#[trigger] c.blocks[j]).0
        == a.blocks[j].0 && same_shape(c.blocks[j].1, a.blocks[j].1) by {
        assert(b.blocks[j].0 == a.blocks[j].0);
    }
}

pub proof fn lemma_with_xy_shapes(v: RuntimeView, id: Seq<char>, x: i32, y: i32)
    ensures
        same_shapes(v, v.with_xy(id, x, y)),
        same_tops(v, v.with_xy(id, x, y)),
{
    if v.contains(id) {
        lemma_contains(v, id);
    }
}

pub proof fn lemma_with_parent_shapes(v: RuntimeView, id: Seq<char>, parent: Option<Seq<char>>)
    ensures
        same_shapes(v, v.with_parent(id, parent)),
{
    if v.contains(id) {
        lemma_contains(v, id);
    }
}

pub proof fn lemma_with_next_shapes(v: RuntimeView, id: Seq<char>, next: Option<Seq<char>>)
    ensures
        same_shapes(v, v.with_next(id, next)),
{
    if v.contains(id) {
        lemma_contains(v, id);
    }
}

pub proof fn lemma_with_side_shapes(
    v: RuntimeView,
    id: Seq<char>,
    k: int,
    is_shadow: bool,
    child: Option<Seq<char>>,
)
    ensures
        same_shapes(v, v.with_side(id, k, is_shadow, child)),
{
    if v.contains(id) && 0 <= k < v.block(id).inputs.len() {
        lemma_contains(v, id);
        let b = v.block(id);
        let c = b.with_input(k, b.inputs[k].1.with_side(is_shadow, child));
        assert(names(c.inputs) =~= names(b.inputs));
    }
}

pub proof fn lemma_set_field_shapes(
    v: RuntimeView,
    id: Seq<char>,
    name: Seq<char>,
    text: Seq<char>,
    data_id: Option<Seq<char>>,
)
    ensures
        same_shapes(v, v.set_field(id, name, text, data_id)),
        same_tops(v, v.set_field(id, name, text, data_id)),
{
    if v.contains(id) {
        lemma_contains(v, id);
        let b = v.block(id);
        if b.has_field(name) {
            lemma_find(b.field_names(), name);
            let c = b.with_field(b.field_index(name), FieldView { text, id: data_id });
            assert(names(c.fields) =~= names(b.fields));
        }
    }
}

pub proof fn lemma_slide_shapes(v: RuntimeView, id: Seq<char>, dx: i32, dy: i32, depth: nat)
    ensures
        same_shapes(v, v.slide_by(id, dx, dy, depth).0),
        same_tops(v, v.slide_by(id, dx, dy, depth).0),
    decreases depth, 0nat,
{
    if v.contains(id) {
        let b = v.block(id);
        match (sum(b.x as int, dx as int), sum(b.y as int, dy as int)) {
            (Ok(x), Ok(y)) => {
                lemma_with_xy_shapes(v, id, x, y);
                let moved = v.with_xy(id, x, y).sync(HostCallView::SlideBlock { id, x, y });
                assert(same_shapes(v, moved));
                if depth > 0 {
                    lemma_slide_inputs_shapes(moved, b.inputs, 0, dx, dy, (depth - 1) as nat);
                    lemma_shapes_trans(
                        v,
                        moved,
                        moved.slide_inputs(b.inputs, 0, dx, dy, (depth - 1) as nat).0,
                    );
                }
            },
            _ => {},
        }
    }
}

pub proof fn lemma_slide_inputs_shapes(
    v: RuntimeView,
    inputs: Seq<(Seq<char>, InputView)>,
    from: int,
    dx: i32,
    dy: i32,
    depth: nat,
)
    ensures
        same_shapes(v, v.slide_inputs(inputs, from, dx, dy, depth).0),
        same_tops(v, v.slide_inputs(inputs, from, dx, dy, depth).0),
    decreases depth, 1 + inputs.len() - from,
{
    if 0 <= from < inputs.len() {
        let input = inputs[from].1;
        let first = match input.block_id {
            Some(c) => v.slide_by(c, dx, dy, depth),
            None => (v, Ok(())),
        };
        if input.block_id is Some {
            lemma_slide_shapes(v, input.block_id->0, dx, dy, depth);
        }
        if first.1 is Ok {
            let second = match input.shadow_id {
                Some(c) => first.0.slide_by(c, dx, dy, depth),
                None => first,
            };
            if input.shadow_id is Some {
                lemma_slide_shapes(first.0, input.shadow_id->0, dx, dy, depth);
            }
            lemma_shapes_trans(v, first.0, second.0);
            if second.1 is Ok {
                lemma_slide_inputs_shapes(second.0, inputs, from + 1, dx, dy, depth);
                lemma_shapes_trans(
                    v,
                    second.0,
                    second.0.slide_inputs(inputs, from + 1, dx, dy, depth).0,
                );
            }
        }
    }
}

pub proof fn lemma_slide_to_shapes(v: RuntimeView, id: Seq<char>, x: i32, y: i32)
    ensures
        same_shapes(v, v.slide_to(id, x, y).0),
        same_tops(v, v.slide_to(id, x, y).0),
{
    if v.contains(id) {
        let b = v.block(id);
        match (sum(x as int, -(b.x as int)), sum(y as int, -(b.y as int))) {
            (Ok(dx), Ok(dy)) => {
                lemma_slide_shapes(v, id, dx, dy, v.blocks.len());
            },
            _ => {},
        }
    }
}

/// Sliding keeps a sound graph sound.
pub proof fn lemma_slide_sound(v: RuntimeView, id: Seq<char>, dx: i32, dy: i32, depth: nat)
    requires
        sound_graph(v),
    ensures
        sound_graph(v.slide_by(id, dx, dy, depth).0),
{
    lemma_slide_links(v, id, dx, dy, depth);
    lemma_same_links(v, v.slide_by(id, dx, dy, depth).0);
    lemma_slide_shapes(v, id, dx, dy, depth);
    lemma_shapes_kept(v, v.slide_by(id, dx, dy, depth).0);
    lemma_slide_tidy(v, id, dx, dy, depth);
}

pub proof fn lemma_slide_to_sound(v: RuntimeView, id: Seq<char>, x: i32, y: i32)
    requires
        sound_graph(v),
    ensures
        sound_graph(v.slide_to(id, x, y).0),
{
    lemma_slide_to_links(v, id, x, y);
    lemma_same_links(v, v.slide_to(id, x, y).0);
    lemma_slide_to_shapes(v, id, x, y);
    lemma_shapes_kept(v, v.slide_to(id, x, y).0);
    lemma_slide_to_tidy(v, id, x, y);
}

/// Setting a field keeps a sound graph sound.
pub proof fn lemma_set_field_sound(
    v: RuntimeView,
    id: Seq<char>,
    name: Seq<char>,
    text: Seq<char>,
    data_id: Option<Seq<char>>,
)
    requires
        sound_graph(v),
    ensures
        sound_graph(v.set_field(id, name, text, data_id)),
{
    lemma_set_field_links(v, id, name, text, data_id);
    lemma_same_links(v, v.set_field(id, name, text, data_id));
    lemma_set_field_shapes(v, id, name, text, data_id);
    lemma_shapes_kept(v, v.set_field(id, name, text, data_id));
    lemma_set_field_tidy(v, id, name, text, data_id);
}

/// Attaching into an input keeps the shapes.
pub proof fn lemma_attach_input_shapes(
    v: RuntimeView,
    id: Seq<char>,
    parent_id: Seq<char>,
    name: Seq<char>,
    is_shadow: bool,
)
    ensures
        same_shapes(v, v.attach_input(id, parent_id, name, is_shadow)),
{
    if v.can_attach_input(id, parent_id, name) {
        let k = v.block(parent_id).input_index(name);
        let bound = v.with_side(parent_id, k, is_shadow, Some(id));
        lemma_with_side_shapes(v, parent_id, k, is_shadow, Some(id));
        let evicted = match v.displaced_by(parent_id, name, is_shadow) {
            Some(d) => if bound.contains(d) {
                bound.with_parent(d, None).push_top_level(d)
            } else {
                bound
            },
            None => bound,
        };
        if v.displaced_by(parent_id, name, is_shadow) is Some {
            lemma_with_parent_shapes(bound, v.displaced_by(parent_id, name, is_shadow)->0, None);
        }
        assert(same_shapes(bound, evicted));
        lemma_shapes_trans(v, bound, evicted);
        lemma_with_parent_shapes(evicted, id, Some(parent_id));
        let last = evicted.with_parent(id, Some(parent_id));
        lemma_shapes_trans(v, evicted, last);
        assert(same_shapes(last, v.attach_input(id, parent_id, name, is_shadow)));
        lemma_shapes_trans(v, last, v.attach_input(id, parent_id, name, is_shadow));
    }
}

/// Attaching a parentless block into an input keeps a sound graph sound.
pub proof fn lemma_attach_input_sound(
    v: RuntimeView,
    id: Seq<char>,
    parent_id: Seq<char>,
    name: Seq<char>,
    is_shadow: bool,
)
    requires
        sound_graph(v),
        v.can_attach_input(id, parent_id, name) ==> v.block(id).parent_id is None,
    ensures
        sound_graph(v.attach_input(id, parent_id, name, is_shadow)),
{
    lemma_attach_input(v, id, parent_id, name, is_shadow);
    lemma_attach_input_shapes(v, id, parent_id, name, is_shadow);
    lemma_shapes_kept(v, v.attach_input(id, parent_id, name, is_shadow));
    lemma_attach_input_tidy(v, id, parent_id, name, is_shadow);
}

pub proof fn lemma_attach_next_shapes(v: RuntimeView, id: Seq<char>, parent_id: Seq<char>)
    ensures
        same_shapes(v, v.attach_next(id, parent_id)),
{
    if v.can_attach_next(id, parent_id) {
        let chained = v.with_next(parent_id, Some(id));
        lemma_with_next_shapes(v, parent_id, Some(id));
        lemma_with_parent_shapes(chained, id, Some(parent_id));
        let last = chained.with_parent(id, Some(parent_id));
        lemma_shapes_trans(v, chained, last);
        assert(same_shapes(last, v.attach_next(id, parent_id)));
        lemma_shapes_trans(v, last, v.attach_next(id, parent_id));
    }
}

/// Chaining a parentless block after a block keeps a sound graph sound.
pub proof fn lemma_attach_next_sound(v: RuntimeView, id: Seq<char>, parent_id: Seq<char>)
    requires
        sound_graph(v),
        v.can_attach_next(id, parent_id) ==> v.block(id).parent_id is None,
    ensures
        sound_graph(v.attach_next(id, parent_id)),
{
    lemma_attach_next(v, id, parent_id);
    lemma_attach_next_shapes(v, id, parent_id);
    lemma_shapes_kept(v, v.attach_next(id, parent_id));
    lemma_attach_next_tidy(v, id, parent_id);
}

pub proof fn lemma_unlink_shapes(v: RuntimeView, parent: Seq<char>, id: Seq<char>)
    ensures
        same_shapes(v, v.unlink(parent, id)),
        same_tops(v, v.unlink(parent, id)),
{
    if v.contains(parent) {
        let p = v.block(parent);
        if p.next_id == Some(id) {
            lemma_with_next_shapes(v, parent, None);
        } else {
            let k = crate::runtime::slot_holding(p.inputs, id, 0);
            if k < p.inputs.len() {
                lemma_with_side_shapes(v, parent, k, p.inputs[k].1.block_id != Some(id), None);
            }
        }
    }
}

pub proof fn lemma_detach_shapes(v: RuntimeView, id: Seq<char>)
    ensures
        same_shapes(v, v.detach(id).0),
        v.detach(id).0.toolbox == v.toolbox,
{
    if v.contains(id) {
        match v.own_xy(id, v.blocks.len()) {
            Err(_) => {},
            Ok(at) => {
                let loose = match v.block(id).parent_id {
                    Some(p) => v.unlink(p, id).push_top_level(id),
                    None => v,
                };
                if v.block(id).parent_id is Some {
                    lemma_unlink_shapes(v, v.block(id).parent_id->0, id);
                }
                assert(same_shapes(v, loose));
                lemma_with_parent_shapes(loose, id, None);
                let bare = loose.with_parent(id, None);
                lemma_shapes_trans(v, loose, bare);
                lemma_slide_to_shapes(bare, id, at.0, at.1);
                let moved = bare.slide_to(id, at.0, at.1);
                lemma_shapes_trans(v, bare, moved.0);
                if moved.1 is Ok {
                    let done = moved.0.sync(HostCallView::DetachBlock { id });
                    assert(same_shapes(moved.0, done));
                    lemma_shapes_trans(v, moved.0, done);
                }
            },
        }
    }
}

/// Detaching keeps a sound graph sound.
pub proof fn lemma_detach_sound(v: RuntimeView, id: Seq<char>)
    requires
        sound_graph(v),
    ensures
        sound_graph(v.detach(id).0),
{
    lemma_detach(v, id);
    lemma_detach_shapes(v, id);
    lemma_shapes_kept(v, v.detach(id).0);
    lemma_detach_tidy(v, id);
}

/// A graph whose blocks are blocks of a well-shaped graph over the same
/// templates is well-shaped.
pub proof fn lemma_shaped_part(v: RuntimeView, w: RuntimeView)
    requires
        well_shaped(v),
        v.ids().no_duplicates(),
        w.ids().no_duplicates(),
        v.specs == w.specs,
        forall|x: Seq<char>| #[trigger] w.contains(x) ==> v.contains(x) && w.block(x) == v.block(x),
    ensures
        well_shaped(w),
{
    assert forall|i: int| 0 <= i < w.blocks.len() implies shaped_block(
        w,
        (#[trigger] w.blocks[i]).1,
    ) by {
        lemma_index(w, i);
        let x = w.blocks[i].0;
        assert(w.contains(x));
        lemma_contains(v, x);
        assert(shaped_block(v, v.blocks[v.index_of(x)].1));
        let op = w.blocks[i].1.opcode;
        assert(v.has_spec(op) == w.has_spec(op));
        assert(v.spec_of(op) == w.spec_of(op));
    }
}

/// Deleting keeps a sound graph sound.
pub proof fn lemma_delete_sound(v: RuntimeView, id: Seq<char>)
    requires
        sound_graph(v),
    ensures
        sound_graph(v.delete(id).0),
{
    let loose = v.detach(id);
    let d = loose.0;
    lemma_detach_sound(v, id);
    lemma_detach_shapes(v, id);
    lemma_delete_tidy(v, id);
    if loose.1 is Ok {
        let dropped = d.drop_top_level(id);
        let w = v.delete(id).0;
        crate::graph::lemma_delete_all_tops(dropped, seq![id]);
        if v.contains(id) {
            lemma_delete(v, id);
            lemma_detach(v, id);
            assert forall|x: Seq<char>| #[trigger] w.contains(x) implies d.contains(x) && w.block(
                x,
            ) == d.block(x) by {
                assert(v.contains(x));
                assert(d.ids() == v.ids());
            }
            lemma_shaped_part(d, w);
        } else {
            let pending = seq![id];
            assert(!dropped.contains(id));
            assert(dropped.delete_all(pending) == dropped) by {
                assert(pending.drop_last() =~= Seq::<Seq<char>>::empty());
                assert(pending.last() == id);
                assert(dropped.delete_all(pending) == dropped.delete_all(pending.drop_last()));
            }
            assert(d.same_links(w));
            lemma_same_links(d, w);
            assert(same_shapes(d, w));
            lemma_shapes_kept(d, w);
        }
    }
}

/// Making a block keeps a sound graph sound; the new block has no parent.
pub proof fn lemma_create_sound(v: RuntimeView, opcode: Seq<char>)
    requires
        sound_graph(v),
        v.fresh_id() is Some,
    ensures
        sound_graph(v.create_single_block(opcode)),
        v.create_single_block(opcode).contains(v.fresh_id()->0),
        v.create_single_block(opcode).block(v.fresh_id()->0).parent_id is None,
        v.create_single_block(opcode).specs == v.specs,
{
    lemma_create_tidy(v, opcode);
    let made = v.create_single_block(opcode);
    lemma_create_single_block(v, opcode);
    let n = v.blocks.len() as int;
    assert forall|i: int| 0 <= i < made.blocks.len() implies shaped_block(
        made,
        (#[trigger] made.blocks[i]).1,
    ) by {
        if i < n {
            assert(shaped_block(v, v.blocks[i].1));
            let o = v.blocks[i].1.opcode;
            assert(made.has_spec(o) == v.has_spec(o));
            assert(made.spec_of(o) == v.spec_of(o));
        } else {
            assert(made.spec_of(opcode) == v.spec_of(opcode));
        }
    }
}

/// Copying fields keeps a sound graph sound.
pub proof fn lemma_copy_fields_sound(
    v: RuntimeView,
    id: Seq<char>,
    fields: Seq<(Seq<char>, FieldView)>,
    from: int,
)
    requires
        sound_graph(v),
    ensures
        sound_graph(v.copy_fields(id, fields, from)),
    decreases fields.len() - from,
{
    if 0 <= from < fields.len() && v.contains(id) {
        lemma_set_field_sound(v, id, fields[from].0, fields[from].1.text, fields[from].1.id);
        lemma_copy_fields_sound(
            v.set_field(id, fields[from].0, fields[from].1.text, fields[from].1.id),
            id,
            fields,
            from + 1,
        );
    }
}

/// Copying a block keeps a sound graph sound.
pub proof fn lemma_stamp_sound(v: RuntimeView, id: Seq<char>, is_root: bool, depth: nat)
    requires
        sound_graph(v),
    ensures
        sound_graph(v.stamp(id, is_root, depth).0),
        v.stamp(id, is_root, depth).1 is Ok ==> v.stamp(id, is_root, depth).0.contains(
            v.stamp(id, is_root, depth).1->Ok_0,
        ) && v.stamp(id, is_root, depth).0.block(v.stamp(id, is_root, depth).1->Ok_0).parent_id is None,
    decreases depth, 0nat, 0nat,
{
    lemma_stamp(v, id, is_root, depth);
    let source = v.block(id);
    if v.contains(id) && v.has_spec(source.opcode) {
        match v.own_xy(id, v.blocks.len()) {
            Err(_) => {},
            Ok(at) => {
                if v.fresh_id() is Some {
                    let copy = v.fresh_id()->0;
                    let made = v.create_single_block(source.opcode);
                    lemma_create_sound(v, source.opcode);
                    let placed = if is_root {
                        made.slide_to(copy, at.0, at.1)
                    } else {
                        (made, Ok(()))
                    };
                    if is_root {
                        lemma_slide_to_sound(made, copy, at.0, at.1);
                    }
                    if placed.1 is Ok {
                        let filled = placed.0.copy_fields(copy, source.fields, 0);
                        lemma_copy_fields_sound(placed.0, copy, source.fields, 0);
                        if depth > 0 {
                            let chained = match source.next_id {
                                Some(n) => {
                                    let sub = filled.stamp(n, false, (depth - 1) as nat);
                                    match sub.1 {
                                        Ok(c) => (sub.0.attach_next(c, copy), Ok(())),
                                        Err(e) => (sub.0, Err(e)),
                                    }
                                },
                                None => (filled, Ok(())),
                            };
                            if source.next_id is Some {
                                let n = source.next_id->0;
                                let sub = filled.stamp(n, false, (depth - 1) as nat);
                                lemma_stamp_sound(filled, n, false, (depth - 1) as nat);
                                if sub.1 is Ok {
                                    lemma_attach_next_sound(sub.0, sub.1->Ok_0, copy);
                                }
                            }
                            assert(sound_graph(chained.0));
                            if chained.1 is Ok {
                                lemma_stamp_inputs_sound(
                                    chained.0,
                                    copy,
                                    source.inputs,
                                    0,
                                    (depth - 1) as nat,
                                );
                            }
                        }
                    }
                }
            },
        }
    }
}

/// Copying what the inputs hold keeps a sound graph sound.
pub proof fn lemma_stamp_inputs_sound(
    v: RuntimeView,
    copy: Seq<char>,
    inputs: Seq<(Seq<char>, InputView)>,
    from: int,
    depth: nat,
)
    requires
        sound_graph(v),
    ensures
        sound_graph(v.stamp_inputs(copy, inputs, from, depth).0),
    decreases depth, 1nat, 1 + inputs.len() - from,
{
    if 0 <= from < inputs.len() {
        let name = inputs[from].0;
        let input = inputs[from].1;
        let first: (RuntimeView, Result<(), crate::result::ViiruError>) = match input.shadow_id {
            Some(c) => {
                let sub = v.stamp(c, false, depth);
                match sub.1 {
                    Ok(s) => (sub.0.attach_input(s, copy, name, true), Ok(())),
                    Err(e) => (sub.0, Err(e)),
                }
            },
            None => (v, Ok(())),
        };
        if input.shadow_id is Some {
            let sub = v.stamp(input.shadow_id->0, false, depth);
            lemma_stamp_sound(v, input.shadow_id->0, false, depth);
            if sub.1 is Ok {
                lemma_attach_input_sound(sub.0, sub.1->Ok_0, copy, name, true);
            }
        }
        assert(sound_graph(first.0));
        if first.1 is Ok {
            let second: (RuntimeView, Result<(), crate::result::ViiruError>) = match input.block_id {
                Some(c) => {
                    let sub = first.0.stamp(c, false, depth);
                    match sub.1 {
                        Ok(s) => (sub.0.attach_input(s, copy, name, false), Ok(())),
                        Err(e) => (sub.0, Err(e)),
                    }
                },
                None => first,
            };
            if input.block_id is Some {
                let sub = first.0.stamp(input.block_id->0, false, depth);
                lemma_stamp_sound(first.0, input.block_id->0, false, depth);
                if sub.1 is Ok {
                    lemma_attach_input_sound(sub.0, sub.1->Ok_0, copy, name, false);
                }
            }
            assert(sound_graph(second.0));
            if second.1 is Ok {
                lemma_stamp_inputs_sound(second.0, copy, inputs, from + 1, depth);
            }
        }
    }
}

/// Whether `b` has the links and shapes of `a`: the two differ in nothing
/// that soundness speaks of.
pub open spec fn same_build(a: RuntimeView, b: RuntimeView) -> bool {
    a.same_links(b) && same_shapes(a, b) && same_tops(a, b)
}

pub proof fn lemma_same_build(a: RuntimeView, b: RuntimeView)
    requires
        sound_graph(a),
        same_build(a, b),
    ensures
        sound_graph(b),
{
    lemma_same_links(a, b);
    lemma_shapes_kept(a, b);
    lemma_kept(a, b);
}

pub proof fn lemma_build_trans(a: RuntimeView, b: RuntimeView, c: RuntimeView)
    requires
        same_build(a, b),
        same_build(b, c),
    ensures
        same_build(a, c),
{
    lemma_same_links_trans(a, b, c);
    lemma_shapes_trans(a, b, c);
}

pub proof fn lemma_with_offsets_build(
    v: RuntimeView,
    offsets: Seq<(Seq<char>, (i32, i32))>,
    from: int,
)
    ensures
        same_build(v, v.with_offsets(offsets, from)),
    decreases offsets.len() - from,
{
    if 0 <= from < offsets.len() {
        let id = offsets[from].0;
        let one = v.with_offset(id, offsets[from].1.0, offsets[from].1.1);
        if v.contains(id) {
            lemma_contains(v, id);
        }
        assert(same_build(v, one));
        lemma_with_offsets_build(one, offsets, from + 1);
        lemma_build_trans(v, one, one.with_offsets(offsets, from + 1));
    }
}

/// Taking in what a layout pass measured keeps a sound graph sound.
pub proof fn lemma_process_sound(v: RuntimeView, acc: crate::ui::AccumulatorsView)
    requires
        sound_graph(v),
    ensures
        sound_graph(v.process_accumulators(acc)),
{
    let noted = RuntimeView {
        block_positions: acc.block_positions,
        drop_points: acc.drop_points,
        writable_points: acc.writable_points,
        ..v
    };
    assert(same_build(v, noted));
    lemma_with_offsets_build(noted, acc.block_offsets, 0);
    lemma_build_trans(v, noted, v.process_accumulators(acc));
    lemma_same_build(v, v.process_accumulators(acc));
}

/// A frame keeps a sound graph sound.
pub proof fn lemma_refresh_sound(grid: Seq<Seq<crate::ui::Cell>>, v: RuntimeView)
    requires
        sound_graph(v),
    ensures
        sound_graph(crate::ui::refreshed(grid, v).1),
{
    let a = crate::ui::with_viewport_border(grid, v.viewport);
    if a.1 is Ok {
        let b = crate::ui::with_marker_dots(a.0, v);
        if b.1 is Ok {
            let c = crate::ui::with_cursor_lines(b.0, v);
            if c.1 is Ok {
                let d = crate::ui::draw_all(
                    crate::ui::canvas_of(c.0, crate::ui::AccumulatorsView::empty()),
                    v,
                );
                if d.1 is Ok {
                    let taken = v.process_accumulators(d.0.acc);
                    lemma_process_sound(v, d.0.acc);
                    let e = crate::ui::with_status_line(d.0.grid, taken);
                    let f = crate::ui::with_toolbox(
                        e,
                        taken,
                        taken.viewport_offset_x,
                        taken.viewport_offset_y,
                        false,
                    );
                    assert(same_build(taken, crate::ui::noting(taken, f.1)));
                    lemma_same_build(taken, crate::ui::noting(taken, f.1));
                }
            }
        }
    }
}

/// Filling one input with its default keeps a sound graph sound.
pub proof fn lemma_default_sound(
    v: RuntimeView,
    parent: Seq<char>,
    name: Seq<char>,
    d: DefaultValueView,
)
    requires
        sound_graph(v),
    ensures
        sound_graph(v.instantiate_default(parent, name, d).0),
        v.instantiate_default(parent, name, d).0.specs == v.specs,
{
    let op = default_opcode(d);
    if v.has_spec(op) && v.fresh_id() is Some {
        let child = v.fresh_id()->0;
        let made = v.create_single_block(op);
        lemma_create_sound(v, op);
        let filled = match default_field(d) {
            Some(f) => made.set_field(child, f, default_text(d), None),
            None => made,
        };
        if default_field(d) is Some {
            lemma_set_field_sound(made, child, default_field(d)->0, default_text(d), None);
            lemma_set_field_links(made, child, default_field(d)->0, default_text(d), None);
            lemma_same_ids(made, filled);
            lemma_contains(made, child);
            lemma_index(filled, made.index_of(child));
        }
        assert(filled.contains(child));
        assert(filled.block(child).parent_id is None);
        lemma_attach_input_sound(filled, child, parent, name, true);
        lemma_attach_input_shapes(filled, child, parent, name, true);
    }
}

pub proof fn lemma_defaults_sound(
    v: RuntimeView,
    parent: Seq<char>,
    defaults: Seq<(Seq<char>, DefaultValueView)>,
    from: int,
    kids: Seq<Seq<char>>,
)
    requires
        sound_graph(v),
    ensures
        sound_graph(v.instantiate_defaults(parent, defaults, from, kids).0),
        v.instantiate_defaults(parent, defaults, from, kids).0.specs == v.specs,
    decreases defaults.len() - from,
{
    if 0 <= from < defaults.len() {
        let one = v.instantiate_default(parent, defaults[from].0, defaults[from].1);
        lemma_default_sound(v, parent, defaults[from].0, defaults[from].1);
        match one.1 {
            Ok(c) => {
                lemma_defaults_sound(one.0, parent, defaults, from + 1, kids.push(c));
            },
            Err(_) => {},
        }
    }
}

/// Making a block with its defaults keeps a sound graph sound.
pub proof fn lemma_template_sound(v: RuntimeView, opcode: Seq<char>)
    requires
        sound_graph(v),
    ensures
        sound_graph(v.create_block_template(opcode).0),
        v.create_block_template(opcode).0.specs == v.specs,
{
    if v.has_spec(opcode) && v.fresh_id() is Some {
        lemma_create_sound(v, opcode);
        lemma_defaults_sound(
            v.create_single_block(opcode),
            v.fresh_id()->0,
            crate::runtime::defaults_of_lines(v.spec_of(opcode).lines, 0, Seq::empty()),
            0,
            Seq::empty(),
        );
    }
}

pub proof fn lemma_toolbox_from_sound(v: RuntimeView, opcodes: Seq<Seq<char>>, from: int)
    requires
        sound_graph(v),
    ensures
        sound_graph(v.toolbox_from(opcodes, from).0),
    decreases opcodes.len() - from,
{
    if 0 <= from < opcodes.len() {
        let made = v.create_block_template(opcodes[from]);
        lemma_template_sound(v, opcodes[from]);
        match made.1 {
            Err(_) => {},
            Ok(r) => {
                let taken = made.0.drop_top_level(r.0);
                let kept = RuntimeView { toolbox: taken.toolbox.push(r.0), ..taken };
                assert(made.0.same_links(kept) && same_shapes(made.0, kept));
                lemma_same_links(made.0, kept);
                lemma_shapes_kept(made.0, kept);
                lemma_shelved(made.0, kept, r.0);
                lemma_toolbox_from_sound(kept, opcodes, from + 1);
            },
        }
    }
}

/// Filling the toolbox keeps a sound graph sound.
pub proof fn lemma_toolbox_sound(v: RuntimeView, opcodes: Seq<Seq<char>>)
    requires
        sound_graph(v),
    ensures
        sound_graph(v.initialize_toolbox_blocks(opcodes).0),
{
    let quiet = RuntimeView { do_sync: false, ..v };
    assert(same_build(v, quiet));
    lemma_same_build(v, quiet);
    lemma_toolbox_from_sound(quiet, opcodes, 0);
    let filled = quiet.toolbox_from(opcodes, 0);
    assert(same_build(filled.0, v.initialize_toolbox_blocks(opcodes).0));
    lemma_same_build(filled.0, v.initialize_toolbox_blocks(opcodes).0);
}

/// A fresh editor has a sound graph.
pub proof fn lemma_fresh_sound(specs: Seq<(Seq<char>, crate::spec::SpecView)>)
    ensures
        sound_graph(RuntimeView::fresh(specs)),
{
    crate::graph::lemma_fresh_linked(specs);
}

/// Taking in a project whose blocks are linked and shaped by the templates
/// leaves a sound graph.
pub proof fn lemma_project_sound(
    v: RuntimeView,
    blocks: Seq<(Seq<char>, BlockView)>,
    variables: Seq<(Seq<char>, Seq<char>)>,
    lists: Seq<(Seq<char>, Seq<char>)>,
    broadcasts: Seq<(Seq<char>, Seq<char>)>,
    opcodes: Seq<Seq<char>>,
)
    requires
        (RuntimeView { blocks, ..v }).linked(),
        well_shaped(RuntimeView { blocks, ..v }),
    ensures
        sound_graph(v.project_loaded(blocks, variables, lists, broadcasts, opcodes).0),
{
    let given = RuntimeView { blocks, ..v };
    let loaded = RuntimeView {
        blocks,
        top_level: crate::runtime::parentless(blocks, 0, Seq::empty()),
        toolbox: Seq::empty(),
        ..v
    };
    assert(given.same_links(loaded) && same_shapes(given, loaded));
    lemma_same_links(given, loaded);
    lemma_shapes_kept(given, loaded);
    lemma_parentless(loaded);
    lemma_toolbox_sound(loaded, opcodes);
    let boxed = loaded.initialize_toolbox_blocks(opcodes);
    let last = v.project_loaded(blocks, variables, lists, broadcasts, opcodes).0;
    assert(same_build(boxed.0, last));
    lemma_same_build(boxed.0, last);
}

/// A graph that differs from a sound one in neither blocks nor templates
/// nor in the lists of top-level blocks and of the toolbox is sound.
pub proof fn lemma_same_blocks(a: RuntimeView, b: RuntimeView)
    requires
        sound_graph(a),
        a.blocks == b.blocks,
        a.specs == b.specs,
        same_tops(a, b),
    ensures
        sound_graph(b),
{
    assert(same_build(a, b));
    lemma_same_build(a, b);
}

pub proof fn lemma_scrolled_sound(v: RuntimeView, dx: int, dy: int)
    requires
        sound_graph(v),
    ensures
        sound_graph(v.scrolled(dx, dy).0),
{
    lemma_same_blocks(v, v.scrolled(dx, dy).0);
}

pub proof fn lemma_move_x_sound(v: RuntimeView, dx: i32)
    requires
        sound_graph(v),
    ensures
        sound_graph(v.move_x(dx).0),
{
    match sum(v.cursor_x as int, dx as int) {
        Err(_) => {},
        Ok(x) => {
            let moved = RuntimeView { cursor_x: x, ..v };
            lemma_same_blocks(v, moved);
            if v.cursor_block is Some {
                lemma_slide_sound(moved, v.cursor_block->0, dx, 0, moved.blocks.len());
            }
        },
    }
}

pub proof fn lemma_move_y_sound(v: RuntimeView, dy: i32)
    requires
        sound_graph(v),
    ensures
        sound_graph(v.move_y(dy).0),
{
    match sum(v.cursor_y as int, dy as int) {
        Err(_) => {},
        Ok(y) => {
            let moved = RuntimeView { cursor_y: y, ..v };
            lemma_same_blocks(v, moved);
            if v.cursor_block is Some {
                lemma_slide_sound(moved, v.cursor_block->0, 0, dy, moved.blocks.len());
            }
        },
    }
}

pub proof fn lemma_walk_sound(v: RuntimeView, d: crate::input::Direction)
    requires
        sound_graph(v),
    ensures
        sound_graph(v.walk(d).0),
{
    lemma_move_x_sound(v, -1i32);
    lemma_move_x_sound(v, 1);
    lemma_move_y_sound(v, -1i32);
    lemma_move_y_sound(v, 1);
    let stepped = match d {
        crate::input::Direction::Left => v.move_x(-1i32),
        crate::input::Direction::Right => v.move_x(1),
        crate::input::Direction::Up => v.move_y(-1i32),
        crate::input::Direction::Down => v.move_y(1),
    };
    if stepped.1 is Ok {
        lemma_scrolled_sound(stepped.0, -1, 0);
        lemma_scrolled_sound(stepped.0, 1, 0);
        lemma_scrolled_sound(stepped.0, 0, -1);
        lemma_scrolled_sound(stepped.0, 0, 1);
    }
}

pub proof fn lemma_pan_sound(v: RuntimeView, d: crate::input::Direction)
    requires
        sound_graph(v),
    ensures
        sound_graph(v.pan(d).0),
{
    lemma_scrolled_sound(v, -1, 0);
    lemma_scrolled_sound(v, 1, 0);
    lemma_scrolled_sound(v, 0, -1);
    lemma_scrolled_sound(v, 0, 1);
    let moved = match d {
        crate::input::Direction::Left => v.scrolled(-1, 0),
        crate::input::Direction::Right => v.scrolled(1, 0),
        crate::input::Direction::Up => v.scrolled(0, -1),
        crate::input::Direction::Down => v.scrolled(0, 1),
    };
    if moved.1 is Ok {
        lemma_move_x_sound(moved.0, -1i32);
        lemma_move_x_sound(moved.0, 1);
        lemma_move_y_sound(moved.0, -1i32);
        lemma_move_y_sound(moved.0, 1);
    }
}

pub proof fn lemma_put_to_cursor_sound(v: RuntimeView, id: Seq<char>)
    requires
        sound_graph(v),
    ensures
        sound_graph(v.put_to_cursor(id).0),
{
    lemma_detach_sound(v, id);
    lemma_same_blocks(v.detach(id).0, v.put_to_cursor(id).0);
}

pub proof fn lemma_pick_up_sound(v: RuntimeView)
    requires
        sound_graph(v),
    ensures
        sound_graph(v.pick_up().0),
{
    if v.selected() is Some {
        let held = v.put_to_cursor(v.selected()->0);
        lemma_put_to_cursor_sound(v, v.selected()->0);
        lemma_same_blocks(held.0, v.pick_up().0);
    }
}

pub proof fn lemma_stamp_and_hold_sound(v: RuntimeView, id: Seq<char>)
    requires
        sound_graph(v),
    ensures
        sound_graph(v.stamp_and_hold(id).0),
{
    let made = v.stamp(id, true, v.blocks.len());
    lemma_stamp_sound(v, id, true, v.blocks.len());
    if made.1 is Ok {
        let held = made.0.put_to_cursor(made.1->Ok_0);
        lemma_put_to_cursor_sound(made.0, made.1->Ok_0);
        lemma_same_blocks(held.0, v.stamp_and_hold(id).0);
    }
}

pub proof fn lemma_take_sound(v: RuntimeView)
    requires
        sound_graph(v),
    ensures
        sound_graph(v.take_from_toolbox().0),
{
    if v.toolbox_cursor < v.toolbox.len() && v.contains(v.toolbox[v.toolbox_cursor as int]) {
        let id = v.toolbox[v.toolbox_cursor as int];
        let made = v.stamp(id, true, v.blocks.len());
        lemma_stamp_sound(v, id, true, v.blocks.len());
        if made.1 is Ok {
            let copy = made.1->Ok_0;
            let held = made.0.put_to_cursor(copy);
            lemma_put_to_cursor_sound(made.0, copy);
            if held.1 is Ok {
                let placed = held.0.slide_to(copy, held.0.cursor_x, held.0.cursor_y);
                lemma_slide_to_sound(held.0, copy, held.0.cursor_x, held.0.cursor_y);
                lemma_same_blocks(placed.0, v.take_from_toolbox().0);
            }
        }
    }
}

pub proof fn lemma_drop_into_sound(
    v: RuntimeView,
    held: Seq<char>,
    parent: Seq<char>,
    name: Seq<char>,
)
    requires
        sound_graph(v),
    ensures
        sound_graph(v.drop_into(held, parent, name).0),
{
    if v.can_attach_input(held, parent, name) && v.block(held).parent_id is None {
        let cleared = match v.block(parent).input(name).block_id {
            Some(e) => if v.contains(e) {
                let loose = v.detach(e);
                if loose.1 is Err {
                    loose
                } else {
                    loose.0.slide_by(e, 1, 1, loose.0.blocks.len())
                }
            } else {
                (v, Ok(()))
            },
            None => (v, Ok(())),
        };
        if v.block(parent).input(name).block_id is Some {
            let e = v.block(parent).input(name).block_id->0;
            lemma_detach_sound(v, e);
            lemma_slide_sound(v.detach(e).0, e, 1, 1, v.detach(e).0.blocks.len());
        }
        assert(sound_graph(cleared.0));
        if cleared.1 is Ok && cleared.0.can_attach_input(held, parent, name) && cleared.0.block(
            held,
        ).parent_id is None {
            lemma_attach_input_sound(cleared.0, held, parent, name, false);
        }
    }
}

pub proof fn lemma_drop_after_sound(v: RuntimeView, held: Seq<char>, parent: Seq<char>)
    requires
        sound_graph(v),
    ensures
        sound_graph(v.drop_after(held, parent)),
{
    lemma_same_blocks(v, RuntimeView { status_message: "Can't place between stacks yet"@, ..v });
    if v.block(held).parent_id is None {
        lemma_attach_next_sound(v, held, parent);
    }
}

pub proof fn lemma_release_sound(v: RuntimeView)
    requires
        sound_graph(v),
    ensures
        sound_graph(v.release().0),
{
    let free = RuntimeView { cursor_block: None, state: State::Move, ..v };
    lemma_same_blocks(v, free);
    if v.cursor_block is Some {
        match v.current_drop_point() {
            None => {},
            Some((parent, input)) => {
                match input {
                    Some(name) => {
                        lemma_drop_into_sound(free, v.cursor_block->0, parent, name);
                    },
                    None => {
                        lemma_drop_after_sound(free, v.cursor_block->0, parent);
                    },
                }
            },
        }
    }
}

pub proof fn lemma_delete_here_sound(v: RuntimeView)
    requires
        sound_graph(v),
    ensures
        sound_graph(v.delete_here().0),
{
    if v.state == State::Hold {
        if v.cursor_block is Some {
            let id = v.cursor_block->0;
            let free = RuntimeView { cursor_block: None, ..v };
            lemma_same_blocks(v, free);
            lemma_delete_sound(free, id);
            lemma_same_blocks(free.delete(id).0, RuntimeView { state: State::Move, ..free.delete(id).0 });
            lemma_same_blocks(free, RuntimeView { state: State::Move, ..free });
        }
    } else {
        if v.selected() is Some {
            lemma_delete_sound(v, v.selected()->0);
        }
    }
}

pub proof fn lemma_strumber_sound(v: RuntimeView, id: Seq<char>, text: Seq<char>)
    requires
        sound_graph(v),
    ensures
        sound_graph(v.set_strumber_field(id, text)),
{
    if v.strumber_field_name(id) is Some {
        lemma_set_field_sound(v, id, v.strumber_field_name(id)->0, text, None);
    }
}

pub proof fn lemma_reveal_sound(v: RuntimeView, grid: Seq<Seq<crate::ui::Cell>>)
    requires
        sound_graph(v),
    ensures
        sound_graph(crate::input::reveal_cursor(v, grid).0),
    decreases v.toolbox.len() - v.toolbox_scroll,
{
    if v.toolbox_cursor > v.toolbox_visible_max && v.toolbox_scroll + 1 < v.toolbox.len()
        && v.toolbox_scroll < usize::MAX {
        let lower = RuntimeView { toolbox_scroll: (v.toolbox_scroll + 1) as usize, ..v };
        lemma_same_blocks(v, lower);
        let measured = crate::ui::with_toolbox(
            grid,
            lower,
            lower.viewport_offset_x,
            lower.viewport_offset_y,
            true,
        );
        if measured.1 is Ok {
            let noted = crate::ui::noting(lower, measured.1);
            lemma_same_blocks(lower, noted);
            lemma_reveal_sound(noted, measured.0);
        }
    }
}

pub proof fn lemma_toolbox_key_sound(v: RuntimeView, grid: Seq<Seq<crate::ui::Cell>>, c: char)
    requires
        sound_graph(v),
    ensures
        sound_graph(crate::input::toolbox_key(v, grid, c).0),
{
    lemma_same_blocks(v, v.toolbox_cursor_down());
    lemma_same_blocks(v, v.toolbox_cursor_down().toolbox_scroll_down());
    lemma_same_blocks(v, v.toolbox_cursor_up());
    lemma_same_blocks(v, v.toolbox_page_up());
    lemma_same_blocks(v, RuntimeView { state: State::Move, ..v });
    lemma_reveal_sound(v.toolbox_cursor_down(), grid);
    lemma_take_sound(v);
}

pub proof fn lemma_block_key_sound(v: RuntimeView, c: char)
    requires
        sound_graph(v),
    ensures
        match crate::input::block_key(v, c) {
            Some(done) => sound_graph(done.0),
            None => true,
        },
{
    lemma_delete_here_sound(v);
    lemma_pick_up_sound(v);
    lemma_release_sound(v);
    if v.selected() is Some {
        lemma_stamp_and_hold_sound(v, v.selected()->0);
    }
    if v.cursor_block is Some {
        lemma_stamp_sound(v, v.cursor_block->0, true, v.blocks.len());
    }
    if v.editable() is Some {
        lemma_same_blocks(
            v,
            RuntimeView { editing_shadow: v.editable()->0, state: State::Inline, ..v },
        );
    }
    lemma_same_blocks(v, RuntimeView { state: State::Toolbox, ..v });
}

pub proof fn lemma_roam_key_sound(v: RuntimeView, c: char)
    requires
        sound_graph(v),
    ensures
        match crate::input::roam_key(v, c) {
            Some(step) => sound_graph(step.0),
            None => true,
        },
{
    lemma_walk_sound(v, crate::input::Direction::Left);
    lemma_walk_sound(v, crate::input::Direction::Right);
    lemma_walk_sound(v, crate::input::Direction::Up);
    lemma_walk_sound(v, crate::input::Direction::Down);
    lemma_pan_sound(v, crate::input::Direction::Left);
    lemma_pan_sound(v, crate::input::Direction::Right);
    lemma_pan_sound(v, crate::input::Direction::Up);
    lemma_pan_sound(v, crate::input::Direction::Down);
}

pub proof fn lemma_char_key_sound(v: RuntimeView, grid: Seq<Seq<crate::ui::Cell>>, c: char)
    requires
        sound_graph(v),
    ensures
        sound_graph(crate::input::char_key(v, grid, c).0),
{
    lemma_same_blocks(v, RuntimeView { status_message: "Unsaved changes. (Q to force)"@, ..v });
    lemma_same_blocks(v, RuntimeView { state: State::Command, ..v });
    lemma_toolbox_key_sound(v, grid, c);
    lemma_roam_key_sound(v, c);
    lemma_block_key_sound(v, c);
}

/// Whatever key comes, a sound graph stays sound: every block that has a
/// parent is held by that parent in one place, and by no other block; and
/// the top-level blocks are blocks without a parent, each listed once.
pub proof fn lemma_key_sound(v: RuntimeView, grid: Seq<Seq<crate::ui::Cell>>, key: crate::input::Key)
    requires
        sound_graph(v),
    ensures
        sound_graph(crate::input::key_handled(v, grid, key).0),
{
    if v.state == State::Command {
        lemma_same_blocks(v, crate::input::command_key(v, key).0);
    } else if v.state == State::Inline {
        match key {
            crate::input::Key::Char(c) => {
                if v.contains(v.editing_shadow) {
                    lemma_strumber_sound(
                        v,
                        v.editing_shadow,
                        v.get_strumber_field(v.editing_shadow).push(c),
                    );
                }
            },
            crate::input::Key::Backspace => {
                if v.contains(v.editing_shadow) {
                    let text = v.get_strumber_field(v.editing_shadow);
                    lemma_strumber_sound(
                        v,
                        v.editing_shadow,
                        if text.len() > 0 {
                            text.drop_last()
                        } else {
                            text
                        },
                    );
                }
            },
            _ => {
                lemma_same_blocks(v, RuntimeView { state: State::Move, ..v });
            },
        }
    } else {
        match key {
            crate::input::Key::Char(c) => {
                let noted = RuntimeView { last_command: c, ..v };
                lemma_same_blocks(v, noted);
                lemma_char_key_sound(noted, grid, c);
            },
            _ => {},
        }
    }
}

} // verus!
