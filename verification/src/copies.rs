//! A copy of a block is like the source: the same opcode and fields, and a
//! copy of everything that the source holds at the place where the
//! source holds it. No block of the copy is a block that was there
//! before, and no block that was there before is changed.

use vstd::prelude::*;
use crate::block::{BlockView, FieldView, InputView};
use crate::bridge::HostCallView;
use crate::graph::{
    Place,
    all_empty,
    at_place,
    lemma_absent,
    lemma_attach_input,
    lemma_attach_next,
    lemma_contains,
    lemma_create_single_block,
    lemma_fresh_id,
    lemma_index,
    lemma_new_block,
    lemma_same_ids,
    lemma_same_links,
    lemma_slide_to_links,
    lemma_with_block,
};
use crate::result::{ViiruError, sum};
use crate::runtime::{
    RuntimeView,
    Step,
    add_field,
    add_slot,
    empty_input,
    fields_of_line,
    fields_of_lines,
    names,
    new_block,
    slots_of_line,
    slots_of_lines,
};
use crate::spec::{FragmentView, SpecView};
use crate::table::{lemma_find, occurs};

verus! {

/// Whether every block of `a` is a block of `b`, unchanged.
pub open spec fn extends(a: RuntimeView, b: RuntimeView) -> bool {
    forall|x: Seq<char>| #[trigger] a.contains(x) ==> b.contains(x) && b.block(x) == a.block(x)
}

/// Whether every block of `a` is a block of `b`.
pub open spec fn within(a: RuntimeView, b: RuntimeView) -> bool {
    forall|x: Seq<char>| #[trigger] a.contains(x) ==> b.contains(x)
}

/// Whether the block has the inputs and fields that the template of its
/// opcode names, where the opcode has a template.
pub open spec fn shaped_block(v: RuntimeView, b: BlockView) -> bool {
    v.has_spec(b.opcode) ==> names(b.inputs) == names(
        new_block(v.spec_of(b.opcode), b.opcode).inputs,
    ) && names(b.fields) == names(new_block(v.spec_of(b.opcode), b.opcode).fields)
}

/// Whether every block has the inputs and fields that its template names.
pub open spec fn well_shaped(v: RuntimeView) -> bool {
    forall|i: int| 0 <= i < v.blocks.len() ==> shaped_block(v, (#[trigger] v.blocks[i]).1)
}

/// Whether two blocks have the same opcode, fields, inputs and next block.
pub open spec fn same_content(a: BlockView, b: BlockView) -> bool {
    a.opcode == b.opcode && a.fields == b.fields && a.inputs == b.inputs && a.next_id
        == b.next_id
}

/// Whether every block of `a` outside `base` is a block of `b` with the same
/// content.
pub open spec fn keeps(a: RuntimeView, b: RuntimeView, base: RuntimeView) -> bool {
    forall|x: Seq<char>| #[trigger]
        a.contains(x) && !base.contains(x) ==> b.contains(x) && same_content(
            b.block(x),
            a.block(x),
        )
}

/// Whether block `b` of `w` is like block `a` of `o` down to `d` levels: the
/// same opcode and fields, and at every place either nothing in both or
/// blocks that are alike. No block on the side of `b` is in `base`.
pub open spec fn alike(
    o: RuntimeView,
    a: Seq<char>,
    w: RuntimeView,
    b: Seq<char>,
    d: nat,
    base: RuntimeView,
) -> bool
    decreases d, 0nat, 0nat,
{
    &&& o.contains(a)
    &&& w.contains(b)
    &&& !base.contains(b)
    &&& w.block(b).opcode == o.block(a).opcode
    &&& w.block(b).fields == o.block(a).fields
    &&& d > 0 ==> {
        &&& side_alike(o, o.block(a).next_id, w, w.block(b).next_id, (d - 1) as nat, base)
        &&& w.block(b).inputs.len() == o.block(a).inputs.len()
        &&& inputs_alike(o, o.block(a).inputs, w, w.block(b).inputs, 0, (d - 1) as nat, base)
    }
}

/// Whether two places hold nothing both, or blocks that are alike.
pub open spec fn side_alike(
    o: RuntimeView,
    x: Option<Seq<char>>,
    w: RuntimeView,
    y: Option<Seq<char>>,
    d: nat,
    base: RuntimeView,
) -> bool
    decreases d, 1nat, 0nat,
{
    match x {
        Some(c) => y is Some && alike(o, c, w, y->0, d, base),
        None => y is None,
    }
}

/// Whether the inputs from index `k` on have the same names and hold
/// nothing both, or blocks that are alike.
pub open spec fn inputs_alike(
    o: RuntimeView,
    xs: Seq<(Seq<char>, InputView)>,
    w: RuntimeView,
    ys: Seq<(Seq<char>, InputView)>,
    k: int,
    d: nat,
    base: RuntimeView,
) -> bool
    decreases d, 2nat, xs.len() - k,
{
    if k < 0 || k >= xs.len() || k >= ys.len() {
        true
    } else {
        &&& ys[k].0 == xs[k].0
        &&& side_alike(o, xs[k].1.block_id, w, ys[k].1.block_id, d, base)
        &&& side_alike(o, xs[k].1.shadow_id, w, ys[k].1.shadow_id, d, base)
        &&& inputs_alike(o, xs, w, ys, k + 1, d, base)
    }
}

/// Blocks that are alike stay alike where the blocks outside the base keep
/// their content.
pub proof fn lemma_alike_kept(
    o: RuntimeView,
    a: Seq<char>,
    w1: RuntimeView,
    w2: RuntimeView,
    b: Seq<char>,
    d: nat,
    base: RuntimeView,
)
    requires
        alike(o, a, w1, b, d, base),
        keeps(w1, w2, base),
    ensures
        alike(o, a, w2, b, d, base),
    decreases d, 0nat, 0nat,
{
    assert(w1.contains(b) && !base.contains(b));
    assert(same_content(w2.block(b), w1.block(b)));
    if d > 0 {
        lemma_side_kept(
            o,
            o.block(a).next_id,
            w1,
            w2,
            w1.block(b).next_id,
            (d - 1) as nat,
            base,
        );
        lemma_inputs_kept(
            o,
            o.block(a).inputs,
            w1,
            w2,
            w1.block(b).inputs,
            0,
            (d - 1) as nat,
            base,
        );
    }
}

pub proof fn lemma_side_kept(
    o: RuntimeView,
    x: Option<Seq<char>>,
    w1: RuntimeView,
    w2: RuntimeView,
    y: Option<Seq<char>>,
    d: nat,
    base: RuntimeView,
)
    requires
        side_alike(o, x, w1, y, d, base),
        keeps(w1, w2, base),
    ensures
        side_alike(o, x, w2, y, d, base),
    decreases d, 1nat, 0nat,
{
    if x is Some {
        lemma_alike_kept(o, x->0, w1, w2, y->0, d, base);
    }
}

pub proof fn lemma_inputs_kept(
    o: RuntimeView,
    xs: Seq<(Seq<char>, InputView)>,
    w1: RuntimeView,
    w2: RuntimeView,
    ys: Seq<(Seq<char>, InputView)>,
    k: int,
    d: nat,
    base: RuntimeView,
)
    requires
        inputs_alike(o, xs, w1, ys, k, d, base),
        keeps(w1, w2, base),
    ensures
        inputs_alike(o, xs, w2, ys, k, d, base),
    decreases d, 2nat, xs.len() - k,
{
    if !(k < 0 || k >= xs.len() || k >= ys.len()) {
        lemma_side_kept(o, xs[k].1.block_id, w1, w2, ys[k].1.block_id, d, base);
        lemma_side_kept(o, xs[k].1.shadow_id, w1, w2, ys[k].1.shadow_id, d, base);
        lemma_inputs_kept(o, xs, w1, w2, ys, k + 1, d, base);
    }
}

/// Whether every block that a block of the graph holds is in the graph.
pub open spec fn closed(v: RuntimeView) -> bool {
    forall|x: Seq<char>, p: Place|
        v.contains(x) && (#[trigger] at_place(v.block(x), p)) is Some ==> v.contains(
            at_place(v.block(x), p)->0,
        )
}

/// A linked graph is closed.
pub proof fn lemma_linked_closed(v: RuntimeView)
    requires
        v.linked(),
    ensures
        closed(v),
{
    assert forall|x: Seq<char>, p: Place|
        v.contains(x) && (#[trigger] at_place(v.block(x), p)) is Some implies v.contains(
        at_place(v.block(x), p)->0,
    ) by {
        lemma_contains(v, x);
        assert(v.refers(v.index_of(x), p, at_place(v.block(x), p)->0));
    }
}

/// Blocks that are alike are alike as seen from a smaller first graph
/// and against a smaller base.
pub proof fn lemma_alike_moved(
    o1: RuntimeView,
    base1: RuntimeView,
    o2: RuntimeView,
    base2: RuntimeView,
    a: Seq<char>,
    w: RuntimeView,
    b: Seq<char>,
    d: nat,
)
    requires
        alike(o1, a, w, b, d, base1),
        extends(o2, o1),
        closed(o2),
        o2.contains(a),
        within(base2, base1),
    ensures
        alike(o2, a, w, b, d, base2),
    decreases d, 0nat, 0nat,
{
    assert(o1.block(a) == o2.block(a));
    if base2.contains(b) {
        assert(base1.contains(b));
    }
    if d > 0 {
        let ob = o2.block(a);
        if ob.next_id is Some {
            assert(at_place(ob, Place::Next) is Some);
        }
        lemma_side_moved(
            o1,
            base1,
            o2,
            base2,
            ob.next_id,
            w,
            w.block(b).next_id,
            (d - 1) as nat,
        );
        lemma_inputs_moved(o1, base1, o2, base2, a, w, w.block(b).inputs, 0, (d - 1) as nat);
    }
}

pub proof fn lemma_inputs_moved(
    o1: RuntimeView,
    base1: RuntimeView,
    o2: RuntimeView,
    base2: RuntimeView,
    a: Seq<char>,
    w: RuntimeView,
    ys: Seq<(Seq<char>, InputView)>,
    k: int,
    d: nat,
)
    requires
        inputs_alike(o1, o2.block(a).inputs, w, ys, k, d, base1),
        extends(o2, o1),
        closed(o2),
        o2.contains(a),
        within(base2, base1),
    ensures
        inputs_alike(o2, o2.block(a).inputs, w, ys, k, d, base2),
    decreases d, 2nat, o2.block(a).inputs.len() - k,
{
    let xs = o2.block(a).inputs;
    if !(k < 0 || k >= xs.len() || k >= ys.len()) {
        if xs[k].1.block_id is Some {
            assert(at_place(o2.block(a), Place::Real(k)) is Some);
        }
        if xs[k].1.shadow_id is Some {
            assert(at_place(o2.block(a), Place::Shadow(k)) is Some);
        }
        lemma_side_moved(o1, base1, o2, base2, xs[k].1.block_id, w, ys[k].1.block_id, d);
        lemma_side_moved(o1, base1, o2, base2, xs[k].1.shadow_id, w, ys[k].1.shadow_id, d);
        lemma_inputs_moved(o1, base1, o2, base2, a, w, ys, k + 1, d);
    }
}

pub proof fn lemma_side_moved(
    o1: RuntimeView,
    base1: RuntimeView,
    o2: RuntimeView,
    base2: RuntimeView,
    x: Option<Seq<char>>,
    w: RuntimeView,
    y: Option<Seq<char>>,
    d: nat,
)
    requires
        side_alike(o1, x, w, y, d, base1),
        extends(o2, o1),
        closed(o2),
        x is Some ==> o2.contains(x->0),
        within(base2, base1),
    ensures
        side_alike(o2, x, w, y, d, base2),
    decreases d, 1nat, 0nat,
{
    if x is Some {
        lemma_alike_moved(o1, base1, o2, base2, x->0, w, y->0, d);
    }
}


/// A name that is pushed onto names without it leaves them without
/// repetition.
pub proof fn lemma_push_distinct(keys: Seq<Seq<char>>, key: Seq<char>)
    requires
        keys.no_duplicates(),
        !occurs(keys, key),
    ensures
        keys.push(key).no_duplicates(),
{
    lemma_absent(keys, key);
}

pub proof fn lemma_slots_of_line_distinct(
    line: Seq<FragmentView>,
    from: int,
    acc: Seq<(Seq<char>, InputView)>,
)
    requires
        names(acc).no_duplicates(),
    ensures
        names(slots_of_line(line, from, acc)).no_duplicates(),
    decreases line.len() - from,
{
    if 0 <= from < line.len() {
        let next = add_slot(acc, line[from]);
        match line[from].slot_name() {
            Some(n) => {
                if !occurs(names(acc), n) {
                    lemma_push_distinct(names(acc), n);
                    assert(names(next) =~= names(acc).push(n));
                }
            },
            None => {},
        }
        lemma_slots_of_line_distinct(line, from + 1, next);
    }
}

pub proof fn lemma_slots_of_lines_distinct(
    lines: Seq<Seq<FragmentView>>,
    from: int,
    acc: Seq<(Seq<char>, InputView)>,
)
    requires
        names(acc).no_duplicates(),
    ensures
        names(slots_of_lines(lines, from, acc)).no_duplicates(),
    decreases lines.len() - from,
{
    if 0 <= from < lines.len() {
        lemma_slots_of_line_distinct(lines[from], 0, acc);
        lemma_slots_of_lines_distinct(lines, from + 1, slots_of_line(lines[from], 0, acc));
    }
}

pub proof fn lemma_fields_of_line_distinct(
    line: Seq<FragmentView>,
    from: int,
    acc: Seq<(Seq<char>, FieldView)>,
)
    requires
        names(acc).no_duplicates(),
    ensures
        names(fields_of_line(line, from, acc)).no_duplicates(),
    decreases line.len() - from,
{
    if 0 <= from < line.len() {
        let next = add_field(acc, line[from]);
        match line[from].field_name() {
            Some(n) => {
                if !occurs(names(acc), n) {
                    lemma_push_distinct(names(acc), n);
                    assert(names(next) =~= names(acc).push(n));
                }
            },
            None => {},
        }
        lemma_fields_of_line_distinct(line, from + 1, next);
    }
}

pub proof fn lemma_fields_of_lines_distinct(
    lines: Seq<Seq<FragmentView>>,
    from: int,
    acc: Seq<(Seq<char>, FieldView)>,
)
    requires
        names(acc).no_duplicates(),
    ensures
        names(fields_of_lines(lines, from, acc)).no_duplicates(),
    decreases lines.len() - from,
{
    if 0 <= from < lines.len() {
        lemma_fields_of_line_distinct(lines[from], 0, acc);
        lemma_fields_of_lines_distinct(lines, from + 1, fields_of_line(lines[from], 0, acc));
    }
}

/// A fresh block names no input and no field twice.
pub proof fn lemma_new_block_distinct(spec: SpecView, opcode: Seq<char>)
    ensures
        names(new_block(spec, opcode).inputs).no_duplicates(),
        names(new_block(spec, opcode).fields).no_duplicates(),
{
    assert(names(Seq::<(Seq<char>, InputView)>::empty()) =~= Seq::<Seq<char>>::empty());
    assert(names(Seq::<(Seq<char>, FieldView)>::empty()) =~= Seq::<Seq<char>>::empty());
    lemma_slots_of_lines_distinct(spec.lines, 0, Seq::empty());
    lemma_fields_of_lines_distinct(spec.lines, 0, Seq::empty());
}

/// Sliding what empty inputs hold does nothing.
pub proof fn lemma_slide_inputs_empty(
    v: RuntimeView,
    inputs: Seq<(Seq<char>, InputView)>,
    from: int,
    dx: i32,
    dy: i32,
    depth: nat,
)
    requires
        all_empty(inputs),
    ensures
        v.slide_inputs(inputs, from, dx, dy, depth) == (v, Ok::<(), ViiruError>(())),
    decreases inputs.len() - from,
{
    if 0 <= from < inputs.len() {
        assert(inputs[from].1 == empty_input());
        lemma_slide_inputs_empty(v, inputs, from + 1, dx, dy, depth);
    }
}

/// A graph whose blocks have the opcodes and the names of inputs and
/// fields of the blocks of a well-shaped graph over the same templates is
/// well-shaped.
pub proof fn lemma_shaped_kept(a: RuntimeView, b: RuntimeView)
    requires
        well_shaped(a),
        a.specs == b.specs,
        a.blocks.len() == b.blocks.len(),
        forall|j: int|
            0 <= j < a.blocks.len() ==> (#[trigger] b.blocks[j]).1.opcode == a.blocks[j].1.opcode
                && names(b.blocks[j].1.inputs) == names(a.blocks[j].1.inputs) && names(
                b.blocks[j].1.fields,
            ) == names(a.blocks[j].1.fields),
    ensures
        well_shaped(b),
{
    assert forall|i: int| 0 <= i < b.blocks.len() implies shaped_block(
        b,
        (#[trigger] b.blocks[i]).1,
    ) by {
        assert(shaped_block(a, a.blocks[i].1));
        let op = a.blocks[i].1.opcode;
        assert(a.has_spec(op) == b.has_spec(op));
        assert(a.spec_of(op) == b.spec_of(op));
    }
}

/// What the fields of a block are after the fields from index `from` on
/// were copied to it: those fields, after the fields that it had before
/// that index.
pub open spec fn fields_after(
    had: Seq<(Seq<char>, FieldView)>,
    fields: Seq<(Seq<char>, FieldView)>,
    from: int,
) -> Seq<(Seq<char>, FieldView)> {
    Seq::new(
        had.len(),
        |k: int|
            if k >= from {
                fields[k]
            } else {
                had[k]
            },
    )
}

/// Copying fields to a block that has fields of the same names changes
/// nothing but the fields of that block.
pub proof fn lemma_copy_fields(
    v: RuntimeView,
    id: Seq<char>,
    fields: Seq<(Seq<char>, FieldView)>,
    from: int,
)
    requires
        v.ids().no_duplicates(),
        v.contains(id),
        0 <= from <= fields.len(),
        names(v.block(id).fields) == names(fields),
        names(fields).no_duplicates(),
    ensures
        ({
            let w = v.copy_fields(id, fields, from);
            &&& w.blocks.len() == v.blocks.len()
            &&& w.ids() == v.ids()
            &&& w.specs == v.specs
            &&& w.top_level == v.top_level
            &&& forall|j: int|
                0 <= j < v.blocks.len() && j != v.index_of(id) ==> #[trigger] w.blocks[j]
                    == v.blocks[j]
            &&& w.contains(id)
            &&& w.block(id) == (BlockView {
                fields: fields_after(v.block(id).fields, fields, from),
                ..v.block(id)
            })
        }),
    decreases fields.len() - from,
{
    let w = v.copy_fields(id, fields, from);
    let b = v.block(id);
    lemma_contains(v, id);
    let i = v.index_of(id);
    lemma_index(v, i);
    assert(b.fields.len() == fields.len()) by {
        assert(names(b.fields).len() == names(fields).len());
    }
    if from < fields.len() {
        let name = fields[from].0;
        let one = v.set_field(id, name, fields[from].1.text, fields[from].1.id);
        assert(b.field_names() =~= names(fields));
        assert(names(fields)[from] == name);
        lemma_find(b.field_names(), name);
        assert(b.field_index(name) == from) by {
            let f = b.field_index(name);
            if f != from {
                assert(names(fields)[f] == names(fields)[from]);
            }
        }
        let changed = b.with_field(
            from,
            FieldView { text: fields[from].1.text, id: fields[from].1.id },
        );
        lemma_with_block(v, i, changed);
        assert(one.blocks == v.with_block(i, changed).blocks);
        assert(one.ids() == v.ids());
        lemma_index(one, i);
        assert(one.block(id) == changed);
        assert(names(changed.fields) =~= names(fields));
        lemma_copy_fields(one, id, fields, from + 1);
        assert(w == one.copy_fields(id, fields, from + 1));
        assert(changed.fields[from].1 =~= fields[from].1);
        assert(fields_after(changed.fields, fields, from + 1) =~= fields_after(
            b.fields,
            fields,
            from,
        ));
        assert forall|j: int| 0 <= j < v.blocks.len() && j != i implies #[trigger] w.blocks[j]
            == v.blocks[j] by {
            assert(one.blocks[j] == v.blocks[j]);
        }
    } else {
        assert(fields_after(b.fields, fields, from) =~= b.fields);
    }
}

/// What attaching a block into an empty half of an input of another block
/// changes: the input, and the parent of the block.
pub proof fn lemma_attach_input_effect(
    v: RuntimeView,
    id: Seq<char>,
    parent_id: Seq<char>,
    name: Seq<char>,
    is_shadow: bool,
)
    requires
        v.ids().no_duplicates(),
        v.can_attach_input(id, parent_id, name),
        v.displaced_by(parent_id, name, is_shadow) is None,
        id != parent_id,
    ensures
        ({
            let w = v.attach_input(id, parent_id, name, is_shadow);
            let k = v.block(parent_id).input_index(name);
            &&& w.blocks.len() == v.blocks.len()
            &&& w.ids() == v.ids()
            &&& w.specs == v.specs
            &&& forall|x: Seq<char>| #[trigger] w.contains(x) == v.contains(x)
            &&& forall|x: Seq<char>|
                v.contains(x) && x != id && x != parent_id ==> #[trigger] w.block(x) == v.block(
                    x,
                )
            &&& w.block(id) == (BlockView { parent_id: Some(parent_id), ..v.block(id) })
            &&& 0 <= k < v.block(parent_id).inputs.len()
            &&& w.block(parent_id) == v.block(parent_id).with_input(
                k,
                v.block(parent_id).inputs[k].1.with_side(is_shadow, Some(id)),
            )
        }),
{
    let w = v.attach_input(id, parent_id, name, is_shadow);
    let pb = v.block(parent_id);
    let k = pb.input_index(name);
    let pi = v.index_of(parent_id);
    let ci = v.index_of(id);
    lemma_contains(v, parent_id);
    lemma_contains(v, id);
    lemma_index(v, pi);
    lemma_index(v, ci);
    lemma_find(pb.input_names(), name);
    let bound = v.with_side(parent_id, k, is_shadow, Some(id));
    lemma_with_block(v, pi, pb.with_input(k, pb.inputs[k].1.with_side(is_shadow, Some(id))));
    lemma_with_block(
        bound,
        bound.index_of(id),
        BlockView { parent_id: Some(parent_id), ..bound.block(id) },
    );
    assert(w.blocks == bound.with_parent(id, Some(parent_id)).blocks);
    assert(w.ids() == v.ids());
    lemma_index(w, pi);
    lemma_index(w, ci);
    assert forall|x: Seq<char>| v.contains(x) && x != id && x != parent_id implies #[trigger] w.block(
        x,
    ) == v.block(x) by {
        lemma_contains(v, x);
        lemma_index(v, v.index_of(x));
    }
}

/// What chaining a block after a block that nothing follows changes: the
/// next link of the one, and the parent of the other.
pub proof fn lemma_attach_next_effect(v: RuntimeView, id: Seq<char>, parent_id: Seq<char>)
    requires
        v.ids().no_duplicates(),
        v.can_attach_next(id, parent_id),
        id != parent_id,
    ensures
        ({
            let w = v.attach_next(id, parent_id);
            &&& w.blocks.len() == v.blocks.len()
            &&& w.ids() == v.ids()
            &&& w.specs == v.specs
            &&& forall|x: Seq<char>| #[trigger] w.contains(x) == v.contains(x)
            &&& forall|x: Seq<char>|
                v.contains(x) && x != id && x != parent_id ==> #[trigger] w.block(x) == v.block(
                    x,
                )
            &&& w.block(id) == (BlockView { parent_id: Some(parent_id), ..v.block(id) })
            &&& w.block(parent_id) == (BlockView { next_id: Some(id), ..v.block(parent_id) })
        }),
{
    let w = v.attach_next(id, parent_id);
    let pi = v.index_of(parent_id);
    let ci = v.index_of(id);
    lemma_contains(v, parent_id);
    lemma_contains(v, id);
    lemma_index(v, pi);
    lemma_index(v, ci);
    let chained = v.with_next(parent_id, Some(id));
    lemma_with_block(v, pi, BlockView { next_id: Some(id), ..v.block(parent_id) });
    lemma_with_block(
        chained,
        chained.index_of(id),
        BlockView { parent_id: Some(parent_id), ..chained.block(id) },
    );
    assert(w.blocks == chained.with_parent(id, Some(parent_id)).blocks);
    assert(w.ids() == v.ids());
    lemma_index(w, pi);
    lemma_index(w, ci);
    assert forall|x: Seq<char>| v.contains(x) && x != id && x != parent_id implies #[trigger] w.block(
        x,
    ) == v.block(x) by {
        lemma_contains(v, x);
        lemma_index(v, v.index_of(x));
    }
}

/// A graph stays well-shaped where every block keeps its opcode and the
/// names of its inputs and fields, whatever the order of the reasoning.
pub proof fn lemma_shaped_by_blocks(a: RuntimeView, b: RuntimeView)
    requires
        well_shaped(a),
        a.ids().no_duplicates(),
        a.specs == b.specs,
        a.ids() == b.ids(),
        forall|x: Seq<char>|
            a.contains(x) ==> (#[trigger] b.block(x)).opcode == a.block(x).opcode && names(
                b.block(x).inputs,
            ) == names(a.block(x).inputs) && names(b.block(x).fields) == names(a.block(x).fields),
    ensures
        well_shaped(b),
{
    assert(a.blocks.len() == b.blocks.len()) by {
        assert(a.ids().len() == b.ids().len());
    }
    assert forall|j: int| 0 <= j < a.blocks.len() implies (#[trigger] b.blocks[j]).1.opcode
        == a.blocks[j].1.opcode && names(b.blocks[j].1.inputs) == names(a.blocks[j].1.inputs)
        && names(b.blocks[j].1.fields) == names(a.blocks[j].1.fields) by {
        lemma_index(a, j);
        assert(b.ids()[j] == a.ids()[j]);
        lemma_index(b, j);
    }
    lemma_shaped_kept(a, b);
}


/// The state after the copy of block `id` itself was made, placed and
/// given the fields of the source, before anything that the source
/// holds is copied.
pub open spec fn prepared(u: RuntimeView, id: Seq<char>, is_root: bool) -> Step<()> {
    let source = u.block(id);
    let copy = u.fresh_id()->0;
    let at = u.own_xy(id, u.blocks.len())->Ok_0;
    let made = u.create_single_block(source.opcode);
    let placed = if is_root {
        made.slide_to(copy, at.0, at.1)
    } else {
        (made, Ok(()))
    };
    if placed.1 is Err {
        placed
    } else {
        (placed.0.copy_fields(copy, source.fields, 0), Ok(()))
    }
}

/// The copy of a block, before anything that the source holds is copied,
/// is a new top-level block without a parent that holds nothing; it has the
/// opcode, the fields and the names of the inputs of the source. No other
/// block is changed.
pub proof fn lemma_prepared(u: RuntimeView, id: Seq<char>, is_root: bool)
    requires
        u.linked(),
        well_shaped(u),
        u.contains(id),
        u.has_spec(u.block(id).opcode),
        u.fresh_id() is Some,
    ensures
        ({
            let copy = u.fresh_id()->0;
            let source = u.block(id);
            let made = u.create_single_block(source.opcode);
            let t = prepared(u, id, is_root).0;
            &&& !u.contains(copy)
            &&& made.contains(copy)
            &&& within(u, made)
            &&& t.ids() == made.ids()
            &&& t.linked()
            &&& well_shaped(t)
            &&& t.specs == u.specs
            &&& extends(u, t)
            &&& t.contains(copy)
            &&& t.block(copy).parent_id is None
            &&& t.block(copy).next_id is None
            &&& t.block(copy).opcode == source.opcode
            &&& all_empty(t.block(copy).inputs)
            &&& names(t.block(copy).inputs) == names(source.inputs)
            &&& names(source.inputs).no_duplicates()
            &&& prepared(u, id, is_root).1 is Ok ==> t.block(copy).fields == source.fields
        }),
{
    let source = u.block(id);
    let op = source.opcode;
    let copy = u.fresh_id()->0;
    let at = u.own_xy(id, u.blocks.len())->Ok_0;
    let made = u.create_single_block(op);
    let fresh = new_block(u.spec_of(op), op);
    lemma_fresh_id(u);
    lemma_create_single_block(u, op);
    lemma_new_block(u.spec_of(op), op);
    lemma_new_block_distinct(u.spec_of(op), op);
    lemma_contains(u, id);
    let ii = u.index_of(id);
    lemma_index(u, ii);
    assert(shaped_block(u, u.blocks[ii].1));
    let n = u.blocks.len() as int;
    assert(made.specs == u.specs);
    lemma_index(made, n);
    assert(made.index_of(copy) == n);
    assert(well_shaped(made)) by {
        assert forall|i: int| 0 <= i < made.blocks.len() implies shaped_block(
            made,
            (#[trigger] made.blocks[i]).1,
        ) by {
            if i < n {
                assert(shaped_block(u, u.blocks[i].1));
                let o = u.blocks[i].1.opcode;
                assert(made.has_spec(o) == u.has_spec(o));
                assert(made.spec_of(o) == u.spec_of(o));
            } else {
                assert(made.spec_of(op) == u.spec_of(op));
            }
        }
    }
    assert(all_empty(fresh.inputs)) by {
        assert forall|k: int| 0 <= k < fresh.inputs.len() implies (#[trigger] fresh.inputs[k]).1
            == empty_input() by {
            assert(at_place(fresh, Place::Real(k)) is None);
            assert(at_place(fresh, Place::Shadow(k)) is None);
            assert(fresh.inputs[k].1 =~= empty_input());
        }
    }
    // the copy is placed
    let placed = if is_root {
        made.slide_to(copy, at.0, at.1)
    } else {
        (made, Ok(()))
    };
    lemma_slide_to_links(made, copy, at.0, at.1);
    assert(made.same_links(placed.0));
    lemma_same_links(made, placed.0);
    lemma_same_ids(made, placed.0);
    assert(placed.0.specs == made.specs && forall|j: int|
        0 <= j < made.blocks.len() ==> #[trigger] placed.0.blocks[j] == (if j == n {
            (copy, BlockView { x: placed.0.blocks[n].1.x, y: placed.0.blocks[n].1.y, ..fresh })
        } else {
            made.blocks[j]
        })) by {
        if is_root {
            match (sum(at.0 as int, -(fresh.x as int)), sum(at.1 as int, -(fresh.y as int))) {
                (Ok(dx), Ok(dy)) => {
                    match (sum(fresh.x as int, dx as int), sum(fresh.y as int, dy as int)) {
                        (Ok(nx), Ok(ny)) => {
                            lemma_with_block(made, n, BlockView { x: nx, y: ny, ..fresh });
                            let moved = made.with_xy(copy, nx, ny).sync(
                                HostCallView::SlideBlock { id: copy, x: nx, y: ny },
                            );
                            if made.blocks.len() > 0 {
                                lemma_slide_inputs_empty(
                                    moved,
                                    fresh.inputs,
                                    0,
                                    dx,
                                    dy,
                                    (made.blocks.len() - 1) as nat,
                                );
                            }
                        },
                        _ => {},
                    }
                },
                _ => {},
            }
        }
    }
    lemma_index(placed.0, n);
    let pb = placed.0.block(copy);
    assert(pb == BlockView { x: pb.x, y: pb.y, ..fresh });
    assert(well_shaped(placed.0)) by {
        assert forall|j: int| 0 <= j < made.blocks.len() implies (
        #[trigger] placed.0.blocks[j]).1.opcode == made.blocks[j].1.opcode && names(
            placed.0.blocks[j].1.inputs,
        ) == names(made.blocks[j].1.inputs) && names(placed.0.blocks[j].1.fields) == names(
            made.blocks[j].1.fields,
        ) by {}
        lemma_shaped_kept(made, placed.0);
    }
    assert(extends(u, placed.0)) by {
        assert forall|x: Seq<char>| #[trigger] u.contains(x) implies placed.0.contains(x)
            && placed.0.block(x) == u.block(x) by {
            lemma_contains(u, x);
            let xi = u.index_of(x);
            lemma_index(u, xi);
            lemma_index(placed.0, xi);
        }
    }
    if placed.1 is Ok {
        let filled = placed.0.copy_fields(copy, source.fields, 0);
        lemma_copy_fields(placed.0, copy, source.fields, 0);
        assert(fields_after(pb.fields, source.fields, 0) =~= source.fields) by {
            assert(names(pb.fields).len() == names(source.fields).len());
        }
        assert(placed.0.same_links(filled)) by {
            assert forall|j: int| 0 <= j < placed.0.blocks.len() implies (
            #[trigger] filled.blocks[j]).0 == placed.0.blocks[j].0 && filled.blocks[j].1.parent_id
                == placed.0.blocks[j].1.parent_id && filled.blocks[j].1.next_id
                == placed.0.blocks[j].1.next_id && filled.blocks[j].1.inputs
                == placed.0.blocks[j].1.inputs by {
                assert(filled.ids()[j] == placed.0.ids()[j]);
                if j == n {
                    lemma_index(filled, n);
                }
            }
        }
        lemma_same_links(placed.0, filled);
        lemma_index(filled, n);
        assert(well_shaped(filled)) by {
            assert forall|j: int| 0 <= j < placed.0.blocks.len() implies (
            #[trigger] filled.blocks[j]).1.opcode == placed.0.blocks[j].1.opcode && names(
                filled.blocks[j].1.inputs,
            ) == names(placed.0.blocks[j].1.inputs) && names(filled.blocks[j].1.fields) == names(
                placed.0.blocks[j].1.fields,
            ) by {
                if j == n {
                    assert(names(source.fields) == names(fresh.fields));
                }
            }
            lemma_shaped_kept(placed.0, filled);
        }
        assert(extends(u, filled)) by {
            assert forall|x: Seq<char>| #[trigger] u.contains(x) implies filled.contains(x)
                && filled.block(x) == u.block(x) by {
                lemma_contains(u, x);
                let xi = u.index_of(x);
                lemma_index(u, xi);
                lemma_index(placed.0, xi);
                assert(filled.blocks[xi] == placed.0.blocks[xi]);
                lemma_index(filled, xi);
            }
        }
    }
}


/// Whether every block that `inputs` hold is a block of `o`.
pub open spec fn held_in(inputs: Seq<(Seq<char>, InputView)>, o: RuntimeView) -> bool {
    forall|k: int|
        0 <= k < inputs.len() ==> ((#[trigger] inputs[k]).1.block_id is Some ==> o.contains(
            inputs[k].1.block_id->0,
        )) && (inputs[k].1.shadow_id is Some ==> o.contains(inputs[k].1.shadow_id->0))
}

/// Whether `w` has every block of `u` unchanged, but for block `copy`.
pub open spec fn spares(u: RuntimeView, w: RuntimeView, copy: Seq<char>) -> bool {
    forall|x: Seq<char>| #[trigger]
        u.contains(x) && x != copy ==> w.contains(x) && w.block(x) == u.block(x)
}

/// Where all blocks but one stay unchanged, and that one is in the base,
/// the blocks outside the base keep their content.
pub proof fn lemma_spares_keeps(u: RuntimeView, w: RuntimeView, copy: Seq<char>, base: RuntimeView)
    requires
        spares(u, w, copy),
        base.contains(copy),
    ensures
        keeps(u, w, base),
{
}

/// The state after a copy of block `c` was made and bound into one half
/// of the input `name` of block `copy`.
pub open spec fn child_stamped(
    u: RuntimeView,
    copy: Seq<char>,
    c: Seq<char>,
    name: Seq<char>,
    is_shadow: bool,
    depth: nat,
) -> Step<()> {
    let sub = u.stamp(c, false, depth);
    match sub.1 {
        Ok(s) => (sub.0.attach_input(s, copy, name, is_shadow), Ok(())),
        Err(e) => (sub.0, Err(e)),
    }
}

/// A copy of a block is like the block, and making it changes no block
/// that was there. The graph stays linked and well-shaped, also where the
/// copying fails half-way.
#[verifier::rlimit(100)]
pub proof fn lemma_stamp(u: RuntimeView, id: Seq<char>, is_root: bool, depth: nat)
    requires
        u.linked(),
        well_shaped(u),
    ensures
        ({
            let r = u.stamp(id, is_root, depth);
            &&& r.0.linked()
            &&& well_shaped(r.0)
            &&& r.0.specs == u.specs
            &&& extends(u, r.0)
            &&& r.1 is Ok ==> {
                &&& !u.contains(r.1->Ok_0)
                &&& r.0.contains(r.1->Ok_0)
                &&& r.0.block(r.1->Ok_0).parent_id is None
                &&& alike(u, id, r.0, r.1->Ok_0, depth, u)
            }
        }),
    decreases depth, 0nat, 0nat,
{
    let source = u.block(id);
    if u.contains(id) && u.has_spec(source.opcode) && u.own_xy(id, u.blocks.len()) is Ok
        && u.fresh_id() is Some {
        let copy = u.fresh_id()->0;
        let made = u.create_single_block(source.opcode);
        let ready = prepared(u, id, is_root);
        lemma_prepared(u, id, is_root);
        lemma_linked_closed(u);
        if ready.1 is Ok {
            let filled = ready.0;
            assert(within(made, filled)) by {
                assert forall|x: Seq<char>| #[trigger] made.contains(x) implies filled.contains(
                    x,
                ) by {}
            }
            if depth == 0 {
                assert(u.stamp(id, is_root, depth) == (filled, Ok::<Seq<char>, ViiruError>(copy)));
            } else {
                let d = (depth - 1) as nat;
                // the block after the source
                let chained: Step<()> = match source.next_id {
                    Some(n) => {
                        let sub = filled.stamp(n, false, d);
                        match sub.1 {
                            Ok(c) => (sub.0.attach_next(c, copy), Ok(())),
                            Err(e) => (sub.0, Err(e)),
                        }
                    },
                    None => (filled, Ok(())),
                };
                let t = chained.0;
                if source.next_id is Some {
                    let n = source.next_id->0;
                    lemma_stamp(filled, n, false, d);
                    let sub = filled.stamp(n, false, d);
                    assert(sub.0.contains(copy) && sub.0.block(copy) == filled.block(copy));
                    if sub.1 is Ok {
                        let c = sub.1->Ok_0;
                        lemma_attach_next(sub.0, c, copy);
                        lemma_attach_next_effect(sub.0, c, copy);
                        assert(spares(filled, t, copy));
                        assert(keeps(sub.0, t, filled)) by {
                            assert forall|x: Seq<char>| #[trigger]
                                sub.0.contains(x) && !filled.contains(x) implies t.contains(x)
                                && same_content(t.block(x), sub.0.block(x)) by {
                                if x != c {
                                    assert(t.block(x) == sub.0.block(x));
                                }
                            }
                        }
                        lemma_alike_kept(filled, n, sub.0, t, c, d, filled);
                        assert(at_place(source, Place::Next) is Some);
                        lemma_alike_moved(filled, filled, u, made, n, t, c, d);
                        lemma_shaped_by_blocks(sub.0, t);
                    } else {
                        assert(t == sub.0);
                        assert(spares(filled, t, copy));
                    }
                } else {
                    assert(spares(filled, t, copy));
                }
                assert(t.linked() && well_shaped(t) && t.specs == u.specs);
                assert(extends(u, t)) by {
                    assert forall|x: Seq<char>| #[trigger] u.contains(x) implies t.contains(x)
                        && t.block(x) == u.block(x) by {
                        assert(filled.contains(x) && filled.block(x) == u.block(x));
                    }
                }
                if chained.1 is Ok {
                    assert(t.contains(copy));
                    assert(t.block(copy) == BlockView {
                        next_id: t.block(copy).next_id,
                        ..filled.block(copy)
                    });
                    assert(side_alike(u, source.next_id, t, t.block(copy).next_id, d, made));
                    assert(within(made, t)) by {
                        assert forall|x: Seq<char>| #[trigger] made.contains(x) implies t.contains(
                            x,
                        ) by {
                            assert(filled.contains(x));
                            if x != copy {
                                assert(filled.contains(x) && x != copy);
                            }
                        }
                    }
                    assert(held_in(source.inputs, u)) by {
                        assert forall|k: int| 0 <= k < source.inputs.len() implies ((
                        #[trigger] source.inputs[k]).1.block_id is Some ==> u.contains(
                            source.inputs[k].1.block_id->0,
                        )) && (source.inputs[k].1.shadow_id is Some ==> u.contains(
                            source.inputs[k].1.shadow_id->0,
                        )) by {
                            if source.inputs[k].1.block_id is Some {
                                assert(at_place(source, Place::Real(k)) is Some);
                            }
                            if source.inputs[k].1.shadow_id is Some {
                                assert(at_place(source, Place::Shadow(k)) is Some);
                            }
                        }
                    }
                    assert forall|k: int| 0 <= k < source.inputs.len() implies (
                    #[trigger] t.block(copy).inputs[k]).1 == empty_input() by {
                        assert(names(t.block(copy).inputs).len() == names(source.inputs).len());
                    }
                    lemma_stamp_inputs(t, copy, source.inputs, 0, d, u, made);
                    let done = t.stamp_inputs(copy, source.inputs, 0, d);
                    let w = done.0;
                    assert(u.stamp(id, is_root, depth).0 == w);
                    assert(extends(u, w)) by {
                        assert forall|x: Seq<char>| #[trigger] u.contains(x) implies w.contains(x)
                            && w.block(x) == u.block(x) by {
                            assert(t.contains(x) && t.block(x) == u.block(x));
                            assert(t.contains(x) && x != copy);
                        }
                    }
                    if done.1 is Ok {
                        lemma_spares_keeps(t, w, copy, made);
                        lemma_side_kept(
                            u,
                            source.next_id,
                            t,
                            w,
                            t.block(copy).next_id,
                            d,
                            made,
                        );
                        assert(within(u, made));
                        lemma_side_moved(
                            u,
                            made,
                            u,
                            u,
                            source.next_id,
                            w,
                            w.block(copy).next_id,
                            d,
                        );
                        lemma_inputs_moved(u, made, u, u, id, w, w.block(copy).inputs, 0, d);
                        assert(w.block(copy).inputs.len() == source.inputs.len()) by {
                            assert(names(w.block(copy).inputs).len() == names(
                                source.inputs,
                            ).len());
                        }
                        assert(u.stamp(id, is_root, depth).1 == Ok::<Seq<char>, ViiruError>(copy));
                    }
                } else {
                    assert(u.stamp(id, is_root, depth).0 == t);
                }
            }
        } else {
            assert(u.stamp(id, is_root, depth).0 == ready.0);
        }
    }
}

/// Copying a block into an input keeps the graph linked and
/// well-shaped and changes no block that was there but the one that takes
/// the copy; the copy is like the source.
pub proof fn lemma_stamp_child(
    u: RuntimeView,
    copy: Seq<char>,
    c: Seq<char>,
    k: int,
    is_shadow: bool,
    depth: nat,
    o: RuntimeView,
    made: RuntimeView,
)
    requires
        u.linked(),
        well_shaped(u),
        u.contains(copy),
        u.block(copy).parent_id is None,
        0 <= k < u.block(copy).inputs.len(),
        names(u.block(copy).inputs).no_duplicates(),
        u.block(copy).inputs[k].1.side(is_shadow) is None,
        closed(o),
        extends(o, u),
        o.contains(c),
        within(made, u),
        made.contains(copy),
    ensures
        ({
            let name = u.block(copy).inputs[k].0;
            let r = child_stamped(u, copy, c, name, is_shadow, depth);
            let t = r.0;
            &&& t.linked()
            &&& well_shaped(t)
            &&& t.specs == u.specs
            &&& spares(u, t, copy)
            &&& t.contains(copy)
            &&& r.1 is Err ==> t.block(copy) == u.block(copy)
            &&& r.1 is Ok ==> {
                let s = u.stamp(c, false, depth).1->Ok_0;
                &&& u.stamp(c, false, depth).1 is Ok
                &&& t.block(copy) == u.block(copy).with_input(
                    k,
                    u.block(copy).inputs[k].1.with_side(is_shadow, Some(s)),
                )
                &&& alike(o, c, t, s, depth, made)
            }
        }),
    decreases depth, 1nat, 0nat,
{
    let name = u.block(copy).inputs[k].0;
    let sub = u.stamp(c, false, depth);
    lemma_stamp(u, c, false, depth);
    let v = sub.0;
    assert(v.contains(copy) && v.block(copy) == u.block(copy));
    assert(spares(u, v, copy));
    if sub.1 is Ok {
        let s = sub.1->Ok_0;
        let t = v.attach_input(s, copy, name, is_shadow);
        let cb = u.block(copy);
        assert(cb.input_names() =~= names(cb.inputs));
        lemma_find(cb.input_names(), name);
        assert(cb.input_index(name) == k) by {
            let f = cb.input_index(name);
            assert(cb.input_names()[k] == name);
            if f != k {
                assert(names(cb.inputs)[f] == names(cb.inputs)[k]);
            }
        }
        assert(v.can_attach_input(s, copy, name));
        assert(v.displaced_by(copy, name, is_shadow) is None);
        lemma_attach_input(v, s, copy, name, is_shadow);
        lemma_attach_input_effect(v, s, copy, name, is_shadow);
        assert(spares(u, t, copy)) by {
            assert forall|x: Seq<char>| #[trigger] u.contains(x) && x != copy implies t.contains(
                x,
            ) && t.block(x) == u.block(x) by {
                assert(v.contains(x) && v.block(x) == u.block(x));
            }
        }
        assert(keeps(v, t, u)) by {
            assert forall|x: Seq<char>| #[trigger] v.contains(x) && !u.contains(x) implies t.contains(
                x,
            ) && same_content(t.block(x), v.block(x)) by {
                if x != s {
                    assert(t.block(x) == v.block(x));
                }
            }
        }
        lemma_alike_kept(u, c, v, t, s, depth, u);
        lemma_alike_moved(u, u, o, made, c, t, s, depth);
        let changed = cb.with_input(k, cb.inputs[k].1.with_side(is_shadow, Some(s)));
        assert(names(changed.inputs) =~= names(cb.inputs));
        lemma_shaped_by_blocks(v, t);
    }
}

/// Copying what the inputs from index `from` on hold into the inputs of
/// the same names of the copy keeps the graph linked and well-shaped and
/// changes no block that was there but the copy, whose inputs take the
/// copies; each copy is like its source.
#[verifier::rlimit(100)]
pub proof fn lemma_stamp_inputs(
    u: RuntimeView,
    copy: Seq<char>,
    inputs: Seq<(Seq<char>, InputView)>,
    from: int,
    depth: nat,
    o: RuntimeView,
    made: RuntimeView,
)
    requires
        u.linked(),
        well_shaped(u),
        0 <= from <= inputs.len(),
        u.contains(copy),
        u.block(copy).parent_id is None,
        names(u.block(copy).inputs) == names(inputs),
        names(inputs).no_duplicates(),
        forall|k: int|
            from <= k < inputs.len() ==> (#[trigger] u.block(copy).inputs[k]).1 == empty_input(),
        closed(o),
        extends(o, u),
        !o.contains(copy),
        held_in(inputs, o),
        within(made, u),
        made.contains(copy),
    ensures
        ({
            let r = u.stamp_inputs(copy, inputs, from, depth);
            let w = r.0;
            &&& w.linked()
            &&& well_shaped(w)
            &&& w.specs == u.specs
            &&& spares(u, w, copy)
            &&& w.contains(copy)
            &&& w.block(copy) == (BlockView { inputs: w.block(copy).inputs, ..u.block(copy) })
            &&& names(w.block(copy).inputs) == names(inputs)
            &&& forall|k: int|
                0 <= k < from ==> #[trigger] w.block(copy).inputs[k] == u.block(copy).inputs[k]
            &&& r.1 is Ok ==> inputs_alike(o, inputs, w, w.block(copy).inputs, from, depth, made)
        }),
    decreases depth, 2nat, inputs.len() - from,
{
    let cb = u.block(copy);
    assert(cb.inputs.len() == inputs.len()) by {
        assert(names(cb.inputs).len() == names(inputs).len());
    }
    if from < inputs.len() {
        let name = inputs[from].0;
        let input = inputs[from].1;
        assert(cb.inputs[from].0 == name) by {
            assert(names(cb.inputs)[from] == names(inputs)[from]);
        }
        assert(cb.inputs[from].1 == empty_input());
        assert(inputs[from].1.block_id is Some ==> o.contains(inputs[from].1.block_id->0));
        assert(inputs[from].1.shadow_id is Some ==> o.contains(inputs[from].1.shadow_id->0));
        // the shadow
        let first: Step<()> = match input.shadow_id {
            Some(c) => child_stamped(u, copy, c, name, true, depth),
            None => (u, Ok(())),
        };
        if input.shadow_id is Some {
            lemma_stamp_child(u, copy, input.shadow_id->0, from, true, depth, o, made);
        }
        let t1 = first.0;
        assert(spares(u, t1, copy));
        if first.1 is Ok {
            let b1 = t1.block(copy);
            assert(names(b1.inputs) =~= names(inputs));
            assert(b1.inputs[from].1.block_id is None);
            assert(b1.parent_id is None);
            assert(extends(o, t1)) by {
                assert forall|x: Seq<char>| #[trigger] o.contains(x) implies t1.contains(x)
                    && t1.block(x) == o.block(x) by {
                    assert(u.contains(x) && u.block(x) == o.block(x));
                    assert(u.contains(x) && x != copy) by {
                        if x == copy {
                            assert(o.contains(copy));
                        }
                    }
                }
            }
            assert(within(made, t1)) by {
                assert forall|x: Seq<char>| #[trigger] made.contains(x) implies t1.contains(
                    x,
                ) by {
                    assert(u.contains(x));
                    if x != copy {
                        assert(u.contains(x) && x != copy);
                    }
                }
            }
            // the real block
            let second: Step<()> = match input.block_id {
                Some(c) => child_stamped(t1, copy, c, name, false, depth),
                None => first,
            };
            if input.block_id is Some {
                lemma_stamp_child(t1, copy, input.block_id->0, from, false, depth, o, made);
            }
            let t2 = second.0;
            assert(spares(t1, t2, copy));
            assert(spares(u, t2, copy)) by {
                assert forall|x: Seq<char>| #[trigger] u.contains(x) && x != copy implies t2.contains(
                    x,
                ) && t2.block(x) == u.block(x) by {
                    assert(t1.contains(x) && x != copy);
                }
            }
            if second.1 is Ok {
                let b2 = t2.block(copy);
                assert(names(b2.inputs) =~= names(inputs));
                assert(b2.parent_id is None);
                assert forall|k: int| from + 1 <= k < inputs.len() implies (
                #[trigger] b2.inputs[k]).1 == empty_input() by {
                    assert(cb.inputs[k].1 == empty_input());
                }
                assert(extends(o, t2)) by {
                    assert forall|x: Seq<char>| #[trigger] o.contains(x) implies t2.contains(x)
                        && t2.block(x) == o.block(x) by {
                        assert(t1.contains(x) && t1.block(x) == o.block(x));
                        assert(t1.contains(x) && x != copy) by {
                            if x == copy {
                                assert(o.contains(copy));
                            }
                        }
                    }
                }
                assert(within(made, t2)) by {
                    assert forall|x: Seq<char>| #[trigger] made.contains(x) implies t2.contains(
                        x,
                    ) by {
                        assert(t1.contains(x));
                        if x != copy {
                            assert(t1.contains(x) && x != copy);
                        }
                    }
                }
                lemma_stamp_inputs(t2, copy, inputs, from + 1, depth, o, made);
                let rest = t2.stamp_inputs(copy, inputs, from + 1, depth);
                let w = rest.0;
                assert(u.stamp_inputs(copy, inputs, from, depth) == rest);
                assert(spares(u, w, copy)) by {
                    assert forall|x: Seq<char>| #[trigger] u.contains(x) && x != copy implies w.contains(
                        x,
                    ) && w.block(x) == u.block(x) by {
                        assert(t2.contains(x) && x != copy);
                    }
                }
                assert forall|k: int| 0 <= k < from implies #[trigger] w.block(copy).inputs[k]
                    == cb.inputs[k] by {
                    assert(w.block(copy).inputs[k] == b2.inputs[k]);
                }
                if rest.1 is Ok {
                    let ys = w.block(copy).inputs;
                    assert(ys[from] == b2.inputs[from]);
                    lemma_spares_keeps(t2, w, copy, made);
                    lemma_spares_keeps(t1, t2, copy, made);
                    if input.shadow_id is Some {
                        let s1 = u.stamp(input.shadow_id->0, false, depth).1->Ok_0;
                        lemma_alike_kept(o, input.shadow_id->0, t1, t2, s1, depth, made);
                        lemma_alike_kept(o, input.shadow_id->0, t2, w, s1, depth, made);
                        assert(ys[from].1.shadow_id == Some(s1));
                    } else {
                        assert(ys[from].1.shadow_id is None);
                    }
                    if input.block_id is Some {
                        let s2 = t1.stamp(input.block_id->0, false, depth).1->Ok_0;
                        lemma_alike_kept(o, input.block_id->0, t2, w, s2, depth, made);
                        assert(ys[from].1.block_id == Some(s2));
                    } else {
                        assert(ys[from].1.block_id is None);
                    }
                    assert(ys[from].0 == inputs[from].0);
                    assert(side_alike(o, input.block_id, w, ys[from].1.block_id, depth, made));
                    assert(side_alike(o, input.shadow_id, w, ys[from].1.shadow_id, depth, made));
                }
            } else {
                assert(u.stamp_inputs(copy, inputs, from, depth) == second);
                assert(names(t2.block(copy).inputs) =~= names(inputs));
            }
        } else {
            assert(u.stamp_inputs(copy, inputs, from, depth) == first);
        }
    }
}

} // verus!
