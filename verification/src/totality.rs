//! A block made from a template lacks nothing that the template names: it
//! has an input for every slot and a field for every field of every line.

use vstd::prelude::*;
use crate::block::{BlockView, FieldView, InputView};
use crate::graph::{lemma_create_single_block, lemma_index};
use crate::runtime::{
    RuntimeView, add_field, add_slot, default_field, default_opcode, default_text,
    defaults_of_lines, fields_of_line, fields_of_lines, names, new_block, slots_of_line,
    slots_of_lines,
};
use crate::soundness::{
    lemma_attach_input_shapes, lemma_default_sound, lemma_set_field_shapes, same_shape,
    same_shapes, sound_graph,
};
use crate::spec::{DefaultValueView, FragmentView, SpecView};
use crate::table::{lemma_find, occurs};

verus! {

/// A name that stands in a list occurs in it.
pub proof fn lemma_occurs(keys: Seq<Seq<char>>, i: int)
    requires
        0 <= i < keys.len(),
    ensures
        occurs(keys, keys[i]),
{
    lemma_find(keys, keys[i]);
}

/// Whether every name of `a` is a name of `b`.
pub open spec fn covers<V>(b: Seq<(Seq<char>, V)>, a: Seq<(Seq<char>, V)>) -> bool {
    forall|n: Seq<char>| occurs(names(a), n) ==> #[trigger] occurs(names(b), n)
}

pub proof fn lemma_add_slot(acc: Seq<(Seq<char>, InputView)>, frag: FragmentView)
    ensures
        covers(add_slot(acc, frag), acc),
        frag.slot_name() is Some ==> occurs(names(add_slot(acc, frag)), frag.slot_name()->0),
{
    let r = add_slot(acc, frag);
    if frag.slot_name() is Some && !occurs(names(acc), frag.slot_name()->0) {
        let n = frag.slot_name()->0;
        assert(names(r)[acc.len() as int] == n);
        lemma_occurs(names(r), acc.len() as int);
        assert forall|m: Seq<char>| occurs(names(acc), m) implies #[trigger] occurs(
            names(r),
            m,
        ) by {
            lemma_find(names(acc), m);
            let i = crate::table::find(names(acc), m);
            assert(names(r)[i] == m);
            lemma_occurs(names(r), i);
        }
    }
}

pub proof fn lemma_add_field(acc: Seq<(Seq<char>, FieldView)>, frag: FragmentView)
    ensures
        covers(add_field(acc, frag), acc),
        frag.field_name() is Some ==> occurs(names(add_field(acc, frag)), frag.field_name()->0),
{
    let r = add_field(acc, frag);
    if frag.field_name() is Some && !occurs(names(acc), frag.field_name()->0) {
        let n = frag.field_name()->0;
        assert(names(r)[acc.len() as int] == n);
        lemma_occurs(names(r), acc.len() as int);
        assert forall|m: Seq<char>| occurs(names(acc), m) implies #[trigger] occurs(
            names(r),
            m,
        ) by {
            lemma_find(names(acc), m);
            let i = crate::table::find(names(acc), m);
            assert(names(r)[i] == m);
            lemma_occurs(names(r), i);
        }
    }
}

pub proof fn lemma_slots_of_line(
    line: Seq<FragmentView>,
    from: int,
    acc: Seq<(Seq<char>, InputView)>,
)
    requires
        0 <= from,
    ensures
        covers(slots_of_line(line, from, acc), acc),
        forall|k: int|
            from <= k < line.len() && (#[trigger] line[k]).slot_name() is Some ==> occurs(
                names(slots_of_line(line, from, acc)),
                line[k].slot_name()->0,
            ),
    decreases line.len() - from,
{
    if from < line.len() {
        lemma_add_slot(acc, line[from]);
        lemma_slots_of_line(line, from + 1, add_slot(acc, line[from]));
    }
}

pub proof fn lemma_fields_of_line(
    line: Seq<FragmentView>,
    from: int,
    acc: Seq<(Seq<char>, FieldView)>,
)
    requires
        0 <= from,
    ensures
        covers(fields_of_line(line, from, acc), acc),
        forall|k: int|
            from <= k < line.len() && (#[trigger] line[k]).field_name() is Some ==> occurs(
                names(fields_of_line(line, from, acc)),
                line[k].field_name()->0,
            ),
    decreases line.len() - from,
{
    if from < line.len() {
        lemma_add_field(acc, line[from]);
        lemma_fields_of_line(line, from + 1, add_field(acc, line[from]));
    }
}

pub proof fn lemma_slots_of_lines(
    lines: Seq<Seq<FragmentView>>,
    from: int,
    acc: Seq<(Seq<char>, InputView)>,
)
    requires
        0 <= from,
    ensures
        covers(slots_of_lines(lines, from, acc), acc),
        forall|l: int, k: int|
            from <= l < lines.len() && 0 <= k < lines[l].len() && (#[trigger] lines[l][k]).slot_name() is Some
                ==> occurs(names(slots_of_lines(lines, from, acc)), lines[l][k].slot_name()->0),
    decreases lines.len() - from,
{
    if from < lines.len() {
        let one = slots_of_line(lines[from], 0, acc);
        lemma_slots_of_line(lines[from], 0, acc);
        lemma_slots_of_lines(lines, from + 1, one);
    }
}

pub proof fn lemma_fields_of_lines(
    lines: Seq<Seq<FragmentView>>,
    from: int,
    acc: Seq<(Seq<char>, FieldView)>,
)
    requires
        0 <= from,
    ensures
        covers(fields_of_lines(lines, from, acc), acc),
        forall|l: int, k: int|
            from <= l < lines.len() && 0 <= k < lines[l].len() && (#[trigger] lines[l][k]).field_name() is Some
                ==> occurs(names(fields_of_lines(lines, from, acc)), lines[l][k].field_name()->0),
    decreases lines.len() - from,
{
    if from < lines.len() {
        let one = fields_of_line(lines[from], 0, acc);
        lemma_fields_of_line(lines[from], 0, acc);
        lemma_fields_of_lines(lines, from + 1, one);
    }
}

/// Whether the block has an input for every slot and a field for every field
/// that the template names.
pub open spec fn total(b: BlockView, spec: SpecView) -> bool {
    forall|l: int, k: int|
        0 <= l < spec.lines.len() && 0 <= k < spec.lines[l].len() ==> match (
            #[trigger] spec.lines[l][k]
        ).slot_name() {
            Some(n) => b.has_input(n),
            None => true,
        } && match spec.lines[l][k].field_name() {
            Some(f) => b.has_field(f),
            None => true,
        }
}

/// A block of the shape of a total block is total.
pub proof fn lemma_total_shape(a: BlockView, b: BlockView, spec: SpecView)
    requires
        total(a, spec),
        same_shape(b, a),
    ensures
        total(b, spec),
{
    assert(b.input_names() =~= names(b.inputs));
    assert(a.input_names() =~= names(a.inputs));
    assert(b.field_names() =~= names(b.fields));
    assert(a.field_names() =~= names(a.fields));
    assert forall|l: int, k: int|
        0 <= l < spec.lines.len() && 0 <= k < spec.lines[l].len() implies match (
            #[trigger] spec.lines[l][k]
        ).slot_name() {
            Some(n) => b.has_input(n),
            None => true,
        } && match spec.lines[l][k].field_name() {
            Some(f) => b.has_field(f),
            None => true,
        } by {
        let frag = spec.lines[l][k];
        if frag.slot_name() is Some {
            assert(a.has_input(frag.slot_name()->0));
        }
        if frag.field_name() is Some {
            assert(a.has_field(frag.field_name()->0));
        }
    }
}

/// A fresh block is total for its template.
pub proof fn lemma_new_block_total(spec: SpecView, opcode: Seq<char>)
    ensures
        total(new_block(spec, opcode), spec),
{
    let b = new_block(spec, opcode);
    lemma_slots_of_lines(spec.lines, 0, Seq::empty());
    lemma_fields_of_lines(spec.lines, 0, Seq::empty());
    assert(b.input_names() =~= names(b.inputs));
    assert(b.field_names() =~= names(b.fields));
    assert forall|l: int, k: int|
        0 <= l < spec.lines.len() && 0 <= k < spec.lines[l].len() implies match (
            #[trigger] spec.lines[l][k]
        ).slot_name() {
            Some(n) => b.has_input(n),
            None => true,
        } && match spec.lines[l][k].field_name() {
            Some(f) => b.has_field(f),
            None => true,
        } by {
        let frag = spec.lines[l][k];
        if frag.slot_name() is Some {
            assert(occurs(names(b.inputs), frag.slot_name()->0));
        }
        if frag.field_name() is Some {
            assert(occurs(names(b.fields), frag.field_name()->0));
        }
    }
}

/// Whether `b` holds the blocks of `a`, index by index, under the same ids
/// and in the same shapes, and maybe more after them.
pub open spec fn grows(a: RuntimeView, b: RuntimeView) -> bool {
    &&& a.specs == b.specs
    &&& a.blocks.len() <= b.blocks.len()
    &&& forall|j: int|
        0 <= j < a.blocks.len() ==> (#[trigger] b.blocks[j]).0 == a.blocks[j].0 && same_shape(
            b.blocks[j].1,
            a.blocks[j].1,
        )
}

pub proof fn lemma_grows_trans(a: RuntimeView, b: RuntimeView, c: RuntimeView)
    requires
        grows(a, b),
        grows(b, c),
    ensures
        grows(a, c),
{
    assert forall|j: int| 0 <= j < a.blocks.len() implies (#[trigger] c.blocks[j]).0
        == a.blocks[j].0 && same_shape(c.blocks[j].1, a.blocks[j].1) by {
        assert(b.blocks[j].0 == a.blocks[j].0);
    }
}

pub proof fn lemma_default_grows(
    v: RuntimeView,
    parent: Seq<char>,
    name: Seq<char>,
    d: DefaultValueView,
)
    requires
        sound_graph(v),
    ensures
        grows(v, v.instantiate_default(parent, name, d).0),
{
    let op = default_opcode(d);
    if v.has_spec(op) && v.fresh_id() is Some {
        let child = v.fresh_id()->0;
        let made = v.create_single_block(op);
        lemma_create_single_block(v, op);
        assert(grows(v, made));
        let filled = match default_field(d) {
            Some(f) => made.set_field(child, f, default_text(d), None),
            None => made,
        };
        if default_field(d) is Some {
            lemma_set_field_shapes(made, child, default_field(d)->0, default_text(d), None);
        }
        assert(same_shapes(made, filled));
        lemma_attach_input_shapes(filled, child, parent, name, true);
        let last = filled.attach_input(child, parent, name, true);
        assert(grows(made, filled));
        assert(grows(filled, last));
        lemma_grows_trans(made, filled, last);
        lemma_grows_trans(v, made, last);
    }
}

pub proof fn lemma_defaults_grow(
    v: RuntimeView,
    parent: Seq<char>,
    defaults: Seq<(Seq<char>, DefaultValueView)>,
    from: int,
    kids: Seq<Seq<char>>,
)
    requires
        sound_graph(v),
    ensures
        grows(v, v.instantiate_defaults(parent, defaults, from, kids).0),
    decreases defaults.len() - from,
{
    if 0 <= from < defaults.len() {
        let one = v.instantiate_default(parent, defaults[from].0, defaults[from].1);
        lemma_default_grows(v, parent, defaults[from].0, defaults[from].1);
        lemma_default_sound(v, parent, defaults[from].0, defaults[from].1);
        match one.1 {
            Ok(c) => {
                lemma_defaults_grow(one.0, parent, defaults, from + 1, kids.push(c));
                lemma_grows_trans(
                    v,
                    one.0,
                    one.0.instantiate_defaults(parent, defaults, from + 1, kids.push(c)).0,
                );
            },
            Err(_) => {},
        }
    }
}

/// The block that a template makes has the template's opcode, an input for
/// every slot and a field for every field that the template names.
pub proof fn lemma_template_total(v: RuntimeView, opcode: Seq<char>)
    requires
        sound_graph(v),
        v.create_block_template(opcode).1 is Ok,
    ensures
        ({
            let made = v.create_block_template(opcode);
            let id = made.1->Ok_0.0;
            &&& made.0.contains(id)
            &&& made.0.block(id).opcode == opcode
            &&& total(made.0.block(id), v.spec_of(opcode))
        }),
{
    let id = v.fresh_id()->0;
    let bare = v.create_single_block(opcode);
    lemma_create_single_block(v, opcode);
    crate::soundness::lemma_create_sound(v, opcode);
    let defaults = defaults_of_lines(v.spec_of(opcode).lines, 0, Seq::empty());
    let all = bare.instantiate_defaults(id, defaults, 0, Seq::empty());
    lemma_defaults_grow(bare, id, defaults, 0, Seq::empty());
    crate::soundness::lemma_defaults_sound(bare, id, defaults, 0, Seq::empty());
    let n = v.blocks.len() as int;
    assert(bare.blocks[n] == (id, new_block(v.spec_of(opcode), opcode)));
    assert(all.0.blocks[n].0 == id);
    lemma_index(all.0, n);
    lemma_new_block_total(v.spec_of(opcode), opcode);
    lemma_total_shape(new_block(v.spec_of(opcode), opcode), all.0.blocks[n].1, v.spec_of(opcode));
}

} // verus!
