//! What holds of every graph that the engine builds, and what the engine's
//! steps do to it: each block that has a parent is held by that parent at
//! exactly one place, and by no other block.

use vstd::prelude::*;
use crate::block::{BlockView, InputView};
use crate::bridge::HostCallView;
use crate::result::ViiruError;
use crate::result::sum;
use crate::runtime::{
    RuntimeView,
    add_slot,
    empty_input,
    children,
    first_free,
    id_text,
    input_children,
    last_free,
    names,
    new_block,
    slot_holding,
    slots_of_line,
    slots_of_lines,
};
use crate::spec::{FragmentView, SpecView};
use crate::table::{find, lemma_find, occurs};

verus! {

/// A place at which a block holds another: behind it, or in one half of the
/// input at an index.
pub enum Place {
    Next,
    Real(int),
    Shadow(int),
}

/// What the block holds at the place.
pub open spec fn at_place(b: BlockView, p: Place) -> Option<Seq<char>> {
    match p {
        Place::Next => b.next_id,
        Place::Real(k) => if 0 <= k < b.inputs.len() {
            b.inputs[k].1.block_id
        } else {
            None
        },
        Place::Shadow(k) => if 0 <= k < b.inputs.len() {
            b.inputs[k].1.shadow_id
        } else {
            None
        },
    }
}

/// Whether the block holds nothing at any place.
pub open spec fn holds_nothing(b: BlockView) -> bool {
    forall|p: Place| (#[trigger] at_place(b, p)) is None
}

impl RuntimeView {
    /// Whether the block at index `j` holds block `id` at place `p`.
    pub open spec fn refers(self, j: int, p: Place, id: Seq<char>) -> bool {
        0 <= j < self.blocks.len() && at_place(self.blocks[j].1, p) == Some(id)
    }

    /// Whether the graph holds `parent` and `parent` holds block `id`.
    pub open spec fn holds(self, parent: Seq<char>, id: Seq<char>) -> bool {
        self.contains(parent) && exists|p: Place| at_place(self.block(parent), p) == Some(id)
    }

    /// Whether no block holds block `id`.
    pub open spec fn unheld(self, id: Seq<char>) -> bool {
        forall|j: int, p: Place| !#[trigger] self.refers(j, p, id)
    }

    /// Whether the links of the graph agree: no id is used twice; what a block
    /// holds is a block of the graph whose parent is the holder; no block
    /// holds a block at two places; and a block with a parent is held by it.
    pub open spec fn linked(self) -> bool {
        &&& self.ids().no_duplicates()
        &&& forall|j: int, p: Place, id: Seq<char>| #[trigger]
            self.refers(j, p, id) ==> self.contains(id) && self.block(id).parent_id == Some(
                self.blocks[j].0,
            )
        &&& forall|j: int, p: Place, q: Place|
            0 <= j < self.blocks.len() && at_place(self.blocks[j].1, p) is Some
                && #[trigger] at_place(self.blocks[j].1, p) == #[trigger] at_place(
                self.blocks[j].1,
                q,
            ) ==> p == q
        &&& forall|i: int|
            0 <= i < self.blocks.len() && (#[trigger] self.blocks[i]).1.parent_id is Some
                ==> self.holds(self.blocks[i].1.parent_id->0, self.blocks[i].0)
    }

    /// Whether `other` has the same blocks under the same ids with the same
    /// links; positions, offsets and fields may differ.
    pub open spec fn same_links(self, other: RuntimeView) -> bool {
        &&& self.blocks.len() == other.blocks.len()
        &&& forall|j: int|
            0 <= j < self.blocks.len() ==> (#[trigger] other.blocks[j]).0 == self.blocks[j].0
                && other.blocks[j].1.parent_id == self.blocks[j].1.parent_id
                && other.blocks[j].1.next_id == self.blocks[j].1.next_id
                && other.blocks[j].1.inputs == self.blocks[j].1.inputs
    }
}

/// In a graph without repeated ids, the block at an index is found under its
/// id.
pub proof fn lemma_index(v: RuntimeView, i: int)
    requires
        v.ids().no_duplicates(),
        0 <= i < v.blocks.len(),
    ensures
        v.index_of(v.blocks[i].0) == i,
        v.contains(v.blocks[i].0),
        v.block(v.blocks[i].0) == v.blocks[i].1,
{
    lemma_find(v.ids(), v.blocks[i].0);
    let f = find(v.ids(), v.blocks[i].0);
    assert(v.ids()[i] == v.blocks[i].0);
    if f != i {
        assert(f < i);
        assert(v.ids()[f] == v.ids()[i]);
    }
}

/// A block that the graph holds is found at an index within it.
pub proof fn lemma_contains(v: RuntimeView, id: Seq<char>)
    requires
        v.contains(id),
    ensures
        0 <= v.index_of(id) < v.blocks.len(),
        v.blocks[v.index_of(id)].0 == id,
{
    lemma_find(v.ids(), id);
    assert(v.ids()[v.index_of(id)] == v.blocks[v.index_of(id)].0);
}

/// Graphs with the same ids find the same blocks.
pub proof fn lemma_same_ids(a: RuntimeView, b: RuntimeView)
    requires
        a.blocks.len() == b.blocks.len(),
        forall|j: int| 0 <= j < a.blocks.len() ==> (#[trigger] b.blocks[j]).0 == a.blocks[j].0,
    ensures
        a.ids() == b.ids(),
        forall|id: Seq<char>| a.index_of(id) == b.index_of(id),
        forall|id: Seq<char>| a.contains(id) == b.contains(id),
{
    assert(a.ids() =~= b.ids());
}

/// A block has a parent exactly if it is held at one place of one block, and
/// at no other place of any block.
pub proof fn lemma_parent_iff_held_once(v: RuntimeView, i: int)
    requires
        v.linked(),
        0 <= i < v.blocks.len(),
    ensures
        v.blocks[i].1.parent_id is Some <==> exists|j: int, p: Place|
            v.refers(j, p, v.blocks[i].0) && forall|k: int, q: Place| #[trigger]
                v.refers(k, q, v.blocks[i].0) ==> k == j && q == p,
{
    let id = v.blocks[i].0;
    lemma_index(v, i);
    if v.blocks[i].1.parent_id is Some {
        let parent = v.blocks[i].1.parent_id->0;
        assert(v.holds(parent, id));
        lemma_contains(v, parent);
        let j = v.index_of(parent);
        let p = choose|p: Place| at_place(v.block(parent), p) == Some(id);
        assert(v.refers(j, p, id));
        assert forall|k: int, q: Place| #[trigger] v.refers(k, q, id) implies k == j && q
            == p by {
            lemma_index(v, k);
            lemma_index(v, j);
            assert(at_place(v.blocks[j].1, p) == at_place(v.blocks[j].1, q));
        }
    }
    if exists|j: int, p: Place| v.refers(j, p, id) {
        let (j, p) = choose|j: int, p: Place| v.refers(j, p, id);
        assert(v.refers(j, p, id));
    }
}

/// A graph with the same blocks and links as a linked one is linked.
pub proof fn lemma_same_links(a: RuntimeView, b: RuntimeView)
    requires
        a.linked(),
        a.same_links(b),
    ensures
        b.linked(),
{
    lemma_same_ids(a, b);
    assert forall|j: int, p: Place| 0 <= j < a.blocks.len() implies #[trigger] at_place(
        b.blocks[j].1,
        p,
    ) == at_place(a.blocks[j].1, p) by {}
    assert forall|j: int, p: Place, id: Seq<char>| #[trigger] b.refers(j, p, id) implies b.contains(
        id,
    ) && b.block(id).parent_id == Some(b.blocks[j].0) by {
        assert(a.refers(j, p, id));
        lemma_contains(a, id);
    }
    assert forall|j: int, p: Place, q: Place|
        0 <= j < b.blocks.len() && at_place(b.blocks[j].1, p) is Some && #[trigger] at_place(
            b.blocks[j].1,
            p,
        ) == #[trigger] at_place(b.blocks[j].1, q) implies p == q by {
        assert(at_place(a.blocks[j].1, p) == at_place(a.blocks[j].1, q));
    }
    assert forall|i: int|
        0 <= i < b.blocks.len() && (#[trigger] b.blocks[i]).1.parent_id is Some implies b.holds(
        b.blocks[i].1.parent_id->0,
        b.blocks[i].0,
    ) by {
        let parent = a.blocks[i].1.parent_id->0;
        assert(a.holds(parent, a.blocks[i].0));
        lemma_contains(a, parent);
        let p = choose|p: Place| at_place(a.block(parent), p) == Some(a.blocks[i].0);
        assert(at_place(b.block(parent), p) == Some(b.blocks[i].0));
    }
}

/// Having the same links is transitive.
pub proof fn lemma_same_links_trans(a: RuntimeView, b: RuntimeView, c: RuntimeView)
    requires
        a.same_links(b),
        b.same_links(c),
    ensures
        a.same_links(c),
{
    assert forall|j: int| 0 <= j < a.blocks.len() implies (#[trigger] c.blocks[j]).0
        == a.blocks[j].0 && c.blocks[j].1.parent_id == a.blocks[j].1.parent_id
        && c.blocks[j].1.next_id == a.blocks[j].1.next_id && c.blocks[j].1.inputs
        == a.blocks[j].1.inputs by {
        assert(b.blocks[j].0 == a.blocks[j].0);
    }
}

/// A fresh editor is linked.
pub proof fn lemma_fresh_linked(specs: Seq<(Seq<char>, SpecView)>)
    ensures
        RuntimeView::fresh(specs).linked(),
{
    let v = RuntimeView::fresh(specs);
    assert(v.ids() =~= Seq::empty());
}

/// Setting a field changes no link.
pub proof fn lemma_set_field_links(
    v: RuntimeView,
    id: Seq<char>,
    name: Seq<char>,
    text: Seq<char>,
    data_id: Option<Seq<char>>,
)
    ensures
        v.same_links(v.set_field(id, name, text, data_id)),
        v.set_field(id, name, text, data_id).top_level == v.top_level,
{
    if v.contains(id) {
        lemma_contains(v, id);
    }
}

/// Moving a block to a place changes no link.
pub proof fn lemma_with_xy_links(v: RuntimeView, id: Seq<char>, x: i32, y: i32)
    ensures
        v.same_links(v.with_xy(id, x, y)),
        v.with_xy(id, x, y).top_level == v.top_level,
{
    if v.contains(id) {
        lemma_contains(v, id);
    }
}

/// Sliding changes no link, and the top-level blocks stay the same.
pub proof fn lemma_slide_links(v: RuntimeView, id: Seq<char>, dx: i32, dy: i32, depth: nat)
    ensures
        v.same_links(v.slide_by(id, dx, dy, depth).0),
        v.slide_by(id, dx, dy, depth).0.top_level == v.top_level,
    decreases depth, 0nat,
{
    if v.contains(id) {
        let b = v.block(id);
        match (crate::result::sum(b.x as int, dx as int), crate::result::sum(b.y as int, dy as int)) {
            (Ok(x), Ok(y)) => {
                lemma_with_xy_links(v, id, x, y);
                let moved = v.with_xy(id, x, y).sync(HostCallView::SlideBlock { id, x, y });
                assert(v.same_links(moved));
                if depth > 0 {
                    lemma_slide_inputs_links(moved, b.inputs, 0, dx, dy, (depth - 1) as nat);
                    lemma_same_links_trans(
                        v,
                        moved,
                        moved.slide_inputs(b.inputs, 0, dx, dy, (depth - 1) as nat).0,
                    );
                }
            },
            _ => {},
        }
    }
}

/// Sliding what inputs hold changes no link.
pub proof fn lemma_slide_inputs_links(
    v: RuntimeView,
    inputs: Seq<(Seq<char>, InputView)>,
    from: int,
    dx: i32,
    dy: i32,
    depth: nat,
)
    ensures
        v.same_links(v.slide_inputs(inputs, from, dx, dy, depth).0),
        v.slide_inputs(inputs, from, dx, dy, depth).0.top_level == v.top_level,
    decreases depth, 1 + inputs.len() - from,
{
    if 0 <= from < inputs.len() {
        let input = inputs[from].1;
        let first = match input.block_id {
            Some(c) => v.slide_by(c, dx, dy, depth),
            None => (v, Ok(())),
        };
        if input.block_id is Some {
            lemma_slide_links(v, input.block_id->0, dx, dy, depth);
        }
        if first.1 is Ok {
            let second = match input.shadow_id {
                Some(c) => first.0.slide_by(c, dx, dy, depth),
                None => first,
            };
            if input.shadow_id is Some {
                lemma_slide_links(first.0, input.shadow_id->0, dx, dy, depth);
            }
            lemma_same_links_trans(v, first.0, second.0);
            if second.1 is Ok {
                lemma_slide_inputs_links(second.0, inputs, from + 1, dx, dy, depth);
                lemma_same_links_trans(
                    v,
                    second.0,
                    second.0.slide_inputs(inputs, from + 1, dx, dy, depth).0,
                );
            }
        }
    }
}

/// Sliding a block to a place changes no link.
pub proof fn lemma_slide_to_links(v: RuntimeView, id: Seq<char>, x: i32, y: i32)
    ensures
        v.same_links(v.slide_to(id, x, y).0),
        v.slide_to(id, x, y).0.top_level == v.top_level,
{
    if v.contains(id) {
        let b = v.block(id);
        match (
            crate::result::sum(x as int, -(b.x as int)),
            crate::result::sum(y as int, -(b.y as int)),
        ) {
            (Ok(dx), Ok(dy)) => {
                lemma_slide_links(v, id, dx, dy, v.blocks.len());
            },
            _ => {},
        }
    }
}


/// The place of one half of the input at index `k`.
pub open spec fn side_place(k: int, is_shadow: bool) -> Place {
    if is_shadow {
        Place::Shadow(k)
    } else {
        Place::Real(k)
    }
}

/// Whether every input holds nothing.
pub open spec fn all_empty(inputs: Seq<(Seq<char>, InputView)>) -> bool {
    forall|k: int| 0 <= k < inputs.len() ==> (#[trigger] inputs[k]).1 == empty_input()
}

/// The inputs of a fresh block hold nothing.
pub proof fn lemma_slots_of_line_empty(
    line: Seq<FragmentView>,
    from: int,
    acc: Seq<(Seq<char>, InputView)>,
)
    requires
        all_empty(acc),
    ensures
        all_empty(slots_of_line(line, from, acc)),
    decreases line.len() - from,
{
    if 0 <= from < line.len() {
        lemma_slots_of_line_empty(line, from + 1, add_slot(acc, line[from]));
    }
}

/// The inputs of a fresh block hold nothing.
pub proof fn lemma_slots_of_lines_empty(
    lines: Seq<Seq<FragmentView>>,
    from: int,
    acc: Seq<(Seq<char>, InputView)>,
)
    requires
        all_empty(acc),
    ensures
        all_empty(slots_of_lines(lines, from, acc)),
    decreases lines.len() - from,
{
    if 0 <= from < lines.len() {
        lemma_slots_of_line_empty(lines[from], 0, acc);
        lemma_slots_of_lines_empty(lines, from + 1, slots_of_line(lines[from], 0, acc));
    }
}

/// A fresh block holds nothing and has no parent.
pub proof fn lemma_new_block(spec: SpecView, opcode: Seq<char>)
    ensures
        holds_nothing(new_block(spec, opcode)),
        new_block(spec, opcode).parent_id is None,
{
    lemma_slots_of_lines_empty(spec.lines, 0, Seq::empty());
    let b = new_block(spec, opcode);
    assert forall|p: Place| (#[trigger] at_place(b, p)) is None by {
        match p {
            Place::Next => {},
            Place::Real(k) => {
                if 0 <= k < b.inputs.len() {
                    assert(b.inputs[k].1 == empty_input());
                }
            },
            Place::Shadow(k) => {
                if 0 <= k < b.inputs.len() {
                    assert(b.inputs[k].1 == empty_input());
                }
            },
        }
    }
}

/// The first free number is free.
pub proof fn lemma_first_free(ids: Seq<Seq<char>>, n: nat)
    ensures
        n <= first_free(ids, n) <= usize::MAX || first_free(ids, n) == usize::MAX,
        first_free(ids, n) < usize::MAX ==> !occurs(ids, id_text(first_free(ids, n))),
    decreases usize::MAX - n,
{
    if n < usize::MAX && occurs(ids, id_text(n)) {
        lemma_first_free(ids, n + 1);
    }
}

/// The last free number is free.
pub proof fn lemma_last_free(ids: Seq<Seq<char>>, n: nat)
    ensures
        last_free(ids, n) matches Some(m) ==> !occurs(ids, id_text(m)),
    decreases n,
{
    if occurs(ids, id_text(n)) && n > 0 {
        lemma_last_free(ids, (n - 1) as nat);
    }
}

/// The id of the next block is not in use.
pub proof fn lemma_fresh_id(v: RuntimeView)
    ensures
        v.fresh_id() matches Some(id) ==> !v.contains(id),
{
    lemma_first_free(v.ids(), v.next_usable_id as nat);
    lemma_last_free(v.ids(), usize::MAX as nat);
}

/// A key that does not occur is at no index.
pub proof fn lemma_absent(keys: Seq<Seq<char>>, key: Seq<char>)
    requires
        !occurs(keys, key),
    ensures
        forall|j: int| 0 <= j < keys.len() ==> keys[j] != key,
{
    lemma_find(keys, key);
}

/// Making a block keeps a linked graph linked; the blocks that were there
/// stay as they are, and the new one is top-level, without parent, and holds
/// nothing.
pub proof fn lemma_create_single_block(v: RuntimeView, opcode: Seq<char>)
    requires
        v.linked(),
        v.fresh_id() is Some,
    ensures
        v.create_single_block(opcode).linked(),
        v.create_single_block(opcode).blocks == v.blocks.push(
            (v.fresh_id()->0, new_block(v.spec_of(opcode), opcode)),
        ),
        v.create_single_block(opcode).top_level == v.top_level.push(v.fresh_id()->0),
        v.create_single_block(opcode).contains(v.fresh_id()->0),
        v.create_single_block(opcode).block(v.fresh_id()->0) == new_block(
            v.spec_of(opcode),
            opcode,
        ),
        forall|id: Seq<char>|
            v.contains(id) ==> #[trigger] v.create_single_block(opcode).contains(id)
                && v.create_single_block(opcode).block(id) == v.block(id),
{
    let id = v.fresh_id()->0;
    let b = new_block(v.spec_of(opcode), opcode);
    let w = v.create_single_block(opcode);
    let n = v.blocks.len() as int;
    lemma_fresh_id(v);
    lemma_absent(v.ids(), id);
    lemma_new_block(v.spec_of(opcode), opcode);
    assert(w.blocks =~= v.blocks.push((id, b)));
    assert(w.ids() =~= v.ids().push(id));
    assert(w.ids().no_duplicates());
    lemma_index(w, n);
    assert forall|c: Seq<char>| v.contains(c) implies #[trigger] w.contains(c) && w.block(c)
        == v.block(c) by {
        lemma_contains(v, c);
        lemma_index(w, v.index_of(c));
    }
    assert forall|j: int, p: Place, c: Seq<char>| #[trigger] w.refers(j, p, c) implies w.contains(
        c,
    ) && w.block(c).parent_id == Some(w.blocks[j].0) by {
        if j == n {
            assert(at_place(b, p) is None);
        } else {
            assert(v.refers(j, p, c));
        }
    }
    assert forall|j: int, p: Place, q: Place|
        0 <= j < w.blocks.len() && at_place(w.blocks[j].1, p) is Some && #[trigger] at_place(
            w.blocks[j].1,
            p,
        ) == #[trigger] at_place(w.blocks[j].1, q) implies p == q by {
        if j == n {
            assert(at_place(b, p) is None);
        } else {
            assert(at_place(v.blocks[j].1, p) == at_place(v.blocks[j].1, q));
        }
    }
    assert forall|i: int|
        0 <= i < w.blocks.len() && (#[trigger] w.blocks[i]).1.parent_id is Some implies w.holds(
        w.blocks[i].1.parent_id->0,
        w.blocks[i].0,
    ) by {
        let parent = v.blocks[i].1.parent_id->0;
        assert(v.holds(parent, v.blocks[i].0));
        let p = choose|p: Place| at_place(v.block(parent), p) == Some(v.blocks[i].0);
        assert(w.contains(parent) && w.block(parent) == v.block(parent));
        assert(at_place(w.block(parent), p) == Some(w.blocks[i].0));
    }
}

/// A block without a parent is held by no block.
pub proof fn lemma_parentless_unheld(v: RuntimeView, id: Seq<char>)
    requires
        v.linked(),
        v.contains(id),
        v.block(id).parent_id is None,
    ensures
        v.unheld(id),
{
    assert forall|j: int, p: Place| !#[trigger] v.refers(j, p, id) by {
        if v.refers(j, p, id) {
            assert(v.block(id).parent_id == Some(v.blocks[j].0));
        }
    }
}

/// What the blocks of a graph hold, and who their parents are, after the
/// block at index `i` was replaced.
pub proof fn lemma_with_block(v: RuntimeView, i: int, b: BlockView)
    requires
        0 <= i < v.blocks.len(),
    ensures
        v.with_block(i, b).blocks.len() == v.blocks.len(),
        v.with_block(i, b).ids() == v.ids(),
        v.with_block(i, b).blocks[i] == (v.blocks[i].0, b),
        forall|j: int|
            0 <= j < v.blocks.len() && j != i ==> #[trigger] v.with_block(i, b).blocks[j]
                == v.blocks[j],
        forall|id: Seq<char>| #[trigger] v.with_block(i, b).index_of(id) == v.index_of(id),
        v.with_block(i, b).top_level == v.top_level,
{
    assert(v.with_block(i, b).ids() =~= v.ids());
}

/// Attaching a parentless block into an input keeps a linked graph linked.
pub proof fn lemma_attach_input(
    v: RuntimeView,
    id: Seq<char>,
    parent_id: Seq<char>,
    name: Seq<char>,
    is_shadow: bool,
)
    requires
        v.linked(),
        v.can_attach_input(id, parent_id, name) ==> v.block(id).parent_id is None,
    ensures
        v.attach_input(id, parent_id, name, is_shadow).linked(),
        v.attach_input(id, parent_id, name, is_shadow).ids() == v.ids(),
        v.attach_input(id, parent_id, name, is_shadow).blocks.len() == v.blocks.len(),
        v.can_attach_input(id, parent_id, name) ==> forall|j: int, p: Place|
            0 <= j < v.blocks.len() ==> #[trigger] at_place(
                v.attach_input(id, parent_id, name, is_shadow).blocks[j].1,
                p,
            ) == (if j == v.index_of(parent_id) && p == side_place(
                v.block(parent_id).input_index(name),
                is_shadow,
            ) {
                Some(id)
            } else {
                at_place(v.blocks[j].1, p)
            }),
{
    if v.can_attach_input(id, parent_id, name) {
        let w = v.attach_input(id, parent_id, name, is_shadow);
        let k = v.block(parent_id).input_index(name);
        let place = side_place(k, is_shadow);
        let pi = v.index_of(parent_id);
        let ci = v.index_of(id);
        let n = v.blocks.len() as int;
        lemma_contains(v, parent_id);
        lemma_contains(v, id);
        lemma_index(v, pi);
        lemma_index(v, ci);
        lemma_find(v.block(parent_id).input_names(), name);
        lemma_parentless_unheld(v, id);
        let pb = v.block(parent_id);
        let displaced = v.displaced_by(parent_id, name, is_shadow);
        assert(displaced == at_place(pb, place));
        let bound = v.with_side(parent_id, k, is_shadow, Some(id));
        lemma_with_block(v, pi, pb.with_input(k, pb.inputs[k].1.with_side(is_shadow, Some(id))));
        let evicted = match displaced {
            Some(d) => if bound.contains(d) {
                bound.with_parent(d, None).push_top_level(d)
            } else {
                bound
            },
            None => bound,
        };
        if displaced is Some {
            let d = displaced->0;
            assert(v.refers(pi, place, d));
            lemma_contains(v, d);
            lemma_index(v, v.index_of(d));
            lemma_with_block(
                bound,
                bound.index_of(d),
                BlockView { parent_id: None, ..bound.block(d) },
            );
        }
        assert(evicted.blocks.len() == n);
        assert(evicted.ids() == v.ids());
        let last = evicted.with_parent(id, Some(parent_id));
        lemma_with_block(
            evicted,
            evicted.index_of(id),
            BlockView { parent_id: Some(parent_id), ..evicted.block(id) },
        );
        assert(w.blocks == last.blocks);
        assert(w.ids() == v.ids());
        let di = if displaced is Some {
            v.index_of(displaced->0)
        } else {
            -1
        };
        assert(di != ci);
        // what every place holds afterwards
        assert forall|j: int, p: Place| 0 <= j < n implies #[trigger] at_place(w.blocks[j].1, p)
            == (if j == pi && p == place {
            Some(id)
        } else {
            at_place(v.blocks[j].1, p)
        }) by {}
        // who every block's parent is afterwards
        assert forall|j: int| 0 <= j < n implies (#[trigger] w.blocks[j]).1.parent_id == (if j
            == ci {
            Some(parent_id)
        } else if j == di {
            None
        } else {
            v.blocks[j].1.parent_id
        }) && w.blocks[j].0 == v.blocks[j].0 by {}
        assert forall|c: Seq<char>| w.contains(c) == v.contains(c) && w.index_of(c) == v.index_of(
            c,
        ) by {}
        assert forall|j: int, p: Place, c: Seq<char>| #[trigger] w.refers(j, p, c) implies w.contains(
            c,
        ) && w.block(c).parent_id == Some(w.blocks[j].0) by {
            if j == pi && p == place {
            } else {
                assert(v.refers(j, p, c));
                lemma_contains(v, c);
                if v.index_of(c) == di {
                    assert(v.refers(pi, place, c));
                    lemma_index(v, j);
                    assert(at_place(v.blocks[pi].1, place) == at_place(v.blocks[pi].1, p));
                }
            }
        }
        assert forall|j: int, p: Place, q: Place|
            0 <= j < w.blocks.len() && at_place(w.blocks[j].1, p) is Some && #[trigger] at_place(
                w.blocks[j].1,
                p,
            ) == #[trigger] at_place(w.blocks[j].1, q) implies p == q by {
            if j == pi && (p == place || q == place) {
                if p != q {
                    let other = if p == place {
                        q
                    } else {
                        p
                    };
                    assert(v.refers(pi, other, id));
                }
            } else {
                assert(at_place(v.blocks[j].1, p) == at_place(v.blocks[j].1, q));
            }
        }
        assert forall|i: int|
            0 <= i < w.blocks.len() && (#[trigger] w.blocks[i]).1.parent_id is Some implies w.holds(
            w.blocks[i].1.parent_id->0,
            w.blocks[i].0,
        ) by {
            if i == ci {
                assert(at_place(w.block(parent_id), place) == Some(id));
            } else {
                let parent = v.blocks[i].1.parent_id->0;
                assert(v.holds(parent, v.blocks[i].0));
                lemma_contains(v, parent);
                let p = choose|p: Place| at_place(v.block(parent), p) == Some(v.blocks[i].0);
                if v.index_of(parent) == pi && p == place {
                    assert(displaced == Some(v.blocks[i].0));
                    lemma_index(v, i);
                }
                assert(at_place(w.block(parent), p) == Some(w.blocks[i].0));
            }
        }
    }
}


/// Chaining a parentless block after a block that nothing follows keeps a
/// linked graph linked.
pub proof fn lemma_attach_next(v: RuntimeView, id: Seq<char>, parent_id: Seq<char>)
    requires
        v.linked(),
        v.can_attach_next(id, parent_id) ==> v.block(id).parent_id is None,
    ensures
        v.attach_next(id, parent_id).linked(),
        v.attach_next(id, parent_id).ids() == v.ids(),
        v.attach_next(id, parent_id).blocks.len() == v.blocks.len(),
        v.can_attach_next(id, parent_id) ==> forall|j: int, p: Place|
            0 <= j < v.blocks.len() ==> #[trigger] at_place(
                v.attach_next(id, parent_id).blocks[j].1,
                p,
            ) == (if j == v.index_of(parent_id) && p == Place::Next {
                Some(id)
            } else {
                at_place(v.blocks[j].1, p)
            }),
{
    if v.can_attach_next(id, parent_id) {
        let w = v.attach_next(id, parent_id);
        let pi = v.index_of(parent_id);
        let ci = v.index_of(id);
        let n = v.blocks.len() as int;
        lemma_contains(v, parent_id);
        lemma_contains(v, id);
        lemma_index(v, pi);
        lemma_index(v, ci);
        lemma_parentless_unheld(v, id);
        let chained = v.with_next(parent_id, Some(id));
        lemma_with_block(v, pi, BlockView { next_id: Some(id), ..v.block(parent_id) });
        lemma_with_block(
            chained,
            chained.index_of(id),
            BlockView { parent_id: Some(parent_id), ..chained.block(id) },
        );
        assert(w.blocks == chained.with_parent(id, Some(parent_id)).blocks);
        assert(w.ids() == v.ids());
        assert forall|j: int, p: Place| 0 <= j < n implies #[trigger] at_place(w.blocks[j].1, p)
            == (if j == pi && p == Place::Next {
            Some(id)
        } else {
            at_place(v.blocks[j].1, p)
        }) by {}
        assert forall|j: int| 0 <= j < n implies (#[trigger] w.blocks[j]).1.parent_id == (if j
            == ci {
            Some(parent_id)
        } else {
            v.blocks[j].1.parent_id
        }) && w.blocks[j].0 == v.blocks[j].0 by {}
        assert forall|c: Seq<char>| w.contains(c) == v.contains(c) && w.index_of(c) == v.index_of(
            c,
        ) by {}
        assert forall|j: int, p: Place, c: Seq<char>| #[trigger] w.refers(j, p, c) implies w.contains(
            c,
        ) && w.block(c).parent_id == Some(w.blocks[j].0) by {
            if j == pi && p == Place::Next {
            } else {
                assert(v.refers(j, p, c));
                lemma_contains(v, c);
            }
        }
        assert forall|j: int, p: Place, q: Place|
            0 <= j < w.blocks.len() && at_place(w.blocks[j].1, p) is Some && #[trigger] at_place(
                w.blocks[j].1,
                p,
            ) == #[trigger] at_place(w.blocks[j].1, q) implies p == q by {
            if j == pi && (p == Place::Next || q == Place::Next) {
                if p != q {
                    let other = if p == Place::Next {
                        q
                    } else {
                        p
                    };
                    assert(v.refers(pi, other, id));
                }
            } else {
                assert(at_place(v.blocks[j].1, p) == at_place(v.blocks[j].1, q));
            }
        }
        assert forall|i: int|
            0 <= i < w.blocks.len() && (#[trigger] w.blocks[i]).1.parent_id is Some implies w.holds(
            w.blocks[i].1.parent_id->0,
            w.blocks[i].0,
        ) by {
            if i == ci {
                assert(at_place(w.block(parent_id), Place::Next) == Some(id));
            } else {
                let parent = v.blocks[i].1.parent_id->0;
                assert(v.holds(parent, v.blocks[i].0));
                lemma_contains(v, parent);
                let p = choose|p: Place| at_place(v.block(parent), p) == Some(v.blocks[i].0);
                assert(at_place(w.block(parent), p) == Some(w.blocks[i].0));
            }
        }
    }
}

/// `slot_holding` finds the first input that holds the block.
pub proof fn lemma_slot_holding(inputs: Seq<(Seq<char>, InputView)>, id: Seq<char>, from: int)
    requires
        0 <= from,
    ensures
        from <= slot_holding(inputs, id, from) <= inputs.len() || slot_holding(inputs, id, from)
            == inputs.len(),
        slot_holding(inputs, id, from) < inputs.len() ==> inputs[slot_holding(
            inputs,
            id,
            from,
        )].1.block_id == Some(id) || inputs[slot_holding(inputs, id, from)].1.shadow_id == Some(
            id,
        ),
        forall|k: int|
            from <= k < slot_holding(inputs, id, from) && k < inputs.len() ==> (
            #[trigger] inputs[k]).1.block_id != Some(id) && inputs[k].1.shadow_id != Some(id),
    decreases inputs.len() - from,
{
    if from < inputs.len() && !(inputs[from].1.block_id == Some(id) || inputs[from].1.shadow_id
        == Some(id)) {
        lemma_slot_holding(inputs, id, from + 1);
    }
}

/// Whether two blocks have inputs of the same names, whatever these hold.
pub open spec fn same_frame(a: BlockView, b: BlockView) -> bool {
    a.inputs.len() == b.inputs.len() && forall|k: int|
        0 <= k < a.inputs.len() ==> (#[trigger] a.inputs[k]).0 == b.inputs[k].0
}

/// Blocks with inputs of the same names that hold the same at every place
/// have the same inputs.
pub proof fn lemma_same_inputs(a: BlockView, b: BlockView)
    requires
        same_frame(a, b),
        forall|p: Place| #[trigger] at_place(a, p) == at_place(b, p),
    ensures
        a.inputs == b.inputs,
        a.next_id == b.next_id,
{
    assert(at_place(a, Place::Next) == at_place(b, Place::Next));
    assert forall|k: int| 0 <= k < a.inputs.len() implies a.inputs[k] == b.inputs[k] by {
        assert(at_place(a, Place::Real(k)) == at_place(b, Place::Real(k)));
        assert(at_place(a, Place::Shadow(k)) == at_place(b, Place::Shadow(k)));
        assert(a.inputs[k].0 == b.inputs[k].0);
        assert(a.inputs[k].1 =~= b.inputs[k].1);
    }
    assert(a.inputs =~= b.inputs);
}

/// The one place at which a linked graph holds a block that has a parent.
pub open spec fn place_of(v: RuntimeView, id: Seq<char>) -> Place {
    choose|p: Place| at_place(v.block(v.block(id).parent_id->0), p) == Some(id)
}

/// Letting go of a block empties the one place that holds it and nothing
/// else.
pub proof fn lemma_unlink(v: RuntimeView, id: Seq<char>)
    requires
        v.linked(),
        v.contains(id),
        v.block(id).parent_id is Some,
    ensures
        ({
            let parent = v.block(id).parent_id->0;
            let w = v.unlink(parent, id);
            let pi = v.index_of(parent);
            &&& v.contains(parent)
            &&& at_place(v.block(parent), place_of(v, id)) == Some(id)
            &&& w.blocks.len() == v.blocks.len()
            &&& w.ids() == v.ids()
            &&& w.top_level == v.top_level
            &&& forall|j: int|
                0 <= j < v.blocks.len() ==> (#[trigger] w.blocks[j]).0 == v.blocks[j].0
                    && w.blocks[j].1.parent_id == v.blocks[j].1.parent_id && same_frame(
                    w.blocks[j].1,
                    v.blocks[j].1,
                )
            &&& forall|j: int, p: Place|
                0 <= j < v.blocks.len() ==> #[trigger] at_place(w.blocks[j].1, p) == (if j == pi
                    && p == place_of(v, id) {
                    None
                } else {
                    at_place(v.blocks[j].1, p)
                })
        }),
{
    let parent = v.block(id).parent_id->0;
    lemma_contains(v, id);
    let ci = v.index_of(id);
    assert(v.holds(parent, v.blocks[ci].0));
    let place = place_of(v, id);
    lemma_contains(v, parent);
    let pi = v.index_of(parent);
    lemma_index(v, pi);
    let pb = v.block(parent);
    let w = v.unlink(parent, id);
    if pb.next_id == Some(id) {
        assert(at_place(v.blocks[pi].1, Place::Next) == at_place(v.blocks[pi].1, place));
        lemma_with_block(v, pi, BlockView { next_id: None, ..pb });
        assert forall|j: int, p: Place| 0 <= j < v.blocks.len() implies #[trigger] at_place(
            w.blocks[j].1,
            p,
        ) == (if j == pi && p == place {
            None
        } else {
            at_place(v.blocks[j].1, p)
        }) by {}
    } else {
        lemma_slot_holding(pb.inputs, id, 0);
        let k = slot_holding(pb.inputs, id, 0);
        match place {
            Place::Next => {},
            Place::Real(k0) => {
                assert(pb.inputs[k0].1.block_id == Some(id));
            },
            Place::Shadow(k0) => {
                assert(pb.inputs[k0].1.shadow_id == Some(id));
            },
        }
        assert(k < pb.inputs.len());
        let found = if pb.inputs[k].1.block_id == Some(id) {
            Place::Real(k)
        } else {
            Place::Shadow(k)
        };
        assert(at_place(v.blocks[pi].1, found) == at_place(v.blocks[pi].1, place));
        assert(found == place);
        let is_shadow = pb.inputs[k].1.block_id != Some(id);
        lemma_with_block(v, pi, pb.with_input(k, pb.inputs[k].1.with_side(is_shadow, None)));
        assert forall|j: int, p: Place| 0 <= j < v.blocks.len() implies #[trigger] at_place(
            w.blocks[j].1,
            p,
        ) == (if j == pi && p == place {
            None
        } else {
            at_place(v.blocks[j].1, p)
        }) by {}
    }
}

/// This state after block `id` was let go by its parent and lost its
/// parent link: what detaching does before it moves the block.
pub open spec fn loosened(v: RuntimeView, id: Seq<char>) -> RuntimeView {
    (match v.block(id).parent_id {
        Some(p) => v.unlink(p, id).push_top_level(id),
        None => v,
    }).with_parent(id, None)
}

/// Letting go of a block keeps a linked graph linked; afterwards the block
/// has no parent and the place that held it is empty.
pub proof fn lemma_loosened(v: RuntimeView, id: Seq<char>)
    requires
        v.linked(),
        v.contains(id),
    ensures
        loosened(v, id).linked(),
        loosened(v, id).ids() == v.ids(),
        loosened(v, id).block(id).parent_id is None,
        loosened(v, id).top_level == (if v.block(id).parent_id is Some {
            v.top_level.push(id)
        } else {
            v.top_level
        }),
        forall|j: int|
            0 <= j < v.blocks.len() ==> (#[trigger] loosened(v, id).blocks[j]).0 == v.blocks[j].0
                && loosened(v, id).blocks[j].1.x == v.blocks[j].1.x && loosened(
                v,
                id,
            ).blocks[j].1.y == v.blocks[j].1.y && same_frame(
                loosened(v, id).blocks[j].1,
                v.blocks[j].1,
            ) && loosened(v, id).blocks[j].1.parent_id == (if j == v.index_of(id) {
                None
            } else {
                v.blocks[j].1.parent_id
            }),
        v.block(id).parent_id is Some ==> forall|j: int, p: Place|
            0 <= j < v.blocks.len() ==> #[trigger] at_place(loosened(v, id).blocks[j].1, p) == (
            if j == v.index_of(v.block(id).parent_id->0) && p == place_of(v, id) {
                None
            } else {
                at_place(v.blocks[j].1, p)
            }),
        v.block(id).parent_id is None ==> v.same_links(loosened(v, id)),
{
    let w = loosened(v, id);
    lemma_contains(v, id);
    let ci = v.index_of(id);
    lemma_index(v, ci);
    let n = v.blocks.len() as int;
    if v.block(id).parent_id is Some {
        let parent = v.block(id).parent_id->0;
        lemma_unlink(v, id);
        let place = place_of(v, id);
        let pi = v.index_of(parent);
        lemma_contains(v, parent);
        lemma_index(v, pi);
        assert(v.refers(pi, place, id));
        let u = v.unlink(parent, id).push_top_level(id);
        lemma_with_block(u, u.index_of(id), BlockView { parent_id: None, ..u.block(id) });
        assert forall|j: int, p: Place| 0 <= j < n implies #[trigger] at_place(w.blocks[j].1, p)
            == (if j == pi && p == place {
            None
        } else {
            at_place(v.blocks[j].1, p)
        }) by {
            assert(at_place(w.blocks[j].1, p) == at_place(u.blocks[j].1, p));
        }
        assert forall|j: int| 0 <= j < n implies (#[trigger] w.blocks[j]).1.parent_id == (if j
            == ci {
            None
        } else {
            v.blocks[j].1.parent_id
        }) && w.blocks[j].0 == v.blocks[j].0 && w.blocks[j].1.x == v.blocks[j].1.x
            && w.blocks[j].1.y == v.blocks[j].1.y && same_frame(w.blocks[j].1, v.blocks[j].1) by {
            assert(u.blocks[j].1.x == v.blocks[j].1.x && u.blocks[j].1.y == v.blocks[j].1.y) by {
                lemma_unlink_position(v, parent, id, j);
            }
            assert(same_frame(u.blocks[j].1, v.blocks[j].1));
        }
        assert forall|c: Seq<char>| w.contains(c) == v.contains(c) && w.index_of(c) == v.index_of(
            c,
        ) by {}
        assert forall|j: int, p: Place, c: Seq<char>| #[trigger] w.refers(j, p, c) implies w.contains(
            c,
        ) && w.block(c).parent_id == Some(w.blocks[j].0) by {
            assert(v.refers(j, p, c));
            lemma_contains(v, c);
            if v.index_of(c) == ci {
                assert(v.refers(pi, place, c));
                lemma_index(v, j);
                assert(at_place(v.blocks[pi].1, place) == at_place(v.blocks[pi].1, p));
            }
        }
        assert forall|j: int, p: Place, q: Place|
            0 <= j < w.blocks.len() && at_place(w.blocks[j].1, p) is Some && #[trigger] at_place(
                w.blocks[j].1,
                p,
            ) == #[trigger] at_place(w.blocks[j].1, q) implies p == q by {
            assert(at_place(v.blocks[j].1, p) == at_place(v.blocks[j].1, q));
        }
        assert forall|i: int|
            0 <= i < w.blocks.len() && (#[trigger] w.blocks[i]).1.parent_id is Some implies w.holds(
            w.blocks[i].1.parent_id->0,
            w.blocks[i].0,
        ) by {
            let pp = v.blocks[i].1.parent_id->0;
            assert(v.holds(pp, v.blocks[i].0));
            lemma_contains(v, pp);
            let p = choose|p: Place| at_place(v.block(pp), p) == Some(v.blocks[i].0);
            if v.index_of(pp) == pi && p == place {
                lemma_index(v, i);
            }
            assert(at_place(w.block(pp), p) == Some(w.blocks[i].0));
        }
    } else {
        lemma_with_block(v, ci, BlockView { parent_id: None, ..v.block(id) });
        assert(v.same_links(w));
        lemma_same_links(v, w);
    }
}

/// Letting go moves no block.
pub proof fn lemma_unlink_position(v: RuntimeView, parent: Seq<char>, id: Seq<char>, j: int)
    requires
        0 <= j < v.blocks.len(),
    ensures
        v.unlink(parent, id).blocks.len() == v.blocks.len(),
        v.unlink(parent, id).blocks[j].1.x == v.blocks[j].1.x,
        v.unlink(parent, id).blocks[j].1.y == v.blocks[j].1.y,
{
    if v.contains(parent) {
        lemma_contains(v, parent);
    }
}

/// Detaching keeps a linked graph linked, whether it goes through or
/// not.
pub proof fn lemma_detach(v: RuntimeView, id: Seq<char>)
    requires
        v.linked(),
    ensures
        v.detach(id).0.linked(),
        v.detach(id).0.ids() == v.ids(),
        v.detach(id).1 is Ok && v.contains(id) ==> loosened(v, id).same_links(v.detach(id).0)
            && v.detach(id).0.top_level == loosened(v, id).top_level,
{
    if v.contains(id) {
        match v.own_xy(id, v.blocks.len()) {
            Err(_) => {},
            Ok(at) => {
                let loose = loosened(v, id);
                lemma_loosened(v, id);
                lemma_slide_to_links(loose, id, at.0, at.1);
                let moved = loose.slide_to(id, at.0, at.1);
                lemma_same_links(loose, moved.0);
                lemma_same_ids(loose, moved.0);
                if moved.1 is Ok {
                    let done = moved.0.sync(HostCallView::DetachBlock { id });
                    assert(moved.0.same_links(done));
                    lemma_same_links_trans(loose, moved.0, done);
                    lemma_same_links(moved.0, done);
                    lemma_same_ids(moved.0, done);
                }
            },
        }
    }
}


/// A block that is held nowhere stays so where the links stay.
pub proof fn lemma_unheld_same_links(a: RuntimeView, b: RuntimeView, t: Seq<char>)
    requires
        a.same_links(b),
        a.unheld(t),
    ensures
        b.unheld(t),
{
    assert forall|j: int, p: Place| !#[trigger] b.refers(j, p, t) by {
        if b.refers(j, p, t) {
            assert(at_place(b.blocks[j].1, p) == at_place(a.blocks[j].1, p));
            assert(a.refers(j, p, t));
        }
    }
}

/// Sliding a block leaves every block alone that no block holds, but for
/// the block itself.
pub proof fn lemma_slide_spares(
    v: RuntimeView,
    c: Seq<char>,
    dx: i32,
    dy: i32,
    depth: nat,
    t: Seq<char>,
)
    requires
        v.ids().no_duplicates(),
        v.contains(t),
        v.unheld(t),
        c != t,
    ensures
        v.slide_by(c, dx, dy, depth).0.contains(t),
        v.slide_by(c, dx, dy, depth).0.block(t) == v.block(t),
    decreases depth, 0nat,
{
    if v.contains(c) {
        let b = v.block(c);
        match (sum(b.x as int, dx as int), sum(b.y as int, dy as int)) {
            (Ok(x), Ok(y)) => {
                lemma_contains(v, c);
                lemma_contains(v, t);
                let ci = v.index_of(c);
                lemma_index(v, ci);
                lemma_with_block(v, ci, BlockView { x, y, ..b });
                let moved = v.with_xy(c, x, y).sync(HostCallView::SlideBlock { id: c, x, y });
                lemma_with_xy_links(v, c, x, y);
                assert(v.same_links(moved));
                lemma_unheld_same_links(v, moved, t);
                assert(moved.block(t) == v.block(t));
                if depth > 0 {
                    assert forall|k: int| 0 <= k < b.inputs.len() implies (
                    #[trigger] b.inputs[k]).1.block_id != Some(t) && b.inputs[k].1.shadow_id
                        != Some(t) by {
                        if b.inputs[k].1.block_id == Some(t) {
                            assert(v.refers(ci, Place::Real(k), t));
                        }
                        if b.inputs[k].1.shadow_id == Some(t) {
                            assert(v.refers(ci, Place::Shadow(k), t));
                        }
                    }
                    lemma_slide_inputs_spares(moved, b.inputs, 0, dx, dy, (depth - 1) as nat, t);
                }
            },
            _ => {},
        }
    }
}

/// Sliding what inputs hold leaves every block alone that no block holds.
pub proof fn lemma_slide_inputs_spares(
    v: RuntimeView,
    inputs: Seq<(Seq<char>, InputView)>,
    from: int,
    dx: i32,
    dy: i32,
    depth: nat,
    t: Seq<char>,
)
    requires
        v.ids().no_duplicates(),
        v.contains(t),
        v.unheld(t),
        forall|k: int|
            0 <= k < inputs.len() ==> (#[trigger] inputs[k]).1.block_id != Some(t)
                && inputs[k].1.shadow_id != Some(t),
    ensures
        v.slide_inputs(inputs, from, dx, dy, depth).0.contains(t),
        v.slide_inputs(inputs, from, dx, dy, depth).0.block(t) == v.block(t),
    decreases depth, 1 + inputs.len() - from,
{
    if 0 <= from < inputs.len() {
        let input = inputs[from].1;
        assert(inputs[from].1.block_id != Some(t) && inputs[from].1.shadow_id != Some(t));
        let first = match input.block_id {
            Some(c) => v.slide_by(c, dx, dy, depth),
            None => (v, Ok(())),
        };
        if input.block_id is Some {
            lemma_slide_spares(v, input.block_id->0, dx, dy, depth, t);
            lemma_slide_links(v, input.block_id->0, dx, dy, depth);
            lemma_unheld_same_links(v, first.0, t);
            lemma_same_ids(v, first.0);
        }
        if first.1 is Ok {
            let second = match input.shadow_id {
                Some(c) => first.0.slide_by(c, dx, dy, depth),
                None => first,
            };
            if input.shadow_id is Some {
                lemma_slide_spares(first.0, input.shadow_id->0, dx, dy, depth, t);
                lemma_slide_links(first.0, input.shadow_id->0, dx, dy, depth);
                lemma_unheld_same_links(first.0, second.0, t);
                lemma_same_ids(first.0, second.0);
            }
            if second.1 is Ok {
                lemma_slide_inputs_spares(second.0, inputs, from + 1, dx, dy, depth, t);
            }
        }
    }
}

/// A block that no block holds is where it was slid to.
pub proof fn lemma_slide_to_arrives(v: RuntimeView, id: Seq<char>, x: i32, y: i32)
    requires
        v.ids().no_duplicates(),
        v.contains(id),
        v.unheld(id),
        v.slide_to(id, x, y).1 is Ok,
    ensures
        v.slide_to(id, x, y).0.contains(id),
        v.slide_to(id, x, y).0.block(id).x == x,
        v.slide_to(id, x, y).0.block(id).y == y,
{
    let b = v.block(id);
    match (sum(x as int, -(b.x as int)), sum(y as int, -(b.y as int))) {
        (Ok(dx), Ok(dy)) => {
            let depth = v.blocks.len();
            lemma_contains(v, id);
            let ci = v.index_of(id);
            lemma_index(v, ci);
            match (sum(b.x as int, dx as int), sum(b.y as int, dy as int)) {
                (Ok(nx), Ok(ny)) => {
                    lemma_with_block(v, ci, BlockView { x: nx, y: ny, ..b });
                    let moved = v.with_xy(id, nx, ny).sync(
                        HostCallView::SlideBlock { id, x: nx, y: ny },
                    );
                    lemma_with_xy_links(v, id, nx, ny);
                    assert(v.same_links(moved));
                    lemma_unheld_same_links(v, moved, id);
                    assert(moved.block(id).x == x && moved.block(id).y == y);
                    if depth > 0 {
                        assert forall|k: int| 0 <= k < b.inputs.len() implies (
                        #[trigger] b.inputs[k]).1.block_id != Some(id) && b.inputs[k].1.shadow_id
                            != Some(id) by {
                            if b.inputs[k].1.block_id == Some(id) {
                                assert(v.refers(ci, Place::Real(k), id));
                            }
                            if b.inputs[k].1.shadow_id == Some(id) {
                                assert(v.refers(ci, Place::Shadow(k), id));
                            }
                        }
                        lemma_slide_inputs_spares(
                            moved,
                            b.inputs,
                            0,
                            dx,
                            dy,
                            (depth - 1) as nat,
                            id,
                        );
                    }
                },
                _ => {},
            }
        },
        _ => {},
    }
}

/// Attaching a parentless block into an empty half of an input and
/// detaching it again restores the links of every block: the block is
/// top-level and without a parent again, the half of the input is empty
/// again, and the block lies where the offsets placed it while it was
/// attached.
pub proof fn lemma_attach_then_detach(
    v: RuntimeView,
    id: Seq<char>,
    parent_id: Seq<char>,
    name: Seq<char>,
    is_shadow: bool,
)
    requires
        v.linked(),
        v.can_attach_input(id, parent_id, name),
        v.block(id).parent_id is None,
        v.displaced_by(parent_id, name, is_shadow) is None,
    ensures
        ({
            let a = v.attach_input(id, parent_id, name, is_shadow);
            let d = a.detach(id);
            d.1 is Ok ==> {
                &&& v.same_links(d.0)
                &&& d.0.linked()
                &&& d.0.block(id).parent_id is None
                &&& d.0.block(parent_id).input(name).side(is_shadow) is None
                &&& d.0.top_level == v.drop_top_level(id).top_level.push(id)
                &&& a.own_xy(id, a.blocks.len()) == Ok::<(i32, i32), ViiruError>(
                    (d.0.block(id).x, d.0.block(id).y),
                )
            }
        }),
{
    let a = v.attach_input(id, parent_id, name, is_shadow);
    let d = a.detach(id);
    let n = v.blocks.len() as int;
    let k = v.block(parent_id).input_index(name);
    let place = side_place(k, is_shadow);
    let pi = v.index_of(parent_id);
    let ci = v.index_of(id);
    lemma_contains(v, parent_id);
    lemma_contains(v, id);
    lemma_index(v, pi);
    lemma_index(v, ci);
    lemma_find(v.block(parent_id).input_names(), name);
    lemma_attach_input(v, id, parent_id, name, is_shadow);
    let pb = v.block(parent_id);
    assert(at_place(pb, place) is None);
    // the graph while the block is attached
    let bound = v.with_side(parent_id, k, is_shadow, Some(id));
    lemma_with_block(v, pi, pb.with_input(k, pb.inputs[k].1.with_side(is_shadow, Some(id))));
    lemma_with_block(bound, bound.index_of(id), BlockView { parent_id: Some(parent_id), ..bound.block(id) });
    assert(a.blocks == bound.with_parent(id, Some(parent_id)).blocks);
    assert(a.ids() == v.ids());
    assert forall|c: Seq<char>| a.contains(c) == v.contains(c) && a.index_of(c) == v.index_of(c) by {}
    assert forall|j: int, p: Place| 0 <= j < n implies #[trigger] at_place(a.blocks[j].1, p) == (if j
        == pi && p == place {
        Some(id)
    } else {
        at_place(v.blocks[j].1, p)
    }) by {}
    assert forall|j: int| 0 <= j < n implies (#[trigger] a.blocks[j]).0 == v.blocks[j].0
        && same_frame(a.blocks[j].1, v.blocks[j].1) && a.blocks[j].1.parent_id == (if j == ci {
        Some(parent_id)
    } else {
        v.blocks[j].1.parent_id
    }) by {}
    lemma_index(a, ci);
    lemma_index(a, pi);
    assert(a.block(id).parent_id == Some(parent_id));
    assert(a.top_level == v.drop_top_level(id).top_level);
    if d.1 is Ok {
        let at = a.own_xy(id, a.blocks.len())->Ok_0;
        let loose = loosened(a, id);
        lemma_loosened(a, id);
        lemma_detach(a, id);
        // the block is held at the place it was attached to, and nowhere else
        assert(at_place(a.blocks[pi].1, place) == at_place(a.blocks[pi].1, place_of(a, id)));
        assert(place_of(a, id) == place);
        assert forall|j: int| 0 <= j < n implies (#[trigger] loose.blocks[j]).0 == v.blocks[j].0
            && loose.blocks[j].1.parent_id == v.blocks[j].1.parent_id && loose.blocks[j].1.next_id
            == v.blocks[j].1.next_id && loose.blocks[j].1.inputs == v.blocks[j].1.inputs by {
            assert(same_frame(loose.blocks[j].1, a.blocks[j].1));
            assert(same_frame(a.blocks[j].1, v.blocks[j].1));
            assert forall|p: Place| #[trigger] at_place(loose.blocks[j].1, p) == at_place(
                v.blocks[j].1,
                p,
            ) by {
                assert(at_place(loose.blocks[j].1, p) == (if j == pi && p == place {
                    None
                } else {
                    at_place(a.blocks[j].1, p)
                }));
            }
            lemma_same_inputs(loose.blocks[j].1, v.blocks[j].1);
        }
        assert(v.same_links(loose));
        lemma_same_links_trans(v, loose, d.0);
        lemma_same_ids(v, d.0);
        lemma_index(d.0, ci);
        lemma_index(d.0, pi);
        assert(d.0.block(parent_id).inputs == v.block(parent_id).inputs);
        assert(d.0.block(parent_id).input_names() =~= v.block(parent_id).input_names());
        // where the block ends up
        lemma_parentless_unheld(loose, id);
        let moved = loose.slide_to(id, at.0, at.1);
        lemma_slide_to_arrives(loose, id, at.0, at.1);
        let done = moved.0.sync(HostCallView::DetachBlock { id });
        assert(d.0 == done);
        assert(done.block(id) == moved.0.block(id));
    }
}


/// Chaining a parentless block after a block that nothing follows and
/// detaching it again restores the links of every block: the block is
/// top-level and without a parent again, nothing follows the other block,
/// and the block lies where the offsets placed it while it was chained.
pub proof fn lemma_chain_then_detach(v: RuntimeView, id: Seq<char>, parent_id: Seq<char>)
    requires
        v.linked(),
        v.can_attach_next(id, parent_id),
        v.block(id).parent_id is None,
    ensures
        ({
            let a = v.attach_next(id, parent_id);
            let d = a.detach(id);
            d.1 is Ok ==> {
                &&& v.same_links(d.0)
                &&& d.0.linked()
                &&& d.0.block(id).parent_id is None
                &&& d.0.block(parent_id).next_id is None
                &&& d.0.top_level == v.drop_top_level(id).top_level.push(id)
                &&& a.own_xy(id, a.blocks.len()) == Ok::<(i32, i32), ViiruError>(
                    (d.0.block(id).x, d.0.block(id).y),
                )
            }
        }),
{
    let a = v.attach_next(id, parent_id);
    let d = a.detach(id);
    let n = v.blocks.len() as int;
    let place = Place::Next;
    let pi = v.index_of(parent_id);
    let ci = v.index_of(id);
    lemma_contains(v, parent_id);
    lemma_contains(v, id);
    lemma_index(v, pi);
    lemma_index(v, ci);
    lemma_attach_next(v, id, parent_id);
    let pb = v.block(parent_id);
    assert(at_place(pb, place) is None);
    let chained = v.with_next(parent_id, Some(id));
    lemma_with_block(v, pi, BlockView { next_id: Some(id), ..pb });
    lemma_with_block(
        chained,
        chained.index_of(id),
        BlockView { parent_id: Some(parent_id), ..chained.block(id) },
    );
    assert(a.blocks == chained.with_parent(id, Some(parent_id)).blocks);
    assert(a.ids() == v.ids());
    assert forall|c: Seq<char>| a.contains(c) == v.contains(c) && a.index_of(c) == v.index_of(c) by {}
    assert forall|j: int, p: Place| 0 <= j < n implies #[trigger] at_place(a.blocks[j].1, p) == (if j
        == pi && p == place {
        Some(id)
    } else {
        at_place(v.blocks[j].1, p)
    }) by {}
    assert forall|j: int| 0 <= j < n implies (#[trigger] a.blocks[j]).0 == v.blocks[j].0
        && same_frame(a.blocks[j].1, v.blocks[j].1) && a.blocks[j].1.parent_id == (if j == ci {
        Some(parent_id)
    } else {
        v.blocks[j].1.parent_id
    }) by {}
    lemma_index(a, ci);
    lemma_index(a, pi);
    assert(a.block(id).parent_id == Some(parent_id));
    assert(a.top_level == v.drop_top_level(id).top_level);
    if d.1 is Ok {
        let at = a.own_xy(id, a.blocks.len())->Ok_0;
        let loose = loosened(a, id);
        lemma_loosened(a, id);
        lemma_detach(a, id);
        assert(at_place(a.blocks[pi].1, place) == at_place(a.blocks[pi].1, place_of(a, id)));
        assert(place_of(a, id) == place);
        assert forall|j: int| 0 <= j < n implies (#[trigger] loose.blocks[j]).0 == v.blocks[j].0
            && loose.blocks[j].1.parent_id == v.blocks[j].1.parent_id && loose.blocks[j].1.next_id
            == v.blocks[j].1.next_id && loose.blocks[j].1.inputs == v.blocks[j].1.inputs by {
            assert(same_frame(loose.blocks[j].1, a.blocks[j].1));
            assert(same_frame(a.blocks[j].1, v.blocks[j].1));
            assert forall|p: Place| #[trigger] at_place(loose.blocks[j].1, p) == at_place(
                v.blocks[j].1,
                p,
            ) by {
                assert(at_place(loose.blocks[j].1, p) == (if j == pi && p == place {
                    None
                } else {
                    at_place(a.blocks[j].1, p)
                }));
            }
            lemma_same_inputs(loose.blocks[j].1, v.blocks[j].1);
        }
        assert(v.same_links(loose));
        lemma_same_links_trans(v, loose, d.0);
        lemma_same_ids(v, d.0);
        lemma_index(d.0, ci);
        lemma_index(d.0, pi);
        lemma_parentless_unheld(loose, id);
        let moved = loose.slide_to(id, at.0, at.1);
        lemma_slide_to_arrives(loose, id, at.0, at.1);
        let done = moved.0.sync(HostCallView::DetachBlock { id });
        assert(d.0 == done);
        assert(done.block(id) == moved.0.block(id));
    }
}


/// What the inputs from index `from` on hold is what `input_children`
/// lists.
pub proof fn lemma_input_children(inputs: Seq<(Seq<char>, InputView)>, from: int, x: Seq<char>)
    requires
        0 <= from,
    ensures
        input_children(inputs, from).contains(x) <==> exists|k: int|
            from <= k < inputs.len() && ((#[trigger] inputs[k]).1.block_id == Some(x)
                || inputs[k].1.shadow_id == Some(x)),
    decreases inputs.len() - from,
{
    if from < inputs.len() {
        let actual = match inputs[from].1.block_id {
            Some(c) => seq![c],
            None => Seq::empty(),
        };
        let shadow = match inputs[from].1.shadow_id {
            Some(c) => seq![c],
            None => Seq::empty(),
        };
        let rest = input_children(inputs, from + 1);
        lemma_input_children(inputs, from + 1, x);
        let all = actual + shadow + rest;
        if all.contains(x) {
            let i = choose|i: int| 0 <= i < all.len() && all[i] == x;
            if i < actual.len() {
                assert(inputs[from].1.block_id == Some(x));
            } else if i < actual.len() + shadow.len() {
                assert(inputs[from].1.shadow_id == Some(x));
            } else {
                assert(rest[i - actual.len() - shadow.len()] == x);
                assert(rest.contains(x));
            }
        }
        if exists|k: int|
            from <= k < inputs.len() && ((#[trigger] inputs[k]).1.block_id == Some(x)
                || inputs[k].1.shadow_id == Some(x)) {
            let k = choose|k: int|
                from <= k < inputs.len() && ((#[trigger] inputs[k]).1.block_id == Some(x)
                    || inputs[k].1.shadow_id == Some(x));
            if k == from {
                if inputs[from].1.block_id == Some(x) {
                    assert(all[0] == x);
                } else {
                    assert(all[actual.len() as int] == x);
                }
            } else {
                assert(rest.contains(x));
                let i = choose|i: int| 0 <= i < rest.len() && rest[i] == x;
                assert(all[actual.len() + shadow.len() + i] == x);
            }
        }
    }
}

/// What a block holds at its places is what `children` lists.
pub proof fn lemma_children(b: BlockView, x: Seq<char>)
    ensures
        children(b).contains(x) <==> exists|p: Place| at_place(b, p) == Some(x),
{
    let ins = input_children(b.inputs, 0);
    let next = match b.next_id {
        Some(n) => seq![n],
        None => Seq::empty(),
    };
    lemma_input_children(b.inputs, 0, x);
    let all = ins + next;
    if all.contains(x) {
        let i = choose|i: int| 0 <= i < all.len() && all[i] == x;
        if i < ins.len() {
            assert(ins[i] == x);
            assert(ins.contains(x));
            let k = choose|k: int|
                0 <= k < b.inputs.len() && ((#[trigger] b.inputs[k]).1.block_id == Some(x)
                    || b.inputs[k].1.shadow_id == Some(x));
            if b.inputs[k].1.block_id == Some(x) {
                assert(at_place(b, Place::Real(k)) == Some(x));
            } else {
                assert(at_place(b, Place::Shadow(k)) == Some(x));
            }
        } else {
            assert(at_place(b, Place::Next) == Some(x));
        }
    }
    if exists|p: Place| at_place(b, p) == Some(x) {
        let p = choose|p: Place| at_place(b, p) == Some(x);
        match p {
            Place::Next => {
                assert(all[ins.len() as int] == x);
            },
            Place::Real(k) => {
                assert(b.inputs[k].1.block_id == Some(x));
                assert(ins.contains(x));
                let i = choose|i: int| 0 <= i < ins.len() && ins[i] == x;
                assert(all[i] == x);
            },
            Place::Shadow(k) => {
                assert(b.inputs[k].1.shadow_id == Some(x));
                assert(ins.contains(x));
                let i = choose|i: int| 0 <= i < ins.len() && ins[i] == x;
                assert(all[i] == x);
            },
        }
    }
}

/// The graph without the block at index `i`.
pub open spec fn without(v: RuntimeView, i: int) -> RuntimeView {
    RuntimeView { blocks: v.blocks.remove(i), ..v }
}

/// Taking a block out of the graph leaves the others as they are.
pub proof fn lemma_without(v: RuntimeView, i: int)
    requires
        v.ids().no_duplicates(),
        0 <= i < v.blocks.len(),
    ensures
        without(v, i).ids().no_duplicates(),
        without(v, i).blocks.len() == v.blocks.len() - 1,
        !without(v, i).contains(v.blocks[i].0),
        forall|x: Seq<char>|
            x != v.blocks[i].0 ==> (#[trigger] without(v, i).contains(x)) == v.contains(x),
        forall|x: Seq<char>|
            x != v.blocks[i].0 && v.contains(x) ==> #[trigger] without(v, i).block(x) == v.block(
                x,
            ),
        forall|j: int|
            0 <= j < v.blocks.len() - 1 ==> #[trigger] without(v, i).blocks[j] == v.blocks[if j
                < i {
                j
            } else {
                j + 1
            }],
{
    let w = without(v, i);
    let gone = v.blocks[i].0;
    assert forall|j: int| 0 <= j < v.blocks.len() - 1 implies #[trigger] w.blocks[j]
        == v.blocks[if j < i {
        j
    } else {
        j + 1
    }] by {}
    assert forall|a: int, b: int| 0 <= a < w.ids().len() && 0 <= b < w.ids().len() && a != b implies w.ids()[a]
        != w.ids()[b] by {
        let a2 = if a < i {
            a
        } else {
            a + 1
        };
        let b2 = if b < i {
            b
        } else {
            b + 1
        };
        assert(w.ids()[a] == v.ids()[a2]);
        assert(w.ids()[b] == v.ids()[b2]);
    }
    lemma_find(w.ids(), gone);
    if w.contains(gone) {
        let f = w.index_of(gone);
        let f2 = if f < i {
            f
        } else {
            f + 1
        };
        assert(w.ids()[f] == v.ids()[f2]);
        assert(v.ids()[i] == gone);
    }
    assert forall|x: Seq<char>| x != gone implies (#[trigger] w.contains(x)) == v.contains(x) by {
        lemma_find(w.ids(), x);
        lemma_find(v.ids(), x);
        if w.contains(x) {
            let f = w.index_of(x);
            let f2 = if f < i {
                f
            } else {
                f + 1
            };
            assert(w.ids()[f] == v.ids()[f2]);
            assert(v.ids()[f2] == x);
        }
        if v.contains(x) {
            let f = v.index_of(x);
            assert(v.ids()[f] == x);
            let f1 = if f < i {
                f
            } else {
                f - 1
            };
            assert(w.ids()[f1] == x);
        }
    }
    assert forall|x: Seq<char>| x != gone && v.contains(x) implies #[trigger] w.block(x)
        == v.block(x) by {
        lemma_contains(v, x);
        let f = v.index_of(x);
        let f1 = if f < i {
            f
        } else {
            f - 1
        };
        assert(w.blocks[f1] == v.blocks[f]);
        lemma_index(w, f1);
    }
}

/// What holds while blocks are being removed: the links of the blocks that
/// are left agree, but that a block whose parent is gone waits to be
/// removed itself, and no block that waits is held by any block.
pub open spec fn sound(v: RuntimeView, pending: Seq<Seq<char>>) -> bool {
    &&& v.ids().no_duplicates()
    &&& forall|j: int, p: Place, id: Seq<char>| #[trigger]
        v.refers(j, p, id) ==> v.contains(id) && v.block(id).parent_id == Some(v.blocks[j].0)
    &&& forall|j: int, p: Place, q: Place|
        0 <= j < v.blocks.len() && at_place(v.blocks[j].1, p) is Some && #[trigger] at_place(
            v.blocks[j].1,
            p,
        ) == #[trigger] at_place(v.blocks[j].1, q) ==> p == q
    &&& forall|i: int|
        0 <= i < v.blocks.len() && (#[trigger] v.blocks[i]).1.parent_id is Some ==> v.holds(
            v.blocks[i].1.parent_id->0,
            v.blocks[i].0,
        ) || (!v.contains(v.blocks[i].1.parent_id->0) && pending.contains(v.blocks[i].0))
    &&& forall|c: Seq<char>| #[trigger] pending.contains(c) && v.contains(c) ==> v.unheld(c)
}

/// A linked graph is sound to remove a block from that no block holds.
pub proof fn lemma_linked_sound(v: RuntimeView, id: Seq<char>)
    requires
        v.linked(),
        v.unheld(id),
    ensures
        sound(v, seq![id]),
{
    let pending = seq![id];
    assert forall|c: Seq<char>| #[trigger] pending.contains(c) && v.contains(c) implies v.unheld(
        c,
    ) by {
        assert(pending[0] == id);
    }
}

/// Removing the blocks that wait and all that they hold leaves a linked
/// graph: every block that waited is gone; every block that is left is as it
/// was; and what a block held that is gone is gone too.
pub proof fn lemma_delete_all(v: RuntimeView, pending: Seq<Seq<char>>)
    requires
        sound(v, pending),
    ensures
        ({
            let w = v.delete_all(pending);
            &&& w.linked()
            &&& w.top_level == v.top_level
            &&& forall|c: Seq<char>| #[trigger] pending.contains(c) ==> !w.contains(c)
            &&& forall|x: Seq<char>| #[trigger]
                w.contains(x) ==> v.contains(x) && w.block(x) == v.block(x)
            &&& forall|x: Seq<char>, p: Place|
                v.contains(x) && !w.contains(x) && (#[trigger] at_place(v.block(x), p)) is Some
                    ==> !w.contains(at_place(v.block(x), p)->0)
            &&& forall|x: Seq<char>|
                v.contains(x) && !(#[trigger] w.contains(x)) ==> pending.contains(x) || v.block(
                    x,
                ).parent_id is Some
        }),
    decreases v.blocks.len(), pending.len(),
{
    let w = v.delete_all(pending);
    if pending.len() == 0 {
        assert forall|i: int|
            0 <= i < v.blocks.len() && (#[trigger] v.blocks[i]).1.parent_id is Some implies v.holds(
            v.blocks[i].1.parent_id->0,
            v.blocks[i].0,
        ) by {
            assert(!pending.contains(v.blocks[i].0));
        }
        assert forall|c: Seq<char>| #[trigger] pending.contains(c) implies !w.contains(c) by {}
    } else {
        let id = pending.last();
        let rest = pending.drop_last();
        assert(pending.contains(id)) by {
            assert(pending[pending.len() - 1] == id);
        }
        assert forall|c: Seq<char>| pending.contains(c) && c != id implies rest.contains(c) by {
            let i = choose|i: int| 0 <= i < pending.len() && pending[i] == c;
            assert(rest[i] == c);
        }
        assert forall|c: Seq<char>| rest.contains(c) implies pending.contains(c) by {
            let i = choose|i: int| 0 <= i < rest.len() && rest[i] == c;
            assert(pending[i] == c);
        }
        if !v.contains(id) {
            assert(sound(v, rest)) by {
                assert forall|i: int|
                    0 <= i < v.blocks.len() && (#[trigger] v.blocks[i]).1.parent_id is Some implies v.holds(
                    v.blocks[i].1.parent_id->0,
                    v.blocks[i].0,
                ) || (!v.contains(v.blocks[i].1.parent_id->0) && rest.contains(v.blocks[i].0)) by {
                    lemma_index(v, i);
                }
                assert forall|c: Seq<char>| #[trigger] rest.contains(c) && v.contains(c) implies v.unheld(
                    c,
                ) by {
                    assert(pending.contains(c));
                }
            }
            lemma_delete_all(v, rest);
            assert forall|c: Seq<char>| #[trigger] pending.contains(c) implies !w.contains(c) by {
                if c != id {
                    assert(rest.contains(c));
                }
            }
            assert forall|x: Seq<char>| v.contains(x) && !(#[trigger] w.contains(x)) implies pending.contains(
                x,
            ) || v.block(x).parent_id is Some by {
                if rest.contains(x) {
                    assert(pending.contains(x));
                }
            }
        } else {
            let i = v.index_of(id);
            lemma_contains(v, id);
            lemma_index(v, i);
            let b = v.blocks[i].1;
            let u = without(v, i);
            let more = rest + children(b);
            lemma_without(v, i);
            assert(v.unheld(id));
            // how the indexes of the smaller graph map to the greater one
            assert forall|j: int, p: Place, c: Seq<char>| u.refers(j, p, c) implies v.refers(
                if j < i {
                    j
                } else {
                    j + 1
                },
                p,
                c,
            ) by {}
            assert forall|c: Seq<char>| more.contains(c) <==> rest.contains(c) || children(
                b,
            ).contains(c) by {
                if more.contains(c) {
                    let k = choose|k: int| 0 <= k < more.len() && more[k] == c;
                    if k < rest.len() {
                        assert(rest[k] == c);
                    } else {
                        assert(children(b)[k - rest.len()] == c);
                    }
                }
                if rest.contains(c) {
                    let k = choose|k: int| 0 <= k < rest.len() && rest[k] == c;
                    assert(more[k] == c);
                }
                if children(b).contains(c) {
                    let k = choose|k: int| 0 <= k < children(b).len() && children(b)[k] == c;
                    assert(more[rest.len() + k] == c);
                }
            }
            assert(sound(u, more)) by {
                assert forall|j: int, p: Place, c: Seq<char>| #[trigger] u.refers(j, p, c) implies u.contains(
                    c,
                ) && u.block(c).parent_id == Some(u.blocks[j].0) by {
                    let jv = if j < i {
                        j
                    } else {
                        j + 1
                    };
                    assert(v.refers(jv, p, c));
                    if c == id {
                        assert(!v.refers(jv, p, id));
                    }
                }
                assert forall|j: int, p: Place, q: Place|
                    0 <= j < u.blocks.len() && at_place(u.blocks[j].1, p) is Some
                        && #[trigger] at_place(u.blocks[j].1, p) == #[trigger] at_place(
                        u.blocks[j].1,
                        q,
                    ) implies p == q by {
                    let jv = if j < i {
                        j
                    } else {
                        j + 1
                    };
                    assert(at_place(v.blocks[jv].1, p) == at_place(v.blocks[jv].1, q));
                }
                assert forall|j: int|
                    0 <= j < u.blocks.len() && (#[trigger] u.blocks[j]).1.parent_id is Some implies u.holds(
                    u.blocks[j].1.parent_id->0,
                    u.blocks[j].0,
                ) || (!u.contains(u.blocks[j].1.parent_id->0) && more.contains(u.blocks[j].0)) by {
                    let jv = if j < i {
                        j
                    } else {
                        j + 1
                    };
                    let x = v.blocks[jv].0;
                    let pp = v.blocks[jv].1.parent_id->0;
                    lemma_index(v, jv);
                    assert(x != id);
                    if v.holds(pp, x) {
                        if pp == id {
                            lemma_children(b, x);
                            assert(children(b).contains(x));
                        } else {
                            assert(u.block(pp) == v.block(pp));
                            let p = choose|p: Place| at_place(v.block(pp), p) == Some(x);
                            assert(at_place(u.block(pp), p) == Some(x));
                        }
                    } else {
                        assert(pending.contains(x));
                        assert(rest.contains(x));
                    }
                }
                assert forall|c: Seq<char>| #[trigger] more.contains(c) && u.contains(c) implies u.unheld(
                    c,
                ) by {
                    assert forall|j: int, p: Place| !#[trigger] u.refers(j, p, c) by {
                        if u.refers(j, p, c) {
                            let jv = if j < i {
                                j
                            } else {
                                j + 1
                            };
                            assert(v.refers(jv, p, c));
                            if rest.contains(c) {
                                assert(pending.contains(c));
                                assert(v.unheld(c));
                            } else {
                                lemma_children(b, c);
                                let q = choose|q: Place| at_place(b, q) == Some(c);
                                assert(v.refers(i, q, c));
                                lemma_index(v, jv);
                            }
                        }
                    }
                }
            }
            lemma_delete_all(u, more);
            assert(w == u.delete_all(more));
            assert forall|c: Seq<char>| #[trigger] pending.contains(c) implies !w.contains(c) by {
                if c != id {
                    assert(rest.contains(c));
                    assert(more.contains(c));
                } else {
                    if w.contains(id) {
                        assert(u.contains(id));
                    }
                }
            }
            assert forall|x: Seq<char>| #[trigger] w.contains(x) implies v.contains(x) && w.block(
                x,
            ) == v.block(x) by {
                assert(u.contains(x));
            }
            assert forall|x: Seq<char>, p: Place|
                v.contains(x) && !w.contains(x) && (#[trigger] at_place(v.block(x), p)) is Some implies !w.contains(
                at_place(v.block(x), p)->0,
            ) by {
                let c = at_place(v.block(x), p)->0;
                if x == id {
                    lemma_children(b, c);
                    assert(more.contains(c));
                } else {
                    assert(u.contains(x) && u.block(x) == v.block(x));
                }
            }
            assert forall|x: Seq<char>| v.contains(x) && !(#[trigger] w.contains(x)) implies pending.contains(
                x,
            ) || v.block(x).parent_id is Some by {
                if x != id {
                    assert(u.contains(x) && u.block(x) == v.block(x));
                    if rest.contains(x) {
                        assert(pending.contains(x));
                    } else if children(b).contains(x) {
                        lemma_children(b, x);
                        let q = choose|q: Place| at_place(b, q) == Some(x);
                        assert(v.refers(i, q, x));
                    }
                }
            }
        }
    }
}


/// Removing blocks changes neither the toolbox nor the templates.
pub proof fn lemma_delete_all_tops(v: RuntimeView, pending: Seq<Seq<char>>)
    ensures
        v.delete_all(pending).toolbox == v.toolbox,
        v.delete_all(pending).specs == v.specs,
    decreases v.blocks.len(), pending.len(),
{
    if pending.len() > 0 {
        let id = pending.last();
        let rest = pending.drop_last();
        if !v.contains(id) {
            lemma_delete_all_tops(v, rest);
        } else {
            let i = v.index_of(id);
            lemma_find(v.ids(), id);
            lemma_delete_all_tops(without(v, i), rest + children(v.blocks[i].1));
        }
    }
}

/// Whether each block of `way` holds the block after it.
pub open spec fn is_way(v: RuntimeView, way: Seq<Seq<char>>) -> bool {
    forall|i: int| 0 <= i < way.len() - 1 ==> #[trigger] v.holds(way[i], way[i + 1])
}

/// Deleting a block leaves a linked graph, in which no block holds a block
/// that is gone. The block itself is gone; what a block held that is gone is
/// gone too; and the blocks that are left hold what they held, but that the
/// parent of the deleted block holds it no more.
pub proof fn lemma_delete(v: RuntimeView, id: Seq<char>)
    requires
        v.linked(),
        v.contains(id),
        v.delete(id).1 is Ok,
    ensures
        ({
            let w = v.delete(id).0;
            &&& w.linked()
            &&& !w.contains(id)
            &&& forall|x: Seq<char>| #[trigger] w.contains(x) ==> v.contains(x)
            &&& forall|x: Seq<char>| #[trigger]
                w.contains(x) ==> w.block(x) == v.detach(id).0.block(x)
            &&& forall|x: Seq<char>|
                v.contains(x) && !(#[trigger] w.contains(x)) ==> x == id || v.detach(id).0.block(
                    x,
                ).parent_id is Some
            &&& w.top_level == v.detach(id).0.drop_top_level(id).top_level
            &&& w.toolbox == v.toolbox
            &&& forall|x: Seq<char>, p: Place|
                v.contains(x) && !w.contains(x) && (#[trigger] at_place(v.block(x), p)) is Some
                    ==> !w.contains(at_place(v.block(x), p)->0)
            &&& forall|j: int, p: Place, c: Seq<char>| #[trigger]
                w.refers(j, p, c) ==> w.contains(c)
        }),
{
    let loose = v.detach(id);
    let d = loose.0;
    let w = v.delete(id).0;
    lemma_detach(v, id);
    lemma_loosened(v, id);
    let l = loosened(v, id);
    lemma_same_ids(l, d);
    lemma_same_ids(v, l);
    lemma_contains(v, id);
    let ci = v.index_of(id);
    lemma_index(d, ci);
    lemma_index(l, ci);
    assert(d.block(id).parent_id is None);
    lemma_parentless_unheld(d, id);
    let dropped = d.drop_top_level(id);
    assert(dropped.blocks == d.blocks);
    assert(d.same_links(dropped));
    lemma_same_links(d, dropped);
    lemma_unheld_same_links(d, dropped, id);
    lemma_linked_sound(dropped, id);
    let pending = seq![id];
    lemma_delete_all(dropped, pending);
    let gone = dropped.delete_all(pending);
    assert(pending.contains(id)) by {
        assert(pending[0] == id);
    }
    assert(w.blocks == gone.blocks);
    assert(gone.same_links(w));
    lemma_same_links(gone, w);
    lemma_same_ids(gone, w);
    assert forall|x: Seq<char>| #[trigger] w.contains(x) implies v.contains(x) by {
        assert(gone.contains(x));
        assert(dropped.contains(x));
    }
    assert forall|x: Seq<char>| #[trigger] w.contains(x) implies w.block(x) == d.block(x) by {
        assert(gone.contains(x));
        assert(gone.block(x) == dropped.block(x));
    }
    assert forall|x: Seq<char>| v.contains(x) && !(#[trigger] w.contains(x)) implies x == id
        || d.block(x).parent_id is Some by {
        assert(dropped.contains(x));
        assert(!gone.contains(x));
        if pending.contains(x) {
            assert(pending[0] == id);
        }
        assert(dropped.block(x) == d.block(x));
    }
    lemma_delete_all_tops(dropped, pending);
    crate::soundness::lemma_detach_shapes(v, id);
    assert(gone.top_level == dropped.top_level);
    assert(w.top_level == gone.top_level);
    assert(w.toolbox == gone.toolbox);
    assert(gone.toolbox == dropped.toolbox);
    assert(dropped.toolbox == d.toolbox);
    assert forall|x: Seq<char>, p: Place|
        v.contains(x) && !w.contains(x) && (#[trigger] at_place(v.block(x), p)) is Some implies !w.contains(
        at_place(v.block(x), p)->0,
    ) by {
        let c = at_place(v.block(x), p)->0;
        lemma_contains(v, x);
        let xi = v.index_of(x);
        lemma_index(v, xi);
        lemma_index(l, xi);
        lemma_index(d, xi);
        assert(dropped.contains(x) && !gone.contains(x));
        // what the block held before the detaching it holds after it, but
        // for the deleted block itself
        if c != id {
            assert(at_place(l.blocks[xi].1, p) == at_place(v.blocks[xi].1, p)) by {
                if v.block(id).parent_id is Some {
                    if xi == v.index_of(v.block(id).parent_id->0) && p == place_of(v, id) {
                        lemma_unlink(v, id);
                    }
                }
            }
            assert(at_place(d.blocks[xi].1, p) == at_place(l.blocks[xi].1, p));
            assert(at_place(dropped.block(x), p) == Some(c));
        }
    }
    assert forall|j: int, p: Place, c: Seq<char>| #[trigger] w.refers(j, p, c) implies w.contains(
        c,
    ) by {}
}

/// Deleting a block removes every block that is reached from it through the
/// blocks that blocks hold.
pub proof fn lemma_delete_cascades(v: RuntimeView, id: Seq<char>, way: Seq<Seq<char>>, k: int)
    requires
        v.linked(),
        v.contains(id),
        v.delete(id).1 is Ok,
        is_way(v, way),
        0 <= k < way.len(),
        way[0] == id,
    ensures
        !v.delete(id).0.contains(way[k]),
    decreases k,
{
    lemma_delete(v, id);
    if k > 0 {
        lemma_delete_cascades(v, id, way, k - 1);
        let from = way[k - 1];
        assert(v.holds(from, way[k - 1 + 1]));
        let p = choose|p: Place| at_place(v.block(from), p) == Some(way[k]);
        assert(at_place(v.block(from), p) is Some);
    }
}

} // verus!
