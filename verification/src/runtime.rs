//! The editor's state and the mutation engine: the only code that changes the
//! block graph. Every edit that the host must learn of is recorded in the
//! outbox, in the order in which it was made.

use vstd::prelude::*;
use vstd::string::*;
use crate::block::{Block, BlockView, Field, FieldView, Input, InputView, inputs_view, fields_view};
use crate::bridge::{HostCall, HostCallView, calls_view};
use crate::result::{ViiruError, minus, plus, sum};
use crate::spec::{DefaultValue, DefaultValueView, Fragment, FragmentView, Spec, SpecView};
use crate::opcodes::{is_number_ish, number_ish, toolbox, toolbox_opcodes};
use crate::ui::{Accumulators, AccumulatorsView, mark_at, find_mark, lemma_mark_at};
use crate::util::{rgb_string, rgb_text, str_eq};
use crate::table::{find, occurs, keys, lemma_find, opt_text, position, position_text, texts};
use crate::ui::{Mark, MarkView, Span, SpanView, marks_view, spans_view};
use crate::util::{decimal_string, decimal_text};
use crate::cycles::{acyclic, lemma_attach_input_acyclic, lemma_attach_next_acyclic};
use crate::graph::{lemma_attach_input, lemma_attach_next};
use crate::reach::reached;

verus! {

#[derive(Clone, Copy, Debug)]
pub struct Viewport {
    pub x_min: i32,
    /// exclusive
    pub x_max: i32,
    pub y_min: i32,
    /// exclusive
    pub y_max: i32,
}

impl Viewport {
    pub fn width(&self) -> (w: i32)
        requires
            i32::MIN <= self.x_max - self.x_min <= i32::MAX,
        ensures
            w == self.x_max - self.x_min,
    {
        self.x_max - self.x_min
    }

    pub fn height(&self) -> (h: i32)
        requires
            i32::MIN <= self.y_max - self.y_min <= i32::MAX,
        ensures
            h == self.y_max - self.y_min,
    {
        self.y_max - self.y_min
    }
}

/// The mode that decides what a key does.
#[derive(Clone, Copy, PartialEq, Eq, Structural, Debug)]
pub enum State {
    /// The cursor moves over the canvas.
    Move,
    /// A block is held and follows the cursor.
    Hold,
    /// The cursor moves over the toolbox.
    Toolbox,
    /// A path is typed for opening or saving.
    Command,
    /// One editable field is typed into.
    Inline,
}

pub struct Runtime {
    // internals
    pub next_usable_id: usize,
    pub do_sync: bool,
    pub state: State,
    pub is_dirty: bool,
    // ui
    pub viewport: Viewport,
    pub window_cols: u16,
    pub window_rows: u16,
    pub scroll_x: i32,
    pub scroll_y: i32,
    pub cursor_x: i32,
    pub cursor_y: i32,
    pub toolbox_cursor: usize,
    pub toolbox_scroll: usize,
    pub toolbox_visible_max: usize,
    pub last_command: char,
    pub command_buffer: String,
    pub status_message: String,
    pub editing_shadow: String,
    // constant data
    pub viewport_offset_x: i32,
    pub viewport_offset_y: i32,
    pub toolbox_width: i32,
    pub status_height: i32,
    pub toolbox: Vec<String>,
    pub specs: Vec<(String, Spec)>,
    // ephemeral data
    pub block_positions: Vec<Span>,
    pub cursor_block: Option<String>,
    pub drop_points: Vec<Mark>,
    pub writable_points: Vec<Span>,
    // synchronized data
    pub blocks: Vec<(String, Block)>,
    pub top_level: Vec<String>,
    pub variables: Vec<(String, String)>,
    pub lists: Vec<(String, String)>,
    pub broadcasts: Vec<(String, String)>,
    /// The host calls that mirror the edits made so far and not yet sent.
    pub outbox: Vec<HostCall>,
}

#[verifier::ext_equal]
pub struct RuntimeView {
    pub next_usable_id: usize,
    pub do_sync: bool,
    pub state: State,
    pub is_dirty: bool,
    pub viewport: Viewport,
    pub window_cols: u16,
    pub window_rows: u16,
    pub scroll_x: i32,
    pub scroll_y: i32,
    pub cursor_x: i32,
    pub cursor_y: i32,
    pub toolbox_cursor: usize,
    pub toolbox_scroll: usize,
    pub toolbox_visible_max: usize,
    pub last_command: char,
    pub command_buffer: Seq<char>,
    pub status_message: Seq<char>,
    pub editing_shadow: Seq<char>,
    pub viewport_offset_x: i32,
    pub viewport_offset_y: i32,
    pub toolbox_width: i32,
    pub status_height: i32,
    pub toolbox: Seq<Seq<char>>,
    pub specs: Seq<(Seq<char>, SpecView)>,
    pub block_positions: Seq<SpanView>,
    pub cursor_block: Option<Seq<char>>,
    pub drop_points: Seq<MarkView>,
    pub writable_points: Seq<SpanView>,
    pub blocks: Seq<(Seq<char>, BlockView)>,
    pub top_level: Seq<Seq<char>>,
    pub variables: Seq<(Seq<char>, Seq<char>)>,
    pub lists: Seq<(Seq<char>, Seq<char>)>,
    pub broadcasts: Seq<(Seq<char>, Seq<char>)>,
    pub outbox: Seq<HostCallView>,
}

/// The views of the blocks of a graph, each under its id.
pub open spec fn blocks_view(blocks: Seq<(String, Block)>) -> Seq<(Seq<char>, BlockView)> {
    Seq::new(blocks.len(), |i: int| (blocks[i].0@, blocks[i].1@))
}

/// The views of the templates of a table, each under its opcode.
pub open spec fn specs_view(specs: Seq<(String, Spec)>) -> Seq<(Seq<char>, SpecView)> {
    Seq::new(specs.len(), |i: int| (specs[i].0@, specs[i].1@))
}

/// The views of a list of named texts.
pub open spec fn pairs_view(pairs: Seq<(String, String)>) -> Seq<(Seq<char>, Seq<char>)> {
    Seq::new(pairs.len(), |i: int| (pairs[i].0@, pairs[i].1@))
}

impl View for Runtime {
    type V = RuntimeView;

    open spec fn view(&self) -> RuntimeView {
        RuntimeView {
            next_usable_id: self.next_usable_id,
            do_sync: self.do_sync,
            state: self.state,
            is_dirty: self.is_dirty,
            viewport: self.viewport,
            window_cols: self.window_cols,
            window_rows: self.window_rows,
            scroll_x: self.scroll_x,
            scroll_y: self.scroll_y,
            cursor_x: self.cursor_x,
            cursor_y: self.cursor_y,
            toolbox_cursor: self.toolbox_cursor,
            toolbox_scroll: self.toolbox_scroll,
            toolbox_visible_max: self.toolbox_visible_max,
            last_command: self.last_command,
            command_buffer: self.command_buffer@,
            status_message: self.status_message@,
            editing_shadow: self.editing_shadow@,
            viewport_offset_x: self.viewport_offset_x,
            viewport_offset_y: self.viewport_offset_y,
            toolbox_width: self.toolbox_width,
            status_height: self.status_height,
            toolbox: texts(self.toolbox@),
            specs: specs_view(self.specs@),
            block_positions: spans_view(self.block_positions@),
            cursor_block: opt_text(self.cursor_block),
            drop_points: marks_view(self.drop_points@),
            writable_points: spans_view(self.writable_points@),
            blocks: blocks_view(self.blocks@),
            top_level: texts(self.top_level@),
            variables: pairs_view(self.variables@),
            lists: pairs_view(self.lists@),
            broadcasts: pairs_view(self.broadcasts@),
            outbox: calls_view(self.outbox@),
        }
    }
}

/// The id that the number `n` gives.
pub open spec fn id_text(n: nat) -> Seq<char> {
    "viiru-"@ + decimal_text(n)
}

/// The least number from `n` up whose id is not among `ids`; `usize::MAX`
/// where every number below `usize::MAX` is taken.
pub open spec fn first_free(ids: Seq<Seq<char>>, n: nat) -> nat
    decreases usize::MAX - n,
{
    if n >= usize::MAX {
        usize::MAX as nat
    } else if !occurs(ids, id_text(n)) {
        n
    } else {
        first_free(ids, n + 1)
    }
}

/// The greatest number from `n` down whose id is not among `ids`.
pub open spec fn last_free(ids: Seq<Seq<char>>, n: nat) -> Option<nat>
    decreases n,
{
    if !occurs(ids, id_text(n)) {
        Some(n)
    } else if n == 0 {
        None
    } else {
        last_free(ids, (n - 1) as nat)
    }
}

/// An input that holds nothing.
pub open spec fn empty_input() -> InputView {
    InputView { shadow_id: None, block_id: None }
}

/// A field without text or link.
pub open spec fn empty_field() -> FieldView {
    FieldView { text: Seq::empty(), id: None }
}

/// The names of a list of named entries.
pub open spec fn names<V>(entries: Seq<(Seq<char>, V)>) -> Seq<Seq<char>> {
    Seq::new(entries.len(), |i: int| entries[i].0)
}

/// `acc` with an empty input for the slot that `frag` opens, unless `frag`
/// opens none or `acc` has one of that name.
pub open spec fn add_slot(acc: Seq<(Seq<char>, InputView)>, frag: FragmentView) -> Seq<
    (Seq<char>, InputView),
> {
    match frag.slot_name() {
        Some(n) => if occurs(names(acc), n) {
            acc
        } else {
            acc.push((n, empty_input()))
        },
        None => acc,
    }
}

/// `acc` with an empty field for the field that `frag` shows, unless `frag`
/// shows none or `acc` has one of that name.
pub open spec fn add_field(acc: Seq<(Seq<char>, FieldView)>, frag: FragmentView) -> Seq<
    (Seq<char>, FieldView),
> {
    match frag.field_name() {
        Some(n) => if occurs(names(acc), n) {
            acc
        } else {
            acc.push((n, empty_field()))
        },
        None => acc,
    }
}

/// `acc` extended by the slots of `line` from index `from` on.
pub open spec fn slots_of_line(
    line: Seq<FragmentView>,
    from: int,
    acc: Seq<(Seq<char>, InputView)>,
) -> Seq<(Seq<char>, InputView)>
    decreases line.len() - from,
{
    if from < 0 || from >= line.len() {
        acc
    } else {
        slots_of_line(line, from + 1, add_slot(acc, line[from]))
    }
}

/// `acc` extended by the slots of the lines from index `from` on.
pub open spec fn slots_of_lines(
    lines: Seq<Seq<FragmentView>>,
    from: int,
    acc: Seq<(Seq<char>, InputView)>,
) -> Seq<(Seq<char>, InputView)>
    decreases lines.len() - from,
{
    if from < 0 || from >= lines.len() {
        acc
    } else {
        slots_of_lines(lines, from + 1, slots_of_line(lines[from], 0, acc))
    }
}

/// `acc` extended by the fields of `line` from index `from` on.
pub open spec fn fields_of_line(
    line: Seq<FragmentView>,
    from: int,
    acc: Seq<(Seq<char>, FieldView)>,
) -> Seq<(Seq<char>, FieldView)>
    decreases line.len() - from,
{
    if from < 0 || from >= line.len() {
        acc
    } else {
        fields_of_line(line, from + 1, add_field(acc, line[from]))
    }
}

/// `acc` extended by the fields of the lines from index `from` on.
pub open spec fn fields_of_lines(
    lines: Seq<Seq<FragmentView>>,
    from: int,
    acc: Seq<(Seq<char>, FieldView)>,
) -> Seq<(Seq<char>, FieldView)>
    decreases lines.len() - from,
{
    if from < 0 || from >= lines.len() {
        acc
    } else {
        fields_of_lines(lines, from + 1, fields_of_line(lines[from], 0, acc))
    }
}

/// A fresh block of `opcode`: at the origin, unlinked, with one empty input
/// for each slot of the template and one empty field for each of its fields.
pub open spec fn new_block(spec: SpecView, opcode: Seq<char>) -> BlockView {
    BlockView {
        x: 0,
        y: 0,
        offset_x: 0,
        offset_y: 0,
        opcode,
        parent_id: None,
        next_id: None,
        inputs: slots_of_lines(spec.lines, 0, Seq::empty()),
        fields: fields_of_lines(spec.lines, 0, Seq::empty()),
    }
}

impl RuntimeView {
    /// The ids of the blocks, in the order in which the graph holds them.
    pub open spec fn ids(self) -> Seq<Seq<char>> {
        names(self.blocks)
    }

    /// The index of the block `id`, or the number of blocks.
    pub open spec fn index_of(self, id: Seq<char>) -> int {
        find(self.ids(), id)
    }

    pub open spec fn contains(self, id: Seq<char>) -> bool {
        self.index_of(id) < self.blocks.len()
    }

    /// The block `id`; arbitrary where there is none.
    pub open spec fn block(self, id: Seq<char>) -> BlockView {
        self.blocks[self.index_of(id)].1
    }

    /// The index of the template of `opcode`, or the number of templates.
    pub open spec fn spec_index(self, opcode: Seq<char>) -> int {
        find(names(self.specs), opcode)
    }

    pub open spec fn has_spec(self, opcode: Seq<char>) -> bool {
        self.spec_index(opcode) < self.specs.len()
    }

    /// The template of `opcode`; arbitrary where there is none.
    pub open spec fn spec_of(self, opcode: Seq<char>) -> SpecView {
        self.specs[self.spec_index(opcode)].1
    }

    /// This state with the block at index `i` replaced.
    pub open spec fn with_block(self, i: int, block: BlockView) -> RuntimeView {
        RuntimeView { blocks: self.blocks.update(i, (self.blocks[i].0, block)), ..self }
    }

    /// This state after `call` was recorded for the host, where edits are
    /// mirrored at all.
    pub open spec fn sync(self, call: HostCallView) -> RuntimeView {
        if self.do_sync {
            RuntimeView { is_dirty: true, outbox: self.outbox.push(call), ..self }
        } else {
            self
        }
    }

    /// The id that the next block gets: the first free one counting up from
    /// the counter where edits are mirrored, else the first free one counting
    /// down from the greatest number. `None` where no number is left.
    pub open spec fn fresh_id(self) -> Option<Seq<char>> {
        if self.do_sync {
            let n = first_free(self.ids(), self.next_usable_id as nat);
            if n < usize::MAX {
                Some(id_text(n))
            } else {
                None
            }
        } else {
            match last_free(self.ids(), usize::MAX as nat) {
                Some(n) => Some(id_text(n)),
                None => None,
            }
        }
    }

    /// This state after `fresh_id` was handed out.
    pub open spec fn after_fresh_id(self) -> RuntimeView {
        if self.do_sync {
            RuntimeView {
                next_usable_id: (first_free(self.ids(), self.next_usable_id as nat) + 1) as usize,
                ..self
            }
        } else {
            self
        }
    }

    /// This state after a block of `opcode` was made under `fresh_id`.
    pub open spec fn create_single_block(self, opcode: Seq<char>) -> RuntimeView {
        let id = self.fresh_id()->0;
        let spec = self.spec_of(opcode);
        let next = self.after_fresh_id();
        RuntimeView {
            blocks: self.blocks.push((id, new_block(spec, opcode))),
            top_level: self.top_level.push(id),
            ..next
        }.sync(HostCallView::CreateBlock { opcode, is_shadow: spec.is_shadow, id })
    }

    /// This state after the field `name` of block `id` got `text` and the link
    /// `data_id`. A block without such a field stays as it is; the host is told
    /// either way. Without such a block nothing happens.
    pub open spec fn set_field(
        self,
        id: Seq<char>,
        name: Seq<char>,
        text: Seq<char>,
        data_id: Option<Seq<char>>,
    ) -> RuntimeView {
        if !self.contains(id) {
            self
        } else {
            let i = self.index_of(id);
            let b = self.blocks[i].1;
            let b1 = if b.has_field(name) {
                b.with_field(b.field_index(name), FieldView { text, id: data_id })
            } else {
                b
            };
            self.with_block(i, b1).sync(
                HostCallView::ChangeField { block_id: id, field: name, text, data_id },
            )
        }
    }

    /// This state without the first occurrence of `id` among the top-level
    /// blocks.
    pub open spec fn remove_top_level(self, id: Seq<char>) -> RuntimeView {
        RuntimeView { top_level: self.top_level.remove(find(self.top_level, id)), ..self }
    }
}

/// The slot that the fragment opens, where it opens one.
fn slot_name(frag: &Fragment) -> (r: Option<&String>)
    ensures
        match r {
            Some(s) => frag@.slot_name() == Some(s@),
            None => frag@.slot_name() is None,
        },
{
    match frag {
        Fragment::StrumberInput(s, _) => Some(s),
        Fragment::BooleanInput(s) => Some(s),
        Fragment::BlockInput(s) => Some(s),
        _ => None,
    }
}

/// The field that the fragment shows, where it shows one.
fn field_name(frag: &Fragment) -> (r: Option<&String>)
    ensures
        match r {
            Some(s) => frag@.field_name() == Some(s@),
            None => frag@.field_name() is None,
        },
{
    match frag {
        Fragment::FieldText(s) => Some(s),
        Fragment::WritableFieldText(s) => Some(s),
        Fragment::CustomColour(s) => Some(s),
        Fragment::Dropdown(s, _) => Some(s),
        _ => None,
    }
}

/// One empty input for each slot of the template, in the template's order.
fn empty_inputs(spec: &Spec) -> (r: Vec<(String, Input)>)
    ensures
        inputs_view(r@) == slots_of_lines(spec@.lines, 0, Seq::empty()),
{
    let mut r: Vec<(String, Input)> = Vec::new();
    assert(inputs_view(r@) =~= Seq::empty());
    let mut l: usize = 0;
    while l < spec.lines.len()
        invariant
            l <= spec.lines.len(),
            slots_of_lines(spec@.lines, l as int, inputs_view(r@)) == slots_of_lines(
                spec@.lines,
                0,
                Seq::empty(),
            ),
        decreases spec.lines.len() - l,
    {
        let line = &spec.lines[l];
        let mut f: usize = 0;
        while f < line.len()
            invariant
                l < spec.lines.len(),
                line == spec.lines@[l as int],
                f <= line.len(),
                slots_of_lines(
                    spec@.lines,
                    l as int + 1,
                    slots_of_line(spec@.lines[l as int], f as int, inputs_view(r@)),
                ) == slots_of_lines(spec@.lines, 0, Seq::empty()),
            decreases line.len() - f,
        {
            let ghost before = inputs_view(r@);
            assert(spec@.lines[l as int][f as int] == line@[f as int]@);
            match slot_name(&line[f]) {
                Some(name) => {
                    let i = position(&r, name.as_str());
                    assert(keys(r@) =~= names(before));
                    if i >= r.len() {
                        r.push((name.clone(), Input { shadow_id: None, block_id: None }));
                        assert(inputs_view(r@) =~= before.push((name@, empty_input())));
                    }
                },
                None => {},
            }
            f += 1;
        }
        l += 1;
    }
    r
}

/// One empty field for each field of the template, in the template's order.
fn empty_fields(spec: &Spec) -> (r: Vec<(String, Field)>)
    ensures
        fields_view(r@) == fields_of_lines(spec@.lines, 0, Seq::empty()),
{
    let mut r: Vec<(String, Field)> = Vec::new();
    assert(fields_view(r@) =~= Seq::empty());
    let mut l: usize = 0;
    while l < spec.lines.len()
        invariant
            l <= spec.lines.len(),
            fields_of_lines(spec@.lines, l as int, fields_view(r@)) == fields_of_lines(
                spec@.lines,
                0,
                Seq::empty(),
            ),
        decreases spec.lines.len() - l,
    {
        let line = &spec.lines[l];
        let mut f: usize = 0;
        while f < line.len()
            invariant
                l < spec.lines.len(),
                line == spec.lines@[l as int],
                f <= line.len(),
                fields_of_lines(
                    spec@.lines,
                    l as int + 1,
                    fields_of_line(spec@.lines[l as int], f as int, fields_view(r@)),
                ) == fields_of_lines(spec@.lines, 0, Seq::empty()),
            decreases line.len() - f,
        {
            let ghost before = fields_view(r@);
            assert(spec@.lines[l as int][f as int] == line@[f as int]@);
            match field_name(&line[f]) {
                Some(name) => {
                    let i = position(&r, name.as_str());
                    assert(keys(r@) =~= names(before));
                    if i >= r.len() {
                        r.push((name.clone(), Field { text: String::new(), id: None }));
                        assert(fields_view(r@) =~= before.push((name@, empty_field())));
                    }
                },
                None => {},
            }
            f += 1;
        }
        l += 1;
    }
    r
}

impl Runtime {
    pub fn is_dirty(&self) -> (r: bool)
        ensures
            r == self@.is_dirty,
    {
        self.is_dirty
    }

    /// The index of the block `id`, or the number of blocks.
    pub fn index_of(&self, id: &str) -> (i: usize)
        ensures
            i == self@.index_of(id@),
            i <= self.blocks.len(),
            i < self.blocks.len() ==> self.blocks@[i as int].0@ == id@,
    {
        proof {
            assert(keys(self.blocks@) =~= self@.ids());
        }
        position(&self.blocks, id)
    }

    pub fn contains(&self, id: &str) -> (r: bool)
        ensures
            r == self@.contains(id@),
    {
        self.index_of(id) < self.blocks.len()
    }

    /// The index of the template of `opcode`, or the number of templates.
    pub fn spec_index(&self, opcode: &str) -> (i: usize)
        ensures
            i == self@.spec_index(opcode@),
            i <= self.specs.len(),
    {
        proof {
            assert(keys(self.specs@) =~= names(self@.specs));
        }
        position(&self.specs, opcode)
    }

    pub fn has_spec(&self, opcode: &str) -> (r: bool)
        ensures
            r == self@.has_spec(opcode@),
    {
        self.spec_index(opcode) < self.specs.len()
    }

    /// Records `call` for the host.
    fn record(&mut self, call: HostCall)
        requires
            old(self).do_sync,
        ensures
            final(self)@ == old(self)@.sync(call@),
    {
        self.is_dirty = true;
        self.outbox.push(call);
        assert(final(self)@.outbox =~= old(self)@.outbox.push(call@));
    }

    /// Hands out the id of the first free number from the counter up, and
    /// moves the counter past it.
    pub fn generate_id(&mut self) -> (r: Result<String, ViiruError>)
        ensures
            match r {
                Ok(id) => {
                    let n = first_free(old(self)@.ids(), old(self)@.next_usable_id as nat);
                    &&& n < usize::MAX
                    &&& id@ == id_text(n)
                    &&& final(self)@ == RuntimeView {
                        next_usable_id: (n + 1) as usize,
                        ..old(self)@
                    }
                },
                Err(e) => {
                    &&& e == ViiruError::IdsExhausted
                    &&& first_free(old(self)@.ids(), old(self)@.next_usable_id as nat)
                        >= usize::MAX
                    &&& final(self)@ == old(self)@
                },
            },
    {
        let mut n: usize = self.next_usable_id;
        while n < usize::MAX
            invariant
                *self == *old(self),
                first_free(self@.ids(), n as nat) == first_free(
                    self@.ids(),
                    self@.next_usable_id as nat,
                ),
            decreases usize::MAX - n,
        {
            let id = make_id(n);
            if !self.contains(id.as_str()) {
                self.next_usable_id = n + 1;
                return Ok(id);
            }
            n += 1;
        }
        Err(ViiruError::IdsExhausted)
    }

    /// The id of the first free number from the greatest down.
    pub fn generate_fake_id(&self) -> (r: Result<String, ViiruError>)
        ensures
            match r {
                Ok(id) => last_free(self@.ids(), usize::MAX as nat) matches Some(n) && id@
                    == id_text(n),
                Err(e) => e == ViiruError::IdsExhausted && last_free(
                    self@.ids(),
                    usize::MAX as nat,
                ) is None,
            },
    {
        let mut n: usize = usize::MAX;
        loop
            invariant
                last_free(self@.ids(), n as nat) == last_free(self@.ids(), usize::MAX as nat),
            decreases n,
        {
            let id = make_id(n);
            if !self.contains(id.as_str()) {
                return Ok(id);
            }
            if n == 0 {
                return Err(ViiruError::IdsExhausted);
            }
            n -= 1;
        }
    }

    /// Takes the first occurrence of `id` out of the top-level blocks.
    pub fn remove_top_level(&mut self, id: &str)
        requires
            occurs(old(self)@.top_level, id@),
        ensures
            final(self)@ == old(self)@.remove_top_level(id@),
    {
        let i = position_text(&self.top_level, id);
        self.top_level.remove(i);
        assert(final(self)@.top_level =~= old(self)@.top_level.remove(i as int));
    }

    /// Makes one block of `opcode`: unlinked, top-level, at the origin, with
    /// empty inputs and fields as the template names them. Returns its id.
    pub fn create_single_block(&mut self, opcode: &str) -> (r: Result<String, ViiruError>)
        requires
            old(self)@.has_spec(opcode@),
        ensures
            match r {
                Ok(id) => old(self)@.fresh_id() == Some(id@) && final(self)@ == old(
                    self,
                )@.create_single_block(opcode@),
                Err(e) => e == ViiruError::IdsExhausted && old(self)@.fresh_id() is None
                    && final(self)@ == old(self)@,
            },
    {
        let s = self.spec_index(opcode);
        let id = if self.do_sync {
            match self.generate_id() {
                Ok(id) => id,
                Err(e) => {
                    return Err(e);
                },
            }
        } else {
            match self.generate_fake_id() {
                Ok(id) => id,
                Err(e) => {
                    return Err(e);
                },
            }
        };
        let ghost mid = self@;
        assert(mid == old(self)@.after_fresh_id());
        let is_shadow = self.specs[s].1.is_shadow;
        let inputs = empty_inputs(&self.specs[s].1);
        let fields = empty_fields(&self.specs[s].1);
        let block = Block {
            x: 0,
            y: 0,
            offset_x: 0,
            offset_y: 0,
            opcode: opcode.to_owned(),
            parent_id: None,
            next_id: None,
            inputs,
            fields,
        };
        assert(block@ == new_block(old(self)@.spec_of(opcode@), opcode@));
        self.blocks.push((id.clone(), block));
        self.top_level.push(id.clone());
        proof {
            assert(self@.blocks =~= mid.blocks.push(
                (id@, new_block(old(self)@.spec_of(opcode@), opcode@)),
            ));
            assert(self@.top_level =~= mid.top_level.push(id@));
        }
        if self.do_sync {
            self.record(HostCall::CreateBlock { opcode: opcode.to_owned(), is_shadow, id: id.clone() });
        }
        Ok(id)
    }

    /// Gives the field `field_name` of block `block_id` the text `text` and the
    /// link `data_id`, or no link.
    pub fn set_field(&mut self, block_id: &str, field_name: &str, text: &str, data_id: Option<&str>)
        requires
            old(self)@.contains(block_id@),
        ensures
            final(self)@ == old(self)@.set_field(
                block_id@,
                field_name@,
                text@,
                match data_id {
                    Some(d) => Some(d@),
                    None => None,
                },
            ),
    {
        self.put_field(block_id, field_name, text, data_id)
    }

    fn put_field(&mut self, block_id: &str, field_name: &str, text: &str, data_id: Option<&str>)
        ensures
            final(self)@ == old(self)@.set_field(
                block_id@,
                field_name@,
                text@,
                match data_id {
                    Some(d) => Some(d@),
                    None => None,
                },
            ),
    {
        let i = self.index_of(block_id);
        if i >= self.blocks.len() {
            return ;
        }
        let ghost b0 = self.blocks@[i as int].1@;
        self.blocks[i].1.set_field_text(field_name, text);
        let ghost b_mid = self.blocks@[i as int].1@;
        proof {
            lemma_find(b0.field_names(), field_name@);
            assert(b_mid.field_names() =~= b0.field_names());
        }
        match data_id {
            Some(d) => {
                self.blocks[i].1.set_field_id(field_name, d);
            },
            None => {
                self.blocks[i].1.remove_field_id(field_name);
            },
        }
        proof {
            let d = match data_id {
                Some(d) => Some(d@),
                None => None,
            };
            let b1 = if b0.has_field(field_name@) {
                b0.with_field(b0.field_index(field_name@), FieldView { text: text@, id: d })
            } else {
                b0
            };
            assert(self.blocks@[i as int].1@ =~~= b1);
            assert(self@.blocks =~= old(self)@.with_block(i as int, b1).blocks);
        }
        if self.do_sync {
            let d = match data_id {
                Some(d) => Some(d.to_owned()),
                None => None,
            };
            self.record(
                HostCall::ChangeField {
                    block_id: block_id.to_owned(),
                    field: field_name.to_owned(),
                    text: text.to_owned(),
                    data_id: d,
                },
            );
        }
    }
}


/// The first input from index `from` on that holds `id`, as a real block or as
/// a shadow; the number of inputs where none does.
pub open spec fn slot_holding(inputs: Seq<(Seq<char>, InputView)>, id: Seq<char>, from: int) -> int
    decreases inputs.len() - from,
{
    if from < 0 || from >= inputs.len() {
        inputs.len() as int
    } else if inputs[from].1.block_id == Some(id) || inputs[from].1.shadow_id == Some(id) {
        from
    } else {
        slot_holding(inputs, id, from + 1)
    }
}

/// The blocks that `block` owns: for each input the real block and then the
/// shadow, from index `from` on.
pub open spec fn input_children(inputs: Seq<(Seq<char>, InputView)>, from: int) -> Seq<Seq<char>>
    decreases inputs.len() - from,
{
    if from < 0 || from >= inputs.len() {
        Seq::empty()
    } else {
        let actual = match inputs[from].1.block_id {
            Some(c) => seq![c],
            None => Seq::empty(),
        };
        let shadow = match inputs[from].1.shadow_id {
            Some(c) => seq![c],
            None => Seq::empty(),
        };
        actual + shadow + input_children(inputs, from + 1)
    }
}

/// The blocks that `block` owns: those in its inputs, then the one after it.
pub open spec fn children(block: BlockView) -> Seq<Seq<char>> {
    input_children(block.inputs, 0) + match block.next_id {
        Some(n) => seq![n],
        None => Seq::empty(),
    }
}

/// What a step of the engine leaves: the state, and the result or the error.
pub type Step<T> = (RuntimeView, Result<T, ViiruError>);

impl RuntimeView {
    /// This state with the block `id` at `(x, y)`. Without such a block,
    /// unchanged.
    pub open spec fn with_xy(self, id: Seq<char>, x: i32, y: i32) -> RuntimeView {
        if self.contains(id) {
            self.with_block(self.index_of(id), BlockView { x, y, ..self.block(id) })
        } else {
            self
        }
    }

    /// This state with the parent link of block `id` set to `parent`.
    pub open spec fn with_parent(self, id: Seq<char>, parent: Option<Seq<char>>) -> RuntimeView {
        if self.contains(id) {
            self.with_block(self.index_of(id), BlockView { parent_id: parent, ..self.block(id) })
        } else {
            self
        }
    }

    /// This state with the next link of block `id` set to `next`.
    pub open spec fn with_next(self, id: Seq<char>, next: Option<Seq<char>>) -> RuntimeView {
        if self.contains(id) {
            self.with_block(self.index_of(id), BlockView { next_id: next, ..self.block(id) })
        } else {
            self
        }
    }

    /// This state with one half of the input at index `k` of block `id` set to
    /// `child`.
    pub open spec fn with_side(
        self,
        id: Seq<char>,
        k: int,
        is_shadow: bool,
        child: Option<Seq<char>>,
    ) -> RuntimeView {
        if self.contains(id) && 0 <= k < self.block(id).inputs.len() {
            let b = self.block(id);
            self.with_block(
                self.index_of(id),
                b.with_input(k, b.inputs[k].1.with_side(is_shadow, child)),
            )
        } else {
            self
        }
    }

    /// This state with `id` added at the end of the top-level blocks.
    pub open spec fn push_top_level(self, id: Seq<char>) -> RuntimeView {
        RuntimeView { top_level: self.top_level.push(id), ..self }
    }

    /// This state without the first occurrence of `id` among the top-level
    /// blocks, where there is one.
    pub open spec fn drop_top_level(self, id: Seq<char>) -> RuntimeView {
        if occurs(self.top_level, id) {
            self.remove_top_level(id)
        } else {
            self
        }
    }

    /// Where block `id` is drawn: its own position where it has no parent,
    /// else its offset from where the parent is drawn. At most `depth` parent
    /// links are followed; a parent that the graph does not hold counts as
    /// none.
    pub open spec fn own_xy(self, id: Seq<char>, depth: nat) -> Result<(i32, i32), ViiruError>
        decreases depth,
    {
        let b = self.block(id);
        if depth > 0 && b.parent_id is Some && self.contains(b.parent_id->0) {
            match self.own_xy(b.parent_id->0, (depth - 1) as nat) {
                Ok(p) => match (sum(p.0 as int, b.offset_x as int), sum(p.1 as int, b.offset_y as int)) {
                    (Ok(x), Ok(y)) => Ok((x, y)),
                    _ => Err(ViiruError::Overflow),
                },
                Err(e) => Err(e),
            }
        } else {
            Ok((b.x, b.y))
        }
    }

    /// This state after block `id` and the blocks in its inputs, down to
    /// `depth` levels below it, moved by `(dx, dy)`. Each move is mirrored to
    /// the host. A block that the graph does not hold is passed over. The
    /// first coordinate that leaves the 32-bit range stops the walk.
    pub open spec fn slide_by(self, id: Seq<char>, dx: i32, dy: i32, depth: nat) -> Step<()>
        decreases depth, 0nat,
    {
        if !self.contains(id) {
            (self, Ok(()))
        } else {
            let b = self.block(id);
            match (sum(b.x as int, dx as int), sum(b.y as int, dy as int)) {
                (Ok(x), Ok(y)) => {
                    let moved = self.with_xy(id, x, y).sync(HostCallView::SlideBlock { id, x, y });
                    if depth == 0 {
                        (moved, Ok(()))
                    } else {
                        moved.slide_inputs(b.inputs, 0, dx, dy, (depth - 1) as nat)
                    }
                },
                _ => (self, Err(ViiruError::Overflow)),
            }
        }
    }

    /// This state after the blocks held by `inputs` from index `from` on, the
    /// real block of each input before its shadow, were moved by `slide_by`.
    pub open spec fn slide_inputs(
        self,
        inputs: Seq<(Seq<char>, InputView)>,
        from: int,
        dx: i32,
        dy: i32,
        depth: nat,
    ) -> Step<()>
        decreases depth, 1 + inputs.len() - from,
    {
        if from < 0 || from >= inputs.len() {
            (self, Ok(()))
        } else {
            let input = inputs[from].1;
            let first = match input.block_id {
                Some(c) => self.slide_by(c, dx, dy, depth),
                None => (self, Ok(())),
            };
            if first.1 is Err {
                first
            } else {
                let second = match input.shadow_id {
                    Some(c) => first.0.slide_by(c, dx, dy, depth),
                    None => first,
                };
                if second.1 is Err {
                    second
                } else {
                    second.0.slide_inputs(inputs, from + 1, dx, dy, depth)
                }
            }
        }
    }

    /// This state after block `id` and the blocks in its inputs moved so that
    /// `id` is at `(x, y)`.
    pub open spec fn slide_to(self, id: Seq<char>, x: i32, y: i32) -> Step<()> {
        if !self.contains(id) {
            (self, Ok(()))
        } else {
            let b = self.block(id);
            match (sum(x as int, -(b.x as int)), sum(y as int, -(b.y as int))) {
                (Ok(dx), Ok(dy)) => self.slide_by(id, dx, dy, self.blocks.len()),
                _ => (self, Err(ViiruError::Overflow)),
            }
        }
    }

    /// Whether `attach_input` has something to do: the graph holds both
    /// blocks and the parent has the input.
    pub open spec fn can_attach_input(self, id: Seq<char>, parent_id: Seq<char>, name: Seq<char>) -> bool {
        self.contains(id) && self.contains(parent_id) && self.block(parent_id).has_input(name)
    }

    /// What `attach_input` pushes out of the slot.
    pub open spec fn displaced_by(self, parent_id: Seq<char>, name: Seq<char>, is_shadow: bool) -> Option<Seq<char>> {
        self.block(parent_id).input(name).side(is_shadow)
    }

    /// This state after `id` was bound into one half of the input `name` of
    /// `parent_id`: what that half held before becomes top-level without a
    /// parent; `id` gets the parent and leaves the top-level blocks; the host
    /// is told of the attachment.
    pub open spec fn attach_input(
        self,
        id: Seq<char>,
        parent_id: Seq<char>,
        name: Seq<char>,
        is_shadow: bool,
    ) -> RuntimeView {
        if !self.can_attach_input(id, parent_id, name) {
            self
        } else {
            let k = self.block(parent_id).input_index(name);
            let bound = self.with_side(parent_id, k, is_shadow, Some(id));
            let evicted = match self.displaced_by(parent_id, name, is_shadow) {
                Some(d) => if bound.contains(d) {
                    bound.with_parent(d, None).push_top_level(d)
                } else {
                    bound
                },
                None => bound,
            };
            evicted.with_parent(id, Some(parent_id)).drop_top_level(id).sync(
                HostCallView::AttachBlock { id, parent_id, input_name: Some(name), is_shadow },
            )
        }
    }

    /// Whether `attach_next` has something to do: the graph holds both
    /// blocks and nothing follows the parent yet.
    pub open spec fn can_attach_next(self, id: Seq<char>, parent_id: Seq<char>) -> bool {
        self.contains(id) && self.contains(parent_id) && self.block(parent_id).next_id is None
    }

    /// This state after `id` was chained after `parent_id`.
    pub open spec fn attach_next(self, id: Seq<char>, parent_id: Seq<char>) -> RuntimeView {
        if !self.can_attach_next(id, parent_id) {
            self
        } else {
            self.with_next(parent_id, Some(id)).with_parent(id, Some(parent_id)).drop_top_level(
                id,
            ).sync(
                HostCallView::AttachBlock { id, parent_id, input_name: None, is_shadow: false },
            )
        }
    }

    /// This state after `parent_id` let go of `id`: as its next block where it
    /// is that, else as the real block, else as the shadow, of the first input
    /// that holds it.
    pub open spec fn unlink(self, parent_id: Seq<char>, id: Seq<char>) -> RuntimeView {
        if !self.contains(parent_id) {
            self
        } else {
            let p = self.block(parent_id);
            if p.next_id == Some(id) {
                self.with_next(parent_id, None)
            } else {
                let k = slot_holding(p.inputs, id, 0);
                if k < p.inputs.len() {
                    self.with_side(parent_id, k, p.inputs[k].1.block_id != Some(id), None)
                } else {
                    self
                }
            }
        }
    }

    /// This state after block `id` was taken off its parent: the parent lets
    /// go of it, it becomes top-level without a parent, it moves to where it
    /// was drawn, and the host is told. A block without a parent only moves.
    pub open spec fn detach(self, id: Seq<char>) -> Step<()> {
        if !self.contains(id) {
            (self, Ok(()))
        } else {
            match self.own_xy(id, self.blocks.len()) {
                Err(e) => (self, Err(e)),
                Ok(at) => {
                    let loose = match self.block(id).parent_id {
                        Some(p) => self.unlink(p, id).push_top_level(id),
                        None => self,
                    };
                    let moved = loose.with_parent(id, None).slide_to(id, at.0, at.1);
                    if moved.1 is Err {
                        moved
                    } else {
                        (moved.0.sync(HostCallView::DetachBlock { id }), Ok(()))
                    }
                },
            }
        }
    }

    /// This state without the blocks of `pending`, taken from its end, and
    /// without the blocks that each removed block owns.
    pub open spec fn delete_all(self, pending: Seq<Seq<char>>) -> RuntimeView
        decreases self.blocks.len(), pending.len(),
    {
        if pending.len() == 0 {
            self
        } else {
            let id = pending.last();
            let rest = pending.drop_last();
            if !self.contains(id) {
                self.delete_all(rest)
            } else {
                let i = self.index_of(id);
                proof {
                    lemma_find(self.ids(), id);
                }
                RuntimeView { blocks: self.blocks.remove(i), ..self }.delete_all(
                    rest + children(self.blocks[i].1),
                )
            }
        }
    }

    /// This state after block `id` was detached and then removed together
    /// with every block that it owns, directly or through blocks it owns. The
    /// host is told of `id` alone.
    pub open spec fn delete(self, id: Seq<char>) -> Step<()> {
        let loose = self.detach(id);
        if loose.1 is Err {
            loose
        } else {
            (
                loose.0.drop_top_level(id).delete_all(seq![id]).sync(
                    HostCallView::DeleteBlock { id },
                ),
                Ok(()),
            )
        }
    }

    /// This state after the fields of `fields` from index `from` on were
    /// copied to block `id`.
    pub open spec fn copy_fields(
        self,
        id: Seq<char>,
        fields: Seq<(Seq<char>, FieldView)>,
        from: int,
    ) -> RuntimeView
        decreases fields.len() - from,
    {
        if from < 0 || from >= fields.len() {
            self
        } else if self.contains(id) {
            self.set_field(id, fields[from].0, fields[from].1.text, fields[from].1.id).copy_fields(
                id,
                fields,
                from + 1,
            )
        } else {
            self
        }
    }

    /// This state after a copy of block `id` and of what it owns, down to
    /// `depth` levels below it, was made, and the copy's id. The copy has the
    /// opcode and the fields of the source; a copy of the next block follows
    /// it; a copy of each input's shadow and then of its real block sits in
    /// the copy's input of the same name. Only the copy of a root moves to
    /// where the source is drawn.
    pub open spec fn stamp(self, id: Seq<char>, is_root: bool, depth: nat) -> Step<Seq<char>>
        decreases depth, 0nat,
    {
        let source = self.block(id);
        if !self.contains(id) || !self.has_spec(source.opcode) {
            (self, Err(ViiruError::UnknownOpcode))
        } else {
            match self.own_xy(id, self.blocks.len()) {
                Err(e) => (self, Err(e)),
                Ok(at) => match self.fresh_id() {
                    None => (self, Err(ViiruError::IdsExhausted)),
                    Some(copy) => {
                        let made = self.create_single_block(source.opcode);
                        let placed = if is_root {
                            made.slide_to(copy, at.0, at.1)
                        } else {
                            (made, Ok(()))
                        };
                        if placed.1 is Err {
                            (placed.0, Err(placed.1->Err_0))
                        } else {
                            let filled = placed.0.copy_fields(copy, source.fields, 0);
                            if depth == 0 {
                                (filled, Ok(copy))
                            } else {
                                let chained = match source.next_id {
                                    Some(n) => {
                                        let sub = filled.stamp(n, false, (depth - 1) as nat);
                                        match sub.1 {
                                            Ok(c) => (sub.0.attach_next(c, copy), Ok(())),
                                            Err(e) => (sub.0, Err(e)),
                                        }
                                    },
                                    None => (filled, Ok(())),
                                };
                                if chained.1 is Err {
                                    (chained.0, Err(chained.1->Err_0))
                                } else {
                                    let done = chained.0.stamp_inputs(
                                        copy,
                                        source.inputs,
                                        0,
                                        (depth - 1) as nat,
                                    );
                                    match done.1 {
                                        Ok(_) => (done.0, Ok(copy)),
                                        Err(e) => (done.0, Err(e)),
                                    }
                                }
                            }
                        }
                    },
                },
            }
        }
    }

    /// This state after the blocks held by `inputs` from index `from` on were
    /// copied into the inputs of the same names of block `copy`.
    pub open spec fn stamp_inputs(
        self,
        copy: Seq<char>,
        inputs: Seq<(Seq<char>, InputView)>,
        from: int,
        depth: nat,
    ) -> Step<()>
        decreases depth, 1 + inputs.len() - from,
    {
        if from < 0 || from >= inputs.len() {
            (self, Ok(()))
        } else {
            let name = inputs[from].0;
            let input = inputs[from].1;
            let first: Step<()> = match input.shadow_id {
                Some(c) => {
                    let sub = self.stamp(c, false, depth);
                    match sub.1 {
                        Ok(s) => (sub.0.attach_input(s, copy, name, true), Ok(())),
                        Err(e) => (sub.0, Err(e)),
                    }
                },
                None => (self, Ok(())),
            };
            if first.1 is Err {
                first
            } else {
                let second: Step<()> = match input.block_id {
                    Some(c) => {
                        let sub = first.0.stamp(c, false, depth);
                        match sub.1 {
                            Ok(s) => (sub.0.attach_input(s, copy, name, false), Ok(())),
                            Err(e) => (sub.0, Err(e)),
                        }
                    },
                    None => first,
                };
                if second.1 is Err {
                    second
                } else {
                    second.0.stamp_inputs(copy, inputs, from + 1, depth)
                }
            }
        }
    }
}

/// A copy of a block's inputs.
fn clone_inputs(inputs: &Vec<(String, Input)>) -> (r: Vec<(String, Input)>)
    ensures
        inputs_view(r@) == inputs_view(inputs@),
{
    let mut r: Vec<(String, Input)> = Vec::new();
    let mut i: usize = 0;
    while i < inputs.len()
        invariant
            i <= inputs.len(),
            r@.len() == i,
            forall|j: int| 0 <= j < i ==> r@[j].0@ == inputs@[j].0@ && r@[j].1@ == inputs@[j].1@,
        decreases inputs.len() - i,
    {
        let e = &inputs[i];
        r.push(
            (
                e.0.clone(),
                Input {
                    shadow_id: crate::table::clone_opt(&e.1.shadow_id),
                    block_id: crate::table::clone_opt(&e.1.block_id),
                },
            ),
        );
        i += 1;
    }
    assert(inputs_view(r@) =~= inputs_view(inputs@));
    r
}

/// A copy of a block's fields.
fn clone_fields(fields: &Vec<(String, Field)>) -> (r: Vec<(String, Field)>)
    ensures
        fields_view(r@) == fields_view(fields@),
{
    let mut r: Vec<(String, Field)> = Vec::new();
    let mut i: usize = 0;
    while i < fields.len()
        invariant
            i <= fields.len(),
            r@.len() == i,
            forall|j: int| 0 <= j < i ==> r@[j].0@ == fields@[j].0@ && r@[j].1@ == fields@[j].1@,
        decreases fields.len() - i,
    {
        let e = &fields[i];
        r.push(
            (e.0.clone(), Field { text: e.1.text.clone(), id: crate::table::clone_opt(&e.1.id) }),
        );
        i += 1;
    }
    assert(fields_view(r@) =~= fields_view(fields@));
    r
}

impl Runtime {
    fn put_xy(&mut self, id: &str, x: i32, y: i32)
        ensures
            final(self)@ == old(self)@.with_xy(id@, x, y),
    {
        let i = self.index_of(id);
        if i < self.blocks.len() {
            self.blocks[i].1.x = x;
            self.blocks[i].1.y = y;
            proof {
                assert(final(self)@.blocks =~= old(self)@.with_xy(id@, x, y).blocks);
            }
        }
    }

    fn put_parent(&mut self, id: &str, parent: Option<String>)
        ensures
            final(self)@ == old(self)@.with_parent(id@, opt_text(parent)),
    {
        let i = self.index_of(id);
        if i < self.blocks.len() {
            self.blocks[i].1.parent_id = parent;
            proof {
                assert(final(self)@.blocks =~= old(self)@.with_parent(id@, opt_text(parent)).blocks);
            }
        }
    }

    fn put_next(&mut self, id: &str, next: Option<String>)
        ensures
            final(self)@ == old(self)@.with_next(id@, opt_text(next)),
    {
        let i = self.index_of(id);
        if i < self.blocks.len() {
            self.blocks[i].1.next_id = next;
            proof {
                assert(final(self)@.blocks =~= old(self)@.with_next(id@, opt_text(next)).blocks);
            }
        }
    }

    fn put_side(&mut self, id: &str, k: usize, is_shadow: bool, child: Option<String>) -> (r: Option<String>)
        ensures
            final(self)@ == old(self)@.with_side(id@, k as int, is_shadow, opt_text(child)),
            old(self)@.contains(id@) && k < old(self)@.block(id@).inputs.len() ==> opt_text(r)
                == old(self)@.block(id@).inputs[k as int].1.side(is_shadow),
    {
        let i = self.index_of(id);
        if i < self.blocks.len() && k < self.blocks[i].1.inputs.len() {
            let mut given = child;
            if is_shadow {
                std::mem::swap(&mut self.blocks[i].1.inputs[k].1.shadow_id, &mut given);
            } else {
                std::mem::swap(&mut self.blocks[i].1.inputs[k].1.block_id, &mut given);
            }
            proof {
                let b = old(self)@.block(id@);
                assert(final(self).blocks@[i as int].1@ =~~= b.with_input(
                    k as int,
                    b.inputs[k as int].1.with_side(is_shadow, opt_text(child)),
                ));
                assert(final(self)@.blocks =~= old(self)@.with_side(
                    id@,
                    k as int,
                    is_shadow,
                    opt_text(child),
                ).blocks);
            }
            given
        } else {
            None
        }
    }

    fn push_top(&mut self, id: &str)
        ensures
            final(self)@ == old(self)@.push_top_level(id@),
    {
        self.top_level.push(id.to_owned());
        assert(final(self)@.top_level =~= old(self)@.top_level.push(id@));
    }

    fn drop_top(&mut self, id: &str)
        ensures
            final(self)@ == old(self)@.drop_top_level(id@),
    {
        let i = position_text(&self.top_level, id);
        if i < self.top_level.len() {
            self.top_level.remove(i);
            assert(final(self)@.top_level =~= old(self)@.top_level.remove(i as int));
        }
    }

    fn own_xy(&self, id: &str, depth: usize) -> (r: Result<(i32, i32), ViiruError>)
        requires
            self@.contains(id@),
        ensures
            r == self@.own_xy(id@, depth as nat),
        decreases depth,
    {
        let i = self.index_of(id);
        let b = &self.blocks[i].1;
        if depth > 0 {
            match &b.parent_id {
                Some(p) => {
                    if self.contains(p.as_str()) {
                        match self.own_xy(p.as_str(), depth - 1) {
                            Ok(at) => {
                                let x = plus(at.0, b.offset_x);
                                let y = plus(at.1, b.offset_y);
                                return match (x, y) {
                                    (Ok(x), Ok(y)) => Ok((x, y)),
                                    _ => Err(ViiruError::Overflow),
                                };
                            },
                            Err(e) => {
                                return Err(e);
                            },
                        }
                    }
                },
                None => {},
            }
        }
        Ok((b.x, b.y))
    }

    /// Where block `id` is drawn: its own position where it has no parent,
    /// else its offset from where the parent is drawn.
    pub fn compute_own_xy(&self, block_id: &str) -> (r: Result<(i32, i32), ViiruError>)
        requires
            self@.contains(block_id@),
        ensures
            r == self@.own_xy(block_id@, self@.blocks.len()),
    {
        self.own_xy(block_id, self.blocks.len())
    }

    fn slide(&mut self, id: &str, dx: i32, dy: i32, depth: usize) -> (r: Result<(), ViiruError>)
        ensures
            (final(self)@, r) == old(self)@.slide_by(id@, dx, dy, depth as nat),
        decreases depth, 0nat,
    {
        let i = self.index_of(id);
        if i >= self.blocks.len() {
            return Ok(());
        }
        let x = plus(self.blocks[i].1.x, dx);
        let y = plus(self.blocks[i].1.y, dy);
        let (x, y) = match (x, y) {
            (Ok(x), Ok(y)) => (x, y),
            _ => {
                return Err(ViiruError::Overflow);
            },
        };
        let inputs = clone_inputs(&self.blocks[i].1.inputs);
        self.put_xy(id, x, y);
        if self.do_sync {
            self.record(HostCall::SlideBlock { id: id.to_owned(), x, y });
        }
        if depth == 0 {
            return Ok(());
        }
        let ghost total = self@.slide_inputs(inputs_view(inputs@), 0, dx, dy, (depth - 1) as nat);
        let mut k: usize = 0;
        while k < inputs.len()
            invariant
                k <= inputs.len(),
                depth > 0,
                self@.slide_inputs(inputs_view(inputs@), k as int, dx, dy, (depth - 1) as nat)
                    == total,
                total == old(self)@.slide_by(id@, dx, dy, depth as nat),
            decreases depth, 1 + inputs.len() - k,
        {
            match &inputs[k].1.block_id {
                Some(c) => {
                    match self.slide(c.as_str(), dx, dy, depth - 1) {
                        Ok(_) => {},
                        Err(e) => {
                            return Err(e);
                        },
                    }
                },
                None => {},
            }
            match &inputs[k].1.shadow_id {
                Some(c) => {
                    match self.slide(c.as_str(), dx, dy, depth - 1) {
                        Ok(_) => {},
                        Err(e) => {
                            return Err(e);
                        },
                    }
                },
                None => {},
            }
            k += 1;
        }
        Ok(())
    }

    /// Moves block `id` and the blocks in its inputs by `(dx, dy)`.
    pub fn slide_block_by(&mut self, id: &str, dx: i32, dy: i32) -> (r: Result<(), ViiruError>)
        requires
            old(self)@.contains(id@),
        ensures
            (final(self)@, r) == old(self)@.slide_by(id@, dx, dy, old(self)@.blocks.len()),
    {
        let depth = self.blocks.len();
        self.slide(id, dx, dy, depth)
    }

    fn slide_to(&mut self, id: &str, x: i32, y: i32) -> (r: Result<(), ViiruError>)
        ensures
            (final(self)@, r) == old(self)@.slide_to(id@, x, y),
    {
        let i = self.index_of(id);
        if i >= self.blocks.len() {
            return Ok(());
        }
        let dx = minus(x, self.blocks[i].1.x);
        let dy = minus(y, self.blocks[i].1.y);
        match (dx, dy) {
            (Ok(dx), Ok(dy)) => {
                let depth = self.blocks.len();
                self.slide(id, dx, dy, depth)
            },
            _ => Err(ViiruError::Overflow),
        }
    }

    /// Moves block `id` and the blocks in its inputs so that `id` is at
    /// `(x, y)`.
    pub fn slide_block_to(&mut self, id: &str, x: i32, y: i32) -> (r: Result<(), ViiruError>)
        requires
            old(self)@.contains(id@),
        ensures
            (final(self)@, r) == old(self)@.slide_to(id@, x, y),
    {
        self.slide_to(id, x, y)
    }

    pub(crate) fn link_input(&mut self, id: &str, parent_id: &str, input_name: &str, is_shadow: bool) -> (r: Option<String>)
        ensures
            final(self)@ == old(self)@.attach_input(id@, parent_id@, input_name@, is_shadow),
            opt_text(r) == if old(self)@.can_attach_input(id@, parent_id@, input_name@) {
                old(self)@.displaced_by(parent_id@, input_name@, is_shadow)
            } else {
                None
            },
    {
        let p = self.index_of(parent_id);
        if p >= self.blocks.len() || !self.contains(id) {
            return None;
        }
        let k = position(&self.blocks[p].1.inputs, input_name);
        proof {
            assert(keys(self.blocks@[p as int].1.inputs@) =~= self@.block(parent_id@).input_names());
        }
        if k >= self.blocks[p].1.inputs.len() {
            return None;
        }
        let displaced = self.put_side(parent_id, k, is_shadow, Some(id.to_owned()));
        match &displaced {
            Some(d) => {
                if self.contains(d.as_str()) {
                    self.put_parent(d.as_str(), None);
                    self.push_top(d.as_str());
                }
            },
            None => {},
        }
        self.put_parent(id, Some(parent_id.to_owned()));
        self.drop_top(id);
        if self.do_sync {
            self.record(
                HostCall::AttachBlock {
                    id: id.to_owned(),
                    parent_id: parent_id.to_owned(),
                    input_name: Some(input_name.to_owned()),
                    is_shadow,
                },
            );
        }
        displaced
    }

    /// Binds the parentless block `id` into one half of the input
    /// `input_name` of `parent_id` and returns the id that it pushes out. The
    /// block pushed out becomes top-level without a parent; where it goes is
    /// up to the caller. No way may lead from `id` to `parent_id`: the parent
    /// is not the block itself nor anything that the block owns, so that no
    /// block becomes its own ancestor.
    pub fn attach_input(&mut self, id: &str, parent_id: &str, input_name: &str, is_shadow: bool) -> (r:
        Option<String>)
        requires
            old(self)@.can_attach_input(id@, parent_id@, input_name@),
            old(self)@.block(id@).parent_id is None,
            !reached(old(self)@, seq![id@], parent_id@),
        ensures
            final(self)@ == old(self)@.attach_input(id@, parent_id@, input_name@, is_shadow),
            opt_text(r) == old(self)@.displaced_by(parent_id@, input_name@, is_shadow),
            old(self)@.linked() && acyclic(old(self)@) ==> final(self)@.linked() && acyclic(
                final(self)@,
            ),
    {
        proof {
            if self@.linked() && acyclic(self@) {
                lemma_attach_input(self@, id@, parent_id@, input_name@, is_shadow);
                lemma_attach_input_acyclic(self@, id@, parent_id@, input_name@, is_shadow);
            }
        }
        self.link_input(id, parent_id, input_name, is_shadow)
    }

    pub(crate) fn link_next(&mut self, id: &str, parent_id: &str)
        ensures
            final(self)@ == old(self)@.attach_next(id@, parent_id@),
    {
        let p = self.index_of(parent_id);
        if p >= self.blocks.len() || !self.contains(id) {
            return ;
        }
        if self.blocks[p].1.next_id.is_some() {
            return ;
        }
        self.put_next(parent_id, Some(id.to_owned()));
        self.put_parent(id, Some(parent_id.to_owned()));
        self.drop_top(id);
        if self.do_sync {
            self.record(
                HostCall::AttachBlock {
                    id: id.to_owned(),
                    parent_id: parent_id.to_owned(),
                    input_name: None,
                    is_shadow: false,
                },
            );
        }
    }

    /// Chains the parentless block `id` after `parent_id`, which nothing
    /// follows yet. No way may lead from `id` to `parent_id`, so that no
    /// block becomes its own ancestor.
    pub fn attach_next(&mut self, id: &str, parent_id: &str)
        requires
            old(self)@.can_attach_next(id@, parent_id@),
            old(self)@.block(id@).parent_id is None,
            !reached(old(self)@, seq![id@], parent_id@),
        ensures
            final(self)@ == old(self)@.attach_next(id@, parent_id@),
            old(self)@.linked() && acyclic(old(self)@) ==> final(self)@.linked() && acyclic(
                final(self)@,
            ),
    {
        proof {
            if self@.linked() && acyclic(self@) {
                lemma_attach_next(self@, id@, parent_id@);
                lemma_attach_next_acyclic(self@, id@, parent_id@);
            }
        }
        self.link_next(id, parent_id)
    }

    fn unlink(&mut self, parent_id: &str, id: &str)
        ensures
            final(self)@ == old(self)@.unlink(parent_id@, id@),
    {
        let p = self.index_of(parent_id);
        if p >= self.blocks.len() {
            return ;
        }
        let is_next = match &self.blocks[p].1.next_id {
            Some(n) => crate::util::str_eq(n.as_str(), id),
            None => false,
        };
        if is_next {
            self.put_next(parent_id, None);
            return ;
        }
        let n = self.blocks[p].1.inputs.len();
        let ghost inputs = self@.block(parent_id@).inputs;
        let mut k: usize = 0;
        while k < n
            invariant
                k <= n,
                *self == *old(self),
                p < self.blocks.len(),
                p == self@.index_of(parent_id@),
                n == self.blocks@[p as int].1.inputs.len(),
                inputs == self@.block(parent_id@).inputs,
                self@.block(parent_id@).next_id != Some(id@),
                slot_holding(inputs, id@, k as int) == slot_holding(inputs, id@, 0),
            decreases n - k,
        {
            let actual = match &self.blocks[p].1.inputs[k].1.block_id {
                Some(c) => crate::util::str_eq(c.as_str(), id),
                None => false,
            };
            let shadow = match &self.blocks[p].1.inputs[k].1.shadow_id {
                Some(c) => crate::util::str_eq(c.as_str(), id),
                None => false,
            };
            if actual || shadow {
                let _ = self.put_side(parent_id, k, !actual, None);
                return ;
            }
            k += 1;
        }
    }

    fn detach(&mut self, id: &str) -> (r: Result<(), ViiruError>)
        ensures
            (final(self)@, r) == old(self)@.detach(id@),
    {
        let i = self.index_of(id);
        if i >= self.blocks.len() {
            return Ok(());
        }
        let at = match self.compute_own_xy(id) {
            Ok(at) => at,
            Err(e) => {
                return Err(e);
            },
        };
        let parent = crate::table::clone_opt(&self.blocks[i].1.parent_id);
        match &parent {
            Some(p) => {
                self.unlink(p.as_str(), id);
                self.push_top(id);
            },
            None => {},
        }
        self.put_parent(id, None);
        match self.slide_to(id, at.0, at.1) {
            Ok(_) => {},
            Err(e) => {
                return Err(e);
            },
        }
        if self.do_sync {
            self.record(HostCall::DetachBlock { id: id.to_owned() });
        }
        Ok(())
    }

    /// Takes block `id` off its parent and makes it top-level where it was
    /// drawn.
    pub fn detach_block(&mut self, id: &str) -> (r: Result<(), ViiruError>)
        requires
            old(self)@.contains(id@),
        ensures
            (final(self)@, r) == old(self)@.detach(id@),
    {
        self.detach(id)
    }

    /// Removes the blocks of `pending` and all that they own.
    fn delete_all(&mut self, pending: Vec<String>)
        ensures
            final(self)@ == old(self)@.delete_all(texts(pending@)),
    {
        let mut pending = pending;
        let ghost total = self@.delete_all(texts(pending@));
        while pending.len() > 0
            invariant
                self@.delete_all(texts(pending@)) == total,
            decreases self.blocks.len(), pending.len(),
        {
            let ghost before = texts(pending@);
            let id = match pending.pop() {
                Some(id) => id,
                None => String::new(),
            };
            assert(texts(pending@) =~= before.drop_last());
            assert(id@ == before.last());
            let i = self.index_of(id.as_str());
            let ghost state = self@;
            if i < self.blocks.len() {
                let ghost rest = texts(pending@);
                let (_, block) = self.blocks.remove(i);
                assert(self@.blocks =~= state.blocks.remove(i as int));
                let ghost inputs = block@.inputs;
                let ghost whole = block@;
                let Block { inputs: inputs_vec, next_id, .. } = block;
                let mut k: usize = 0;
                while k < inputs_vec.len()
                    invariant
                        k <= inputs_vec.len(),
                        inputs_view(inputs_vec@) == inputs,
                        texts(pending@) + input_children(inputs, k as int) == rest
                            + input_children(inputs, 0),
                    decreases inputs_vec.len() - k,
                {
                    let ghost p0 = texts(pending@);
                    match &inputs_vec[k].1.block_id {
                        Some(c) => {
                            pending.push(c.clone());
                        },
                        None => {},
                    }
                    match &inputs_vec[k].1.shadow_id {
                        Some(c) => {
                            pending.push(c.clone());
                        },
                        None => {},
                    }
                    proof {
                        let actual = match inputs[k as int].1.block_id {
                            Some(c) => seq![c],
                            None => Seq::empty(),
                        };
                        let shadow = match inputs[k as int].1.shadow_id {
                            Some(c) => seq![c],
                            None => Seq::empty(),
                        };
                        assert(texts(pending@) =~= p0 + actual + shadow);
                        assert(p0 + input_children(inputs, k as int) =~= p0 + actual + shadow
                            + input_children(inputs, k as int + 1));
                    }
                    k += 1;
                }
                assert(input_children(inputs, k as int) =~= Seq::empty());
                let ghost grown = texts(pending@);
                assert(grown =~= rest + input_children(inputs, 0));
                match next_id {
                    Some(n) => {
                        pending.push(n);
                        assert(texts(pending@) =~= grown.push(n@));
                    },
                    None => {},
                }
                assert(texts(pending@) =~= rest + children(whole));
                assert(state.delete_all(before) == self@.delete_all(texts(pending@)));
            } else {
                assert(state.delete_all(before) == self@.delete_all(texts(pending@)));
            }
        }
    }
}


/// The view of a result that holds a text.
pub open spec fn text_result(r: Result<String, ViiruError>) -> Result<Seq<char>, ViiruError> {
    match r {
        Ok(s) => Ok(s@),
        Err(e) => Err(e),
    }
}

/// The opcode of the shadow block that stands for a default.
pub open spec fn default_opcode(d: DefaultValueView) -> Seq<char> {
    match d {
        DefaultValueView::Block(op) => op,
        DefaultValueView::Str(_) => "text"@,
        DefaultValueView::Num(_, _) => "math_number"@,
        DefaultValueView::Color(_) => "colour_picker"@,
    }
}

/// The field of the shadow block that takes a literal default.
pub open spec fn default_field(d: DefaultValueView) -> Option<Seq<char>> {
    match d {
        DefaultValueView::Block(_) => None,
        DefaultValueView::Str(_) => Some("TEXT"@),
        DefaultValueView::Num(_, _) => Some("NUM"@),
        DefaultValueView::Color(_) => Some("COLOUR"@),
    }
}

/// The text that a literal default puts into that field: the text itself,
/// the number as written shortest where it is shown and nothing where it is
/// not, or the colour.
pub open spec fn default_text(d: DefaultValueView) -> Seq<char> {
    match d {
        DefaultValueView::Block(_) => Seq::empty(),
        DefaultValueView::Str(s) => s,
        DefaultValueView::Num(n, visible) => if visible {
            n.render()
        } else {
            Seq::empty()
        },
        DefaultValueView::Color(c) => rgb_text(c),
    }
}

/// `acc` extended by the value slots of `line` that carry a default, from
/// index `from` on.
pub open spec fn defaults_of_line(
    line: Seq<FragmentView>,
    from: int,
    acc: Seq<(Seq<char>, DefaultValueView)>,
) -> Seq<(Seq<char>, DefaultValueView)>
    decreases line.len() - from,
{
    if from < 0 || from >= line.len() {
        acc
    } else {
        defaults_of_line(
            line,
            from + 1,
            match line[from] {
                FragmentView::StrumberInput(name, Some(d)) => acc.push((name, d)),
                _ => acc,
            },
        )
    }
}

/// `acc` extended by the value slots that carry a default, line by line from
/// index `from` on.
pub open spec fn defaults_of_lines(
    lines: Seq<Seq<FragmentView>>,
    from: int,
    acc: Seq<(Seq<char>, DefaultValueView)>,
) -> Seq<(Seq<char>, DefaultValueView)>
    decreases lines.len() - from,
{
    if from < 0 || from >= lines.len() {
        acc
    } else {
        defaults_of_lines(lines, from + 1, defaults_of_line(lines[from], 0, acc))
    }
}

/// The views of a list of named defaults.
pub open spec fn defaults_view(defaults: Seq<(String, DefaultValue)>) -> Seq<
    (Seq<char>, DefaultValueView),
> {
    Seq::new(defaults.len(), |i: int| (defaults[i].0@, defaults[i].1@))
}

/// `acc` extended by the ids of the blocks from index `from` on that have no
/// parent.
pub open spec fn parentless(blocks: Seq<(Seq<char>, BlockView)>, from: int, acc: Seq<Seq<char>>) -> Seq<
    Seq<char>,
>
    decreases blocks.len() - from,
{
    if from < 0 || from >= blocks.len() {
        acc
    } else {
        parentless(
            blocks,
            from + 1,
            if blocks[from].1.parent_id is None {
                acc.push(blocks[from].0)
            } else {
                acc
            },
        )
    }
}

impl RuntimeView {
    /// This state after the shadow block for the default `d` was made,
    /// filled and bound into the input `name` of `parent`; and that block's
    /// id.
    pub open spec fn instantiate_default(
        self,
        parent: Seq<char>,
        name: Seq<char>,
        d: DefaultValueView,
    ) -> Step<Seq<char>> {
        let op = default_opcode(d);
        if !self.has_spec(op) {
            (self, Err(ViiruError::UnknownOpcode))
        } else {
            match self.fresh_id() {
                None => (self, Err(ViiruError::IdsExhausted)),
                Some(child) => {
                    let made = self.create_single_block(op);
                    let filled = match default_field(d) {
                        Some(f) => made.set_field(child, f, default_text(d), None),
                        None => made,
                    };
                    (filled.attach_input(child, parent, name, true), Ok(child))
                },
            }
        }
    }

    /// This state after the defaults from index `from` on were instantiated
    /// under `parent`; and `kids` extended by the ids of their blocks.
    pub open spec fn instantiate_defaults(
        self,
        parent: Seq<char>,
        defaults: Seq<(Seq<char>, DefaultValueView)>,
        from: int,
        kids: Seq<Seq<char>>,
    ) -> Step<Seq<Seq<char>>>
        decreases defaults.len() - from,
    {
        if from < 0 || from >= defaults.len() {
            (self, Ok(kids))
        } else {
            let one = self.instantiate_default(parent, defaults[from].0, defaults[from].1);
            match one.1 {
                Ok(c) => one.0.instantiate_defaults(parent, defaults, from + 1, kids.push(c)),
                Err(e) => (one.0, Err(e)),
            }
        }
    }

    /// This state after a block of `opcode` was made and each of its value
    /// slots that carries a default got a shadow block for it; the block's
    /// id, and the ids of the shadow blocks in the template's order.
    pub open spec fn create_block_template(self, opcode: Seq<char>) -> Step<
        (Seq<char>, Seq<Seq<char>>),
    > {
        if !self.has_spec(opcode) {
            (self, Err(ViiruError::UnknownOpcode))
        } else {
            match self.fresh_id() {
                None => (self, Err(ViiruError::IdsExhausted)),
                Some(id) => {
                    let all = self.create_single_block(opcode).instantiate_defaults(
                        id,
                        defaults_of_lines(self.spec_of(opcode).lines, 0, Seq::empty()),
                        0,
                        Seq::empty(),
                    );
                    match all.1 {
                        Ok(kids) => (all.0, Ok((id, kids))),
                        Err(e) => (all.0, Err(e)),
                    }
                },
            }
        }
    }

    /// This state with the offset of block `id` set. Without such a block,
    /// unchanged.
    pub open spec fn with_offset(self, id: Seq<char>, dx: i32, dy: i32) -> RuntimeView {
        if self.contains(id) {
            self.with_block(
                self.index_of(id),
                BlockView { offset_x: dx, offset_y: dy, ..self.block(id) },
            )
        } else {
            self
        }
    }

    /// This state after the offsets from index `from` on were set, one after
    /// the other.
    pub open spec fn with_offsets(self, offsets: Seq<(Seq<char>, (i32, i32))>, from: int) -> RuntimeView
        decreases offsets.len() - from,
    {
        if from < 0 || from >= offsets.len() {
            self
        } else {
            self.with_offset(offsets[from].0, offsets[from].1.0, offsets[from].1.1).with_offsets(
                offsets,
                from + 1,
            )
        }
    }

    /// This state after a layout pass handed over what it registered: the
    /// three indexes replace the old ones, and each block takes the offset
    /// that the pass recorded for it.
    pub open spec fn process_accumulators(self, acc: AccumulatorsView) -> RuntimeView {
        RuntimeView {
            block_positions: acc.block_positions,
            drop_points: acc.drop_points,
            writable_points: acc.writable_points,
            ..self
        }.with_offsets(acc.block_offsets, 0)
    }

    /// Where the held block would be attached if it were released now: the
    /// last drop point registered on the cell of the held block, if it takes
    /// the held block's shape and the held block is no hat.
    pub open spec fn current_drop_point(self) -> Option<(Seq<char>, Option<Seq<char>>)> {
        match self.cursor_block {
            Some(c) => if self.contains(c) && self.has_spec(self.block(c).opcode) {
                let b = self.block(c);
                let sp = self.spec_of(b.opcode);
                let k = mark_at(self.drop_points, b.x as int, b.y as int);
                if k >= 0 && self.drop_points[k].point.shape == sp.shape && !sp.is_hat {
                    Some((self.drop_points[k].point.id, self.drop_points[k].point.input))
                } else {
                    None
                }
            } else {
                None
            },
            None => None,
        }
    }

    /// The field of a literal-holding block that holds the literal.
    pub open spec fn strumber_field_name(self, id: Seq<char>) -> Option<Seq<char>> {
        let op = self.block(id).opcode;
        if op == "text"@ {
            Some("TEXT"@)
        } else if is_number_ish(op) {
            Some("NUM"@)
        } else {
            None
        }
    }

    /// The literal that block `id` holds; empty where it holds none.
    pub open spec fn get_strumber_field(self, id: Seq<char>) -> Seq<char> {
        match self.strumber_field_name(id) {
            Some(f) => if self.block(id).has_field(f) {
                self.block(id).field(f).text
            } else {
                Seq::empty()
            },
            None => Seq::empty(),
        }
    }

    /// This state after the literal of block `id` was set, where it holds
    /// one.
    pub open spec fn set_strumber_field(self, id: Seq<char>, text: Seq<char>) -> RuntimeView {
        match self.strumber_field_name(id) {
            Some(f) => self.set_field(id, f, text, None),
            None => self,
        }
    }

    /// This state after the cursor, and with it the held block, moved by
    /// `dx` columns.
    pub open spec fn move_x(self, dx: i32) -> Step<()> {
        match sum(self.cursor_x as int, dx as int) {
            Err(e) => (self, Err(e)),
            Ok(x) => {
                let moved = RuntimeView { cursor_x: x, ..self };
                match self.cursor_block {
                    Some(id) => moved.slide_by(id, dx, 0, moved.blocks.len()),
                    None => (moved, Ok(())),
                }
            },
        }
    }

    /// This state after the cursor, and with it the held block, moved by
    /// `dy` rows.
    pub open spec fn move_y(self, dy: i32) -> Step<()> {
        match sum(self.cursor_y as int, dy as int) {
            Err(e) => (self, Err(e)),
            Ok(y) => {
                let moved = RuntimeView { cursor_y: y, ..self };
                match self.cursor_block {
                    Some(id) => moved.slide_by(id, 0, dy, moved.blocks.len()),
                    None => (moved, Ok(())),
                }
            },
        }
    }

    /// This state after block `id` was detached and taken up by the cursor.
    pub open spec fn put_to_cursor(self, id: Seq<char>) -> Step<()> {
        let loose = self.detach(id);
        if loose.1 is Err {
            loose
        } else {
            (RuntimeView { cursor_block: Some(id), ..loose.0 }, Ok(()))
        }
    }

    /// This state after one toolbox entry was made for each opcode from index
    /// `from` on: a block from its template, taken out of the top-level
    /// blocks and put at the end of the toolbox.
    pub open spec fn toolbox_from(self, opcodes: Seq<Seq<char>>, from: int) -> Step<()>
        decreases opcodes.len() - from,
    {
        if from < 0 || from >= opcodes.len() {
            (self, Ok(()))
        } else {
            let made = self.create_block_template(opcodes[from]);
            match made.1 {
                Err(e) => (made.0, Err(e)),
                Ok(r) => {
                    let taken = made.0.drop_top_level(r.0);
                    RuntimeView { toolbox: taken.toolbox.push(r.0), ..taken }.toolbox_from(
                        opcodes,
                        from + 1,
                    )
                },
            }
        }
    }

    /// This state after the toolbox was filled for `opcodes`. Nothing of it
    /// is mirrored to the host; mirroring is on again afterwards, also where
    /// the filling failed.
    pub open spec fn initialize_toolbox_blocks(self, opcodes: Seq<Seq<char>>) -> Step<()> {
        let filled = RuntimeView { do_sync: false, ..self }.toolbox_from(opcodes, 0);
        (RuntimeView { do_sync: true, ..filled.0 }, filled.1)
    }

    /// This state after the host loaded a project and handed over its
    /// blocks and named data: the graph is replaced, the parentless blocks
    /// become the top-level blocks in the order given, the toolbox is filled
    /// anew, and what the last layout pass and the cursor left is reset.
    pub open spec fn project_loaded(
        self,
        blocks: Seq<(Seq<char>, BlockView)>,
        variables: Seq<(Seq<char>, Seq<char>)>,
        lists: Seq<(Seq<char>, Seq<char>)>,
        broadcasts: Seq<(Seq<char>, Seq<char>)>,
        opcodes: Seq<Seq<char>>,
    ) -> Step<()> {
        let loaded = RuntimeView {
            blocks,
            top_level: parentless(blocks, 0, Seq::empty()),
            toolbox: Seq::empty(),
            ..self
        };
        let boxed = loaded.initialize_toolbox_blocks(opcodes);
        if boxed.1 is Err {
            boxed
        } else {
            (
                RuntimeView {
                    variables,
                    lists,
                    broadcasts,
                    block_positions: Seq::empty(),
                    cursor_block: None,
                    drop_points: Seq::empty(),
                    writable_points: Seq::empty(),
                    scroll_x: 0,
                    scroll_y: 0,
                    cursor_x: 0,
                    cursor_y: 0,
                    ..boxed.0
                },
                Ok(()),
            )
        }
    }

    /// The state of a fresh editor over the templates `specs`.
    pub open spec fn fresh(specs: Seq<(Seq<char>, SpecView)>) -> RuntimeView {
        RuntimeView {
            next_usable_id: 0,
            do_sync: true,
            state: State::Move,
            is_dirty: false,
            viewport: Viewport { x_min: 0, x_max: 0, y_min: 0, y_max: 0 },
            window_cols: 0,
            window_rows: 0,
            scroll_x: 0,
            scroll_y: 0,
            cursor_x: 0,
            cursor_y: 0,
            toolbox_cursor: 0,
            toolbox_scroll: 0,
            toolbox_visible_max: 0,
            last_command: ' ',
            command_buffer: Seq::empty(),
            status_message: Seq::empty(),
            editing_shadow: Seq::empty(),
            viewport_offset_x: 0,
            viewport_offset_y: 0,
            toolbox_width: 0,
            status_height: 0,
            toolbox: Seq::empty(),
            specs,
            block_positions: Seq::empty(),
            cursor_block: None,
            drop_points: Seq::empty(),
            writable_points: Seq::empty(),
            blocks: Seq::empty(),
            top_level: Seq::empty(),
            variables: Seq::empty(),
            lists: Seq::empty(),
            broadcasts: Seq::empty(),
            outbox: Seq::empty(),
        }
    }
}

/// The value slots of the template that carry a default, with their
/// defaults, in the template's order.
fn defaults_of(spec: &Spec) -> (r: Vec<(String, DefaultValue)>)
    ensures
        defaults_view(r@) == defaults_of_lines(spec@.lines, 0, Seq::empty()),
{
    let mut r: Vec<(String, DefaultValue)> = Vec::new();
    assert(defaults_view(r@) =~= Seq::empty());
    let mut l: usize = 0;
    while l < spec.lines.len()
        invariant
            l <= spec.lines.len(),
            defaults_of_lines(spec@.lines, l as int, defaults_view(r@)) == defaults_of_lines(
                spec@.lines,
                0,
                Seq::empty(),
            ),
        decreases spec.lines.len() - l,
    {
        let line = &spec.lines[l];
        let mut f: usize = 0;
        while f < line.len()
            invariant
                l < spec.lines.len(),
                line == spec.lines@[l as int],
                f <= line.len(),
                defaults_of_lines(
                    spec@.lines,
                    l as int + 1,
                    defaults_of_line(spec@.lines[l as int], f as int, defaults_view(r@)),
                ) == defaults_of_lines(spec@.lines, 0, Seq::empty()),
            decreases line.len() - f,
        {
            let ghost before = defaults_view(r@);
            assert(spec@.lines[l as int][f as int] == line@[f as int]@);
            match &line[f] {
                Fragment::StrumberInput(name, Some(d)) => {
                    r.push((name.clone(), d.clone()));
                    assert(defaults_view(r@) =~= before.push((name@, d@)));
                },
                _ => {},
            }
            f += 1;
        }
        l += 1;
    }
    r
}

impl Runtime {
    /// A fresh editor over the templates `specs`: no blocks, the cursor at
    /// the origin, edits mirrored.
    pub fn new(specs: Vec<(String, Spec)>) -> (r: Runtime)
        ensures
            r@ == RuntimeView::fresh(specs_view(specs@)),
    {
        let r = Runtime {
            next_usable_id: 0,
            do_sync: true,
            state: State::Move,
            is_dirty: false,
            viewport: Viewport { x_min: 0, x_max: 0, y_min: 0, y_max: 0 },
            window_cols: 0,
            window_rows: 0,
            scroll_x: 0,
            scroll_y: 0,
            cursor_x: 0,
            cursor_y: 0,
            toolbox_cursor: 0,
            toolbox_scroll: 0,
            toolbox_visible_max: 0,
            last_command: ' ',
            command_buffer: String::new(),
            status_message: String::new(),
            editing_shadow: String::new(),
            viewport_offset_x: 0,
            viewport_offset_y: 0,
            toolbox_width: 0,
            status_height: 0,
            toolbox: Vec::new(),
            specs,
            block_positions: Vec::new(),
            cursor_block: None,
            drop_points: Vec::new(),
            writable_points: Vec::new(),
            blocks: Vec::new(),
            top_level: Vec::new(),
            variables: Vec::new(),
            lists: Vec::new(),
            broadcasts: Vec::new(),
            outbox: Vec::new(),
        };
        assert(r@ =~~= RuntimeView::fresh(specs_view(specs@)));
        r
    }

    /// Detaches block `id` and removes it together with every block that it
    /// owns, directly or through blocks it owns.
    pub fn delete_block(&mut self, id: &str) -> (r: Result<(), ViiruError>)
        requires
            old(self)@.contains(id@),
        ensures
            (final(self)@, r) == old(self)@.delete(id@),
    {
        match self.detach(id) {
            Ok(_) => {},
            Err(e) => {
                return Err(e);
            },
        }
        self.drop_top(id);
        let mut pending: Vec<String> = Vec::new();
        pending.push(id.to_owned());
        assert(texts(pending@) =~= seq![id@]);
        self.delete_all(pending);
        if self.do_sync {
            self.record(HostCall::DeleteBlock { id: id.to_owned() });
        }
        Ok(())
    }

    fn stamp(&mut self, id: &str, is_root: bool, depth: usize) -> (r: Result<String, ViiruError>)
        ensures
            (final(self)@, text_result(r)) == old(self)@.stamp(id@, is_root, depth as nat),
        decreases depth, 0nat,
    {
        let i = self.index_of(id);
        if i >= self.blocks.len() {
            return Err(ViiruError::UnknownOpcode);
        }
        let opcode = self.blocks[i].1.opcode.clone();
        if !self.has_spec(opcode.as_str()) {
            return Err(ViiruError::UnknownOpcode);
        }
        let at = match self.compute_own_xy(id) {
            Ok(at) => at,
            Err(e) => {
                return Err(e);
            },
        };
        let fields = clone_fields(&self.blocks[i].1.fields);
        let inputs = clone_inputs(&self.blocks[i].1.inputs);
        let next = crate::table::clone_opt(&self.blocks[i].1.next_id);
        let ghost source = self@.block(id@);
        let copy = match self.create_single_block(opcode.as_str()) {
            Ok(c) => c,
            Err(e) => {
                return Err(e);
            },
        };
        if is_root {
            match self.slide_to(copy.as_str(), at.0, at.1) {
                Ok(_) => {},
                Err(e) => {
                    return Err(e);
                },
            }
        }
        let ghost placed = self@;
        let mut k: usize = 0;
        while k < fields.len()
            invariant
                k <= fields.len(),
                self@.copy_fields(copy@, fields_view(fields@), k as int) == placed.copy_fields(
                    copy@,
                    fields_view(fields@),
                    0,
                ),
            decreases fields.len() - k,
        {
            let data_id = match &fields[k].1.id {
                Some(d) => Some(d.as_str()),
                None => None,
            };
            self.put_field(copy.as_str(), fields[k].0.as_str(), fields[k].1.text.as_str(), data_id);
            k += 1;
        }
        if depth == 0 {
            return Ok(copy);
        }
        match &next {
            Some(n) => {
                match self.stamp(n.as_str(), false, depth - 1) {
                    Ok(c) => {
                        self.link_next(c.as_str(), copy.as_str());
                    },
                    Err(e) => {
                        return Err(e);
                    },
                }
            },
            None => {},
        }
        let ghost total = self@.stamp_inputs(
            copy@,
            inputs_view(inputs@),
            0,
            (depth - 1) as nat,
        );
        let mut j: usize = 0;
        while j < inputs.len()
            invariant
                j <= inputs.len(),
                depth > 0,
                self@.stamp_inputs(copy@, inputs_view(inputs@), j as int, (depth - 1) as nat)
                    == total,
                old(self)@.stamp(id@, is_root, depth as nat) == match total.1 {
                    Ok(_) => (total.0, Ok::<Seq<char>, ViiruError>(copy@)),
                    Err(e) => (total.0, Err::<Seq<char>, ViiruError>(e)),
                },
            decreases depth, 1 + inputs.len() - j,
        {
            match &inputs[j].1.shadow_id {
                Some(c) => {
                    match self.stamp(c.as_str(), false, depth - 1) {
                        Ok(s) => {
                            let _ = self.link_input(
                                s.as_str(),
                                copy.as_str(),
                                inputs[j].0.as_str(),
                                true,
                            );
                        },
                        Err(e) => {
                            return Err(e);
                        },
                    }
                },
                None => {},
            }
            match &inputs[j].1.block_id {
                Some(c) => {
                    match self.stamp(c.as_str(), false, depth - 1) {
                        Ok(s) => {
                            let _ = self.link_input(
                                s.as_str(),
                                copy.as_str(),
                                inputs[j].0.as_str(),
                                false,
                            );
                        },
                        Err(e) => {
                            return Err(e);
                        },
                    }
                },
                None => {},
            }
            j += 1;
        }
        Ok(copy)
    }

    /// Makes a copy of block `block_id` and of all that it owns, and returns
    /// the copy's id.
    pub fn stamp_block(&mut self, block_id: &str, is_root: bool) -> (r: Result<String, ViiruError>)
        requires
            old(self)@.contains(block_id@),
        ensures
            (final(self)@, text_result(r)) == old(self)@.stamp(
                block_id@,
                is_root,
                old(self)@.blocks.len(),
            ),
    {
        let depth = self.blocks.len();
        self.stamp(block_id, is_root, depth)
    }

    fn instantiate_default(&mut self, parent: &str, name: &str, d: &DefaultValue) -> (r: Result<
        String,
        ViiruError,
    >)
        ensures
            (final(self)@, text_result(r)) == old(self)@.instantiate_default(parent@, name@, d@),
    {
        let child = match d {
            DefaultValue::Block(op) => {
                if !self.has_spec(op.as_str()) {
                    return Err(ViiruError::UnknownOpcode);
                }
                match self.create_single_block(op.as_str()) {
                    Ok(c) => c,
                    Err(e) => {
                        return Err(e);
                    },
                }
            },
            DefaultValue::Str(s) => {
                if !self.has_spec("text") {
                    return Err(ViiruError::UnknownOpcode);
                }
                let c = match self.create_single_block("text") {
                    Ok(c) => c,
                    Err(e) => {
                        return Err(e);
                    },
                };
                self.put_field(c.as_str(), "TEXT", s.as_str(), None);
                c
            },
            DefaultValue::Num(n, visible) => {
                if !self.has_spec("math_number") {
                    return Err(ViiruError::UnknownOpcode);
                }
                let c = match self.create_single_block("math_number") {
                    Ok(c) => c,
                    Err(e) => {
                        return Err(e);
                    },
                };
                let value = if *visible {
                    n.render()
                } else {
                    String::new()
                };
                self.put_field(c.as_str(), "NUM", value.as_str(), None);
                c
            },
            DefaultValue::Color(rgb) => {
                if !self.has_spec("colour_picker") {
                    return Err(ViiruError::UnknownOpcode);
                }
                let c = match self.create_single_block("colour_picker") {
                    Ok(c) => c,
                    Err(e) => {
                        return Err(e);
                    },
                };
                let value = rgb_string(*rgb);
                self.put_field(c.as_str(), "COLOUR", value.as_str(), None);
                c
            },
        };
        let _ = self.link_input(child.as_str(), parent, name, true);
        Ok(child)
    }

    /// Makes a block of `opcode` and, for each of its value slots that
    /// carries a default, a shadow block in that slot. Returns the block's id
    /// and the ids of the shadow blocks.
    pub fn create_block_template(&mut self, opcode: &str) -> (r: Result<
        (String, Vec<String>),
        ViiruError,
    >)
        ensures
            final(self)@ == old(self)@.create_block_template(opcode@).0,
            match r {
                Ok(made) => old(self)@.create_block_template(opcode@).1 == Ok::<
                    (Seq<char>, Seq<Seq<char>>),
                    ViiruError,
                >((made.0@, texts(made.1@))),
                Err(e) => old(self)@.create_block_template(opcode@).1 == Err::<
                    (Seq<char>, Seq<Seq<char>>),
                    ViiruError,
                >(e),
            },
    {
        let s = self.spec_index(opcode);
        if s >= self.specs.len() {
            return Err(ViiruError::UnknownOpcode);
        }
        let defaults = defaults_of(&self.specs[s].1);
        let id = match self.create_single_block(opcode) {
            Ok(id) => id,
            Err(e) => {
                return Err(e);
            },
        };
        let mut kids: Vec<String> = Vec::new();
        assert(texts(kids@) =~= Seq::empty());
        let ghost total = self@.instantiate_defaults(id@, defaults_view(defaults@), 0, Seq::empty());
        let mut k: usize = 0;
        while k < defaults.len()
            invariant
                k <= defaults.len(),
                self@.instantiate_defaults(id@, defaults_view(defaults@), k as int, texts(kids@))
                    == total,
                old(self)@.create_block_template(opcode@) == match total.1 {
                    Ok(kids) => (total.0, Ok::<(Seq<char>, Seq<Seq<char>>), ViiruError>((id@, kids))),
                    Err(e) => (total.0, Err::<(Seq<char>, Seq<Seq<char>>), ViiruError>(e)),
                },
            decreases defaults.len() - k,
        {
            let ghost before = texts(kids@);
            match self.instantiate_default(id.as_str(), defaults[k].0.as_str(), &defaults[k].1) {
                Ok(c) => {
                    kids.push(c);
                    assert(texts(kids@) =~= before.push(c@));
                },
                Err(e) => {
                    return Err(e);
                },
            }
            k += 1;
        }
        Ok((id, kids))
    }

    /// Takes over what a layout pass registered.
    pub fn process_accumulators(&mut self, accumulators: Accumulators)
        ensures
            final(self)@ == old(self)@.process_accumulators(accumulators@),
    {
        let Accumulators { block_positions, block_offsets, drop_points, writable_points } =
            accumulators;
        self.block_positions = block_positions;
        self.drop_points = drop_points;
        self.writable_points = writable_points;
        let ghost offsets = crate::ui::offsets_view(block_offsets@);
        let ghost total = self@.with_offsets(offsets, 0);
        let mut k: usize = 0;
        while k < block_offsets.len()
            invariant
                k <= block_offsets.len(),
                offsets == crate::ui::offsets_view(block_offsets@),
                self@.with_offsets(offsets, k as int) == total,
            decreases block_offsets.len() - k,
        {
            let i = self.index_of(block_offsets[k].0.as_str());
            if i < self.blocks.len() {
                let ghost before = self@;
                self.blocks[i].1.offset_x = block_offsets[k].1.0;
                self.blocks[i].1.offset_y = block_offsets[k].1.1;
                assert(self@.blocks =~= before.with_offset(
                    offsets[k as int].0,
                    offsets[k as int].1.0,
                    offsets[k as int].1.1,
                ).blocks);
            }
            k += 1;
        }
    }

    /// Where the held block would be attached if it were released now: the
    /// id of the block that takes it, and the input that takes it or `None`
    /// for the place after that block.
    pub fn current_drop_point(&self) -> (r: Option<(String, Option<String>)>)
        ensures
            match r {
                Some(p) => self@.current_drop_point() == Some((p.0@, opt_text(p.1))),
                None => self@.current_drop_point() is None,
            },
    {
        let c = match &self.cursor_block {
            Some(c) => c,
            None => {
                return None;
            },
        };
        let i = self.index_of(c.as_str());
        if i >= self.blocks.len() {
            return None;
        }
        let b = &self.blocks[i].1;
        let s = self.spec_index(b.opcode.as_str());
        if s >= self.specs.len() {
            return None;
        }
        let sp = &self.specs[s].1;
        proof {
            lemma_mark_at(self@.drop_points, b.x as int, b.y as int);
        }
        match find_mark(&self.drop_points, b.x, b.y) {
            Some(k) => {
                let point = &self.drop_points[k].point;
                if point.shape == sp.shape && !sp.is_hat {
                    Some((point.id.clone(), crate::table::clone_opt(&point.input)))
                } else {
                    None
                }
            },
            None => None,
        }
    }

    /// The literal that block `id` holds: the text of a text block, the
    /// number of a number block, and nothing for any other block.
    pub fn get_strumber_field(&self, id: &str) -> (r: String)
        requires
            self@.contains(id@),
        ensures
            r@ == self@.get_strumber_field(id@),
    {
        let i = self.index_of(id);
        let b = &self.blocks[i].1;
        let name = if str_eq(b.opcode.as_str(), "text") {
            "TEXT"
        } else if number_ish(b.opcode.as_str()) {
            "NUM"
        } else {
            return String::new();
        };
        let f = position(&b.fields, name);
        proof {
            assert(keys(b.fields@) =~= b@.field_names());
        }
        if f < b.fields.len() {
            b.fields[f].1.text.clone()
        } else {
            String::new()
        }
    }

    /// Sets the literal that block `id` holds, where it holds one.
    pub fn set_strumber_field(&mut self, id: &str, text: &str)
        requires
            old(self)@.contains(id@),
        ensures
            final(self)@ == old(self)@.set_strumber_field(id@, text@),
    {
        let i = self.index_of(id);
        if str_eq(self.blocks[i].1.opcode.as_str(), "text") {
            self.put_field(id, "TEXT", text, None);
        } else if number_ish(self.blocks[i].1.opcode.as_str()) {
            self.put_field(id, "NUM", text, None);
        }
    }

    /// Moves the cursor, and with it the held block, by `dx` columns.
    pub fn move_x(&mut self, dx: i32) -> (r: Result<(), ViiruError>)
        ensures
            (final(self)@, r) == old(self)@.move_x(dx),
    {
        let x = match plus(self.cursor_x, dx) {
            Ok(x) => x,
            Err(e) => {
                return Err(e);
            },
        };
        self.cursor_x = x;
        let held = crate::table::clone_opt(&self.cursor_block);
        match &held {
            Some(id) => {
                let depth = self.blocks.len();
                self.slide(id.as_str(), dx, 0, depth)
            },
            None => Ok(()),
        }
    }

    /// Moves the cursor, and with it the held block, by `dy` rows.
    pub fn move_y(&mut self, dy: i32) -> (r: Result<(), ViiruError>)
        ensures
            (final(self)@, r) == old(self)@.move_y(dy),
    {
        let y = match plus(self.cursor_y, dy) {
            Ok(y) => y,
            Err(e) => {
                return Err(e);
            },
        };
        self.cursor_y = y;
        let held = crate::table::clone_opt(&self.cursor_block);
        match &held {
            Some(id) => {
                let depth = self.blocks.len();
                self.slide(id.as_str(), 0, dy, depth)
            },
            None => Ok(()),
        }
    }

    /// Detaches block `id` and lets the cursor hold it.
    pub fn put_to_cursor(&mut self, id: &str) -> (r: Result<(), ViiruError>)
        requires
            old(self)@.contains(id@),
        ensures
            (final(self)@, r) == old(self)@.put_to_cursor(id@),
    {
        match self.detach(id) {
            Ok(_) => {},
            Err(e) => {
                return Err(e);
            },
        }
        self.cursor_block = Some(id.to_owned());
        Ok(())
    }

    /// Fills the toolbox: one block from the template of each toolbox
    /// opcode, kept out of the top-level blocks and unknown to the host.
    pub fn initialize_toolbox_blocks(&mut self) -> (r: Result<(), ViiruError>)
        ensures
            (final(self)@, r) == old(self)@.initialize_toolbox_blocks(toolbox_opcodes()),
    {
        let opcodes = toolbox();
        self.do_sync = false;
        let ghost total = self@.toolbox_from(toolbox_opcodes(), 0);
        let mut k: usize = 0;
        while k < opcodes.len()
            invariant
                k <= opcodes.len(),
                texts(opcodes@) == toolbox_opcodes(),
                self@.toolbox_from(toolbox_opcodes(), k as int) == total,
                total == (RuntimeView { do_sync: false, ..old(self)@ }).toolbox_from(
                    toolbox_opcodes(),
                    0,
                ),
            decreases opcodes.len() - k,
        {
            match self.create_block_template(opcodes[k].as_str()) {
                Ok(made) => {
                    self.drop_top(made.0.as_str());
                    let ghost before = self@;
                    self.toolbox.push(made.0);
                    assert(self@.toolbox =~= before.toolbox.push(made.0@));
                    k += 1;
                },
                Err(e) => {
                    self.do_sync = true;
                    return Err(e);
                },
            }
        }
        self.do_sync = true;
        Ok(())
    }

    /// Takes over the project that the host has loaded: its blocks and its
    /// named data.
    pub fn project_loaded(
        &mut self,
        blocks: Vec<(String, Block)>,
        variables: Vec<(String, String)>,
        lists: Vec<(String, String)>,
        broadcasts: Vec<(String, String)>,
    ) -> (r: Result<(), ViiruError>)
        ensures
            (final(self)@, r) == old(self)@.project_loaded(
                blocks_view(blocks@),
                pairs_view(variables@),
                pairs_view(lists@),
                pairs_view(broadcasts@),
                toolbox_opcodes(),
            ),
    {
        let mut top: Vec<String> = Vec::new();
        assert(texts(top@) =~= Seq::empty());
        let mut k: usize = 0;
        while k < blocks.len()
            invariant
                k <= blocks.len(),
                parentless(blocks_view(blocks@), k as int, texts(top@)) == parentless(
                    blocks_view(blocks@),
                    0,
                    Seq::empty(),
                ),
            decreases blocks.len() - k,
        {
            let ghost before = texts(top@);
            if blocks[k].1.parent_id.is_none() {
                top.push(blocks[k].0.clone());
                assert(texts(top@) =~= before.push(blocks@[k as int].0@));
            }
            k += 1;
        }
        self.blocks = blocks;
        self.top_level = top;
        self.toolbox = Vec::new();
        assert(self@.toolbox =~= Seq::empty());
        match self.initialize_toolbox_blocks() {
            Ok(_) => {},
            Err(e) => {
                return Err(e);
            },
        }
        self.variables = variables;
        self.lists = lists;
        self.broadcasts = broadcasts;
        self.block_positions = Vec::new();
        self.cursor_block = None;
        self.drop_points = Vec::new();
        self.writable_points = Vec::new();
        self.scroll_x = 0;
        self.scroll_y = 0;
        self.cursor_x = 0;
        self.cursor_y = 0;
        proof {
            assert(self@.block_positions =~= Seq::empty());
            assert(self@.drop_points =~= Seq::empty());
            assert(self@.writable_points =~= Seq::empty());
        }
        Ok(())
    }

    /// Notes that the host has saved the project: nothing is unsaved now.
    pub fn project_saved(&mut self)
        ensures
            final(self)@ == (RuntimeView { is_dirty: false, ..old(self)@ }),
    {
        self.is_dirty = false;
    }
}

/// The id that the number `n` gives.
pub fn make_id(n: usize) -> (id: String)
    ensures
        id@ == id_text(n as nat),
{
    let mut id = "viiru-".to_owned();
    let digits = decimal_string(n);
    id.append(digits.as_str());
    id
}

} // verus!
