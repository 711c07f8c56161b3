//! One block instance: its opcode, links, named inputs and named fields.

use vstd::prelude::*;
use vstd::string::*;
use crate::table::{clone_opt, find, keys, opt_text, position};
use crate::util::str_eq;

verus! {

/// What a slot holds: a real block, a default shadow block, both or neither.
#[derive(Debug)]
pub struct Input {
    pub shadow_id: Option<String>,
    pub block_id: Option<String>,
}

/// A field's text, and the id of the variable, list or broadcast that the text
/// names, where it names one.
#[derive(Debug)]
pub struct Field {
    pub text: String,
    pub id: Option<String>,
}

#[derive(Debug)]
pub struct Block {
    pub x: i32,
    pub y: i32,
    /// Position relative to the parent, as the last layout pass left it.
    pub offset_x: i32,
    pub offset_y: i32,
    pub opcode: String,
    pub parent_id: Option<String>,
    pub next_id: Option<String>,
    pub inputs: Vec<(String, Input)>,
    pub fields: Vec<(String, Field)>,
}

#[verifier::ext_equal]
pub struct InputView {
    pub shadow_id: Option<Seq<char>>,
    pub block_id: Option<Seq<char>>,
}

#[verifier::ext_equal]
pub struct FieldView {
    pub text: Seq<char>,
    pub id: Option<Seq<char>>,
}

#[verifier::ext_equal]
pub struct BlockView {
    pub x: i32,
    pub y: i32,
    pub offset_x: i32,
    pub offset_y: i32,
    pub opcode: Seq<char>,
    pub parent_id: Option<Seq<char>>,
    pub next_id: Option<Seq<char>>,
    pub inputs: Seq<(Seq<char>, InputView)>,
    pub fields: Seq<(Seq<char>, FieldView)>,
}

/// The views of a block's inputs.
pub open spec fn inputs_view(inputs: Seq<(String, Input)>) -> Seq<(Seq<char>, InputView)> {
    Seq::new(inputs.len(), |i: int| (inputs[i].0@, inputs[i].1@))
}

/// The views of a block's fields.
pub open spec fn fields_view(fields: Seq<(String, Field)>) -> Seq<(Seq<char>, FieldView)> {
    Seq::new(fields.len(), |i: int| (fields[i].0@, fields[i].1@))
}

impl View for Input {
    type V = InputView;

    open spec fn view(&self) -> InputView {
        InputView { shadow_id: opt_text(self.shadow_id), block_id: opt_text(self.block_id) }
    }
}

impl View for Field {
    type V = FieldView;

    open spec fn view(&self) -> FieldView {
        FieldView { text: self.text@, id: opt_text(self.id) }
    }
}

impl View for Block {
    type V = BlockView;

    open spec fn view(&self) -> BlockView {
        BlockView {
            x: self.x,
            y: self.y,
            offset_x: self.offset_x,
            offset_y: self.offset_y,
            opcode: self.opcode@,
            parent_id: opt_text(self.parent_id),
            next_id: opt_text(self.next_id),
            inputs: inputs_view(self.inputs@),
            fields: fields_view(self.fields@),
        }
    }
}

impl Clone for Input {
    fn clone(&self) -> (r: Self)
        ensures
            r@ == self@,
    {
        Input { shadow_id: clone_opt(&self.shadow_id), block_id: clone_opt(&self.block_id) }
    }
}

impl Clone for Field {
    fn clone(&self) -> (r: Self)
        ensures
            r@ == self@,
    {
        Field { text: self.text.clone(), id: clone_opt(&self.id) }
    }
}

impl Clone for Block {
    fn clone(&self) -> (r: Self)
        ensures
            r@ == self@,
    {
        let mut inputs: Vec<(String, Input)> = Vec::new();
        let mut i: usize = 0;
        while i < self.inputs.len()
            invariant
                i <= self.inputs.len(),
                inputs@.len() == i,
                forall|j: int|
                    0 <= j < i ==> inputs@[j].0@ == self.inputs@[j].0@ && inputs@[j].1@
                        == self.inputs@[j].1@,
            decreases self.inputs.len() - i,
        {
            inputs.push((self.inputs[i].0.clone(), self.inputs[i].1.clone()));
            i += 1;
        }
        let mut fields: Vec<(String, Field)> = Vec::new();
        let mut k: usize = 0;
        while k < self.fields.len()
            invariant
                k <= self.fields.len(),
                fields@.len() == k,
                forall|j: int|
                    0 <= j < k ==> fields@[j].0@ == self.fields@[j].0@ && fields@[j].1@
                        == self.fields@[j].1@,
            decreases self.fields.len() - k,
        {
            fields.push((self.fields[k].0.clone(), self.fields[k].1.clone()));
            k += 1;
        }
        let r = Block {
            x: self.x,
            y: self.y,
            offset_x: self.offset_x,
            offset_y: self.offset_y,
            opcode: self.opcode.clone(),
            parent_id: clone_opt(&self.parent_id),
            next_id: clone_opt(&self.next_id),
            inputs,
            fields,
        };
        assert(r@.inputs =~= self@.inputs);
        assert(r@.fields =~= self@.fields);
        r
    }
}

impl Default for Block {
    /// A block without opcode, links, inputs or fields, at the origin.
    fn default() -> (r: Self)
        ensures
            r@ == (BlockView {
                x: 0,
                y: 0,
                offset_x: 0,
                offset_y: 0,
                opcode: Seq::empty(),
                parent_id: None,
                next_id: None,
                inputs: Seq::empty(),
                fields: Seq::empty(),
            }),
    {
        let r = Block {
            x: 0,
            y: 0,
            offset_x: 0,
            offset_y: 0,
            opcode: String::new(),
            parent_id: None,
            next_id: None,
            inputs: Vec::new(),
            fields: Vec::new(),
        };
        assert(r@.inputs =~= Seq::empty());
        assert(r@.fields =~= Seq::empty());
        r
    }
}

impl InputView {
    /// The half of the input that `is_shadow` selects.
    pub open spec fn side(self, is_shadow: bool) -> Option<Seq<char>> {
        if is_shadow {
            self.shadow_id
        } else {
            self.block_id
        }
    }

    /// This input with the selected half replaced.
    pub open spec fn with_side(self, is_shadow: bool, id: Option<Seq<char>>) -> InputView {
        if is_shadow {
            InputView { shadow_id: id, ..self }
        } else {
            InputView { block_id: id, ..self }
        }
    }

    /// The block that a layout pass shows in the slot: the real one where there
    /// is one, else the shadow.
    pub open spec fn topmost(self) -> Option<Seq<char>> {
        if self.block_id is Some {
            self.block_id
        } else {
            self.shadow_id
        }
    }
}

impl BlockView {
    /// The names of the inputs, in order.
    pub open spec fn input_names(self) -> Seq<Seq<char>> {
        Seq::new(self.inputs.len(), |i: int| self.inputs[i].0)
    }

    /// The names of the fields, in order.
    pub open spec fn field_names(self) -> Seq<Seq<char>> {
        Seq::new(self.fields.len(), |i: int| self.fields[i].0)
    }

    /// The index of the input called `name`, or the number of inputs.
    pub open spec fn input_index(self, name: Seq<char>) -> int {
        find(self.input_names(), name)
    }

    /// The index of the field called `name`, or the number of fields.
    pub open spec fn field_index(self, name: Seq<char>) -> int {
        find(self.field_names(), name)
    }

    pub open spec fn has_input(self, name: Seq<char>) -> bool {
        self.input_index(name) < self.inputs.len()
    }

    pub open spec fn has_field(self, name: Seq<char>) -> bool {
        self.field_index(name) < self.fields.len()
    }

    /// The input called `name`; arbitrary where there is none.
    pub open spec fn input(self, name: Seq<char>) -> InputView {
        self.inputs[self.input_index(name)].1
    }

    /// The field called `name`; arbitrary where there is none.
    pub open spec fn field(self, name: Seq<char>) -> FieldView {
        self.fields[self.field_index(name)].1
    }

    /// This block with the input at `i` replaced.
    pub open spec fn with_input(self, i: int, input: InputView) -> BlockView {
        BlockView { inputs: self.inputs.update(i, (self.inputs[i].0, input)), ..self }
    }

    /// This block with the field at `i` replaced.
    pub open spec fn with_field(self, i: int, field: FieldView) -> BlockView {
        BlockView { fields: self.fields.update(i, (self.fields[i].0, field)), ..self }
    }

    /// Whether the block only ends control: it deletes its clone, or it stops
    /// something other than the sprite's other scripts.
    pub open spec fn is_boot(self) -> bool {
        self.opcode == "control_delete_this_clone"@ || (self.opcode == "control_stop"@
            && self.field("STOP_OPTION"@).text != "other scripts in sprite"@)
    }

    /// Whether `is_boot` can be asked: a stop block carries its option field.
    pub open spec fn boot_defined(self) -> bool {
        self.opcode == "control_stop"@ ==> self.has_field("STOP_OPTION"@)
    }
}

impl Block {
    /// Puts `id` into one half of the input called `input_name` and returns what
    /// that half held. Without such an input nothing changes and `None` comes
    /// back.
    pub fn set_input(&mut self, input_name: &str, id: &str, is_shadow: bool) -> (r: Option<String>)
        ensures
            !old(self)@.has_input(input_name@) ==> final(self)@ == old(self)@ && r is None,
            old(self)@.has_input(input_name@) ==> {
                let i = old(self)@.input_index(input_name@);
                &&& final(self)@ == old(self)@.with_input(
                    i,
                    old(self)@.inputs[i].1.with_side(is_shadow, Some(id@)),
                )
                &&& opt_text(r) == old(self)@.inputs[i].1.side(is_shadow)
            },
    {
        let i = position(&self.inputs, input_name);
        proof {
            assert(keys(self.inputs@) =~= self@.input_names());
        }
        if i >= self.inputs.len() {
            return None;
        }
        let mut given = Some(id.to_owned());
        if is_shadow {
            std::mem::swap(&mut self.inputs[i].1.shadow_id, &mut given);
        } else {
            std::mem::swap(&mut self.inputs[i].1.block_id, &mut given);
        }
        proof {
            assert(final(self)@.inputs =~= old(self)@.with_input(
                i as int,
                old(self)@.inputs[i as int].1.with_side(is_shadow, Some(id@)),
            ).inputs);
            assert(final(self)@.fields =~= old(self)@.fields);
        }
        given
    }

    /// Empties one half of the input called `input_name` and returns what that
    /// half held. Without such an input nothing changes and `None` comes back.
    pub fn remove_input(&mut self, input_name: &str, is_shadow: bool) -> (r: Option<String>)
        ensures
            !old(self)@.has_input(input_name@) ==> final(self)@ == old(self)@ && r is None,
            old(self)@.has_input(input_name@) ==> {
                let i = old(self)@.input_index(input_name@);
                &&& final(self)@ == old(self)@.with_input(
                    i,
                    old(self)@.inputs[i].1.with_side(is_shadow, None),
                )
                &&& opt_text(r) == old(self)@.inputs[i].1.side(is_shadow)
            },
    {
        let i = position(&self.inputs, input_name);
        proof {
            assert(keys(self.inputs@) =~= self@.input_names());
        }
        if i >= self.inputs.len() {
            return None;
        }
        let mut given: Option<String> = None;
        if is_shadow {
            std::mem::swap(&mut self.inputs[i].1.shadow_id, &mut given);
        } else {
            std::mem::swap(&mut self.inputs[i].1.block_id, &mut given);
        }
        proof {
            assert(final(self)@.inputs =~= old(self)@.with_input(
                i as int,
                old(self)@.inputs[i as int].1.with_side(is_shadow, None),
            ).inputs);
            assert(final(self)@.fields =~= old(self)@.fields);
        }
        given
    }

    /// Whether the block only ends control, so that nothing can follow it.
    pub fn is_boot(&self) -> (r: bool)
        requires
            self@.boot_defined(),
        ensures
            r == self@.is_boot(),
    {
        if str_eq(self.opcode.as_str(), "control_delete_this_clone") {
            return true;
        }
        if !str_eq(self.opcode.as_str(), "control_stop") {
            return false;
        }
        let i = position(&self.fields, "STOP_OPTION");
        proof {
            assert(keys(self.fields@) =~= self@.field_names());
        }
        !str_eq(self.fields[i].1.text.as_str(), "other scripts in sprite")
    }

    /// Replaces the text of the field called `field_name` and returns the old
    /// text. Without such a field nothing changes and `None` comes back.
    pub fn set_field_text(&mut self, field_name: &str, text: &str) -> (r: Option<String>)
        ensures
            !old(self)@.has_field(field_name@) ==> final(self)@ == old(self)@ && r is None,
            old(self)@.has_field(field_name@) ==> {
                let i = old(self)@.field_index(field_name@);
                &&& final(self)@ == old(self)@.with_field(
                    i,
                    FieldView { text: text@, ..old(self)@.fields[i].1 },
                )
                &&& r matches Some(t) && t@ == old(self)@.fields[i].1.text
            },
    {
        let i = position(&self.fields, field_name);
        proof {
            assert(keys(self.fields@) =~= self@.field_names());
        }
        if i >= self.fields.len() {
            return None;
        }
        let mut given = text.to_owned();
        std::mem::swap(&mut self.fields[i].1.text, &mut given);
        proof {
            assert(final(self)@.fields =~= old(self)@.with_field(
                i as int,
                FieldView { text: text@, ..old(self)@.fields[i as int].1 },
            ).fields);
            assert(final(self)@.inputs =~= old(self)@.inputs);
        }
        Some(given)
    }

    /// Links the field called `field_name` to `id` and returns the id it was
    /// linked to. Without such a field nothing changes and `None` comes back.
    pub fn set_field_id(&mut self, field_name: &str, id: &str) -> (r: Option<String>)
        ensures
            !old(self)@.has_field(field_name@) ==> final(self)@ == old(self)@ && r is None,
            old(self)@.has_field(field_name@) ==> {
                let i = old(self)@.field_index(field_name@);
                &&& final(self)@ == old(self)@.with_field(
                    i,
                    FieldView { id: Some(id@), ..old(self)@.fields[i].1 },
                )
                &&& opt_text(r) == old(self)@.fields[i].1.id
            },
    {
        let i = position(&self.fields, field_name);
        proof {
            assert(keys(self.fields@) =~= self@.field_names());
        }
        if i >= self.fields.len() {
            return None;
        }
        let mut given = Some(id.to_owned());
        std::mem::swap(&mut self.fields[i].1.id, &mut given);
        proof {
            assert(final(self)@.fields =~= old(self)@.with_field(
                i as int,
                FieldView { id: Some(id@), ..old(self)@.fields[i as int].1 },
            ).fields);
            assert(final(self)@.inputs =~= old(self)@.inputs);
        }
        given
    }

    /// Unlinks the field called `field_name` and returns the id it was linked
    /// to. Without such a field nothing changes and `None` comes back.
    pub fn remove_field_id(&mut self, field_name: &str) -> (r: Option<String>)
        ensures
            !old(self)@.has_field(field_name@) ==> final(self)@ == old(self)@ && r is None,
            old(self)@.has_field(field_name@) ==> {
                let i = old(self)@.field_index(field_name@);
                &&& final(self)@ == old(self)@.with_field(
                    i,
                    FieldView { id: None, ..old(self)@.fields[i].1 },
                )
                &&& opt_text(r) == old(self)@.fields[i].1.id
            },
    {
        let i = position(&self.fields, field_name);
        proof {
            assert(keys(self.fields@) =~= self@.field_names());
        }
        if i >= self.fields.len() {
            return None;
        }
        let mut given: Option<String> = None;
        std::mem::swap(&mut self.fields[i].1.id, &mut given);
        proof {
            assert(final(self)@.fields =~= old(self)@.with_field(
                i as int,
                FieldView { id: None, ..old(self)@.fields[i as int].1 },
            ).fields);
            assert(final(self)@.inputs =~= old(self)@.inputs);
        }
        given
    }
}

} // verus!
