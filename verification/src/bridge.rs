//! The calls that mirror a local edit to the host that owns the project. The
//! library only records them; whoever drives it performs them in order.

use vstd::prelude::*;
use vstd::string::*;
use crate::table::opt_text;

verus! {

/// The three kinds of named data that a field can refer to.
#[derive(Debug, Clone, Copy, PartialEq, Eq, Structural)]
pub enum VariableType {
    Scalar,
    List,
    Broadcast,
}

/// The name under which the host knows a kind of named data.
pub fn variable_type_name(variable_type: VariableType) -> (s: &'static str)
    ensures
        s@ == variable_type_name_text(variable_type),
{
    match variable_type {
        VariableType::Scalar => "",
        VariableType::List => "list",
        VariableType::Broadcast => "broadcast_msg",
    }
}

pub open spec fn variable_type_name_text(variable_type: VariableType) -> Seq<char> {
    match variable_type {
        VariableType::Scalar => ""@,
        VariableType::List => "list"@,
        VariableType::Broadcast => "broadcast_msg"@,
    }
}

#[derive(Debug)]
pub enum HostCall {
    CreateBlock { opcode: String, is_shadow: bool, id: String },
    DeleteBlock { id: String },
    SlideBlock { id: String, x: i32, y: i32 },
    AttachBlock { id: String, parent_id: String, input_name: Option<String>, is_shadow: bool },
    DetachBlock { id: String },
    ChangeField { block_id: String, field: String, text: String, data_id: Option<String> },
}

#[verifier::ext_equal]
pub enum HostCallView {
    CreateBlock { opcode: Seq<char>, is_shadow: bool, id: Seq<char> },
    DeleteBlock { id: Seq<char> },
    SlideBlock { id: Seq<char>, x: i32, y: i32 },
    AttachBlock {
        id: Seq<char>,
        parent_id: Seq<char>,
        input_name: Option<Seq<char>>,
        is_shadow: bool,
    },
    DetachBlock { id: Seq<char> },
    ChangeField {
        block_id: Seq<char>,
        field: Seq<char>,
        text: Seq<char>,
        data_id: Option<Seq<char>>,
    },
}

impl View for HostCall {
    type V = HostCallView;

    open spec fn view(&self) -> HostCallView {
        match *self {
            HostCall::CreateBlock { opcode, is_shadow, id } => HostCallView::CreateBlock {
                opcode: opcode@,
                is_shadow,
                id: id@,
            },
            HostCall::DeleteBlock { id } => HostCallView::DeleteBlock { id: id@ },
            HostCall::SlideBlock { id, x, y } => HostCallView::SlideBlock { id: id@, x, y },
            HostCall::AttachBlock {
                id,
                parent_id,
                input_name,
                is_shadow,
            } => HostCallView::AttachBlock {
                id: id@,
                parent_id: parent_id@,
                input_name: opt_text(input_name),
                is_shadow,
            },
            HostCall::DetachBlock { id } => HostCallView::DetachBlock { id: id@ },
            HostCall::ChangeField { block_id, field, text, data_id } => HostCallView::ChangeField {
                block_id: block_id@,
                field: field@,
                text: text@,
                data_id: opt_text(data_id),
            },
        }
    }
}

/// The views of a list of host calls.
pub open spec fn calls_view(calls: Seq<HostCall>) -> Seq<HostCallView> {
    Seq::new(calls.len(), |i: int| calls[i]@)
}

} // verus!
