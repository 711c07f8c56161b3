//! The opcodes that the editor ships: which of them hold a number, and which
//! the toolbox offers, in its order.

use vstd::prelude::*;
use vstd::string::*;

use crate::grammar::{compile, parse_template};
use crate::runtime::{Runtime, RuntimeView};
use crate::spec::{DropdownOption, DropdownOptionView, Spec, clone_options, options_view};
use crate::util::str_eq;

verus! {

/// Whether `opcode` is one of the shadow blocks that hold a number.
pub open spec fn is_number_ish(opcode: Seq<char>) -> bool {
    opcode == "math_number"@ || opcode == "math_integer"@ || opcode == "math_whole_number"@
        || opcode == "math_positive_number"@ || opcode == "math_angle"@
}

/// Whether `opcode` is one of the shadow blocks that hold a number.
pub fn number_ish(opcode: &str) -> (r: bool)
    ensures
        r == is_number_ish(opcode@),
{
    str_eq(opcode, "math_number") || str_eq(opcode, "math_integer") || str_eq(
        opcode,
        "math_whole_number",
    ) || str_eq(opcode, "math_positive_number") || str_eq(opcode, "math_angle")
}

} // verus!

verus! {
/// How many opcodes the toolbox offers.
pub const TOOLBOX_LEN: usize = 119;

/// The opcode at place `i` of the toolbox.
pub open spec fn toolbox_name(i: int) -> &'static str {
    if i == 0 {
        "motion_movesteps"
    }     else if i == 1 {
        "motion_turnright"
    }     else if i == 2 {
        "motion_turnleft"
    }     else if i == 3 {
        "motion_goto"
    }     else if i == 4 {
        "motion_gotoxy"
    }     else if i == 5 {
        "motion_glideto"
    }     else if i == 6 {
        "motion_glidesecstoxy"
    }     else if i == 7 {
        "motion_pointindirection"
    }     else if i == 8 {
        "motion_pointtowards"
    }     else if i == 9 {
        "motion_changexby"
    }     else if i == 10 {
        "motion_setx"
    }     else if i == 11 {
        "motion_changeyby"
    }     else if i == 12 {
        "motion_sety"
    }     else if i == 13 {
        "motion_ifonedgebounce"
    }     else if i == 14 {
        "motion_setrotationstyle"
    }     else if i == 15 {
        "motion_xposition"
    }     else if i == 16 {
        "motion_yposition"
    }     else if i == 17 {
        "motion_direction"
    }     else if i == 18 {
        "looks_sayforsecs"
    }     else if i == 19 {
        "looks_say"
    }     else if i == 20 {
        "looks_thinkforsecs"
    }     else if i == 21 {
        "looks_think"
    }     else if i == 22 {
        "looks_switchcostumeto"
    }     else if i == 23 {
        "looks_nextcostume"
    }     else if i == 24 {
        "looks_switchbackdropto"
    }     else if i == 25 {
        "looks_switchbackdroptoandwait"
    }     else if i == 26 {
        "looks_nextbackdrop"
    }     else if i == 27 {
        "looks_changesizeby"
    }     else if i == 28 {
        "looks_setsizeto"
    }     else if i == 29 {
        "looks_changeeffectby"
    }     else if i == 30 {
        "looks_seteffectto"
    }     else if i == 31 {
        "looks_cleargraphiceffects"
    }     else if i == 32 {
        "looks_show"
    }     else if i == 33 {
        "looks_hide"
    }     else if i == 34 {
        "looks_gotofrontback"
    }     else if i == 35 {
        "looks_goforwardbackwardlayers"
    }     else if i == 36 {
        "looks_costumenumbername"
    }     else if i == 37 {
        "looks_backdropnumbername"
    }     else if i == 38 {
        "looks_size"
    }     else if i == 39 {
        "sound_playuntildone"
    }     else if i == 40 {
        "sound_play"
    }     else if i == 41 {
        "sound_stopallsounds"
    }     else if i == 42 {
        "sound_changeeffectby"
    }     else if i == 43 {
        "sound_seteffectto"
    }     else if i == 44 {
        "sound_cleareffects"
    }     else if i == 45 {
        "sound_changevolumeby"
    }     else if i == 46 {
        "sound_setvolumeto"
    }     else if i == 47 {
        "sound_volume"
    }     else if i == 48 {
        "event_whenflagclicked"
    }     else if i == 49 {
        "event_whenkeypressed"
    }     else if i == 50 {
        "event_whenthisspriteclicked"
    }     else if i == 51 {
        "event_whenstageclicked"
    }     else if i == 52 {
        "event_whenbackdropswitchesto"
    }     else if i == 53 {
        "event_whengreaterthan"
    }     else if i == 54 {
        "event_whenbroadcastreceived"
    }     else if i == 55 {
        "event_broadcast"
    }     else if i == 56 {
        "event_broadcastandwait"
    }     else if i == 57 {
        "control_wait"
    }     else if i == 58 {
        "control_repeat"
    }     else if i == 59 {
        "control_forever"
    }     else if i == 60 {
        "control_if"
    }     else if i == 61 {
        "control_if_else"
    }     else if i == 62 {
        "control_wait_until"
    }     else if i == 63 {
        "control_repeat_until"
    }     else if i == 64 {
        "control_stop"
    }     else if i == 65 {
        "control_start_as_clone"
    }     else if i == 66 {
        "control_create_clone_of"
    }     else if i == 67 {
        "control_delete_this_clone"
    }     else if i == 68 {
        "sensing_touchingobject"
    }     else if i == 69 {
        "sensing_touchingcolor"
    }     else if i == 70 {
        "sensing_coloristouchingcolor"
    }     else if i == 71 {
        "sensing_distanceto"
    }     else if i == 72 {
        "sensing_askandwait"
    }     else if i == 73 {
        "sensing_answer"
    }     else if i == 74 {
        "sensing_keypressed"
    }     else if i == 75 {
        "sensing_mousedown"
    }     else if i == 76 {
        "sensing_mousex"
    }     else if i == 77 {
        "sensing_mousey"
    }     else if i == 78 {
        "sensing_setdragmode"
    }     else if i == 79 {
        "sensing_loudness"
    }     else if i == 80 {
        "sensing_timer"
    }     else if i == 81 {
        "sensing_resettimer"
    }     else if i == 82 {
        "sensing_of"
    }     else if i == 83 {
        "sensing_current"
    }     else if i == 84 {
        "sensing_dayssince2000"
    }     else if i == 85 {
        "sensing_username"
    }     else if i == 86 {
        "operator_add"
    }     else if i == 87 {
        "operator_subtract"
    }     else if i == 88 {
        "operator_multiply"
    }     else if i == 89 {
        "operator_divide"
    }     else if i == 90 {
        "operator_random"
    }     else if i == 91 {
        "operator_gt"
    }     else if i == 92 {
        "operator_lt"
    }     else if i == 93 {
        "operator_equals"
    }     else if i == 94 {
        "operator_and"
    }     else if i == 95 {
        "operator_or"
    }     else if i == 96 {
        "operator_not"
    }     else if i == 97 {
        "operator_join"
    }     else if i == 98 {
        "operator_letter_of"
    }     else if i == 99 {
        "operator_length"
    }     else if i == 100 {
        "operator_contains"
    }     else if i == 101 {
        "operator_mod"
    }     else if i == 102 {
        "operator_round"
    }     else if i == 103 {
        "operator_mathop"
    }     else if i == 104 {
        "data_setvariableto"
    }     else if i == 105 {
        "data_changevariableby"
    }     else if i == 106 {
        "data_showvariable"
    }     else if i == 107 {
        "data_hidevariable"
    }     else if i == 108 {
        "data_addtolist"
    }     else if i == 109 {
        "data_deleteoflist"
    }     else if i == 110 {
        "data_deletealloflist"
    }     else if i == 111 {
        "data_insertatlist"
    }     else if i == 112 {
        "data_replaceitemoflist"
    }     else if i == 113 {
        "data_itemoflist"
    }     else if i == 114 {
        "data_itemnumoflist"
    }     else if i == 115 {
        "data_lengthoflist"
    }     else if i == 116 {
        "data_listcontainsitem"
    }     else if i == 117 {
        "data_showlist"
    } else {
        "data_hidelist"
    }
}

/// The opcode at place `i` of the toolbox.
pub fn toolbox_entry(i: usize) -> (s: &'static str)
    requires
        i < TOOLBOX_LEN,
    ensures
        s == toolbox_name(i as int),
{
    if i == 0 {
        "motion_movesteps"
    }     else if i == 1 {
        "motion_turnright"
    }     else if i == 2 {
        "motion_turnleft"
    }     else if i == 3 {
        "motion_goto"
    }     else if i == 4 {
        "motion_gotoxy"
    }     else if i == 5 {
        "motion_glideto"
    }     else if i == 6 {
        "motion_glidesecstoxy"
    }     else if i == 7 {
        "motion_pointindirection"
    }     else if i == 8 {
        "motion_pointtowards"
    }     else if i == 9 {
        "motion_changexby"
    }     else if i == 10 {
        "motion_setx"
    }     else if i == 11 {
        "motion_changeyby"
    }     else if i == 12 {
        "motion_sety"
    }     else if i == 13 {
        "motion_ifonedgebounce"
    }     else if i == 14 {
        "motion_setrotationstyle"
    }     else if i == 15 {
        "motion_xposition"
    }     else if i == 16 {
        "motion_yposition"
    }     else if i == 17 {
        "motion_direction"
    }     else if i == 18 {
        "looks_sayforsecs"
    }     else if i == 19 {
        "looks_say"
    }     else if i == 20 {
        "looks_thinkforsecs"
    }     else if i == 21 {
        "looks_think"
    }     else if i == 22 {
        "looks_switchcostumeto"
    }     else if i == 23 {
        "looks_nextcostume"
    }     else if i == 24 {
        "looks_switchbackdropto"
    }     else if i == 25 {
        "looks_switchbackdroptoandwait"
    }     else if i == 26 {
        "looks_nextbackdrop"
    }     else if i == 27 {
        "looks_changesizeby"
    }     else if i == 28 {
        "looks_setsizeto"
    }     else if i == 29 {
        "looks_changeeffectby"
    }     else if i == 30 {
        "looks_seteffectto"
    }     else if i == 31 {
        "looks_cleargraphiceffects"
    }     else if i == 32 {
        "looks_show"
    }     else if i == 33 {
        "looks_hide"
    }     else if i == 34 {
        "looks_gotofrontback"
    }     else if i == 35 {
        "looks_goforwardbackwardlayers"
    }     else if i == 36 {
        "looks_costumenumbername"
    }     else if i == 37 {
        "looks_backdropnumbername"
    }     else if i == 38 {
        "looks_size"
    }     else if i == 39 {
        "sound_playuntildone"
    }     else if i == 40 {
        "sound_play"
    }     else if i == 41 {
        "sound_stopallsounds"
    }     else if i == 42 {
        "sound_changeeffectby"
    }     else if i == 43 {
        "sound_seteffectto"
    }     else if i == 44 {
        "sound_cleareffects"
    }     else if i == 45 {
        "sound_changevolumeby"
    }     else if i == 46 {
        "sound_setvolumeto"
    }     else if i == 47 {
        "sound_volume"
    }     else if i == 48 {
        "event_whenflagclicked"
    }     else if i == 49 {
        "event_whenkeypressed"
    }     else if i == 50 {
        "event_whenthisspriteclicked"
    }     else if i == 51 {
        "event_whenstageclicked"
    }     else if i == 52 {
        "event_whenbackdropswitchesto"
    }     else if i == 53 {
        "event_whengreaterthan"
    }     else if i == 54 {
        "event_whenbroadcastreceived"
    }     else if i == 55 {
        "event_broadcast"
    }     else if i == 56 {
        "event_broadcastandwait"
    }     else if i == 57 {
        "control_wait"
    }     else if i == 58 {
        "control_repeat"
    }     else if i == 59 {
        "control_forever"
    }     else if i == 60 {
        "control_if"
    }     else if i == 61 {
        "control_if_else"
    }     else if i == 62 {
        "control_wait_until"
    }     else if i == 63 {
        "control_repeat_until"
    }     else if i == 64 {
        "control_stop"
    }     else if i == 65 {
        "control_start_as_clone"
    }     else if i == 66 {
        "control_create_clone_of"
    }     else if i == 67 {
        "control_delete_this_clone"
    }     else if i == 68 {
        "sensing_touchingobject"
    }     else if i == 69 {
        "sensing_touchingcolor"
    }     else if i == 70 {
        "sensing_coloristouchingcolor"
    }     else if i == 71 {
        "sensing_distanceto"
    }     else if i == 72 {
        "sensing_askandwait"
    }     else if i == 73 {
        "sensing_answer"
    }     else if i == 74 {
        "sensing_keypressed"
    }     else if i == 75 {
        "sensing_mousedown"
    }     else if i == 76 {
        "sensing_mousex"
    }     else if i == 77 {
        "sensing_mousey"
    }     else if i == 78 {
        "sensing_setdragmode"
    }     else if i == 79 {
        "sensing_loudness"
    }     else if i == 80 {
        "sensing_timer"
    }     else if i == 81 {
        "sensing_resettimer"
    }     else if i == 82 {
        "sensing_of"
    }     else if i == 83 {
        "sensing_current"
    }     else if i == 84 {
        "sensing_dayssince2000"
    }     else if i == 85 {
        "sensing_username"
    }     else if i == 86 {
        "operator_add"
    }     else if i == 87 {
        "operator_subtract"
    }     else if i == 88 {
        "operator_multiply"
    }     else if i == 89 {
        "operator_divide"
    }     else if i == 90 {
        "operator_random"
    }     else if i == 91 {
        "operator_gt"
    }     else if i == 92 {
        "operator_lt"
    }     else if i == 93 {
        "operator_equals"
    }     else if i == 94 {
        "operator_and"
    }     else if i == 95 {
        "operator_or"
    }     else if i == 96 {
        "operator_not"
    }     else if i == 97 {
        "operator_join"
    }     else if i == 98 {
        "operator_letter_of"
    }     else if i == 99 {
        "operator_length"
    }     else if i == 100 {
        "operator_contains"
    }     else if i == 101 {
        "operator_mod"
    }     else if i == 102 {
        "operator_round"
    }     else if i == 103 {
        "operator_mathop"
    }     else if i == 104 {
        "data_setvariableto"
    }     else if i == 105 {
        "data_changevariableby"
    }     else if i == 106 {
        "data_showvariable"
    }     else if i == 107 {
        "data_hidevariable"
    }     else if i == 108 {
        "data_addtolist"
    }     else if i == 109 {
        "data_deleteoflist"
    }     else if i == 110 {
        "data_deletealloflist"
    }     else if i == 111 {
        "data_insertatlist"
    }     else if i == 112 {
        "data_replaceitemoflist"
    }     else if i == 113 {
        "data_itemoflist"
    }     else if i == 114 {
        "data_itemnumoflist"
    }     else if i == 115 {
        "data_lengthoflist"
    }     else if i == 116 {
        "data_listcontainsitem"
    }     else if i == 117 {
        "data_showlist"
    } else {
        "data_hidelist"
    }
}

/// The opcodes of the toolbox, in the order in which it offers them.
pub open spec fn toolbox_opcodes() -> Seq<Seq<char>> {
    Seq::new(TOOLBOX_LEN as nat, |i: int| toolbox_name(i)@)
}

/// The opcodes of the toolbox, in the order in which it offers them.
pub fn toolbox() -> (r: Vec<String>)
    ensures
        crate::table::texts(r@) == toolbox_opcodes(),
{
    let mut r: Vec<String> = Vec::new();
    let mut i: usize = 0;
    while i < TOOLBOX_LEN
        invariant
            i <= TOOLBOX_LEN,
            r@.len() == i,
            forall|j: int| 0 <= j < i ==> r@[j]@ == toolbox_name(j)@,
        decreases TOOLBOX_LEN - i,
    {
        r.push(toolbox_entry(i).to_owned());
        i += 1;
    }
    assert(crate::table::texts(r@) =~= toolbox_opcodes());
    r
}

/// How many opcodes have a template.
pub const TEMPLATE_COUNT: usize = 140;

/// The opcode at place `i` of the template table.
pub open spec fn template_name(i: int) -> &'static str {
    if i == 0 {
        "motion_movesteps"
    }     else if i == 1 {
        "motion_turnright"
    }     else if i == 2 {
        "motion_turnleft"
    }     else if i == 3 {
        "motion_goto"
    }     else if i == 4 {
        "motion_gotoxy"
    }     else if i == 5 {
        "motion_glideto"
    }     else if i == 6 {
        "motion_glidesecstoxy"
    }     else if i == 7 {
        "motion_pointindirection"
    }     else if i == 8 {
        "motion_pointtowards"
    }     else if i == 9 {
        "motion_changexby"
    }     else if i == 10 {
        "motion_setx"
    }     else if i == 11 {
        "motion_changeyby"
    }     else if i == 12 {
        "motion_sety"
    }     else if i == 13 {
        "motion_ifonedgebounce"
    }     else if i == 14 {
        "motion_setrotationstyle"
    }     else if i == 15 {
        "motion_xposition"
    }     else if i == 16 {
        "motion_yposition"
    }     else if i == 17 {
        "motion_direction"
    }     else if i == 18 {
        "looks_sayforsecs"
    }     else if i == 19 {
        "looks_say"
    }     else if i == 20 {
        "looks_thinkforsecs"
    }     else if i == 21 {
        "looks_think"
    }     else if i == 22 {
        "looks_switchcostumeto"
    }     else if i == 23 {
        "looks_nextcostume"
    }     else if i == 24 {
        "looks_switchbackdropto"
    }     else if i == 25 {
        "looks_switchbackdroptoandwait"
    }     else if i == 26 {
        "looks_nextbackdrop"
    }     else if i == 27 {
        "looks_changesizeby"
    }     else if i == 28 {
        "looks_setsizeto"
    }     else if i == 29 {
        "looks_changeeffectby"
    }     else if i == 30 {
        "looks_seteffectto"
    }     else if i == 31 {
        "looks_cleargraphiceffects"
    }     else if i == 32 {
        "looks_show"
    }     else if i == 33 {
        "looks_hide"
    }     else if i == 34 {
        "looks_gotofrontback"
    }     else if i == 35 {
        "looks_goforwardbackwardlayers"
    }     else if i == 36 {
        "looks_costumenumbername"
    }     else if i == 37 {
        "looks_backdropnumbername"
    }     else if i == 38 {
        "looks_size"
    }     else if i == 39 {
        "sound_playuntildone"
    }     else if i == 40 {
        "sound_play"
    }     else if i == 41 {
        "sound_stopallsounds"
    }     else if i == 42 {
        "sound_changeeffectby"
    }     else if i == 43 {
        "sound_seteffectto"
    }     else if i == 44 {
        "sound_cleareffects"
    }     else if i == 45 {
        "sound_changevolumeby"
    }     else if i == 46 {
        "sound_setvolumeto"
    }     else if i == 47 {
        "sound_volume"
    }     else if i == 48 {
        "event_whenflagclicked"
    }     else if i == 49 {
        "event_whenkeypressed"
    }     else if i == 50 {
        "event_whenthisspriteclicked"
    }     else if i == 51 {
        "event_whenstageclicked"
    }     else if i == 52 {
        "event_whenbackdropswitchesto"
    }     else if i == 53 {
        "event_whengreaterthan"
    }     else if i == 54 {
        "event_whenbroadcastreceived"
    }     else if i == 55 {
        "event_broadcast"
    }     else if i == 56 {
        "event_broadcastandwait"
    }     else if i == 57 {
        "control_wait"
    }     else if i == 58 {
        "control_repeat"
    }     else if i == 59 {
        "control_forever"
    }     else if i == 60 {
        "control_if"
    }     else if i == 61 {
        "control_if_else"
    }     else if i == 62 {
        "control_wait_until"
    }     else if i == 63 {
        "control_repeat_until"
    }     else if i == 64 {
        "control_stop"
    }     else if i == 65 {
        "control_start_as_clone"
    }     else if i == 66 {
        "control_create_clone_of"
    }     else if i == 67 {
        "control_delete_this_clone"
    }     else if i == 68 {
        "sensing_touchingobject"
    }     else if i == 69 {
        "sensing_touchingcolor"
    }     else if i == 70 {
        "sensing_coloristouchingcolor"
    }     else if i == 71 {
        "sensing_distanceto"
    }     else if i == 72 {
        "sensing_askandwait"
    }     else if i == 73 {
        "sensing_answer"
    }     else if i == 74 {
        "sensing_keypressed"
    }     else if i == 75 {
        "sensing_mousedown"
    }     else if i == 76 {
        "sensing_mousex"
    }     else if i == 77 {
        "sensing_mousey"
    }     else if i == 78 {
        "sensing_setdragmode"
    }     else if i == 79 {
        "sensing_loudness"
    }     else if i == 80 {
        "sensing_timer"
    }     else if i == 81 {
        "sensing_resettimer"
    }     else if i == 82 {
        "sensing_of"
    }     else if i == 83 {
        "sensing_current"
    }     else if i == 84 {
        "sensing_dayssince2000"
    }     else if i == 85 {
        "sensing_username"
    }     else if i == 86 {
        "operator_add"
    }     else if i == 87 {
        "operator_subtract"
    }     else if i == 88 {
        "operator_multiply"
    }     else if i == 89 {
        "operator_divide"
    }     else if i == 90 {
        "operator_random"
    }     else if i == 91 {
        "operator_gt"
    }     else if i == 92 {
        "operator_lt"
    }     else if i == 93 {
        "operator_equals"
    }     else if i == 94 {
        "operator_and"
    }     else if i == 95 {
        "operator_or"
    }     else if i == 96 {
        "operator_not"
    }     else if i == 97 {
        "operator_join"
    }     else if i == 98 {
        "operator_letter_of"
    }     else if i == 99 {
        "operator_length"
    }     else if i == 100 {
        "operator_contains"
    }     else if i == 101 {
        "operator_mod"
    }     else if i == 102 {
        "operator_round"
    }     else if i == 103 {
        "operator_mathop"
    }     else if i == 104 {
        "data_variable"
    }     else if i == 105 {
        "data_setvariableto"
    }     else if i == 106 {
        "data_changevariableby"
    }     else if i == 107 {
        "data_showvariable"
    }     else if i == 108 {
        "data_hidevariable"
    }     else if i == 109 {
        "data_listcontents"
    }     else if i == 110 {
        "data_addtolist"
    }     else if i == 111 {
        "data_deleteoflist"
    }     else if i == 112 {
        "data_deletealloflist"
    }     else if i == 113 {
        "data_insertatlist"
    }     else if i == 114 {
        "data_replaceitemoflist"
    }     else if i == 115 {
        "data_itemoflist"
    }     else if i == 116 {
        "data_itemnumoflist"
    }     else if i == 117 {
        "data_lengthoflist"
    }     else if i == 118 {
        "data_listcontainsitem"
    }     else if i == 119 {
        "data_showlist"
    }     else if i == 120 {
        "data_hidelist"
    }     else if i == 121 {
        "motion_goto_menu"
    }     else if i == 122 {
        "motion_glideto_menu"
    }     else if i == 123 {
        "motion_pointtowards_menu"
    }     else if i == 124 {
        "looks_costume"
    }     else if i == 125 {
        "looks_backdrops"
    }     else if i == 126 {
        "sound_sounds_menu"
    }     else if i == 127 {
        "event_broadcast_menu"
    }     else if i == 128 {
        "control_create_clone_of_menu"
    }     else if i == 129 {
        "sensing_touchingobjectmenu"
    }     else if i == 130 {
        "sensing_distancetomenu"
    }     else if i == 131 {
        "sensing_keyoptions"
    }     else if i == 132 {
        "sensing_of_object_menu"
    }     else if i == 133 {
        "math_number"
    }     else if i == 134 {
        "math_integer"
    }     else if i == 135 {
        "math_whole_number"
    }     else if i == 136 {
        "math_positive_number"
    }     else if i == 137 {
        "math_angle"
    }     else if i == 138 {
        "text"
    } else {
        "colour_picker"
    }
}

/// The opcode at place `i` of the template table.
fn template_name_at(i: usize) -> (s: &'static str)
    requires
        i < TEMPLATE_COUNT,
    ensures
        s == template_name(i as int),
{
    if i == 0 {
        "motion_movesteps"
    }     else if i == 1 {
        "motion_turnright"
    }     else if i == 2 {
        "motion_turnleft"
    }     else if i == 3 {
        "motion_goto"
    }     else if i == 4 {
        "motion_gotoxy"
    }     else if i == 5 {
        "motion_glideto"
    }     else if i == 6 {
        "motion_glidesecstoxy"
    }     else if i == 7 {
        "motion_pointindirection"
    }     else if i == 8 {
        "motion_pointtowards"
    }     else if i == 9 {
        "motion_changexby"
    }     else if i == 10 {
        "motion_setx"
    }     else if i == 11 {
        "motion_changeyby"
    }     else if i == 12 {
        "motion_sety"
    }     else if i == 13 {
        "motion_ifonedgebounce"
    }     else if i == 14 {
        "motion_setrotationstyle"
    }     else if i == 15 {
        "motion_xposition"
    }     else if i == 16 {
        "motion_yposition"
    }     else if i == 17 {
        "motion_direction"
    }     else if i == 18 {
        "looks_sayforsecs"
    }     else if i == 19 {
        "looks_say"
    }     else if i == 20 {
        "looks_thinkforsecs"
    }     else if i == 21 {
        "looks_think"
    }     else if i == 22 {
        "looks_switchcostumeto"
    }     else if i == 23 {
        "looks_nextcostume"
    }     else if i == 24 {
        "looks_switchbackdropto"
    }     else if i == 25 {
        "looks_switchbackdroptoandwait"
    }     else if i == 26 {
        "looks_nextbackdrop"
    }     else if i == 27 {
        "looks_changesizeby"
    }     else if i == 28 {
        "looks_setsizeto"
    }     else if i == 29 {
        "looks_changeeffectby"
    }     else if i == 30 {
        "looks_seteffectto"
    }     else if i == 31 {
        "looks_cleargraphiceffects"
    }     else if i == 32 {
        "looks_show"
    }     else if i == 33 {
        "looks_hide"
    }     else if i == 34 {
        "looks_gotofrontback"
    }     else if i == 35 {
        "looks_goforwardbackwardlayers"
    }     else if i == 36 {
        "looks_costumenumbername"
    }     else if i == 37 {
        "looks_backdropnumbername"
    }     else if i == 38 {
        "looks_size"
    }     else if i == 39 {
        "sound_playuntildone"
    }     else if i == 40 {
        "sound_play"
    }     else if i == 41 {
        "sound_stopallsounds"
    }     else if i == 42 {
        "sound_changeeffectby"
    }     else if i == 43 {
        "sound_seteffectto"
    }     else if i == 44 {
        "sound_cleareffects"
    }     else if i == 45 {
        "sound_changevolumeby"
    }     else if i == 46 {
        "sound_setvolumeto"
    }     else if i == 47 {
        "sound_volume"
    }     else if i == 48 {
        "event_whenflagclicked"
    }     else if i == 49 {
        "event_whenkeypressed"
    }     else if i == 50 {
        "event_whenthisspriteclicked"
    }     else if i == 51 {
        "event_whenstageclicked"
    }     else if i == 52 {
        "event_whenbackdropswitchesto"
    }     else if i == 53 {
        "event_whengreaterthan"
    }     else if i == 54 {
        "event_whenbroadcastreceived"
    }     else if i == 55 {
        "event_broadcast"
    }     else if i == 56 {
        "event_broadcastandwait"
    }     else if i == 57 {
        "control_wait"
    }     else if i == 58 {
        "control_repeat"
    }     else if i == 59 {
        "control_forever"
    }     else if i == 60 {
        "control_if"
    }     else if i == 61 {
        "control_if_else"
    }     else if i == 62 {
        "control_wait_until"
    }     else if i == 63 {
        "control_repeat_until"
    }     else if i == 64 {
        "control_stop"
    }     else if i == 65 {
        "control_start_as_clone"
    }     else if i == 66 {
        "control_create_clone_of"
    }     else if i == 67 {
        "control_delete_this_clone"
    }     else if i == 68 {
        "sensing_touchingobject"
    }     else if i == 69 {
        "sensing_touchingcolor"
    }     else if i == 70 {
        "sensing_coloristouchingcolor"
    }     else if i == 71 {
        "sensing_distanceto"
    }     else if i == 72 {
        "sensing_askandwait"
    }     else if i == 73 {
        "sensing_answer"
    }     else if i == 74 {
        "sensing_keypressed"
    }     else if i == 75 {
        "sensing_mousedown"
    }     else if i == 76 {
        "sensing_mousex"
    }     else if i == 77 {
        "sensing_mousey"
    }     else if i == 78 {
        "sensing_setdragmode"
    }     else if i == 79 {
        "sensing_loudness"
    }     else if i == 80 {
        "sensing_timer"
    }     else if i == 81 {
        "sensing_resettimer"
    }     else if i == 82 {
        "sensing_of"
    }     else if i == 83 {
        "sensing_current"
    }     else if i == 84 {
        "sensing_dayssince2000"
    }     else if i == 85 {
        "sensing_username"
    }     else if i == 86 {
        "operator_add"
    }     else if i == 87 {
        "operator_subtract"
    }     else if i == 88 {
        "operator_multiply"
    }     else if i == 89 {
        "operator_divide"
    }     else if i == 90 {
        "operator_random"
    }     else if i == 91 {
        "operator_gt"
    }     else if i == 92 {
        "operator_lt"
    }     else if i == 93 {
        "operator_equals"
    }     else if i == 94 {
        "operator_and"
    }     else if i == 95 {
        "operator_or"
    }     else if i == 96 {
        "operator_not"
    }     else if i == 97 {
        "operator_join"
    }     else if i == 98 {
        "operator_letter_of"
    }     else if i == 99 {
        "operator_length"
    }     else if i == 100 {
        "operator_contains"
    }     else if i == 101 {
        "operator_mod"
    }     else if i == 102 {
        "operator_round"
    }     else if i == 103 {
        "operator_mathop"
    }     else if i == 104 {
        "data_variable"
    }     else if i == 105 {
        "data_setvariableto"
    }     else if i == 106 {
        "data_changevariableby"
    }     else if i == 107 {
        "data_showvariable"
    }     else if i == 108 {
        "data_hidevariable"
    }     else if i == 109 {
        "data_listcontents"
    }     else if i == 110 {
        "data_addtolist"
    }     else if i == 111 {
        "data_deleteoflist"
    }     else if i == 112 {
        "data_deletealloflist"
    }     else if i == 113 {
        "data_insertatlist"
    }     else if i == 114 {
        "data_replaceitemoflist"
    }     else if i == 115 {
        "data_itemoflist"
    }     else if i == 116 {
        "data_itemnumoflist"
    }     else if i == 117 {
        "data_lengthoflist"
    }     else if i == 118 {
        "data_listcontainsitem"
    }     else if i == 119 {
        "data_showlist"
    }     else if i == 120 {
        "data_hidelist"
    }     else if i == 121 {
        "motion_goto_menu"
    }     else if i == 122 {
        "motion_glideto_menu"
    }     else if i == 123 {
        "motion_pointtowards_menu"
    }     else if i == 124 {
        "looks_costume"
    }     else if i == 125 {
        "looks_backdrops"
    }     else if i == 126 {
        "sound_sounds_menu"
    }     else if i == 127 {
        "event_broadcast_menu"
    }     else if i == 128 {
        "control_create_clone_of_menu"
    }     else if i == 129 {
        "sensing_touchingobjectmenu"
    }     else if i == 130 {
        "sensing_distancetomenu"
    }     else if i == 131 {
        "sensing_keyoptions"
    }     else if i == 132 {
        "sensing_of_object_menu"
    }     else if i == 133 {
        "math_number"
    }     else if i == 134 {
        "math_integer"
    }     else if i == 135 {
        "math_whole_number"
    }     else if i == 136 {
        "math_positive_number"
    }     else if i == 137 {
        "math_angle"
    }     else if i == 138 {
        "text"
    } else {
        "colour_picker"
    }
}

/// The template at place `i` of the template table.
pub open spec fn template_text(i: int) -> &'static str {
    if i == 0 {
        "{5F95F8/FFFFFF/4472C6}move (STEPS=10.0) steps"
    }     else if i == 1 {
        "{5F95F8/FFFFFF/4472C6}turn [$CLOCKWISE] (DEGREES=15.0) degrees"
    }     else if i == 2 {
        "{5F95F8/FFFFFF/4472C6}turn [$ANTICLOCKWISE] (DEGREES=15.0) degrees"
    }     else if i == 3 {
        "{5F95F8/FFFFFF/4472C6}go to (TO=motion_goto_menu)"
    }     else if i == 4 {
        "{5F95F8/FFFFFF/4472C6}go to x: (X=0.0) y: (Y=0.0)"
    }     else if i == 5 {
        "{5F95F8/FFFFFF/4472C6}glide (SECS=1.0) secs to (TO=motion_glideto_menu)"
    }     else if i == 6 {
        "{5F95F8/FFFFFF/4472C6}glide (SECS=1.0) secs to x: (X=0.0) y: (Y=0.0)"
    }     else if i == 7 {
        "{5F95F8/FFFFFF/4472C6}point in direction (DIRECTION=90.0)"
    }     else if i == 8 {
        "{5F95F8/FFFFFF/4472C6}point towards (TOWARDS=motion_pointtowards_menu)"
    }     else if i == 9 {
        "{5F95F8/FFFFFF/4472C6}change x by (DX=10.0)"
    }     else if i == 10 {
        "{5F95F8/FFFFFF/4472C6}set x to (X=0.0)"
    }     else if i == 11 {
        "{5F95F8/FFFFFF/4472C6}change y by (DY=10.0)"
    }     else if i == 12 {
        "{5F95F8/FFFFFF/4472C6}set y to (Y=0.0)"
    }     else if i == 13 {
        "{5F95F8/FFFFFF/4472C6}if on edge, bounce"
    }     else if i == 14 {
        "{5F95F8/FFFFFF/4472C6}set rotation style [STYLE&`left-right`&`don't rotate`&`all around`]"
    }     else if i == 15 {
        "(5F95F8/FFFFFF/4472C6)x position"
    }     else if i == 16 {
        "(5F95F8/FFFFFF/4472C6)y position"
    }     else if i == 17 {
        "(5F95F8/FFFFFF/4472C6)direction"
    }     else if i == 18 {
        "{9268F7/FFFFFF/714FC4}say (MESSAGE=`Hello!`) for (SECS=2.0) seconds"
    }     else if i == 19 {
        "{9268F7/FFFFFF/714FC4}say (MESSAGE=`Hello!`)"
    }     else if i == 20 {
        "{9268F7/FFFFFF/714FC4}think (MESSAGE=`Hmm...`) for (SECS=2.0) seconds"
    }     else if i == 21 {
        "{9268F7/FFFFFF/714FC4}think (MESSAGE=`Hmm...`)"
    }     else if i == 22 {
        "{9268F7/FFFFFF/714FC4}switch costume to (COSTUME=looks_costume)"
    }     else if i == 23 {
        "{9268F7/FFFFFF/714FC4}next costume"
    }     else if i == 24 {
        "{9268F7/FFFFFF/714FC4}switch backdrop to (BACKDROP=looks_backdrops)"
    }     else if i == 25 {
        "{9268F7/FFFFFF/714FC4}switch backdrop to (BACKDROP=looks_backdrops) and wait"
    }     else if i == 26 {
        "{9268F7/FFFFFF/714FC4}next backdrop"
    }     else if i == 27 {
        "{9268F7/FFFFFF/714FC4}change size by (CHANGE=10.0)"
    }     else if i == 28 {
        "{9268F7/FFFFFF/714FC4}set size to (SIZE=100.0)%"
    }     else if i == 29 {
        "{9268F7/FFFFFF/714FC4}change [EFFECT/COLOR=`color`/FISHEYE=`fisheye`/WHIRL=`whirl`/PIXELATE=`pixelate`/MOSAIC=`mosaic`/BRIGHTNESS=`brightness`/GHOST=`ghost`] effect by (CHANGE=25.0)"
    }     else if i == 30 {
        "{9268F7/FFFFFF/714FC4}set [EFFECT/COLOR=`color`/FISHEYE=`fisheye`/WHIRL=`whirl`/PIXELATE=`pixelate`/MOSAIC=`mosaic`/BRIGHTNESS=`brightness`/GHOST=`ghost`] effect to (VALUE=0.0)"
    }     else if i == 31 {
        "{9268F7/FFFFFF/714FC4}clear graphic effects"
    }     else if i == 32 {
        "{9268F7/FFFFFF/714FC4}show"
    }     else if i == 33 {
        "{9268F7/FFFFFF/714FC4}hide"
    }     else if i == 34 {
        "{9268F7/FFFFFF/714FC4}go to [FRONT_BACK&`front`&`back`] layer"
    }     else if i == 35 {
        "{9268F7/FFFFFF/714FC4}go [FORWARD_BACKWARD&`forward`&`backward`] (NUM=1.0) layers"
    }     else if i == 36 {
        "(9268F7/FFFFFF/714FC4)costume [NUMBER_NAME&`number`&`name`]"
    }     else if i == 37 {
        "(9268F7/FFFFFF/714FC4)backdrop [NUMBER_NAME&`number`&`name`]"
    }     else if i == 38 {
        "(9268F7/FFFFFF/714FC4)size"
    }     else if i == 39 {
        "{C169C9/FFFFFF/AF4BB7}play sound (SOUND_MENU=sound_sounds_menu) until done"
    }     else if i == 40 {
        "{C169C9/FFFFFF/AF4BB7}start sound (SOUND_MENU=sound_sounds_menu)"
    }     else if i == 41 {
        "{C169C9/FFFFFF/AF4BB7}stop all sounds"
    }     else if i == 42 {
        "{C169C9/FFFFFF/AF4BB7}change [EFFECT/PITCH=`pitch`/PAN=`pan left/right`] effect by (VALUE=10.0)"
    }     else if i == 43 {
        "{C169C9/FFFFFF/AF4BB7}set [EFFECT/PITCH=`pitch`/PAN=`pan left/right`] effect to (VALUE=100.0)"
    }     else if i == 44 {
        "{C169C9/FFFFFF/AF4BB7}clear sound effects"
    }     else if i == 45 {
        "{C169C9/FFFFFF/AF4BB7}change volume by (VOLUME=-10.0)"
    }     else if i == 46 {
        "{C169C9/FFFFFF/AF4BB7}set volume to (VOLUME=100.0)%"
    }     else if i == 47 {
        "(C169C9/FFFFFF/AF4BB7)volume"
    }     else if i == 48 {
        "{F5C242/FFFFFF/C49B33^when [$FLAG] clicked"
    }     else if i == 49 {
        "{F5C242/FFFFFF/C49B33^when [KEY_OPTION&`space`&`up arrow`&`down arrow`&`right arrow`&`left arrow`&`any`&`a`&`b`&`c`&`d`&`e`&`f`&`g`&`h`&`i`&`j`&`k`&`l`&`m`&`n`&`o`&`p`&`q`&`r`&`s`&`t`&`u`&`v`&`w`&`x`&`y`&`z`&`0`&`1`&`2`&`3`&`4`&`5`&`6`&`7`&`8`&`9`] key pressed"
    }     else if i == 50 {
        "{F5C242/FFFFFF/C49B33^when this sprite clicked"
    }     else if i == 51 {
        "{F5C242/FFFFFF/C49B33^when stage clicked"
    }     else if i == 52 {
        "{F5C242/FFFFFF/C49B33^when backdrop switches to [BACKDROP]"
    }     else if i == 53 {
        "{F5C242/FFFFFF/C49B33^when [WHENGREATERTHANMENU/LOUDNESS=`loudness`] > (VALUE=10.0)"
    }     else if i == 54 {
        "{F5C242/FFFFFF/C49B33^when I receive [BROADCAST_OPTION]"
    }     else if i == 55 {
        "{F5C242/FFFFFF/C49B33}broadcast (BROADCAST_INPUT=event_broadcast_menu)"
    }     else if i == 56 {
        "{F5C242/FFFFFF/C49B33}broadcast (BROADCAST_INPUT=event_broadcast_menu) and wait"
    }     else if i == 57 {
        "{F3AF43/FFFFFF/C58E36}wait (DURATION=1.0) seconds"
    }     else if i == 58 {
        "{F3AF43/FFFFFF/C58E36}[:SUBSTACK]repeat (TIMES=10.0)\n{SUBSTACK}\n\t"
    }     else if i == 59 {
        "{F3AF43/FFFFFF/C58E36}[:SUBSTACK]forever\n{SUBSTACK}\n\t"
    }     else if i == 60 {
        "{F3AF43/FFFFFF/C58E36}[:SUBSTACK]if <CONDITION> then\n{SUBSTACK}\n\t"
    }     else if i == 61 {
        "{F3AF43/FFFFFF/C58E36}[:SUBSTACK]if <CONDITION> then\n{SUBSTACK}\n[:SUBSTACK2]else\n{SUBSTACK2}\n\t"
    }     else if i == 62 {
        "{F3AF43/FFFFFF/C58E36}wait until <CONDITION>"
    }     else if i == 63 {
        "{F3AF43/FFFFFF/C58E36}[:SUBSTACK]repeat until <CONDITION>\n{SUBSTACK}\n\t"
    }     else if i == 64 {
        "{F3AF43/FFFFFF/C58E36}stop [STOP_OPTION]"
    }     else if i == 65 {
        "{F3AF43/FFFFFF/C58E36^when I start as a clone"
    }     else if i == 66 {
        "{F3AF43/FFFFFF/C58E36}create a clone of (CLONE_OPTION=control_create_clone_of_menu)"
    }     else if i == 67 {
        "{F3AF43/FFFFFF/C58E36}delete this clone"
    }     else if i == 68 {
        "<71AFD2/FFFFFF/4B8CB4>touching (TOUCHINGOBJECTMENU=sensing_touchingobjectmenu)?"
    }     else if i == 69 {
        "<71AFD2/FFFFFF/4B8CB4>touching color (COLOR=#3D7088)?"
    }     else if i == 70 {
        "<71AFD2/FFFFFF/4B8CB4>color (COLOR=#461C5B) is touching (COLOR2=#5BB033)?"
    }     else if i == 71 {
        "(71AFD2/FFFFFF/4B8CB4)distance to(DISTANCETOMENU=sensing_distancetomenu)"
    }     else if i == 72 {
        "{71AFD2/FFFFFF/4B8CB4}ask (QUESTION=`What's your name?`) and wait"
    }     else if i == 73 {
        "(71AFD2/FFFFFF/4B8CB4)answer"
    }     else if i == 74 {
        "<71AFD2/FFFFFF/4B8CB4>key (KEY_OPTION=sensing_keyoptions) pressed?"
    }     else if i == 75 {
        "<71AFD2/FFFFFF/4B8CB4>mouse down?"
    }     else if i == 76 {
        "(71AFD2/FFFFFF/4B8CB4)mouse x"
    }     else if i == 77 {
        "(71AFD2/FFFFFF/4B8CB4)mouse y"
    }     else if i == 78 {
        "{71AFD2/FFFFFF/4B8CB4}set drag mode [DRAG_MODE&`draggable`&`not draggable`]"
    }     else if i == 79 {
        "(71AFD2/FFFFFF/4B8CB4)loudness"
    }     else if i == 80 {
        "(71AFD2/FFFFFF/4B8CB4)timer"
    }     else if i == 81 {
        "{71AFD2/FFFFFF/4B8CB4}reset timer"
    }     else if i == 82 {
        "(71AFD2/FFFFFF/4B8CB4)[PROPERTY] of (OBJECT=sensing_of_object_menu)"
    }     else if i == 83 {
        "(71AFD2/FFFFFF/4B8CB4)current [CURRENTMENU/YEAR=`year`/MONTH=`month`/DATE=`date`/DAYOFWEEK=`day of week`/HOUR=`hour`/MINUTE=`minute`/SECOND=`second`]"
    }     else if i == 84 {
        "(71AFD2/FFFFFF/4B8CB4)days since 2000"
    }     else if i == 85 {
        "(71AFD2/FFFFFF/4B8CB4)username"
    }     else if i == 86 {
        "(74BE65/FFFFFF/529244)(NUM1=@) + (NUM2=@)"
    }     else if i == 87 {
        "(74BE65/FFFFFF/529244)(NUM1=@) - (NUM2=@)"
    }     else if i == 88 {
        "(74BE65/FFFFFF/529244)(NUM1=@) * (NUM2=@)"
    }     else if i == 89 {
        "(74BE65/FFFFFF/529244)(NUM1=@) / (NUM2=@)"
    }     else if i == 90 {
        "(74BE65/FFFFFF/529244)pick random (FROM=1.0) to (TO=10.0)"
    }     else if i == 91 {
        "<74BE65/FFFFFF/529244>(OPERAND1=@) > (OPERAND2=50.0)"
    }     else if i == 92 {
        "<74BE65/FFFFFF/529244>(OPERAND1=@) [<] (OPERAND2=50.0)"
    }     else if i == 93 {
        "<74BE65/FFFFFF/529244>(OPERAND1=@) = (OPERAND2=50.0)"
    }     else if i == 94 {
        "<74BE65/FFFFFF/529244><OPERAND1> and <OPERAND2>"
    }     else if i == 95 {
        "<74BE65/FFFFFF/529244><OPERAND1> or <OPERAND2>"
    }     else if i == 96 {
        "<74BE65/FFFFFF/529244>not <OPERAND>"
    }     else if i == 97 {
        "(74BE65/FFFFFF/529244)join (STRING1=`apple`) (STRING2=`banana`)"
    }     else if i == 98 {
        "(74BE65/FFFFFF/529244)letter (LETTER=1.0) of (STRING=`apple`)"
    }     else if i == 99 {
        "(74BE65/FFFFFF/529244)length of (STRING=`apple`)"
    }     else if i == 100 {
        "{74BE65/FFFFFF/529244}(STRING1=`apple`) contains (STRING2=`a`)?"
    }     else if i == 101 {
        "(74BE65/FFFFFF/529244)(NUM1=@) mod (NUM2=@)"
    }     else if i == 102 {
        "(74BE65/FFFFFF/529244)round (NUM=@)"
    }     else if i == 103 {
        "(74BE65/FFFFFF/529244)[OPERATOR&`abs`&`floor`&`ceiling`&`sqrt`&`sin`&`cos`&`tan`&`asin`&`acos`&`atan`&`ln`&`log`&`e ^`&`10 ^`] of (NUM=@)"
    }     else if i == 104 {
        "(F0923C/FFFFFF/FFFFFF)[&VARIABLE]"
    }     else if i == 105 {
        "{F0923C/FFFFFF/CD742A}set [VARIABLE] to (VALUE=0.0)"
    }     else if i == 106 {
        "{F0923C/FFFFFF/CD742A}change [VARIABLE] by (VALUE=1.0)"
    }     else if i == 107 {
        "{F0923C/FFFFFF/CD742A}show variable [VARIABLE]"
    }     else if i == 108 {
        "{F0923C/FFFFFF/CD742A}hide variable [VARIABLE]"
    }     else if i == 109 {
        "(ED7035/FFFFFF/D55825)[&LIST]"
    }     else if i == 110 {
        "{ED7035/FFFFFF/D55825}add (ITEM=`thing`) to [LIST]"
    }     else if i == 111 {
        "{ED7035/FFFFFF/D55825}delete (INDEX=1.0) of [LIST]"
    }     else if i == 112 {
        "{ED7035/FFFFFF/D55825}delete all of [LIST]"
    }     else if i == 113 {
        "{ED7035/FFFFFF/D55825}insert (ITEM=`thing`) at (INDEX=1.0) of [LIST]"
    }     else if i == 114 {
        "{ED7035/FFFFFF/D55825}replace item (INDEX=1.0) of [LIST] with (ITEM=`thing`)"
    }     else if i == 115 {
        "(ED7035/FFFFFF/D55825)item (INDEX=1.0) of [LIST]"
    }     else if i == 116 {
        "(ED7035/FFFFFF/D55825)item # of (ITEM=`thing`) in [LIST]"
    }     else if i == 117 {
        "(ED7035/FFFFFF/D55825)length of [LIST]"
    }     else if i == 118 {
        "<ED7035/FFFFFF/D55825>[LIST] contains (ITEM=`thing`)?"
    }     else if i == 119 {
        "{ED7035/FFFFFF/D55825}show list [LIST]"
    }     else if i == 120 {
        "{ED7035/FFFFFF/D55825}hide list [LIST]"
    }     else if i == 121 {
        "(517FD1/FFFFFF/4472C6![TO]"
    }     else if i == 122 {
        "(517FD1/FFFFFF/4472C6![TO]"
    }     else if i == 123 {
        "(517FD1/FFFFFF/4472C6![TOWARDS]"
    }     else if i == 124 {
        "(7F5ECF/FFFFFF/714FC4![COSTUME]"
    }     else if i == 125 {
        "(7F5ECF/FFFFFF/714FC4![BACKDROP]"
    }     else if i == 126 {
        "(BB57C3/FFFFFF/AF4BB7![SOUND_MENU]"
    }     else if i == 127 {
        "(DDAE3B/FFFFFF/C49B33![BROADCAST_OPTION]"
    }     else if i == 128 {
        "(E09F3B/FFFFFF/C58E36![CLONE_OPTION]"
    }     else if i == 129 {
        "(62A6CD/FFFFFF/4B8CB4![TOUCHINGOBJECTMENU]"
    }     else if i == 130 {
        "(62A6CD/FFFFFF/4B8CB4![DISTANCETOMENU]"
    }     else if i == 131 {
        "(62A6CD/FFFFFF/4B8CB4![KEY_OPTION&`space`&`up arrow`&`down arrow`&`right arrow`&`left arrow`&`any`&`a`&`b`&`c`&`d`&`e`&`f`&`g`&`h`&`i`&`j`&`k`&`l`&`m`&`n`&`o`&`p`&`q`&`r`&`s`&`t`&`u`&`v`&`w`&`x`&`y`&`z`&`0`&`1`&`2`&`3`&`4`&`5`&`6`&`7`&`8`&`9`]"
    }     else if i == 132 {
        "(62A6CD/FFFFFF/4B8CB4![OBJECT]"
    }     else if i == 133 {
        "(FFFFFF/595E73/FFFFFF![*NUM]"
    }     else if i == 134 {
        "(FFFFFF/595E73/FFFFFF![*NUM]"
    }     else if i == 135 {
        "(FFFFFF/595E73/FFFFFF![*NUM]"
    }     else if i == 136 {
        "(FFFFFF/595E73/FFFFFF![*NUM]"
    }     else if i == 137 {
        "(FFFFFF/595E73/FFFFFF![*NUM]"
    }     else if i == 138 {
        "(FFFFFF/595E73/FFFFFF![*TEXT]"
    } else {
        "(FFFFFF/595E73/FFFFFF![#COLOUR]"
    }
}

/// The template at place `i` of the template table.
fn template_text_at(i: usize) -> (s: &'static str)
    requires
        i < TEMPLATE_COUNT,
    ensures
        s == template_text(i as int),
{
    if i == 0 {
        "{5F95F8/FFFFFF/4472C6}move (STEPS=10.0) steps"
    }     else if i == 1 {
        "{5F95F8/FFFFFF/4472C6}turn [$CLOCKWISE] (DEGREES=15.0) degrees"
    }     else if i == 2 {
        "{5F95F8/FFFFFF/4472C6}turn [$ANTICLOCKWISE] (DEGREES=15.0) degrees"
    }     else if i == 3 {
        "{5F95F8/FFFFFF/4472C6}go to (TO=motion_goto_menu)"
    }     else if i == 4 {
        "{5F95F8/FFFFFF/4472C6}go to x: (X=0.0) y: (Y=0.0)"
    }     else if i == 5 {
        "{5F95F8/FFFFFF/4472C6}glide (SECS=1.0) secs to (TO=motion_glideto_menu)"
    }     else if i == 6 {
        "{5F95F8/FFFFFF/4472C6}glide (SECS=1.0) secs to x: (X=0.0) y: (Y=0.0)"
    }     else if i == 7 {
        "{5F95F8/FFFFFF/4472C6}point in direction (DIRECTION=90.0)"
    }     else if i == 8 {
        "{5F95F8/FFFFFF/4472C6}point towards (TOWARDS=motion_pointtowards_menu)"
    }     else if i == 9 {
        "{5F95F8/FFFFFF/4472C6}change x by (DX=10.0)"
    }     else if i == 10 {
        "{5F95F8/FFFFFF/4472C6}set x to (X=0.0)"
    }     else if i == 11 {
        "{5F95F8/FFFFFF/4472C6}change y by (DY=10.0)"
    }     else if i == 12 {
        "{5F95F8/FFFFFF/4472C6}set y to (Y=0.0)"
    }     else if i == 13 {
        "{5F95F8/FFFFFF/4472C6}if on edge, bounce"
    }     else if i == 14 {
        "{5F95F8/FFFFFF/4472C6}set rotation style [STYLE&`left-right`&`don't rotate`&`all around`]"
    }     else if i == 15 {
        "(5F95F8/FFFFFF/4472C6)x position"
    }     else if i == 16 {
        "(5F95F8/FFFFFF/4472C6)y position"
    }     else if i == 17 {
        "(5F95F8/FFFFFF/4472C6)direction"
    }     else if i == 18 {
        "{9268F7/FFFFFF/714FC4}say (MESSAGE=`Hello!`) for (SECS=2.0) seconds"
    }     else if i == 19 {
        "{9268F7/FFFFFF/714FC4}say (MESSAGE=`Hello!`)"
    }     else if i == 20 {
        "{9268F7/FFFFFF/714FC4}think (MESSAGE=`Hmm...`) for (SECS=2.0) seconds"
    }     else if i == 21 {
        "{9268F7/FFFFFF/714FC4}think (MESSAGE=`Hmm...`)"
    }     else if i == 22 {
        "{9268F7/FFFFFF/714FC4}switch costume to (COSTUME=looks_costume)"
    }     else if i == 23 {
        "{9268F7/FFFFFF/714FC4}next costume"
    }     else if i == 24 {
        "{9268F7/FFFFFF/714FC4}switch backdrop to (BACKDROP=looks_backdrops)"
    }     else if i == 25 {
        "{9268F7/FFFFFF/714FC4}switch backdrop to (BACKDROP=looks_backdrops) and wait"
    }     else if i == 26 {
        "{9268F7/FFFFFF/714FC4}next backdrop"
    }     else if i == 27 {
        "{9268F7/FFFFFF/714FC4}change size by (CHANGE=10.0)"
    }     else if i == 28 {
        "{9268F7/FFFFFF/714FC4}set size to (SIZE=100.0)%"
    }     else if i == 29 {
        "{9268F7/FFFFFF/714FC4}change [EFFECT/COLOR=`color`/FISHEYE=`fisheye`/WHIRL=`whirl`/PIXELATE=`pixelate`/MOSAIC=`mosaic`/BRIGHTNESS=`brightness`/GHOST=`ghost`] effect by (CHANGE=25.0)"
    }     else if i == 30 {
        "{9268F7/FFFFFF/714FC4}set [EFFECT/COLOR=`color`/FISHEYE=`fisheye`/WHIRL=`whirl`/PIXELATE=`pixelate`/MOSAIC=`mosaic`/BRIGHTNESS=`brightness`/GHOST=`ghost`] effect to (VALUE=0.0)"
    }     else if i == 31 {
        "{9268F7/FFFFFF/714FC4}clear graphic effects"
    }     else if i == 32 {
        "{9268F7/FFFFFF/714FC4}show"
    }     else if i == 33 {
        "{9268F7/FFFFFF/714FC4}hide"
    }     else if i == 34 {
        "{9268F7/FFFFFF/714FC4}go to [FRONT_BACK&`front`&`back`] layer"
    }     else if i == 35 {
        "{9268F7/FFFFFF/714FC4}go [FORWARD_BACKWARD&`forward`&`backward`] (NUM=1.0) layers"
    }     else if i == 36 {
        "(9268F7/FFFFFF/714FC4)costume [NUMBER_NAME&`number`&`name`]"
    }     else if i == 37 {
        "(9268F7/FFFFFF/714FC4)backdrop [NUMBER_NAME&`number`&`name`]"
    }     else if i == 38 {
        "(9268F7/FFFFFF/714FC4)size"
    }     else if i == 39 {
        "{C169C9/FFFFFF/AF4BB7}play sound (SOUND_MENU=sound_sounds_menu) until done"
    }     else if i == 40 {
        "{C169C9/FFFFFF/AF4BB7}start sound (SOUND_MENU=sound_sounds_menu)"
    }     else if i == 41 {
        "{C169C9/FFFFFF/AF4BB7}stop all sounds"
    }     else if i == 42 {
        "{C169C9/FFFFFF/AF4BB7}change [EFFECT/PITCH=`pitch`/PAN=`pan left/right`] effect by (VALUE=10.0)"
    }     else if i == 43 {
        "{C169C9/FFFFFF/AF4BB7}set [EFFECT/PITCH=`pitch`/PAN=`pan left/right`] effect to (VALUE=100.0)"
    }     else if i == 44 {
        "{C169C9/FFFFFF/AF4BB7}clear sound effects"
    }     else if i == 45 {
        "{C169C9/FFFFFF/AF4BB7}change volume by (VOLUME=-10.0)"
    }     else if i == 46 {
        "{C169C9/FFFFFF/AF4BB7}set volume to (VOLUME=100.0)%"
    }     else if i == 47 {
        "(C169C9/FFFFFF/AF4BB7)volume"
    }     else if i == 48 {
        "{F5C242/FFFFFF/C49B33^when [$FLAG] clicked"
    }     else if i == 49 {
        "{F5C242/FFFFFF/C49B33^when [KEY_OPTION&`space`&`up arrow`&`down arrow`&`right arrow`&`left arrow`&`any`&`a`&`b`&`c`&`d`&`e`&`f`&`g`&`h`&`i`&`j`&`k`&`l`&`m`&`n`&`o`&`p`&`q`&`r`&`s`&`t`&`u`&`v`&`w`&`x`&`y`&`z`&`0`&`1`&`2`&`3`&`4`&`5`&`6`&`7`&`8`&`9`] key pressed"
    }     else if i == 50 {
        "{F5C242/FFFFFF/C49B33^when this sprite clicked"
    }     else if i == 51 {
        "{F5C242/FFFFFF/C49B33^when stage clicked"
    }     else if i == 52 {
        "{F5C242/FFFFFF/C49B33^when backdrop switches to [BACKDROP]"
    }     else if i == 53 {
        "{F5C242/FFFFFF/C49B33^when [WHENGREATERTHANMENU/LOUDNESS=`loudness`] > (VALUE=10.0)"
    }     else if i == 54 {
        "{F5C242/FFFFFF/C49B33^when I receive [BROADCAST_OPTION]"
    }     else if i == 55 {
        "{F5C242/FFFFFF/C49B33}broadcast (BROADCAST_INPUT=event_broadcast_menu)"
    }     else if i == 56 {
        "{F5C242/FFFFFF/C49B33}broadcast (BROADCAST_INPUT=event_broadcast_menu) and wait"
    }     else if i == 57 {
        "{F3AF43/FFFFFF/C58E36}wait (DURATION=1.0) seconds"
    }     else if i == 58 {
        "{F3AF43/FFFFFF/C58E36}[:SUBSTACK]repeat (TIMES=10.0)\n{SUBSTACK}\n\t"
    }     else if i == 59 {
        "{F3AF43/FFFFFF/C58E36}[:SUBSTACK]forever\n{SUBSTACK}\n\t"
    }     else if i == 60 {
        "{F3AF43/FFFFFF/C58E36}[:SUBSTACK]if <CONDITION> then\n{SUBSTACK}\n\t"
    }     else if i == 61 {
        "{F3AF43/FFFFFF/C58E36}[:SUBSTACK]if <CONDITION> then\n{SUBSTACK}\n[:SUBSTACK2]else\n{SUBSTACK2}\n\t"
    }     else if i == 62 {
        "{F3AF43/FFFFFF/C58E36}wait until <CONDITION>"
    }     else if i == 63 {
        "{F3AF43/FFFFFF/C58E36}[:SUBSTACK]repeat until <CONDITION>\n{SUBSTACK}\n\t"
    }     else if i == 64 {
        "{F3AF43/FFFFFF/C58E36}stop [STOP_OPTION]"
    }     else if i == 65 {
        "{F3AF43/FFFFFF/C58E36^when I start as a clone"
    }     else if i == 66 {
        "{F3AF43/FFFFFF/C58E36}create a clone of (CLONE_OPTION=control_create_clone_of_menu)"
    }     else if i == 67 {
        "{F3AF43/FFFFFF/C58E36}delete this clone"
    }     else if i == 68 {
        "<71AFD2/FFFFFF/4B8CB4>touching (TOUCHINGOBJECTMENU=sensing_touchingobjectmenu)?"
    }     else if i == 69 {
        "<71AFD2/FFFFFF/4B8CB4>touching color (COLOR=#3D7088)?"
    }     else if i == 70 {
        "<71AFD2/FFFFFF/4B8CB4>color (COLOR=#461C5B) is touching (COLOR2=#5BB033)?"
    }     else if i == 71 {
        "(71AFD2/FFFFFF/4B8CB4)distance to(DISTANCETOMENU=sensing_distancetomenu)"
    }     else if i == 72 {
        "{71AFD2/FFFFFF/4B8CB4}ask (QUESTION=`What's your name?`) and wait"
    }     else if i == 73 {
        "(71AFD2/FFFFFF/4B8CB4)answer"
    }     else if i == 74 {
        "<71AFD2/FFFFFF/4B8CB4>key (KEY_OPTION=sensing_keyoptions) pressed?"
    }     else if i == 75 {
        "<71AFD2/FFFFFF/4B8CB4>mouse down?"
    }     else if i == 76 {
        "(71AFD2/FFFFFF/4B8CB4)mouse x"
    }     else if i == 77 {
        "(71AFD2/FFFFFF/4B8CB4)mouse y"
    }     else if i == 78 {
        "{71AFD2/FFFFFF/4B8CB4}set drag mode [DRAG_MODE&`draggable`&`not draggable`]"
    }     else if i == 79 {
        "(71AFD2/FFFFFF/4B8CB4)loudness"
    }     else if i == 80 {
        "(71AFD2/FFFFFF/4B8CB4)timer"
    }     else if i == 81 {
        "{71AFD2/FFFFFF/4B8CB4}reset timer"
    }     else if i == 82 {
        "(71AFD2/FFFFFF/4B8CB4)[PROPERTY] of (OBJECT=sensing_of_object_menu)"
    }     else if i == 83 {
        "(71AFD2/FFFFFF/4B8CB4)current [CURRENTMENU/YEAR=`year`/MONTH=`month`/DATE=`date`/DAYOFWEEK=`day of week`/HOUR=`hour`/MINUTE=`minute`/SECOND=`second`]"
    }     else if i == 84 {
        "(71AFD2/FFFFFF/4B8CB4)days since 2000"
    }     else if i == 85 {
        "(71AFD2/FFFFFF/4B8CB4)username"
    }     else if i == 86 {
        "(74BE65/FFFFFF/529244)(NUM1=@) + (NUM2=@)"
    }     else if i == 87 {
        "(74BE65/FFFFFF/529244)(NUM1=@) - (NUM2=@)"
    }     else if i == 88 {
        "(74BE65/FFFFFF/529244)(NUM1=@) * (NUM2=@)"
    }     else if i == 89 {
        "(74BE65/FFFFFF/529244)(NUM1=@) / (NUM2=@)"
    }     else if i == 90 {
        "(74BE65/FFFFFF/529244)pick random (FROM=1.0) to (TO=10.0)"
    }     else if i == 91 {
        "<74BE65/FFFFFF/529244>(OPERAND1=@) > (OPERAND2=50.0)"
    }     else if i == 92 {
        "<74BE65/FFFFFF/529244>(OPERAND1=@) [<] (OPERAND2=50.0)"
    }     else if i == 93 {
        "<74BE65/FFFFFF/529244>(OPERAND1=@) = (OPERAND2=50.0)"
    }     else if i == 94 {
        "<74BE65/FFFFFF/529244><OPERAND1> and <OPERAND2>"
    }     else if i == 95 {
        "<74BE65/FFFFFF/529244><OPERAND1> or <OPERAND2>"
    }     else if i == 96 {
        "<74BE65/FFFFFF/529244>not <OPERAND>"
    }     else if i == 97 {
        "(74BE65/FFFFFF/529244)join (STRING1=`apple`) (STRING2=`banana`)"
    }     else if i == 98 {
        "(74BE65/FFFFFF/529244)letter (LETTER=1.0) of (STRING=`apple`)"
    }     else if i == 99 {
        "(74BE65/FFFFFF/529244)length of (STRING=`apple`)"
    }     else if i == 100 {
        "{74BE65/FFFFFF/529244}(STRING1=`apple`) contains (STRING2=`a`)?"
    }     else if i == 101 {
        "(74BE65/FFFFFF/529244)(NUM1=@) mod (NUM2=@)"
    }     else if i == 102 {
        "(74BE65/FFFFFF/529244)round (NUM=@)"
    }     else if i == 103 {
        "(74BE65/FFFFFF/529244)[OPERATOR&`abs`&`floor`&`ceiling`&`sqrt`&`sin`&`cos`&`tan`&`asin`&`acos`&`atan`&`ln`&`log`&`e ^`&`10 ^`] of (NUM=@)"
    }     else if i == 104 {
        "(F0923C/FFFFFF/FFFFFF)[&VARIABLE]"
    }     else if i == 105 {
        "{F0923C/FFFFFF/CD742A}set [VARIABLE] to (VALUE=0.0)"
    }     else if i == 106 {
        "{F0923C/FFFFFF/CD742A}change [VARIABLE] by (VALUE=1.0)"
    }     else if i == 107 {
        "{F0923C/FFFFFF/CD742A}show variable [VARIABLE]"
    }     else if i == 108 {
        "{F0923C/FFFFFF/CD742A}hide variable [VARIABLE]"
    }     else if i == 109 {
        "(ED7035/FFFFFF/D55825)[&LIST]"
    }     else if i == 110 {
        "{ED7035/FFFFFF/D55825}add (ITEM=`thing`) to [LIST]"
    }     else if i == 111 {
        "{ED7035/FFFFFF/D55825}delete (INDEX=1.0) of [LIST]"
    }     else if i == 112 {
        "{ED7035/FFFFFF/D55825}delete all of [LIST]"
    }     else if i == 113 {
        "{ED7035/FFFFFF/D55825}insert (ITEM=`thing`) at (INDEX=1.0) of [LIST]"
    }     else if i == 114 {
        "{ED7035/FFFFFF/D55825}replace item (INDEX=1.0) of [LIST] with (ITEM=`thing`)"
    }     else if i == 115 {
        "(ED7035/FFFFFF/D55825)item (INDEX=1.0) of [LIST]"
    }     else if i == 116 {
        "(ED7035/FFFFFF/D55825)item # of (ITEM=`thing`) in [LIST]"
    }     else if i == 117 {
        "(ED7035/FFFFFF/D55825)length of [LIST]"
    }     else if i == 118 {
        "<ED7035/FFFFFF/D55825>[LIST] contains (ITEM=`thing`)?"
    }     else if i == 119 {
        "{ED7035/FFFFFF/D55825}show list [LIST]"
    }     else if i == 120 {
        "{ED7035/FFFFFF/D55825}hide list [LIST]"
    }     else if i == 121 {
        "(517FD1/FFFFFF/4472C6![TO]"
    }     else if i == 122 {
        "(517FD1/FFFFFF/4472C6![TO]"
    }     else if i == 123 {
        "(517FD1/FFFFFF/4472C6![TOWARDS]"
    }     else if i == 124 {
        "(7F5ECF/FFFFFF/714FC4![COSTUME]"
    }     else if i == 125 {
        "(7F5ECF/FFFFFF/714FC4![BACKDROP]"
    }     else if i == 126 {
        "(BB57C3/FFFFFF/AF4BB7![SOUND_MENU]"
    }     else if i == 127 {
        "(DDAE3B/FFFFFF/C49B33![BROADCAST_OPTION]"
    }     else if i == 128 {
        "(E09F3B/FFFFFF/C58E36![CLONE_OPTION]"
    }     else if i == 129 {
        "(62A6CD/FFFFFF/4B8CB4![TOUCHINGOBJECTMENU]"
    }     else if i == 130 {
        "(62A6CD/FFFFFF/4B8CB4![DISTANCETOMENU]"
    }     else if i == 131 {
        "(62A6CD/FFFFFF/4B8CB4![KEY_OPTION&`space`&`up arrow`&`down arrow`&`right arrow`&`left arrow`&`any`&`a`&`b`&`c`&`d`&`e`&`f`&`g`&`h`&`i`&`j`&`k`&`l`&`m`&`n`&`o`&`p`&`q`&`r`&`s`&`t`&`u`&`v`&`w`&`x`&`y`&`z`&`0`&`1`&`2`&`3`&`4`&`5`&`6`&`7`&`8`&`9`]"
    }     else if i == 132 {
        "(62A6CD/FFFFFF/4B8CB4![OBJECT]"
    }     else if i == 133 {
        "(FFFFFF/595E73/FFFFFF![*NUM]"
    }     else if i == 134 {
        "(FFFFFF/595E73/FFFFFF![*NUM]"
    }     else if i == 135 {
        "(FFFFFF/595E73/FFFFFF![*NUM]"
    }     else if i == 136 {
        "(FFFFFF/595E73/FFFFFF![*NUM]"
    }     else if i == 137 {
        "(FFFFFF/595E73/FFFFFF![*NUM]"
    }     else if i == 138 {
        "(FFFFFF/595E73/FFFFFF![*TEXT]"
    } else {
        "(FFFFFF/595E73/FFFFFF![#COLOUR]"
    }
}

/// The template of every shipped opcode, read: the table that the editor
/// works with. `None` where one of the templates is malformed.
pub fn blocks() -> (r: Option<Vec<(String, Spec)>>)
    ensures
        match r {
            Some(table) => {
                &&& table@.len() == TEMPLATE_COUNT
                &&& forall|i: int|
                    0 <= i < TEMPLATE_COUNT ==> (#[trigger] table@[i]).0@ == template_name(i)@
                        && parse_template(template_text(i)@) == Some(table@[i].1@)
            },
            None => exists|i: int|
                0 <= i < TEMPLATE_COUNT && parse_template(#[trigger] template_text(i)@) is None,
        },
{
    let mut table: Vec<(String, Spec)> = Vec::new();
    let mut i: usize = 0;
    while i < TEMPLATE_COUNT
        invariant
            i <= TEMPLATE_COUNT,
            table@.len() == i,
            forall|j: int|
                0 <= j < i ==> (#[trigger] table@[j]).0@ == template_name(j)@ && parse_template(
                    template_text(j)@,
                ) == Some(table@[j].1@),
        decreases TEMPLATE_COUNT - i,
    {
        match compile(template_text_at(i)) {
            Some(spec) => {
                table.push((template_name_at(i).to_owned(), spec));
            },
            None => {
                return None;
            },
        }
        i += 1;
    }
    Some(table)
}

/// An option that is shown as it is stored.
pub open spec fn plain_option(text: Seq<char>) -> DropdownOptionView {
    DropdownOptionView { value: text, display: text }
}

fn dup(s: &str) -> (r: DropdownOption)
    ensures
        r@ == plain_option(s@),
{
    DropdownOption { value: s.to_owned(), display: s.to_owned() }
}

/// Whether the options of the dropdown of `opcode` are known: the template
/// lists them, or the opcode is the stop block and the graph holds the
/// block.
pub open spec fn has_dropdown_options(rt: RuntimeView, block_id: Seq<char>, opcode: Seq<char>) -> bool {
    rt.has_spec(opcode) && (rt.spec_of(opcode).static_dropdown_options is Some || (opcode
        == "control_stop"@ && rt.contains(block_id)))
}

/// The options of the dropdown of `opcode` on block `block_id`: those that
/// the template lists; for the stop block, which lists none, all three ways
/// to stop, or only the one that does not end the script where a block
/// follows.
pub open spec fn dropdown_options_of(rt: RuntimeView, block_id: Seq<char>, opcode: Seq<char>) -> Seq<
    DropdownOptionView,
> {
    match rt.spec_of(opcode).static_dropdown_options {
        Some(options) => options,
        None => if rt.block(block_id).next_id is Some {
            seq![plain_option("other scripts in sprite"@)]
        } else {
            seq![
                plain_option("all"@),
                plain_option("this script"@),
                plain_option("other scripts in sprite"@),
            ]
        },
    }
}

/// Whether the options of the dropdown of `opcode` on block `block_id` are
/// known.
pub fn knows_dropdown_options(runtime: &Runtime, block_id: &str, opcode: &str) -> (r: bool)
    ensures
        r == has_dropdown_options(runtime@, block_id@, opcode@),
{
    let s = runtime.spec_index(opcode);
    if s >= runtime.specs.len() {
        return false;
    }
    runtime.specs[s].1.static_dropdown_options.is_some() || (str_eq(opcode, "control_stop")
        && runtime.contains(block_id))
}

/// The options of the dropdown of `opcode` on block `block_id`.
pub fn dropdown_options(runtime: &Runtime, block_id: &str, opcode: &str) -> (r: Vec<DropdownOption>)
    requires
        has_dropdown_options(runtime@, block_id@, opcode@),
    ensures
        options_view(r@) == dropdown_options_of(runtime@, block_id@, opcode@),
{
    let s = runtime.spec_index(opcode);
    match &runtime.specs[s].1.static_dropdown_options {
        Some(options) => clone_options(options),
        None => {
            let i = runtime.index_of(block_id);
            let mut r: Vec<DropdownOption> = Vec::new();
            if runtime.blocks[i].1.next_id.is_some() {
                r.push(dup("other scripts in sprite"));
                assert(options_view(r@) =~= seq![plain_option("other scripts in sprite"@)]);
            } else {
                r.push(dup("all"));
                r.push(dup("this script"));
                r.push(dup("other scripts in sprite"));
                assert(options_view(r@) =~= seq![
                    plain_option("all"@),
                    plain_option("this script"@),
                    plain_option("other scripts in sprite"@),
                ]);
            }
            r
        },
    }
}

} // verus!
