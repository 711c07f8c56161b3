use viiru_core::block::{Block, Field, Input};
use viiru_core::bridge::{variable_type_name, HostCall, VariableType};
use viiru_core::grammar::compile;
use viiru_core::opcodes::{blocks, dropdown_options, knows_dropdown_options, number_ish, TOOLBOX_LEN};
use viiru_core::result::ViiruError;
use viiru_core::runtime::{make_id, Runtime, State, Viewport};
use viiru_core::spec::{Shape, Spec};
use viiru_core::ui::{Accumulators, DropPoint, Mark};

fn editor() -> Runtime {
    Runtime::new(blocks().unwrap())
}

fn block<'a>(rt: &'a Runtime, id: &str) -> &'a Block {
    let i = rt.index_of(id);
    assert!(i < rt.blocks.len(), "no block {}", id);
    &rt.blocks[i].1
}

fn input<'a>(rt: &'a Runtime, id: &str, name: &str) -> &'a Input {
    &block(rt, id).inputs.iter().find(|e| e.0 == name).unwrap().1
}

fn field<'a>(rt: &'a Runtime, id: &str, name: &str) -> &'a Field {
    &block(rt, id).fields.iter().find(|e| e.0 == name).unwrap().1
}

fn small_table() -> Vec<(String, Spec)> {
    vec![
        (
            "say".to_string(),
            compile("{AABBCC/FFFFFF/112233}say (MESSAGE=`hi`)").unwrap(),
        ),
        ("text".to_string(), compile("(FFFFFF/595E73/FFFFFF![*TEXT]").unwrap()),
        ("math_number".to_string(), compile("(FFFFFF/595E73/FFFFFF![*NUM]").unwrap()),
        ("colour_picker".to_string(), compile("(FFFFFF/595E73/FFFFFF![#COLOUR]").unwrap()),
        (
            "mix".to_string(),
            compile("{AABBCC/FFFFFF/112233}(A=12.50)(B=@)(C=#050AFF)(D=text)(E)<F>").unwrap(),
        ),
        ("odd".to_string(), compile("{AABBCC/FFFFFF/112233}(A=nowhere)").unwrap()),
    ]
}

#[test]
fn a_fresh_editor_is_empty() {
    let rt = editor();
    assert!(rt.blocks.is_empty());
    assert!(rt.top_level.is_empty());
    assert!(rt.outbox.is_empty());
    assert!(!rt.is_dirty());
    assert!(rt.state == State::Move);
    assert_eq!(rt.last_command, ' ');
    assert_eq!(rt.specs.len(), 140);
    assert!(rt.has_spec("looks_say"));
    assert!(!rt.has_spec("looks_shout"));
}

#[test]
fn ids_count_up_and_skip_what_is_taken() {
    assert_eq!(make_id(0), "viiru-0");
    assert_eq!(make_id(41), "viiru-41");
    let mut rt = editor();
    assert_eq!(rt.generate_id().unwrap(), "viiru-0");
    assert_eq!(rt.generate_id().unwrap(), "viiru-1");
    let a = rt.create_single_block("looks_show").unwrap();
    assert_eq!(a, "viiru-2");
    // a block that came from elsewhere under an id of ours
    let i = rt.index_of(&a);
    rt.blocks[i].0 = "viiru-3".to_string();
    rt.top_level[0] = "viiru-3".to_string();
    let b = rt.create_single_block("looks_show").unwrap();
    assert_eq!(b, "viiru-4");
    assert_eq!(rt.next_usable_id, 5);
    assert_eq!(rt.generate_fake_id().unwrap(), format!("viiru-{}", usize::MAX));
}

#[test]
fn ids_run_out_at_the_greatest_number() {
    let mut rt = editor();
    rt.next_usable_id = usize::MAX - 1;
    assert_eq!(rt.generate_id().unwrap(), format!("viiru-{}", usize::MAX - 1));
    assert_eq!(rt.next_usable_id, usize::MAX);
    assert_eq!(rt.generate_id(), Err(ViiruError::IdsExhausted));
    assert_eq!(rt.create_single_block("looks_show"), Err(ViiruError::IdsExhausted));
    assert_eq!(
        rt.create_block_template("looks_show").map(|r| r.0),
        Err(ViiruError::IdsExhausted)
    );
    assert!(rt.blocks.is_empty());
    assert_eq!(
        rt.create_block_template("no_such_opcode").map(|r| r.0),
        Err(ViiruError::UnknownOpcode)
    );
}

#[test]
fn create_single_block_makes_an_empty_top_level_block() {
    let mut rt = editor();
    let id = rt.create_single_block("control_if_else").unwrap();
    assert_eq!(id, "viiru-0");
    let b = block(&rt, &id);
    assert_eq!((b.x, b.y, b.offset_x, b.offset_y), (0, 0, 0, 0));
    assert_eq!(b.opcode, "control_if_else");
    assert!(b.parent_id.is_none() && b.next_id.is_none());
    let names: Vec<&str> = b.inputs.iter().map(|e| e.0.as_str()).collect();
    assert_eq!(names, vec!["CONDITION", "SUBSTACK", "SUBSTACK2"]);
    assert!(b.fields.is_empty());
    assert_eq!(rt.top_level, vec!["viiru-0".to_string()]);
    assert!(rt.is_dirty());
    assert_eq!(rt.outbox.len(), 1);
    match &rt.outbox[0] {
        HostCall::CreateBlock { opcode, is_shadow, id } => {
            assert_eq!(opcode, "control_if_else");
            assert!(!is_shadow);
            assert_eq!(id, "viiru-0");
        }
        other => panic!("unexpected call {:?}", other),
    }
    let shadow = rt.create_single_block("math_number").unwrap();
    assert!(matches!(&rt.outbox[1], HostCall::CreateBlock { is_shadow: true, .. }));
    assert_eq!(block(&rt, &shadow).fields[0].0, "NUM");
}

#[test]
fn a_template_is_instantiated_with_its_default() {
    let mut rt = Runtime::new(small_table());
    let (id, kids) = rt.create_block_template("say").unwrap();
    assert_eq!(rt.blocks.len(), 2);
    assert_eq!(kids.len(), 1);
    assert_eq!(block(&rt, &id).opcode, "say");
    let kid = &kids[0];
    assert_eq!(block(&rt, kid).opcode, "text");
    assert_eq!(field(&rt, kid, "TEXT").text, "hi");
    assert_eq!(block(&rt, kid).parent_id.as_deref(), Some(id.as_str()));
    let slot = input(&rt, &id, "MESSAGE");
    assert_eq!(slot.shadow_id.as_deref(), Some(kid.as_str()));
    assert!(slot.block_id.is_none());
    assert_eq!(rt.top_level, vec![id.clone()]);
    // create, create, change field, attach
    assert_eq!(rt.outbox.len(), 4);
    assert!(matches!(&rt.outbox[2], HostCall::ChangeField { field, text, data_id: None, .. } if field == "TEXT" && text == "hi"));
    assert!(matches!(&rt.outbox[3], HostCall::AttachBlock { is_shadow: true, input_name: Some(n), .. } if n == "MESSAGE"));
}

#[test]
fn each_kind_of_default_fills_its_shadow() {
    let mut rt = Runtime::new(small_table());
    let (id, kids) = rt.create_block_template("mix").unwrap();
    assert_eq!(kids.len(), 4);
    assert_eq!(block(&rt, &kids[0]).opcode, "math_number");
    assert_eq!(field(&rt, &kids[0], "NUM").text, "12.5");
    assert_eq!(block(&rt, &kids[1]).opcode, "math_number");
    assert_eq!(field(&rt, &kids[1], "NUM").text, "");
    assert_eq!(block(&rt, &kids[2]).opcode, "colour_picker");
    assert_eq!(field(&rt, &kids[2], "COLOUR").text, "#050AFF");
    assert_eq!(block(&rt, &kids[3]).opcode, "text");
    assert_eq!(field(&rt, &kids[3], "TEXT").text, "");
    for (k, name) in ["A", "B", "C", "D"].iter().enumerate() {
        assert_eq!(input(&rt, &id, name).shadow_id.as_deref(), Some(kids[k].as_str()));
    }
    assert!(input(&rt, &id, "E").shadow_id.is_none());
    assert!(input(&rt, &id, "F").shadow_id.is_none());
    // a default that names an opcode without a template
    assert_eq!(
        rt.create_block_template("odd").map(|r| r.0),
        Err(ViiruError::UnknownOpcode)
    );
}

#[test]
fn shipped_number_defaults_are_written_as_whole_numbers() {
    let mut rt = editor();
    let (_, kids) = rt.create_block_template("motion_movesteps").unwrap();
    assert_eq!(field(&rt, &kids[0], "NUM").text, "10");
    let (_, kids) = rt.create_block_template("sound_changevolumeby").unwrap();
    assert_eq!(field(&rt, &kids[0], "NUM").text, "-10");
    let (_, kids) = rt.create_block_template("operator_add").unwrap();
    assert_eq!(field(&rt, &kids[0], "NUM").text, "");
    let (_, kids) = rt.create_block_template("sensing_touchingcolor").unwrap();
    assert_eq!(field(&rt, &kids[0], "COLOUR").text, "#3D7088");
}

#[test]
fn attach_then_detach_restores_the_block() {
    let mut rt = editor();
    let p = rt.create_single_block("operator_join").unwrap();
    let b = rt.create_single_block("sensing_answer").unwrap();
    rt.slide_block_to(&p, 10, 20).unwrap();
    rt.slide_block_to(&b, 13, 20).unwrap();
    assert!(rt.attach_input(&b, &p, "STRING1", false).is_none());
    assert_eq!(block(&rt, &b).parent_id.as_deref(), Some(p.as_str()));
    assert_eq!(input(&rt, &p, "STRING1").block_id.as_deref(), Some(b.as_str()));
    assert_eq!(rt.top_level, vec![p.clone()]);
    // the layout pass would record where the child sits in the parent
    let mut acc = Accumulators::new();
    acc.mark_block_offset(&b, 3, 0);
    rt.process_accumulators(acc);
    assert_eq!(rt.compute_own_xy(&b), Ok((13, 20)));
    rt.detach_block(&b).unwrap();
    assert!(block(&rt, &b).parent_id.is_none());
    assert!(input(&rt, &p, "STRING1").block_id.is_none());
    assert!(input(&rt, &p, "STRING1").shadow_id.is_none());
    assert_eq!((block(&rt, &b).x, block(&rt, &b).y), (13, 20));
    assert_eq!(rt.top_level, vec![p.clone(), b.clone()]);
    assert!(matches!(rt.outbox.last().unwrap(), HostCall::DetachBlock { id } if *id == b));
}

#[test]
fn detach_follows_the_offsets_up_to_the_root() {
    let mut rt = editor();
    let root = rt.create_single_block("operator_join").unwrap();
    let mid = rt.create_single_block("operator_join").unwrap();
    let leaf = rt.create_single_block("sensing_answer").unwrap();
    rt.slide_block_to(&root, 100, 50).unwrap();
    rt.attach_input(&mid, &root, "STRING2", false);
    rt.attach_input(&leaf, &mid, "STRING1", false);
    let mut acc = Accumulators::new();
    acc.mark_block_offset(&mid, 7, 0);
    acc.mark_block_offset(&leaf, 5, 1);
    rt.process_accumulators(acc);
    assert_eq!(rt.compute_own_xy(&root), Ok((100, 50)));
    assert_eq!(rt.compute_own_xy(&mid), Ok((107, 50)));
    assert_eq!(rt.compute_own_xy(&leaf), Ok((112, 51)));
    rt.detach_block(&mid).unwrap();
    assert_eq!((block(&rt, &mid).x, block(&rt, &mid).y), (107, 50));
    // what sits in the inputs of a moved block moves along
    assert_eq!((block(&rt, &leaf).x, block(&rt, &leaf).y), (107, 50));
    assert_eq!(rt.compute_own_xy(&leaf), Ok((112, 51)));
}

#[test]
fn attaching_into_a_full_slot_pushes_the_occupant_out() {
    let mut rt = editor();
    let p = rt.create_single_block("operator_round").unwrap();
    let d = rt.create_single_block("sensing_answer").unwrap();
    let c = rt.create_single_block("sensing_timer").unwrap();
    assert_eq!(rt.attach_input(&d, &p, "NUM", false), None);
    assert_eq!(rt.top_level, vec![p.clone(), c.clone()]);
    assert_eq!(rt.attach_input(&c, &p, "NUM", false), Some(d.clone()));
    assert!(block(&rt, &d).parent_id.is_none());
    assert!(rt.top_level.contains(&d));
    assert_eq!(rt.top_level, vec![p.clone(), d.clone()]);
    assert_eq!(input(&rt, &p, "NUM").block_id.as_deref(), Some(c.as_str()));
    assert_eq!(block(&rt, &c).parent_id.as_deref(), Some(p.as_str()));
    // the shadow half is a slot of its own
    let s = rt.create_single_block("math_number").unwrap();
    assert_eq!(rt.attach_input(&s, &p, "NUM", true), None);
    assert_eq!(input(&rt, &p, "NUM").shadow_id.as_deref(), Some(s.as_str()));
    assert_eq!(input(&rt, &p, "NUM").block_id.as_deref(), Some(c.as_str()));
}

#[test]
fn attach_next_chains_stack_blocks() {
    let mut rt = editor();
    let a = rt.create_single_block("looks_show").unwrap();
    let b = rt.create_single_block("looks_hide").unwrap();
    rt.attach_next(&b, &a);
    assert_eq!(block(&rt, &a).next_id.as_deref(), Some(b.as_str()));
    assert_eq!(block(&rt, &b).parent_id.as_deref(), Some(a.as_str()));
    assert_eq!(rt.top_level, vec![a.clone()]);
    assert!(matches!(rt.outbox.last().unwrap(), HostCall::AttachBlock { input_name: None, is_shadow: false, .. }));
    rt.detach_block(&b).unwrap();
    assert!(block(&rt, &a).next_id.is_none());
    assert!(block(&rt, &b).parent_id.is_none());
    assert_eq!(rt.top_level, vec![a, b]);
}

#[test]
fn detaching_an_input_leaves_the_next_block_alone() {
    let mut rt = editor();
    let a = rt.create_single_block("control_wait").unwrap();
    let n = rt.create_single_block("looks_hide").unwrap();
    let v = rt.create_single_block("sensing_timer").unwrap();
    rt.attach_next(&n, &a);
    rt.attach_input(&v, &a, "DURATION", false);
    rt.detach_block(&v).unwrap();
    assert_eq!(block(&rt, &a).next_id.as_deref(), Some(n.as_str()));
    assert!(input(&rt, &a, "DURATION").block_id.is_none());
}

#[test]
fn delete_removes_everything_the_block_owns() {
    let mut rt = editor();
    let (root, kids) = rt.create_block_template("control_repeat").unwrap();
    let inner = rt.create_single_block("looks_show").unwrap();
    let after = rt.create_single_block("looks_hide").unwrap();
    let value = rt.create_single_block("sensing_timer").unwrap();
    let other = rt.create_single_block("looks_nextcostume").unwrap();
    let holder = rt.create_single_block("control_forever").unwrap();
    rt.attach_input(&inner, &root, "SUBSTACK", false);
    rt.attach_next(&after, &inner);
    rt.attach_input(&value, &root, "TIMES", false);
    rt.attach_input(&root, &holder, "SUBSTACK", false);
    assert_eq!(rt.blocks.len(), 7);
    rt.outbox.clear();
    rt.delete_block(&root).unwrap();
    let left: Vec<&str> = rt.blocks.iter().map(|e| e.0.as_str()).collect();
    assert_eq!(left, vec![other.as_str(), holder.as_str()]);
    assert_eq!(rt.top_level, vec![other.clone(), holder.clone()]);
    assert!(!rt.contains(&kids[0]));
    // nothing that is left names a block that is gone
    for (_, b) in rt.blocks.iter() {
        assert!(b.parent_id.is_none() && b.next_id.is_none());
        for (_, i) in b.inputs.iter() {
            assert!(i.block_id.is_none() && i.shadow_id.is_none());
        }
    }
    // the host hears of the root alone
    let deletes: Vec<&HostCall> = rt.outbox.iter().filter(|c| matches!(c, HostCall::DeleteBlock { .. })).collect();
    assert_eq!(deletes.len(), 1);
    assert!(matches!(deletes[0], HostCall::DeleteBlock { id } if *id == root));
}

#[test]
fn stamp_copies_a_block_and_what_it_owns() {
    let mut rt = editor();
    let (root, kids) = rt.create_block_template("looks_sayforsecs").unwrap();
    let value = rt.create_single_block("sensing_answer").unwrap();
    let next = rt.create_single_block("looks_hide").unwrap();
    rt.attach_input(&value, &root, "MESSAGE", false);
    rt.attach_next(&next, &root);
    rt.set_field(&kids[0], "TEXT", "changed", Some("var"));
    rt.slide_block_to(&root, 4, 5).unwrap();
    let before: Vec<String> = rt.blocks.iter().map(|e| e.0.clone()).collect();
    let copy = rt.stamp_block(&root, true).unwrap();
    assert_eq!(rt.blocks.len(), 2 * before.len());
    assert!(!before.contains(&copy));
    let c = block(&rt, &copy);
    assert_eq!(c.opcode, "looks_sayforsecs");
    assert_eq!((c.x, c.y), (4, 5));
    assert!(c.parent_id.is_none());
    assert!(rt.top_level.contains(&copy));
    let c_next = c.next_id.clone().unwrap();
    assert!(!before.contains(&c_next));
    assert_eq!(block(&rt, &c_next).opcode, "looks_hide");
    assert_eq!(block(&rt, &c_next).parent_id.as_deref(), Some(copy.as_str()));
    let message = input(&rt, &copy, "MESSAGE");
    let c_value = message.block_id.clone().unwrap();
    let c_shadow = message.shadow_id.clone().unwrap();
    assert!(!before.contains(&c_value) && !before.contains(&c_shadow));
    assert_eq!(block(&rt, &c_value).opcode, "sensing_answer");
    assert_eq!(block(&rt, &c_shadow).opcode, "text");
    assert_eq!(field(&rt, &c_shadow, "TEXT").text, "changed");
    assert_eq!(field(&rt, &c_shadow, "TEXT").id.as_deref(), Some("var"));
    let secs = input(&rt, &copy, "SECS");
    assert!(secs.block_id.is_none());
    let c_secs = secs.shadow_id.clone().unwrap();
    assert_eq!(field(&rt, &c_secs, "NUM").text, "2");
    // the source is as it was
    assert_eq!(input(&rt, &root, "MESSAGE").block_id.as_deref(), Some(value.as_str()));
    assert_eq!(block(&rt, &root).next_id.as_deref(), Some(next.as_str()));
    assert_eq!(rt.top_level, vec![root.clone(), copy.clone()]);
}

#[test]
fn stamping_a_block_of_an_unknown_opcode_fails() {
    let mut rt = editor();
    let a = rt.create_single_block("looks_show").unwrap();
    let i = rt.index_of(&a);
    rt.blocks[i].1.opcode = "looks_shout".to_string();
    assert_eq!(rt.stamp_block(&a, true), Err(ViiruError::UnknownOpcode));
    assert_eq!(rt.blocks.len(), 1);
}

#[test]
fn sliding_moves_the_block_and_what_its_inputs_hold() {
    let mut rt = editor();
    let (root, kids) = rt.create_block_template("control_wait").unwrap();
    let next = rt.create_single_block("looks_hide").unwrap();
    rt.attach_next(&next, &root);
    rt.outbox.clear();
    rt.slide_block_by(&root, 3, -2).unwrap();
    assert_eq!((block(&rt, &root).x, block(&rt, &root).y), (3, -2));
    assert_eq!((block(&rt, &kids[0]).x, block(&rt, &kids[0]).y), (3, -2));
    assert_eq!((block(&rt, &next).x, block(&rt, &next).y), (0, 0));
    assert_eq!(rt.outbox.len(), 2);
    assert!(matches!(&rt.outbox[0], HostCall::SlideBlock { id, x: 3, y: -2 } if *id == root));
    rt.slide_block_to(&root, 10, 10).unwrap();
    assert_eq!((block(&rt, &kids[0]).x, block(&rt, &kids[0]).y), (10, 10));
}

#[test]
fn a_coordinate_out_of_range_is_an_error() {
    let mut rt = editor();
    let a = rt.create_single_block("looks_show").unwrap();
    rt.slide_block_to(&a, i32::MAX, 0).unwrap();
    assert_eq!(rt.slide_block_by(&a, 1, 0), Err(ViiruError::Overflow));
    assert_eq!(block(&rt, &a).x, i32::MAX);
    assert_eq!(rt.slide_block_to(&a, -2, 0), Err(ViiruError::Overflow));
    rt.cursor_x = i32::MIN;
    assert_eq!(rt.move_x(-1), Err(ViiruError::Overflow));
    assert_eq!(rt.cursor_x, i32::MIN);
}

#[test]
fn the_cursor_takes_the_held_block_along() {
    let mut rt = editor();
    let a = rt.create_single_block("looks_show").unwrap();
    rt.move_x(2).unwrap();
    rt.move_y(-1).unwrap();
    assert_eq!((rt.cursor_x, rt.cursor_y), (2, -1));
    assert_eq!(block(&rt, &a).x, 0);
    rt.put_to_cursor(&a).unwrap();
    assert_eq!(rt.cursor_block.as_deref(), Some(a.as_str()));
    rt.move_x(1).unwrap();
    rt.move_y(4).unwrap();
    assert_eq!((rt.cursor_x, rt.cursor_y), (3, 3));
    assert_eq!((block(&rt, &a).x, block(&rt, &a).y), (1, 4));
}

#[test]
fn set_field_sets_text_and_link() {
    let mut rt = editor();
    let a = rt.create_single_block("data_setvariableto").unwrap();
    rt.set_field(&a, "VARIABLE", "score", Some("var-7"));
    assert_eq!(field(&rt, &a, "VARIABLE").text, "score");
    assert_eq!(field(&rt, &a, "VARIABLE").id.as_deref(), Some("var-7"));
    rt.set_field(&a, "VARIABLE", "lives", None);
    assert_eq!(field(&rt, &a, "VARIABLE").text, "lives");
    assert!(field(&rt, &a, "VARIABLE").id.is_none());
    assert!(matches!(rt.outbox.last().unwrap(), HostCall::ChangeField { block_id, field, text, data_id: None } if *block_id == a && field == "VARIABLE" && text == "lives"));
    let calls = rt.outbox.len();
    rt.set_field(&a, "NOPE", "x", None);
    assert_eq!(block(&rt, &a).fields.len(), 1);
    assert_eq!(rt.outbox.len(), calls + 1);
}

#[test]
fn literal_holders_give_and_take_their_literal() {
    let mut rt = editor();
    let t = rt.create_single_block("text").unwrap();
    let n = rt.create_single_block("math_angle").unwrap();
    let o = rt.create_single_block("looks_show").unwrap();
    rt.set_strumber_field(&t, "hello");
    rt.set_strumber_field(&n, "90");
    rt.set_strumber_field(&o, "ignored");
    assert_eq!(rt.get_strumber_field(&t), "hello");
    assert_eq!(rt.get_strumber_field(&n), "90");
    assert_eq!(rt.get_strumber_field(&o), "");
    assert_eq!(field(&rt, &n, "NUM").text, "90");
    assert!(number_ish("math_number") && number_ish("math_integer") && number_ish("math_whole_number"));
    assert!(number_ish("math_positive_number") && number_ish("math_angle"));
    assert!(!number_ish("text") && !number_ish("math"));
}

#[test]
fn nothing_is_mirrored_while_the_toolbox_is_filled() {
    let mut rt = editor();
    rt.initialize_toolbox_blocks().unwrap();
    assert_eq!(rt.toolbox.len(), TOOLBOX_LEN);
    assert!(rt.outbox.is_empty());
    assert!(!rt.is_dirty());
    assert!(rt.do_sync);
    assert!(rt.top_level.is_empty());
    assert_eq!(rt.next_usable_id, 0);
    assert_eq!(rt.toolbox[0], format!("viiru-{}", usize::MAX));
    assert_eq!(block(&rt, &rt.toolbox[0]).opcode, "motion_movesteps");
    let shadow = input(&rt, &rt.toolbox[0], "STEPS").shadow_id.clone().unwrap();
    assert_eq!(shadow, format!("viiru-{}", usize::MAX - 1));
    assert_eq!(field(&rt, &shadow, "NUM").text, "10");
    // ids made afterwards count up from the counter
    assert_eq!(rt.create_single_block("looks_show").unwrap(), "viiru-0");
}

#[test]
fn a_loaded_project_replaces_the_graph() {
    let mut rt = editor();
    rt.create_single_block("looks_show").unwrap();
    rt.cursor_x = 9;
    rt.scroll_y = 4;
    let mut child = Block {
        x: 0,
        y: 0,
        offset_x: 0,
        offset_y: 0,
        opcode: "looks_hide".to_string(),
        parent_id: Some("a".to_string()),
        next_id: None,
        inputs: vec![],
        fields: vec![],
    };
    let mut root = child.clone();
    root.parent_id = None;
    root.next_id = Some("b".to_string());
    root.x = 3;
    child.opcode = "looks_show".to_string();
    let mut loose = root.clone();
    loose.next_id = None;
    rt.project_loaded(
        vec![("b".to_string(), child), ("a".to_string(), root), ("c".to_string(), loose)],
        vec![("v1".to_string(), "score".to_string())],
        vec![],
        vec![("m1".to_string(), "go".to_string())],
    )
    .unwrap();
    assert_eq!(rt.top_level, vec!["a".to_string(), "c".to_string()]);
    assert!(rt.blocks.len() > 3 + rt.toolbox.len());
    assert_eq!(rt.toolbox.len(), TOOLBOX_LEN);
    assert_eq!(rt.variables, vec![("v1".to_string(), "score".to_string())]);
    assert_eq!(rt.broadcasts.len(), 1);
    assert_eq!((rt.cursor_x, rt.cursor_y, rt.scroll_x, rt.scroll_y), (0, 0, 0, 0));
    assert!(rt.cursor_block.is_none());
    rt.is_dirty = true;
    rt.project_saved();
    assert!(!rt.is_dirty());
}

#[test]
fn the_drop_point_under_the_held_block_must_fit_it() {
    let mut rt = editor();
    let held = rt.create_single_block("sensing_answer").unwrap();
    let target = rt.create_single_block("operator_round").unwrap();
    rt.slide_block_to(&held, 5, 6).unwrap();
    assert!(rt.current_drop_point().is_none());
    rt.cursor_block = Some(held.clone());
    assert!(rt.current_drop_point().is_none());
    let mark = |shape: Shape, x: i32, y: i32, input: Option<&str>| Mark {
        x,
        y,
        point: DropPoint { shape, id: target.clone(), input: input.map(|s| s.to_string()) },
    };
    rt.drop_points = vec![mark(Shape::Circle, 5, 6, Some("NUM")), mark(Shape::Stack, 5, 7, None)];
    assert_eq!(rt.current_drop_point(), Some((target.clone(), Some("NUM".to_string()))));
    // the mark registered last on a cell counts
    rt.drop_points.push(mark(Shape::Hexagon, 5, 6, Some("X")));
    assert!(rt.current_drop_point().is_none());
    rt.drop_points.push(mark(Shape::Circle, 5, 6, None));
    assert_eq!(rt.current_drop_point(), Some((target.clone(), None)));
    // a hat is never attached
    let hat = rt.create_single_block("event_whenflagclicked").unwrap();
    rt.cursor_block = Some(hat);
    rt.drop_points = vec![mark(Shape::Stack, 0, 0, None)];
    assert!(rt.current_drop_point().is_none());
}

#[test]
fn remove_top_level_takes_the_first_occurrence() {
    let mut rt = editor();
    let a = rt.create_single_block("looks_show").unwrap();
    let b = rt.create_single_block("looks_hide").unwrap();
    rt.top_level.push(a.clone());
    rt.remove_top_level(&a);
    assert_eq!(rt.top_level, vec![b, a]);
}

#[test]
fn viewport_measures() {
    let vp = Viewport { x_min: 3, x_max: 75, y_min: 1, y_max: 35 };
    assert_eq!(vp.width(), 72);
    assert_eq!(vp.height(), 34);
}

#[test]
fn dropdown_options_come_from_the_template_or_the_stop_block() {
    let mut rt = editor();
    let stop = rt.create_single_block("control_stop").unwrap();
    assert!(knows_dropdown_options(&rt, &stop, "control_stop"));
    let all: Vec<String> = dropdown_options(&rt, &stop, "control_stop").into_iter().map(|o| o.value).collect();
    assert_eq!(all, vec!["all", "this script", "other scripts in sprite"]);
    let next = rt.create_single_block("looks_show").unwrap();
    rt.attach_next(&next, &stop);
    let some = dropdown_options(&rt, &stop, "control_stop");
    assert_eq!(some.len(), 1);
    assert_eq!(some[0].value, "other scripts in sprite");
    assert_eq!(some[0].display, "other scripts in sprite");
    assert!(knows_dropdown_options(&rt, "", "looks_gotofrontback"));
    let fixed = dropdown_options(&rt, "", "looks_gotofrontback");
    assert_eq!(fixed.len(), 2);
    assert_eq!(fixed[0].value, "front");
    assert_eq!(fixed[1].display, "back");
    assert!(!knows_dropdown_options(&rt, &stop, "data_showlist"));
    assert!(!knows_dropdown_options(&rt, "nobody", "control_stop"));
    assert!(!knows_dropdown_options(&rt, &stop, "no_such_opcode"));
}

#[test]
fn kinds_of_named_data_have_their_host_names() {
    assert_eq!(variable_type_name(VariableType::Scalar), "");
    assert_eq!(variable_type_name(VariableType::List), "list");
    assert_eq!(variable_type_name(VariableType::Broadcast), "broadcast_msg");
}

fn holders(rt: &Runtime, id: &str) -> Vec<String> {
    let mut found = Vec::new();
    for (owner, b) in rt.blocks.iter() {
        if b.next_id.as_deref() == Some(id) {
            found.push(owner.clone());
        }
        for (_, i) in b.inputs.iter() {
            if i.block_id.as_deref() == Some(id) {
                found.push(owner.clone());
            }
            if i.shadow_id.as_deref() == Some(id) {
                found.push(owner.clone());
            }
        }
    }
    found
}

fn assert_links_agree(rt: &Runtime) {
    for (id, b) in rt.blocks.iter() {
        let held_by = holders(rt, id);
        match &b.parent_id {
            Some(p) => assert_eq!(held_by, vec![p.clone()], "block {}", id),
            None => {
                assert!(held_by.is_empty(), "block {}", id);
                assert!(rt.top_level.contains(id) || rt.toolbox.contains(id), "block {}", id);
            }
        }
    }
    // the top-level blocks are blocks without a parent, each listed once
    for (i, id) in rt.top_level.iter().enumerate() {
        assert!(!rt.top_level[..i].contains(id), "block {}", id);
        assert!(rt.contains(id), "block {}", id);
        assert!(block(rt, id).parent_id.is_none(), "block {}", id);
    }
    // no block is its own ancestor
    for (id, _) in rt.blocks.iter() {
        let mut at = id.clone();
        for _ in 0..rt.blocks.len() {
            match &block(rt, &at).parent_id {
                Some(p) => {
                    assert_ne!(p, id);
                    at = p.clone();
                }
                None => break,
            }
        }
    }
}

#[test]
fn a_block_has_a_parent_exactly_if_one_block_holds_it() {
    let mut rt = editor();
    rt.initialize_toolbox_blocks().unwrap();
    assert_links_agree(&rt);
    let (say, _) = rt.create_block_template("looks_say").unwrap();
    let (join, _) = rt.create_block_template("operator_join").unwrap();
    let (wait, _) = rt.create_block_template("control_wait").unwrap();
    let (forever, _) = rt.create_block_template("control_forever").unwrap();
    assert_links_agree(&rt);
    assert_eq!(rt.attach_input(&join, &say, "MESSAGE", false), None);
    assert_links_agree(&rt);
    rt.attach_next(&wait, &say);
    assert_links_agree(&rt);
    rt.attach_input(&say, &forever, "SUBSTACK", false);
    assert_links_agree(&rt);
    let copy = rt.stamp_block(&forever, true).unwrap();
    assert_links_agree(&rt);
    rt.detach_block(&wait).unwrap();
    assert_links_agree(&rt);
    rt.delete_block(&copy).unwrap();
    assert_links_agree(&rt);
    rt.delete_block(&say).unwrap();
    assert_links_agree(&rt);
    assert!(rt.contains(&forever));
    assert!(rt.contains(&wait));
    assert!(!rt.contains(&join));
}
