use viiru_core::block::{Block, Field, Input};

fn sample() -> Block {
    Block {
        x: 1,
        y: 2,
        offset_x: 0,
        offset_y: 0,
        opcode: "control_stop".to_string(),
        parent_id: None,
        next_id: None,
        inputs: vec![
            ("A".to_string(), Input { shadow_id: Some("s".to_string()), block_id: None }),
            ("B".to_string(), Input { shadow_id: None, block_id: Some("b".to_string()) }),
        ],
        fields: vec![(
            "STOP_OPTION".to_string(),
            Field { text: "all".to_string(), id: None },
        )],
    }
}

#[test]
fn set_input_returns_what_it_replaces() {
    let mut b = sample();
    assert_eq!(b.set_input("A", "x", false), None);
    assert_eq!(b.inputs[0].1.block_id.as_deref(), Some("x"));
    assert_eq!(b.inputs[0].1.shadow_id.as_deref(), Some("s"));
    assert_eq!(b.set_input("A", "y", true), Some("s".to_string()));
    assert_eq!(b.inputs[0].1.shadow_id.as_deref(), Some("y"));
    assert_eq!(b.set_input("B", "z", false), Some("b".to_string()));
    assert_eq!(b.inputs[1].1.block_id.as_deref(), Some("z"));
    // an input that the block does not have
    assert_eq!(b.set_input("C", "z", false), None);
    assert_eq!(b.inputs.len(), 2);
}

#[test]
fn remove_input_returns_what_it_empties() {
    let mut b = sample();
    assert_eq!(b.remove_input("A", true), Some("s".to_string()));
    assert!(b.inputs[0].1.shadow_id.is_none());
    assert_eq!(b.remove_input("A", true), None);
    assert_eq!(b.remove_input("B", true), None);
    assert_eq!(b.inputs[1].1.block_id.as_deref(), Some("b"));
    assert_eq!(b.remove_input("B", false), Some("b".to_string()));
    assert_eq!(b.remove_input("C", false), None);
}

#[test]
fn field_accessors_swap() {
    let mut b = sample();
    assert_eq!(b.set_field_text("STOP_OPTION", "this script"), Some("all".to_string()));
    assert_eq!(b.fields[0].1.text, "this script");
    assert_eq!(b.set_field_text("NOPE", "x"), None);
    assert_eq!(b.set_field_id("STOP_OPTION", "var-1"), None);
    assert_eq!(b.set_field_id("STOP_OPTION", "var-2"), Some("var-1".to_string()));
    assert_eq!(b.fields[0].1.id.as_deref(), Some("var-2"));
    assert_eq!(b.remove_field_id("STOP_OPTION"), Some("var-2".to_string()));
    assert_eq!(b.remove_field_id("STOP_OPTION"), None);
    assert_eq!(b.set_field_id("NOPE", "x"), None);
    assert_eq!(b.remove_field_id("NOPE"), None);
    assert_eq!(b.fields[0].1.text, "this script");
}

#[test]
fn is_boot_tells_blocks_that_end_control() {
    let mut b = sample();
    assert!(b.is_boot());
    b.set_field_text("STOP_OPTION", "this script");
    assert!(b.is_boot());
    b.set_field_text("STOP_OPTION", "other scripts in sprite");
    assert!(!b.is_boot());
    b.opcode = "control_delete_this_clone".to_string();
    assert!(b.is_boot());
    b.opcode = "control_wait".to_string();
    assert!(!b.is_boot());
}
