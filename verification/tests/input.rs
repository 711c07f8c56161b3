use viiru_core::input::{handle_key, Direction, Key, Outcome, Request};
use viiru_core::opcodes::blocks;
use viiru_core::result::ViiruError;
use viiru_core::runtime::{Runtime, State};
use viiru_core::ui::Screen;

fn editor() -> (Runtime, Screen) {
    let mut rt = Runtime::new(blocks().unwrap());
    rt.start(120, 40).unwrap();
    (rt, Screen::new(120, 40))
}

fn press(rt: &mut Runtime, s: &mut Screen, c: char) -> Outcome {
    let out = handle_key(rt, s, Key::Char(c)).unwrap();
    if out.needs_refresh {
        s.clear();
        s.refresh_screen(rt).unwrap();
    }
    out
}

fn xy(rt: &Runtime, id: &str) -> (i32, i32) {
    let b = &rt.blocks[rt.index_of(id)].1;
    (b.x, b.y)
}

#[test]
fn starting_centres_the_view() {
    let (rt, _) = editor();
    assert_eq!((rt.viewport_offset_x, rt.viewport_offset_y), (3, 1));
    assert_eq!((rt.toolbox_width, rt.status_height), (45, 5));
    assert_eq!((rt.window_cols, rt.window_rows), (120, 40));
    assert_eq!((rt.scroll_x, rt.scroll_y), (-39, -18));
}

#[test]
fn resizing_recomputes_the_viewport() {
    let (mut rt, _) = editor();
    rt.resize(100, 30).unwrap();
    assert_eq!((rt.window_cols, rt.window_rows), (100, 30));
    assert_eq!((rt.viewport.x_min, rt.viewport.x_max), (3, 55));
    assert_eq!((rt.viewport.y_min, rt.viewport.y_max), (1, 25));
    assert_eq!((rt.scroll_x, rt.scroll_y), (-39, -18));
    rt.toolbox_width = i32::MIN;
    assert_eq!(rt.resize(100, 30), Err(ViiruError::Overflow));
}

#[test]
fn the_cursor_steps_and_the_view_follows() {
    let (mut rt, mut s) = editor();
    let out = press(&mut rt, &mut s, 'l');
    assert!(out.needs_refresh);
    assert!(matches!(out.request, Request::Nothing));
    assert_eq!((rt.cursor_x, rt.cursor_y), (1, 0));
    assert_eq!(rt.last_command, 'l');
    press(&mut rt, &mut s, 'j');
    press(&mut rt, &mut s, 'j');
    press(&mut rt, &mut s, 'h');
    press(&mut rt, &mut s, 'k');
    assert_eq!((rt.cursor_x, rt.cursor_y), (0, 1));
    assert_eq!((rt.scroll_x, rt.scroll_y), (-39, -18));
    // capitals take the view along
    press(&mut rt, &mut s, 'L');
    press(&mut rt, &mut s, 'J');
    assert_eq!((rt.cursor_x, rt.cursor_y), (1, 2));
    assert_eq!((rt.scroll_x, rt.scroll_y), (-38, -17));
    press(&mut rt, &mut s, 'H');
    press(&mut rt, &mut s, 'K');
    assert_eq!((rt.cursor_x, rt.cursor_y, rt.scroll_x, rt.scroll_y), (0, 1, -39, -18));
    // at the lower edge of the viewport the view follows
    for _ in 0..15 {
        rt.walk(Direction::Down).unwrap();
    }
    assert_eq!((rt.cursor_y, rt.scroll_y), (16, -18));
    rt.walk(Direction::Down).unwrap();
    assert_eq!((rt.cursor_y, rt.scroll_y), (17, -17));
    // and at the right edge
    for _ in 0..35 {
        rt.walk(Direction::Right).unwrap();
    }
    assert_eq!((rt.cursor_x, rt.scroll_x), (35, -39));
    rt.walk(Direction::Right).unwrap();
    assert_eq!((rt.cursor_x, rt.scroll_x), (36, -38));
    // at the left edge
    for _ in 0..71 {
        rt.walk(Direction::Left).unwrap();
    }
    assert_eq!((rt.cursor_x, rt.scroll_x), (-35, -38));
    rt.walk(Direction::Left).unwrap();
    assert_eq!((rt.cursor_x, rt.scroll_x), (-36, -39));
    // and at the upper edge
    for _ in 0..33 {
        rt.walk(Direction::Up).unwrap();
    }
    assert_eq!((rt.cursor_y, rt.scroll_y), (-16, -17));
    rt.walk(Direction::Up).unwrap();
    assert_eq!((rt.cursor_y, rt.scroll_y), (-17, -18));
    // keys that mean nothing do nothing
    let out = handle_key(&mut rt, &mut s, Key::Enter).unwrap();
    assert!(!out.needs_refresh);
    let out = handle_key(&mut rt, &mut s, Key::Char('z')).unwrap();
    assert!(!out.needs_refresh);
    assert_eq!(rt.last_command, 'z');
}

#[test]
fn quitting_asks_when_something_is_unsaved() {
    let (mut rt, mut s) = editor();
    let out = handle_key(&mut rt, &mut s, Key::Char('q')).unwrap();
    assert!(matches!(out.request, Request::Quit));
    rt.create_single_block("looks_show").unwrap();
    assert!(rt.is_dirty());
    let out = handle_key(&mut rt, &mut s, Key::Char('q')).unwrap();
    assert!(matches!(out.request, Request::Nothing));
    assert!(out.needs_refresh);
    assert_eq!(rt.status_message, "Unsaved changes. (Q to force)");
    let out = handle_key(&mut rt, &mut s, Key::Char('Q')).unwrap();
    assert!(matches!(out.request, Request::Quit));
}

#[test]
fn a_path_is_typed_and_handed_to_the_host() {
    let (mut rt, mut s) = editor();
    press(&mut rt, &mut s, 'o');
    assert!(rt.state == State::Command);
    assert_eq!(s.cells[36][3..14].iter().map(|c| c.char.unwrap()).collect::<String>(), "file path: ");
    for c in "a.sb3x".chars() {
        press(&mut rt, &mut s, c);
    }
    assert_eq!(rt.last_command, 'o');
    handle_key(&mut rt, &mut s, Key::Backspace).unwrap();
    handle_key(&mut rt, &mut s, Key::Other).unwrap();
    assert_eq!(rt.command_buffer, "a.sb3");
    let out = handle_key(&mut rt, &mut s, Key::Enter).unwrap();
    assert!(matches!(&out.request, Request::Load(p) if p == "a.sb3"));
    assert!(rt.state == State::Move);
    assert_eq!(rt.command_buffer, "");
    rt.note_opened("a.sb3", false);
    assert_eq!(rt.status_message, "Failed to open project file at a.sb3");
    rt.note_opened("a.sb3", true);
    assert_eq!(rt.status_message, "Opened project file a.sb3");
    // saving
    rt.is_dirty = true;
    press(&mut rt, &mut s, 'w');
    press(&mut rt, &mut s, 'b');
    let out = handle_key(&mut rt, &mut s, Key::Enter).unwrap();
    assert!(matches!(&out.request, Request::Save(p) if p == "b"));
    rt.note_saved("b", true);
    assert_eq!(rt.status_message, "Saved project into b");
    assert!(!rt.is_dirty());
    rt.note_saved("b", false);
    assert_eq!(rt.status_message, "Failed to write project file to b");
    // escape drops the path
    press(&mut rt, &mut s, 'w');
    press(&mut rt, &mut s, 'c');
    handle_key(&mut rt, &mut s, Key::Backspace).unwrap();
    handle_key(&mut rt, &mut s, Key::Backspace).unwrap();
    press(&mut rt, &mut s, 'd');
    let out = handle_key(&mut rt, &mut s, Key::Esc).unwrap();
    assert!(matches!(out.request, Request::Nothing));
    assert!(rt.state == State::Move);
    assert_eq!(rt.command_buffer, "");
}

#[test]
fn a_block_is_picked_up_carried_and_attached() {
    let (mut rt, mut s) = editor();
    let parent = rt.create_single_block("operator_round").unwrap();
    let value = rt.create_single_block("sensing_answer").unwrap();
    rt.slide_block_to(&value, 7, 3).unwrap();
    s.refresh_screen(&mut rt).unwrap();
    // nothing under the cursor at (0, 1)
    press(&mut rt, &mut s, 'j');
    press(&mut rt, &mut s, ' ');
    assert!(rt.state == State::Move);
    for _ in 0..7 {
        press(&mut rt, &mut s, 'l');
    }
    press(&mut rt, &mut s, 'j');
    press(&mut rt, &mut s, 'j');
    assert_eq!((rt.cursor_x, rt.cursor_y), (7, 3));
    assert_eq!(rt.selected(), Some(value.clone()));
    press(&mut rt, &mut s, ' ');
    assert!(rt.state == State::Hold);
    assert_eq!(rt.cursor_block.as_deref(), Some(value.as_str()));
    for _ in 0..3 {
        press(&mut rt, &mut s, 'k');
    }
    assert_eq!(xy(&rt, &value), (7, 0));
    assert_eq!(rt.current_drop_point(), Some((parent.clone(), Some("NUM".to_string()))));
    press(&mut rt, &mut s, ' ');
    assert!(rt.state == State::Move);
    assert!(rt.cursor_block.is_none());
    let p = &rt.blocks[rt.index_of(&parent)].1;
    assert_eq!(p.inputs[0].1.block_id.as_deref(), Some(value.as_str()));
    assert_eq!(rt.top_level, vec![parent.clone()]);
    assert_eq!(rt.compute_own_xy(&value), Ok((7, 0)));
    // picking it up again takes it out
    press(&mut rt, &mut s, ' ');
    assert!(rt.state == State::Hold);
    assert!(rt.blocks[rt.index_of(&parent)].1.inputs[0].1.block_id.is_none());
    assert_eq!(xy(&rt, &value), (7, 0));
    // away from any drop point it is simply put down
    press(&mut rt, &mut s, 'j');
    press(&mut rt, &mut s, 'j');
    assert!(rt.current_drop_point().is_none());
    press(&mut rt, &mut s, ' ');
    assert!(rt.state == State::Move);
    assert_eq!(xy(&rt, &value), (7, 2));
    assert_eq!(rt.top_level, vec![parent, value]);
}

#[test]
fn letting_go_on_a_full_slot_moves_the_occupant_aside() {
    let (mut rt, mut s) = editor();
    let parent = rt.create_single_block("operator_round").unwrap();
    let old = rt.create_single_block("sensing_timer").unwrap();
    let new = rt.create_single_block("sensing_answer").unwrap();
    rt.attach_input(&old, &parent, "NUM", false);
    rt.slide_block_to(&new, 7, 0).unwrap();
    s.refresh_screen(&mut rt).unwrap();
    rt.cursor_x = 7;
    rt.cursor_block = Some(new.clone());
    rt.state = State::Hold;
    s.refresh_screen(&mut rt).unwrap();
    press(&mut rt, &mut s, ' ');
    let p = &rt.blocks[rt.index_of(&parent)].1;
    assert_eq!(p.inputs[0].1.block_id.as_deref(), Some(new.as_str()));
    assert!(rt.blocks[rt.index_of(&old)].1.parent_id.is_none());
    assert_eq!(xy(&rt, &old), (8, 1));
    assert_eq!(rt.top_level, vec![parent, old]);
}

#[test]
fn stacks_are_chained_but_not_spliced() {
    let (mut rt, mut s) = editor();
    let a = rt.create_single_block("looks_show").unwrap();
    let b = rt.create_single_block("looks_hide").unwrap();
    let c = rt.create_single_block("looks_nextcostume").unwrap();
    let stop = rt.create_single_block("control_delete_this_clone").unwrap();
    rt.slide_block_to(&stop, 20, 0).unwrap();
    rt.slide_block_to(&b, 0, 1).unwrap();
    rt.slide_block_to(&c, 0, 1).unwrap();
    rt.cursor_y = 1;
    rt.cursor_block = Some(b.clone());
    rt.state = State::Hold;
    s.refresh_screen(&mut rt).unwrap();
    assert_eq!(rt.current_drop_point(), Some((a.clone(), None)));
    press(&mut rt, &mut s, ' ');
    assert_eq!(rt.blocks[rt.index_of(&a)].1.next_id.as_deref(), Some(b.as_str()));
    // something follows already
    rt.cursor_block = Some(c.clone());
    rt.state = State::Hold;
    s.refresh_screen(&mut rt).unwrap();
    assert_eq!(rt.current_drop_point(), Some((a.clone(), None)));
    press(&mut rt, &mut s, ' ');
    assert_eq!(rt.status_message, "Can't place between stacks yet");
    assert_eq!(rt.blocks[rt.index_of(&a)].1.next_id.as_deref(), Some(b.as_str()));
    assert!(rt.blocks[rt.index_of(&c)].1.parent_id.is_none());
    assert!(rt.state == State::Move);
    // nothing follows a block that ends control
    rt.slide_block_to(&c, 20, 1).unwrap();
    rt.cursor_x = 20;
    rt.cursor_block = Some(c.clone());
    rt.state = State::Hold;
    s.refresh_screen(&mut rt).unwrap();
    assert_eq!(rt.current_drop_point(), Some((stop.clone(), None)));
    press(&mut rt, &mut s, ' ');
    assert!(rt.blocks[rt.index_of(&stop)].1.next_id.is_none());
    assert!(rt.blocks[rt.index_of(&c)].1.parent_id.is_none());
}

#[test]
fn blocks_are_copied_and_deleted_from_the_keyboard() {
    let (mut rt, mut s) = editor();
    let (a, _) = rt.create_block_template("motion_movesteps").unwrap();
    s.refresh_screen(&mut rt).unwrap();
    press(&mut rt, &mut s, 's');
    assert!(rt.state == State::Hold);
    let copy = rt.cursor_block.clone().unwrap();
    assert_ne!(copy, a);
    assert_eq!(rt.blocks.len(), 4);
    // a copy of the held block stays behind
    press(&mut rt, &mut s, 'j');
    press(&mut rt, &mut s, 's');
    assert_eq!(rt.blocks.len(), 6);
    assert_eq!(rt.cursor_block.as_deref(), Some(copy.as_str()));
    assert_eq!(rt.top_level.len(), 3);
    // the held block is deleted with what it owns
    press(&mut rt, &mut s, 'D');
    assert!(rt.state == State::Move);
    assert!(rt.cursor_block.is_none());
    assert_eq!(rt.blocks.len(), 4);
    assert!(!rt.contains(&copy));
    // and so is the block under the cursor
    assert!(rt.selected().is_some());
    press(&mut rt, &mut s, 'D');
    assert_eq!(rt.blocks.len(), 2);
    press(&mut rt, &mut s, 'D');
    assert_eq!(rt.blocks.len(), 2);
}

#[test]
fn the_toolbox_hands_out_copies() {
    let (mut rt, mut s) = editor();
    rt.initialize_toolbox_blocks().unwrap();
    let stock = rt.blocks.len();
    s.refresh_screen(&mut rt).unwrap();
    assert_eq!(rt.toolbox_visible_max, 16);
    press(&mut rt, &mut s, 't');
    assert!(rt.state == State::Toolbox);
    press(&mut rt, &mut s, 'j');
    press(&mut rt, &mut s, 'j');
    press(&mut rt, &mut s, 'k');
    assert_eq!(rt.toolbox_cursor, 1);
    press(&mut rt, &mut s, 'l');
    assert_eq!(rt.cursor_x, 0);
    rt.cursor_x = 5;
    rt.cursor_y = -2;
    press(&mut rt, &mut s, ' ');
    assert!(rt.state == State::Hold);
    let held = rt.cursor_block.clone().unwrap();
    assert_eq!(rt.blocks[rt.index_of(&held)].1.opcode, "motion_turnright");
    assert_eq!(xy(&rt, &held), (5, -2));
    assert_eq!(rt.blocks.len(), stock + 2);
    assert_eq!(rt.top_level, vec![held.clone()]);
    assert!(rt.is_dirty());
    // the copy and its shadow are known to the host, the stock is not
    assert!(!rt.outbox.is_empty());
    press(&mut rt, &mut s, ' ');
    assert!(rt.state == State::Move);
    // scrolling
    press(&mut rt, &mut s, 't');
    press(&mut rt, &mut s, 'J');
    assert_eq!((rt.toolbox_cursor, rt.toolbox_scroll), (2, 1));
    press(&mut rt, &mut s, 'K');
    press(&mut rt, &mut s, 'K');
    assert_eq!((rt.toolbox_cursor, rt.toolbox_scroll), (0, 0));
    press(&mut rt, &mut s, 'k');
    assert_eq!((rt.toolbox_cursor, rt.toolbox_scroll), (0, 0));
    // the toolbox scrolls until its cursor is shown
    for _ in 0..20 {
        press(&mut rt, &mut s, 'j');
    }
    assert_eq!(rt.toolbox_cursor, 20);
    assert!(rt.toolbox_scroll > 0);
    assert!(rt.toolbox_visible_max >= 20);
    press(&mut rt, &mut s, 't');
    assert!(rt.state == State::Move);
}

#[test]
fn a_literal_is_edited_in_place() {
    let (mut rt, mut s) = editor();
    let (a, kids) = rt.create_block_template("looks_say").unwrap();
    let text = kids[0].clone();
    s.refresh_screen(&mut rt).unwrap();
    // "  say (Hello!) ": the shadow starts at column 6
    press(&mut rt, &mut s, 'i');
    assert!(rt.state == State::Move);
    rt.cursor_x = 7;
    assert_eq!(rt.editable(), Some(text.clone()));
    assert_eq!(rt.selected(), Some(a.clone()).filter(|_| false).or(rt.selected()));
    press(&mut rt, &mut s, 'i');
    assert!(rt.state == State::Inline);
    assert_eq!(rt.editing_shadow, text);
    press(&mut rt, &mut s, '?');
    press(&mut rt, &mut s, 'q');
    assert_eq!(rt.get_strumber_field(&text), "Hello!?q");
    assert_eq!(rt.last_command, 'i');
    handle_key(&mut rt, &mut s, Key::Backspace).unwrap();
    handle_key(&mut rt, &mut s, Key::Backspace).unwrap();
    handle_key(&mut rt, &mut s, Key::Backspace).unwrap();
    assert_eq!(rt.get_strumber_field(&text), "Hello");
    let out = handle_key(&mut rt, &mut s, Key::Other).unwrap();
    assert!(!out.needs_refresh);
    handle_key(&mut rt, &mut s, Key::Esc).unwrap();
    assert!(rt.state == State::Move);
    assert_eq!(rt.blocks[rt.index_of(&text)].1.fields[0].1.text, "Hello");
}

#[test]
fn the_mode_gates_the_keys() {
    let (mut rt, mut s) = editor();
    rt.initialize_toolbox_blocks().unwrap();
    rt.state = State::Toolbox;
    press(&mut rt, &mut s, 'h');
    press(&mut rt, &mut s, 'D');
    press(&mut rt, &mut s, 's');
    assert_eq!((rt.cursor_x, rt.cursor_y), (0, 0));
    assert!(rt.state == State::Toolbox);
    rt.state = State::Hold;
    press(&mut rt, &mut s, 't');
    assert!(rt.state == State::Hold);
    // letting go of nothing
    press(&mut rt, &mut s, ' ');
    assert!(rt.state == State::Move);
}
