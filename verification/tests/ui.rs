use viiru_core::grammar::compile;
use viiru_core::opcodes::blocks;
use viiru_core::result::ViiruError;
use viiru_core::runtime::Runtime;
use viiru_core::spec::{Shape, Spec};
use viiru_core::ui::{
    alignment_point, find_mark, find_span, int_string, Accumulators, Cell, Color, Colors, Command,
    Screen, Span,
};

fn editor() -> Runtime {
    let mut rt = Runtime::new(blocks().unwrap());
    rt.start(120, 40).unwrap();
    rt
}

fn row_text(screen: &Screen, y: usize, from: usize, to: usize) -> String {
    screen.cells[y][from..to].iter().map(|c| c.char.unwrap_or('.')).collect()
}

fn spans(list: &[Span]) -> Vec<(i32, i32, i32, String)> {
    list.iter().map(|s| (s.x, s.y, s.width, s.id.clone())).collect()
}

#[test]
fn alignment_point_draws_the_elbow() {
    // a block of one line
    assert_eq!(alignment_point(true, true, true, true), "| ");
    assert_eq!(alignment_point(true, false, true, true), "' ");
    assert_eq!(alignment_point(false, true, true, true), ". ");
    assert_eq!(alignment_point(false, false, true, true), "  ");
    // the first of several lines
    assert_eq!(alignment_point(true, false, true, false), "| ");
    assert_eq!(alignment_point(true, true, true, false), "| ");
    assert_eq!(alignment_point(false, false, true, false), ". ");
    assert_eq!(alignment_point(false, true, true, false), ". ");
    // the last of several lines
    assert_eq!(alignment_point(false, true, false, true), "| ");
    assert_eq!(alignment_point(true, true, false, true), "| ");
    assert_eq!(alignment_point(false, false, false, true), "' ");
    assert_eq!(alignment_point(true, false, false, true), "' ");
    // a line in between
    assert_eq!(alignment_point(false, false, false, false), "| ");
    assert_eq!(alignment_point(true, true, false, false), "| ");
}

#[test]
fn a_new_screen_is_blank() {
    let s = Screen::new(4, 3);
    assert_eq!(s.cells.len(), 3);
    for row in s.cells.iter() {
        assert_eq!(row.len(), 4);
        for c in row.iter() {
            assert!(c.char.is_none() && !c.underline && c.colors.is_none());
        }
    }
    let d = Cell::default();
    assert!(d.char.is_none() && !d.underline && d.colors.is_none());
    assert_eq!(Screen::new(0, 0).cells.len(), 0);
}

#[test]
fn print_writes_as_far_as_the_row_reaches() {
    let mut s = Screen::new(5, 2);
    let colors = Some(Colors::new(Color::DarkGrey, Color::Reset));
    assert_eq!(s.print(1, 0, "abc", true, colors), Some(()));
    assert_eq!(row_text(&s, 0, 0, 5), ".abc.");
    assert!(s.cells[0][1].underline);
    assert_eq!(s.cells[0][2].colors.unwrap().foreground, Some(Color::DarkGrey));
    assert_eq!(s.cells[0][2].colors.unwrap().background, Some(Color::Reset));
    assert!(!s.cells[0][0].underline && s.cells[0][0].colors.is_none());
    // falls off the right edge
    assert_eq!(s.print(3, 1, "xyz", false, None), None);
    assert_eq!(row_text(&s, 1, 0, 5), "...xy");
    // nothing of it is on the grid
    assert_eq!(s.print(5, 1, "q", false, None), None);
    assert_eq!(s.print(-1, 1, "q", false, None), None);
    assert_eq!(s.print(0, 2, "q", false, None), None);
    assert_eq!(s.print(0, -1, "q", false, None), None);
    assert_eq!(row_text(&s, 1, 0, 5), "...xy");
    // nothing to print always fits
    assert_eq!(s.print(9, 9, "", false, None), Some(()));
    assert_eq!(s.print(4, 0, "\u{21bb}", false, None), Some(()));
    assert_eq!(s.cells[0][4].char, Some('\u{21bb}'));
}

#[test]
fn clear_and_resize_keep_the_shape() {
    let mut s = Screen::new(3, 2);
    s.print(0, 0, "abc", false, None);
    s.print(0, 1, "def", true, None);
    s.resize(2, 3);
    assert_eq!(s.cells.len(), 3);
    assert_eq!(row_text(&s, 0, 0, 2), "ab");
    assert_eq!(row_text(&s, 1, 0, 2), "de");
    assert_eq!(row_text(&s, 2, 0, 2), "..");
    s.resize(4, 1);
    assert_eq!(s.cells.len(), 1);
    assert_eq!(row_text(&s, 0, 0, 4), "ab..");
    s.clear();
    assert_eq!(s.cells.len(), 1);
    assert_eq!(row_text(&s, 0, 0, 4), "....");
}

#[test]
fn print_in_view_clips_to_the_viewport() {
    let rt = editor();
    // the viewport shows columns 3..75 and rows 1..35; the canvas cell
    // (0, 0) is on the screen at (39, 18)
    assert_eq!((rt.viewport.x_min, rt.viewport.x_max), (3, 75));
    assert_eq!((rt.viewport.y_min, rt.viewport.y_max), (1, 35));
    assert_eq!((rt.scroll_x, rt.scroll_y), (-39, -18));
    let colors = Colors::new(Color::Reset, Color::Reset);
    let mut s = Screen::new(120, 40);
    s.print_in_view(&rt, 0, 0, "abc", colors, false, false).unwrap();
    assert_eq!(row_text(&s, 18, 38, 43), ".abc.");
    // cut at the right edge
    s.print_in_view(&rt, 34, 1, "abc", colors, false, false).unwrap();
    assert_eq!(row_text(&s, 19, 72, 77), ".ab..");
    s.print_in_view(&rt, 36, 1, "abc", colors, false, false).unwrap();
    assert_eq!(row_text(&s, 19, 72, 77), ".ab..");
    // above and below nothing is shown
    s.print_in_view(&rt, 0, -18, "abc", colors, false, false).unwrap();
    assert_eq!(row_text(&s, 0, 38, 43), ".....");
    s.print_in_view(&rt, 0, 17, "abc", colors, false, false).unwrap();
    assert_eq!(row_text(&s, 35, 38, 43), ".....");
    s.print_in_view(&rt, 0, 16, "abc", colors, false, false).unwrap();
    assert_eq!(row_text(&s, 34, 38, 43), ".abc.");
    // what starts left of the viewport shows the part that lies inside, each
    // character in its own column
    s.print_in_view(&rt, -38, 2, "abcde", colors, false, false).unwrap();
    assert_eq!(row_text(&s, 20, 0, 7), "...cde.");
    s.print_in_view(&rt, -40, 3, "abcde", colors, false, false).unwrap();
    assert_eq!(row_text(&s, 21, 0, 7), "...e...");
    s.print_in_view(&rt, -45, 4, "abcde", colors, false, false).unwrap();
    assert_eq!(row_text(&s, 22, 0, 7), ".......");
    // a ghost print is cut at the window only
    s.print_in_view(&rt, 40, 17, "abc", colors, false, true).unwrap();
    assert_eq!(row_text(&s, 35, 78, 83), ".abc.");
    s.print_in_view(&rt, 79, 17, "abc", colors, false, true).unwrap();
    assert_eq!(row_text(&s, 35, 117, 120), ".ab");
    let mut far = editor();
    far.scroll_x = i32::MIN;
    assert_eq!(s.print_in_view(&far, 1, 0, "a", colors, false, false), Err(ViiruError::Overflow));
}

#[test]
fn a_stack_block_ends_with_its_drop_point() {
    let mut rt = editor();
    let a = rt.create_single_block("looks_show").unwrap();
    let mut s = Screen::new(120, 40);
    let mut acc = Accumulators::new();
    assert_eq!(s.draw_block(&rt, &a, 0, 0, &mut acc, false), Ok(1));
    let last = acc.drop_points.last().unwrap();
    assert_eq!((last.x, last.y), (0, 1));
    assert_eq!(last.point.shape, Shape::Stack);
    assert_eq!(last.point.id, a);
    assert!(last.point.input.is_none());
    assert_eq!(acc.drop_points.len(), 1);
    assert_eq!(row_text(&s, 18, 39, 46), "  show ");
    // three lines
    let b = rt.create_single_block("control_forever").unwrap();
    let mut acc = Accumulators::new();
    assert_eq!(s.draw_block(&rt, &b, 0, 0, &mut acc, false), Ok(3));
    let last = acc.drop_points.last().unwrap();
    assert_eq!((last.x, last.y), (0, 3));
    assert!(last.point.input.is_none());
    // a hat has a row above its line
    let h = rt.create_single_block("event_whenthisspriteclicked").unwrap();
    let mut acc = Accumulators::new();
    assert_eq!(s.draw_block(&rt, &h, 0, 0, &mut acc, false), Ok(2));
    let last = acc.drop_points.last().unwrap();
    assert_eq!((last.x, last.y), (0, 2));
}

fn say_table() -> Vec<(String, Spec)> {
    vec![
        (
            "say".to_string(),
            compile("{AABBCC/FFFFFF/112233}say (MESSAGE=`hi`)").unwrap(),
        ),
        ("text".to_string(), compile("(FFFFFF/595E73/FFFFFF![*TEXT]").unwrap()),
        ("not".to_string(), compile("<74BE65/FFFFFF/529244>not <OPERAND>").unwrap()),
        ("flag".to_string(), compile("{F5C242/FFFFFF/C49B33^when [$FLAG] [X] [#C]").unwrap()),
    ]
}

#[test]
fn a_block_with_a_shadow_is_laid_out_cell_by_cell() {
    let mut rt = Runtime::new(say_table());
    rt.start(120, 40).unwrap();
    let (id, kids) = rt.create_block_template("say").unwrap();
    let kid = kids[0].clone();
    let mut s = Screen::new(120, 40);
    let mut acc = Accumulators::new();
    assert_eq!(s.draw_block(&rt, &id, 1, 2, &mut acc, false), Ok(1));
    assert_eq!(row_text(&s, 20, 40, 52), "  say (hi) .");
    let own = s.cells[20][42].colors.unwrap();
    assert_eq!(own.foreground, Some(Color::Rgb { r: 0xFF, g: 0xFF, b: 0xFF }));
    assert_eq!(own.background, Some(Color::Rgb { r: 0xAA, g: 0xBB, b: 0xCC }));
    let shadow = s.cells[20][47].colors.unwrap();
    assert_eq!(shadow.foreground, Some(Color::Rgb { r: 0x59, g: 0x5E, b: 0x73 }));
    assert!(s.cells[20][42].underline);
    assert_eq!(
        spans(&acc.block_positions),
        vec![(1, 2, 2, id.clone()), (3, 2, 4, id.clone()), (11, 2, 1, id.clone())]
    );
    assert_eq!(
        spans(&acc.writable_points),
        vec![(7, 2, 1, kid.clone()), (8, 2, 2, kid.clone()), (10, 2, 1, kid.clone())]
    );
    assert_eq!(acc.block_offsets, vec![(kid.clone(), (6, 0))]);
    assert_eq!(acc.drop_points.len(), 2);
    let slot = &acc.drop_points[0];
    assert_eq!((slot.x, slot.y, slot.point.shape), (7, 2, Shape::Circle));
    assert_eq!(slot.point.id, id);
    assert_eq!(slot.point.input.as_deref(), Some("MESSAGE"));
    let tail = &acc.drop_points[1];
    assert_eq!((tail.x, tail.y, tail.point.shape), (1, 3, Shape::Stack));
    assert!(tail.point.input.is_none());
    // the cell under a span is found again
    assert_eq!(find_span(&acc.block_positions, 4, 2), Some(id.clone()));
    assert_eq!(find_span(&acc.block_positions, 6, 2), Some(id.clone()));
    assert_eq!(find_span(&acc.block_positions, 7, 2), None);
    assert_eq!(find_span(&acc.writable_points, 9, 2), Some(kid.clone()));
    assert_eq!(find_span(&acc.writable_points, 9, 3), None);
    assert_eq!(find_mark(&acc.drop_points, 7, 2), Some(0));
    assert_eq!(find_mark(&acc.drop_points, 1, 3), Some(1));
    assert_eq!(find_mark(&acc.drop_points, 1, 2), None);
}

#[test]
fn empty_slots_show_their_placeholder() {
    let mut rt = Runtime::new(say_table());
    rt.start(120, 40).unwrap();
    let say = rt.create_single_block("say").unwrap();
    let not = rt.create_single_block("not").unwrap();
    let mut s = Screen::new(120, 40);
    let mut acc = Accumulators::new();
    assert_eq!(s.draw_block(&rt, &say, 0, 0, &mut acc, false), Ok(1));
    assert_eq!(row_text(&s, 18, 39, 49), "  say () .");
    let alt = s.cells[18][45].colors.unwrap();
    assert_eq!(alt.background, Some(Color::Rgb { r: 0x11, g: 0x22, b: 0x33 }));
    // an expression block answers with its width
    assert_eq!(s.draw_block(&rt, &not, 0, 1, &mut acc, false), Ok(8));
    assert_eq!(row_text(&s, 19, 39, 48), "<not <>>.");
    let slot = acc.drop_points.last().unwrap();
    assert_eq!((slot.x, slot.y, slot.point.shape), (5, 1, Shape::Hexagon));
}

#[test]
fn icons_dropdowns_and_swatches_are_drawn() {
    let mut rt = Runtime::new(say_table());
    rt.start(120, 40).unwrap();
    let id = rt.create_single_block("flag").unwrap();
    rt.set_field(&id, "C", "#3D7088", None);
    let mut s = Screen::new(120, 40);
    let mut acc = Accumulators::new();
    assert_eq!(s.draw_block(&rt, &id, 0, 0, &mut acc, false), Ok(2));
    assert_eq!(row_text(&s, 19, 39, 56), "  when \u{25b8} [X]    .");
    assert_eq!(s.cells[19][46].colors.unwrap().foreground, Some(Color::Rgb { r: 0x6d, g: 0xbf, b: 0x63 }));
    let swatch = s.cells[19][52].colors.unwrap();
    assert_eq!(swatch.foreground, Some(Color::Reset));
    assert_eq!(swatch.background, Some(Color::Rgb { r: 0x3D, g: 0x70, b: 0x88 }));
    assert_eq!(spans(&acc.writable_points), vec![(13, 1, 2, id.clone())]);
    // the notch above a hat is as wide as the block
    assert_eq!(row_text(&s, 18, 39, 56), "                .");
    assert_eq!(acc.block_positions.last().unwrap().width, 16);
    // a swatch whose field writes no colour shows the terminal's own
    rt.set_field(&id, "C", "#red", None);
    s.draw_block(&rt, &id, 0, 0, &mut acc, false).unwrap();
    assert_eq!(s.cells[19][52].colors.unwrap().background, Some(Color::Reset));
}

#[test]
fn a_stack_slot_is_indented_and_edged() {
    let mut rt = editor();
    let outer = rt.create_single_block("control_forever").unwrap();
    let a = rt.create_single_block("looks_show").unwrap();
    let b = rt.create_single_block("looks_hide").unwrap();
    rt.attach_input(&a, &outer, "SUBSTACK", false);
    rt.attach_next(&b, &a);
    let mut s = Screen::new(120, 40);
    let mut acc = Accumulators::new();
    assert_eq!(s.draw_block(&rt, &outer, 0, 0, &mut acc, false), Ok(4));
    assert_eq!(row_text(&s, 18, 39, 50), ". . forever");
    assert_eq!(row_text(&s, 19, 39, 48), "| | show ");
    assert_eq!(row_text(&s, 20, 39, 48), "| ' hide ");
    assert_eq!(row_text(&s, 21, 39, 50), "'          ");
    assert!(acc.block_offsets.contains(&(a.clone(), (2, 1))));
    assert!(acc.block_offsets.contains(&(b.clone(), (0, 1))));
    // the elbow is registered where it is printed, and once
    let first_row: Vec<(i32, i32, i32, String)> =
        spans(&acc.block_positions).into_iter().filter(|s| s.1 == 0).collect();
    assert_eq!(
        first_row,
        vec![
            (0, 0, 2, outer.clone()),
            (2, 0, 2, outer.clone()),
            (4, 0, 7, outer.clone()),
            (11, 0, 1, outer.clone()),
        ]
    );
    let marks: Vec<(i32, i32, Option<&str>, &str)> = acc
        .drop_points
        .iter()
        .map(|m| (m.x, m.y, m.point.input.as_deref(), m.point.id.as_str()))
        .collect();
    assert_eq!(
        marks,
        vec![
            (2, 1, Some("SUBSTACK"), outer.as_str()),
            (2, 2, None, a.as_str()),
            (2, 3, None, b.as_str()),
            (0, 4, None, outer.as_str()),
        ]
    );
}

#[test]
fn drawing_out_of_range_is_an_error() {
    let mut rt = editor();
    let a = rt.create_single_block("looks_show").unwrap();
    let mut s = Screen::new(120, 40);
    let mut acc = Accumulators::new();
    assert_eq!(s.draw_block(&rt, &a, i32::MAX, 0, &mut acc, true), Err(ViiruError::Overflow));
    assert_eq!(s.draw_block(&rt, &a, 0, i32::MAX, &mut acc, true), Err(ViiruError::Overflow));
    // a block that the graph does not hold is not drawn
    assert_eq!(s.draw_block(&rt, "nobody", 0, 0, &mut acc, true), Ok(0));
}

#[test]
fn two_passes_over_the_same_graph_agree() {
    let mut rt = editor();
    rt.initialize_toolbox_blocks().unwrap();
    let (root, _) = rt.create_block_template("control_if_else").unwrap();
    let (a, _) = rt.create_block_template("motion_gotoxy").unwrap();
    let (c, _) = rt.create_block_template("operator_gt").unwrap();
    rt.attach_input(&a, &root, "SUBSTACK2", false);
    rt.attach_input(&c, &root, "CONDITION", false);
    rt.slide_block_to(&root, -4, -3).unwrap();
    let mut first = Screen::new(120, 40);
    first.refresh_screen(&mut rt).unwrap();
    let grab = spans(&rt.block_positions);
    let writable = spans(&rt.writable_points);
    let marks: Vec<(i32, i32, Shape, String, Option<String>)> = rt
        .drop_points
        .iter()
        .map(|m| (m.x, m.y, m.point.shape, m.point.id.clone(), m.point.input.clone()))
        .collect();
    assert!(!grab.is_empty() && !writable.is_empty() && !marks.is_empty());
    let mut second = Screen::new(120, 40);
    second.refresh_screen(&mut rt).unwrap();
    assert_eq!(spans(&rt.block_positions), grab);
    assert_eq!(spans(&rt.writable_points), writable);
    let again: Vec<(i32, i32, Shape, String, Option<String>)> = rt
        .drop_points
        .iter()
        .map(|m| (m.x, m.y, m.point.shape, m.point.id.clone(), m.point.input.clone()))
        .collect();
    assert_eq!(again, marks);
    for y in 0..40 {
        for x in 0..120 {
            let (p, q) = (&first.cells[y][x], &second.cells[y][x]);
            assert_eq!(p.char, q.char);
            assert_eq!(p.underline, q.underline);
            assert_eq!(p.colors.map(|c| (c.foreground, c.background)), q.colors.map(|c| (c.foreground, c.background)));
        }
    }
    // the offsets that the pass recorded resolve to where the blocks were
    // drawn
    assert_eq!(rt.compute_own_xy(&root), Ok((-4, -3)));
    let (ax, ay) = rt.compute_own_xy(&a).unwrap();
    assert_eq!((ax, ay), (-2, 0));
    assert_eq!(find_span(&rt.block_positions, ax + 2, ay), Some(a.clone()));
}

#[test]
fn the_frame_has_border_cross_hairs_and_status_line() {
    let mut rt = editor();
    rt.status_message = "ready".to_string();
    rt.last_command = 'x';
    let mut s = Screen::new(120, 40);
    s.refresh_screen(&mut rt).unwrap();
    // corners of the border
    assert_eq!(s.cells[0][2].char, Some('.'));
    assert_eq!(s.cells[0][75].char, Some('.'));
    assert_eq!(s.cells[35][2].char, Some('\''));
    assert_eq!(s.cells[35][75].char, Some('\''));
    assert_eq!(s.cells[0][3].char, Some('-'));
    assert_eq!(s.cells[35][74].char, Some('-'));
    assert_eq!(s.cells[1][2].char, Some('|'));
    assert_eq!(s.cells[34][75].char, Some('|'));
    assert_eq!(
        s.cells[0][3].colors.unwrap().foreground,
        Some(Color::Rgb { r: 0x7f, g: 0x3e, b: 0xcf })
    );
    // the cursor is at the canvas origin, on the screen at (39, 18)
    assert_eq!(s.draw_cursor(&rt), Ok((39, 18)));
    assert_eq!(s.cells[18][38].char, Some('-'));
    assert_eq!(s.cells[18][40].char, Some('-'));
    assert_eq!(s.cells[18][3].char, Some('-'));
    assert_eq!(s.cells[18][74].char, Some('-'));
    assert_eq!(s.cells[17][39].char, Some('|'));
    assert_eq!(s.cells[1][39].char, Some('|'));
    assert_eq!(s.cells[34][39].char, Some('|'));
    // a marker dot every ten columns and five rows of the canvas
    assert_eq!(s.cells[13][29].char, Some('.'));
    assert_eq!(s.cells[13][29].colors.unwrap().foreground, Some(Color::DarkGrey));
    assert_eq!(s.cells[23][49].char, Some('.'));
    // the status line
    assert_eq!(row_text(&s, 36, 3, 8), "ready");
    assert_eq!(row_text(&s, 36, 70, 75), "0,0 x");
}

#[test]
fn the_terminal_cursor_wraps_at_sixteen_bits() {
    let mut rt = editor();
    let s = Screen::new(1, 1);
    rt.cursor_x = -40;
    rt.cursor_y = -18;
    assert_eq!(s.draw_cursor(&rt), Ok((65535, 0)));
    rt.cursor_x = i32::MAX;
    assert_eq!(s.draw_cursor(&rt), Err(ViiruError::Overflow));
}

#[test]
fn flushing_sets_attributes_only_where_they_change() {
    let mut s = Screen::new(3, 2);
    let red = Color::Rgb { r: 255, g: 0, b: 0 };
    s.print(0, 0, "ab", true, Some(Colors::new(red, Color::Reset)));
    s.print(2, 0, "c", false, Some(Colors::new(red, Color::DarkGrey)));
    s.print(1, 1, "d", false, Some(Colors { foreground: None, background: Some(red) }));
    let out = s.flush_contents();
    assert_eq!(
        out,
        vec![
            Command::Hide,
            Command::MoveTo(0, 0),
            Command::Underline(true),
            Command::Foreground(red),
            Command::Print('a'),
            Command::Print('b'),
            Command::Underline(false),
            Command::Background(Color::DarkGrey),
            Command::Print('c'),
            Command::NextLine,
            Command::ResetColor,
            Command::Print(' '),
            Command::Background(red),
            Command::Print('d'),
            Command::ResetColor,
            Command::Print(' '),
            Command::NextLine,
        ]
    );
    assert_eq!(Screen::new(0, 0).flush_contents(), vec![Command::Hide, Command::MoveTo(0, 0)]);
}

#[test]
fn integers_are_written_with_their_sign() {
    assert_eq!(int_string(0), "0");
    assert_eq!(int_string(-7), "-7");
    assert_eq!(int_string(i32::MIN), i32::MIN.to_string());
    assert_eq!(int_string(i32::MAX), i32::MAX.to_string());
}

#[test]
fn the_toolbox_is_drawn_beside_the_viewport() {
    let mut rt = editor();
    rt.initialize_toolbox_blocks().unwrap();
    let mut s = Screen::new(120, 40);
    s.draw_toolbox(&mut rt, 3, 1, false).unwrap();
    // entries start six columns right of the viewport's width
    assert_eq!(row_text(&s, 1, 79, 95), "0.  move (10) st");
    assert_eq!(rt.toolbox_visible_max, 16);
    rt.toolbox_cursor = 1;
    let mut s = Screen::new(120, 40);
    s.draw_toolbox(&mut rt, 3, 1, false).unwrap();
    assert_eq!(row_text(&s, 3, 78, 81), "=1.");
}
