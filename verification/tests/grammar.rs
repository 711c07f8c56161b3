use viiru_core::grammar::{compile, parse_line_exec};
use viiru_core::opcodes::{blocks, template_name, template_text, toolbox, TEMPLATE_COUNT, TOOLBOX_LEN};
use viiru_core::runtime::Runtime;
use viiru_core::spec::{spec, DefaultValue, Fragment, Shape};

#[test]
fn compiles_a_say_block() {
    let spec = compile("{AABBCC/FFFFFF/112233}say (MESSAGE=`hi`)").unwrap();
    assert_eq!(spec.shape, Shape::Stack);
    assert_eq!(spec.block_color, (0xAA, 0xBB, 0xCC));
    assert_eq!(spec.text_color, (0xFF, 0xFF, 0xFF));
    assert_eq!(spec.alt_color, (0x11, 0x22, 0x33));
    assert!(!spec.is_shadow);
    assert!(!spec.is_hat);
    assert_eq!(spec.lines.len(), 1);
    assert_eq!(spec.lines[0].len(), 2);
    match &spec.lines[0][0] {
        Fragment::Text(t) => assert_eq!(t, "say "),
        other => panic!("unexpected fragment {:?}", other),
    }
    match &spec.lines[0][1] {
        Fragment::StrumberInput(name, Some(DefaultValue::Str(s))) => {
            assert_eq!(name, "MESSAGE");
            assert_eq!(s, "hi");
        }
        other => panic!("unexpected fragment {:?}", other),
    }
}

#[test]
fn spec_reads_a_well_formed_template() {
    let sp = spec("(FFFFFF/595E73/FFFFFF![*NUM]");
    assert_eq!(sp.shape, Shape::Circle);
    assert!(sp.is_shadow);
    assert!(!sp.is_hat);
    assert_eq!(sp.text_color, (0x59, 0x5E, 0x73));
    assert!(matches!(&sp.lines[0][0], Fragment::WritableFieldText(f) if f == "NUM"));
}

#[test]
fn header_selects_shape_and_flags() {
    assert_eq!(compile("<000000/000000/000000>x").unwrap().shape, Shape::Hexagon);
    assert_eq!(compile("(000000/000000/000000)x").unwrap().shape, Shape::Circle);
    let hat = compile("{F5C242/FFFFFF/C49B33^when clicked").unwrap();
    assert_eq!(hat.shape, Shape::Stack);
    assert!(hat.is_hat);
    assert!(!hat.is_shadow);
    assert_eq!(hat.block_color, (0xF5, 0xC2, 0x42));
    assert_eq!(hat.alt_color, (0xC4, 0x9B, 0x33));
    // lower-case digits count too
    assert_eq!(compile("{abcdef/000000/000000}x").unwrap().block_color, (0xab, 0xcd, 0xef));
}

#[test]
fn malformed_headers_are_refused() {
    assert!(compile("").is_none());
    assert!(compile("{AABBCC/FFFFFF/112233").is_none());
    assert!(compile("[AABBCC/FFFFFF/112233}x").is_none());
    assert!(compile("{AABBCG/FFFFFF/112233}x").is_none());
    assert!(compile("{AABBCC/FFFFF+/112233}x").is_none());
    assert!(compile("{AABBCC/FFFFFF/11223 }x").is_none());
}

#[test]
fn a_template_without_lines_has_none() {
    let sp = compile("{AABBCC/FFFFFF/112233}").unwrap();
    assert_eq!(sp.lines.len(), 0);
}

#[test]
fn malformed_lines_are_refused() {
    // an unclosed slot
    assert!(compile("{AABBCC/FFFFFF/112233}say (MESSAGE").is_none());
    // a default that is none of the five kinds
    assert!(compile("{AABBCC/FFFFFF/112233}say (MESSAGE=)").is_none());
    assert!(compile("{AABBCC/FFFFFF/112233}say (MESSAGE=-5)").is_none());
    // a number followed by something else
    assert!(compile("{AABBCC/FFFFFF/112233}say (X=1.5x)").is_none());
    // an empty line between two lines
    assert!(compile("{AABBCC/FFFFFF/112233}a\n\nb").is_none());
    // an unknown bracketed fragment
    assert!(compile("{AABBCC/FFFFFF/112233}[$FLAGX]").is_none());
    assert!(compile("{AABBCC/FFFFFF/112233}[]").is_none());
    // a colour of five digits
    assert!(compile("{AABBCC/FFFFFF/112233}(C=#12345)").is_none());
    assert!(compile("{AABBCC/FFFFFF/112233}(C=#1234567)").is_none());
}

#[test]
fn lines_split_at_line_feeds() {
    let sp = compile("{F3AF43/FFFFFF/C58E36}[:SUBSTACK]forever\n{SUBSTACK}\n\t").unwrap();
    assert_eq!(sp.lines.len(), 3);
    assert!(matches!(&sp.lines[0][0], Fragment::AlignmentPoint(n) if n == "SUBSTACK"));
    assert!(matches!(&sp.lines[0][1], Fragment::Text(t) if t == "forever"));
    assert!(matches!(&sp.lines[1][0], Fragment::BlockInput(n) if n == "SUBSTACK"));
    assert!(matches!(&sp.lines[2][0], Fragment::Expander));
    // a line feed at the very end opens no further line
    let sp = compile("{F3AF43/FFFFFF/C58E36}a\nb\n").unwrap();
    assert_eq!(sp.lines.len(), 2);
    // a carriage return before a line feed belongs to the line ending
    let sp = compile("{F3AF43/FFFFFF/C58E36}a\r\nb").unwrap();
    assert_eq!(sp.lines.len(), 2);
    assert!(matches!(&sp.lines[0][0], Fragment::Text(t) if t == "a"));
    // at the end of the text it is text
    let sp = compile("{F3AF43/FFFFFF/C58E36}a\nb\r").unwrap();
    assert!(matches!(&sp.lines[1][0], Fragment::Text(t) if t == "b\r"));
}

#[test]
fn a_tab_inside_text_is_text() {
    let line = parse_line_exec("x\ty").unwrap();
    assert_eq!(line.len(), 1);
    assert!(matches!(&line[0], Fragment::Text(t) if t == "x\ty"));
    let line = parse_line_exec("\tx").unwrap();
    assert_eq!(line.len(), 2);
    assert!(matches!(&line[0], Fragment::Expander));
    assert!(matches!(&line[1], Fragment::Text(t) if t == "x"));
}

#[test]
fn defaults_are_told_apart() {
    let line = parse_line_exec("(A=`x y`)(B=@)(C=-12.50)(D=some_menu)(E=#3D7088)(F)(G=10)").unwrap();
    assert_eq!(line.len(), 7);
    assert!(matches!(&line[0], Fragment::StrumberInput(n, Some(DefaultValue::Str(s))) if n == "A" && s == "x y"));
    match &line[1] {
        Fragment::StrumberInput(n, Some(DefaultValue::Num(d, visible))) => {
            assert_eq!(n, "B");
            assert!(!visible);
            assert_eq!(d.render(), "0");
        }
        other => panic!("unexpected fragment {:?}", other),
    }
    match &line[2] {
        Fragment::StrumberInput(n, Some(DefaultValue::Num(d, visible))) => {
            assert_eq!(n, "C");
            assert!(*visible);
            assert!(d.negative);
            assert_eq!(d.whole, "12");
            assert_eq!(d.fraction, "50");
            assert_eq!(d.render(), "-12.5");
        }
        other => panic!("unexpected fragment {:?}", other),
    }
    assert!(matches!(&line[3], Fragment::StrumberInput(n, Some(DefaultValue::Block(s))) if n == "D" && s == "some_menu"));
    assert!(matches!(&line[4], Fragment::StrumberInput(n, Some(DefaultValue::Color(c))) if n == "E" && *c == (0x3D, 0x70, 0x88)));
    assert!(matches!(&line[5], Fragment::StrumberInput(n, None) if n == "F"));
    // digits without a point name an opcode
    assert!(matches!(&line[6], Fragment::StrumberInput(n, Some(DefaultValue::Block(s))) if n == "G" && s == "10"));
}

#[test]
fn bracketed_fragments_are_told_apart() {
    let line = parse_line_exec("[$FLAG][$CLOCKWISE][$ANTICLOCKWISE][<][(][[][{][&A][*B][#C][:D][E]<F>").unwrap();
    assert_eq!(line.len(), 13);
    assert!(matches!(&line[0], Fragment::Flag));
    assert!(matches!(&line[1], Fragment::Clockwise));
    assert!(matches!(&line[2], Fragment::Anticlockwise));
    assert!(matches!(&line[3], Fragment::Text(t) if t == "<"));
    assert!(matches!(&line[4], Fragment::Text(t) if t == "("));
    assert!(matches!(&line[5], Fragment::Text(t) if t == "["));
    assert!(matches!(&line[6], Fragment::Text(t) if t == "{"));
    assert!(matches!(&line[7], Fragment::FieldText(t) if t == "A"));
    assert!(matches!(&line[8], Fragment::WritableFieldText(t) if t == "B"));
    assert!(matches!(&line[9], Fragment::CustomColour(t) if t == "C"));
    assert!(matches!(&line[10], Fragment::AlignmentPoint(t) if t == "D"));
    assert!(matches!(&line[11], Fragment::Dropdown(t, None) if t == "E"));
    assert!(matches!(&line[12], Fragment::BooleanInput(t) if t == "F"));
}

#[test]
fn names_take_letters_digits_and_underscore() {
    let line = parse_line_exec("(Az_09)").unwrap();
    assert!(matches!(&line[0], Fragment::StrumberInput(n, None) if n == "Az_09"));
    assert!(parse_line_exec("(a-b)").is_none());
    assert!(parse_line_exec("(a b)").is_none());
    assert!(parse_line_exec("()").is_none());
}

#[test]
fn dropdown_options_are_read() {
    let sp = compile("{C169C9/FFFFFF/AF4BB7}change [EFFECT/PITCH=`pitch`/PAN=`pan left/right`] by [OTHER&`x`]").unwrap();
    match &sp.lines[0][1] {
        Fragment::Dropdown(name, Some(options)) => {
            assert_eq!(name, "EFFECT");
            assert_eq!(options.len(), 2);
            assert_eq!(options[0].value, "PITCH");
            assert_eq!(options[0].display, "pitch");
            assert_eq!(options[1].value, "PAN");
            assert_eq!(options[1].display, "pan left/right");
        }
        other => panic!("unexpected fragment {:?}", other),
    }
    match &sp.lines[0][3] {
        Fragment::Dropdown(name, Some(options)) => {
            assert_eq!(name, "OTHER");
            assert_eq!(options[0].value, "x");
            assert_eq!(options[0].display, "x");
        }
        other => panic!("unexpected fragment {:?}", other),
    }
    // the template keeps the options of its first dropdown
    let cached = sp.static_dropdown_options.unwrap();
    assert_eq!(cached.len(), 2);
    assert_eq!(cached[0].value, "PITCH");
    // a first dropdown without options leaves none
    let sp = compile("{C169C9/FFFFFF/AF4BB7}[A] [B&`x`]").unwrap();
    assert!(sp.static_dropdown_options.is_none());
}

#[test]
fn every_shipped_template_compiles() {
    let table = blocks().unwrap();
    assert_eq!(table.len(), TEMPLATE_COUNT);
    assert_eq!(table.len(), 140);
    assert_eq!(table[0].0, "motion_movesteps");
    assert_eq!(TOOLBOX_LEN, 119);
    assert_eq!(toolbox().len(), TOOLBOX_LEN);
    assert_eq!(toolbox()[0], "motion_movesteps");
    assert_eq!(toolbox()[118], "data_hidelist");
}

#[test]
fn every_shipped_block_has_all_its_inputs_and_fields() {
    let table = blocks().unwrap();
    let mut rt = Runtime::new(blocks().unwrap());
    for (opcode, sp) in table.iter() {
        let id = rt.create_single_block(opcode).unwrap();
        let i = rt.index_of(&id);
        let block = &rt.blocks[i].1;
        let mut slots: Vec<String> = vec![];
        let mut fields: Vec<String> = vec![];
        for line in sp.lines.iter() {
            for frag in line.iter() {
                match frag {
                    Fragment::StrumberInput(n, _) | Fragment::BooleanInput(n) | Fragment::BlockInput(n) => {
                        if !slots.contains(n) {
                            slots.push(n.clone());
                        }
                    }
                    Fragment::FieldText(n)
                    | Fragment::WritableFieldText(n)
                    | Fragment::CustomColour(n)
                    | Fragment::Dropdown(n, _) => {
                        if !fields.contains(n) {
                            fields.push(n.clone());
                        }
                    }
                    _ => {}
                }
            }
        }
        let have: Vec<String> = block.inputs.iter().map(|e| e.0.clone()).collect();
        assert_eq!(have, slots, "inputs of {}", opcode);
        let have: Vec<String> = block.fields.iter().map(|e| e.0.clone()).collect();
        assert_eq!(have, fields, "fields of {}", opcode);
        for e in block.inputs.iter() {
            assert!(e.1.block_id.is_none() && e.1.shadow_id.is_none());
        }
        for e in block.fields.iter() {
            assert_eq!(e.1.text, "");
            assert!(e.1.id.is_none());
        }
    }
}

#[test]
fn the_table_is_what_its_entries_say() {
    let table = blocks().unwrap();
    let first = compile("{5F95F8/FFFFFF/4472C6}move (STEPS=10.0) steps").unwrap();
    assert_eq!(table[0].1.block_color, first.block_color);
    assert_eq!(table[0].1.lines[0].len(), 3);
    assert_eq!(table[139].0, "colour_picker");
    assert!(table[139].1.is_shadow);
    assert!(matches!(&table[139].1.lines[0][0], Fragment::CustomColour(f) if f == "COLOUR"));
    let _ = (template_name, template_text);
}
