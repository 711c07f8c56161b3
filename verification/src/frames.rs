//! A frame depends on the scene alone: the graph with its positions, the
//! templates, the viewport and the cursor. What the last frame left behind,
//! the offsets of the blocks and the three indexes, has no part in the next
//! one. So a frame drawn twice over an unchanged scene comes out the same.

use vstd::prelude::*;
use crate::block::BlockView;
use crate::result::sum;
use crate::runtime::RuntimeView;
use crate::spec::{FragmentView, Shape};
use crate::table::lemma_find;
use crate::ui::{
    AccumulatorsView,
    DropPointView,
    Canvas,
    Cell,
    Colors,
    Pen,
    advance,
    alignment_point_text,
    alt_colors,
    block_colors,
    canvas_of,
    clipped,
    dot_colors,
    draw_all,
    draw_tops,
    drawable,
    field_text,
    flag_colors,
    input_or_empty,
    is_stack,
    left_delimiter,
    marker_dots,
    narrow,
    noting,
    printed_in_view,
    refreshed,
    right_delimiter,
    spaces,
    swatch_colors,
    toolbox_label,
    toolbox_rows,
    with_cursor_lines,
    with_marker_dots,
    with_status_line,
    with_toolbox,
    with_viewport_border,
};

verus! {

/// The block without the offset that the last frame gave it.
pub open spec fn without_offset(b: BlockView) -> BlockView {
    BlockView { offset_x: 0, offset_y: 0, ..b }
}

impl RuntimeView {
    /// Whether a frame over `other` shows what a frame over this state
    /// shows: everything is the same but the offsets of the blocks, the three
    /// indexes, and the last entry of the toolbox that fits.
    pub open spec fn same_scene(self, other: RuntimeView) -> bool {
        &&& self.blocks.len() == other.blocks.len()
        &&& forall|j: int|
            0 <= j < self.blocks.len() ==> (#[trigger] other.blocks[j]).0 == self.blocks[j].0
                && without_offset(other.blocks[j].1) == without_offset(self.blocks[j].1)
        &&& other == (RuntimeView {
            blocks: other.blocks,
            block_positions: other.block_positions,
            drop_points: other.drop_points,
            writable_points: other.writable_points,
            toolbox_visible_max: other.toolbox_visible_max,
            ..self
        })
    }
}

/// In the same scene the same blocks are found, and they are the same but
/// for their offsets.
pub proof fn lemma_scene(a: RuntimeView, b: RuntimeView)
    requires
        a.same_scene(b),
    ensures
        a.ids() == b.ids(),
        forall|id: Seq<char>| #[trigger] a.contains(id) == b.contains(id),
        forall|id: Seq<char>| #[trigger] a.index_of(id) == b.index_of(id),
        forall|id: Seq<char>|
            a.contains(id) ==> without_offset(#[trigger] b.block(id)) == without_offset(
                a.block(id),
            ),
        forall|op: Seq<char>| #[trigger] a.has_spec(op) == b.has_spec(op),
        forall|op: Seq<char>| #[trigger] a.spec_of(op) == b.spec_of(op),
        forall|id: Seq<char>, depth: nat| #[trigger] drawable(a, id, depth) == drawable(b, id, depth),
        forall|id: Seq<char>| #[trigger] is_stack(a, id) == is_stack(b, id),
{
    assert(a.ids() =~= b.ids());
    assert forall|id: Seq<char>| a.contains(id) implies without_offset(#[trigger] b.block(id))
        == without_offset(a.block(id)) by {
        lemma_find(a.ids(), id);
    }
    assert forall|id: Seq<char>, depth: nat| #[trigger] drawable(a, id, depth) == drawable(
        b,
        id,
        depth,
    ) by {
        if a.contains(id) {
            assert(without_offset(b.block(id)) == without_offset(a.block(id)));
        }
    }
    assert forall|id: Seq<char>| #[trigger] is_stack(a, id) == is_stack(b, id) by {
        if a.contains(id) {
            assert(without_offset(b.block(id)) == without_offset(a.block(id)));
        }
    }
}

/// What a block shows does not depend on its offset.
pub proof fn lemma_block(a: RuntimeView, b: RuntimeView, id: Seq<char>)
    requires
        a.same_scene(b),
        a.contains(id),
    ensures
        b.contains(id),
        b.block(id).opcode == a.block(id).opcode,
        b.block(id).parent_id == a.block(id).parent_id,
        b.block(id).next_id == a.block(id).next_id,
        b.block(id).inputs == a.block(id).inputs,
        b.block(id).fields == a.block(id).fields,
        b.block(id).x == a.block(id).x,
        b.block(id).y == a.block(id).y,
        b.spec_of(b.block(id).opcode) == a.spec_of(a.block(id).opcode),
        b.has_spec(b.block(id).opcode) == a.has_spec(a.block(id).opcode),
{
    lemma_scene(a, b);
    assert(without_offset(b.block(id)) == without_offset(a.block(id)));
}

/// Printing is the same in the same scene.
pub proof fn lemma_printed(
    a: RuntimeView,
    b: RuntimeView,
    grid: Seq<Seq<Cell>>,
    x: i32,
    y: i32,
    text: Seq<char>,
    colors: Colors,
    underline: bool,
    fake: bool,
)
    requires
        a.same_scene(b),
    ensures
        printed_in_view(grid, a, x, y, text, colors, underline, fake) == printed_in_view(
            grid,
            b,
            x,
            y,
            text,
            colors,
            underline,
            fake,
        ),
{
    assert forall|sx: int, sy: int| clipped(a, sx, sy, text, fake) == clipped(b, sx, sy, text, fake) by {}
    assert forall|sx: int| crate::ui::first_column(a, sx, fake) == crate::ui::first_column(b, sx, fake) by {}
}

pub proof fn lemma_put(
    c: Canvas,
    a: RuntimeView,
    b: RuntimeView,
    id: Seq<char>,
    px: i32,
    rx: i32,
    py: i32,
    text: Seq<char>,
    colors: Colors,
    underline: bool,
    fake: bool,
    writable: bool,
)
    requires
        a.same_scene(b),
    ensures
        c.put(a, id, px, rx, py, text, colors, underline, fake, writable) == c.put(
            b,
            id,
            px,
            rx,
            py,
            text,
            colors,
            underline,
            fake,
            writable,
        ),
{
    lemma_printed(a, b, c.grid, px, py, text, colors, underline, fake);
}

pub proof fn lemma_write(
    c: Canvas,
    a: RuntimeView,
    b: RuntimeView,
    id: Seq<char>,
    x: i32,
    y: i32,
    pen: Pen,
    text: Seq<char>,
    colors: Colors,
    underline: bool,
    fake: bool,
    writable: bool,
    widen: bool,
)
    requires
        a.same_scene(b),
    ensures
        c.write(a, id, x, y, pen, text, colors, underline, fake, writable, widen) == c.write(
            b,
            id,
            x,
            y,
            pen,
            text,
            colors,
            underline,
            fake,
            writable,
            widen,
        ),
{
    match (sum(x as int, pen.dx as int), sum(y as int, pen.dy as int)) {
        (Ok(px), Ok(py)) => {
            lemma_put(c, a, b, id, px, px, py, text, colors, underline, fake, writable);
        },
        _ => {},
    }
}

pub proof fn lemma_connectors(
    c: Canvas,
    a: RuntimeView,
    b: RuntimeView,
    id: Seq<char>,
    x: i32,
    base: i32,
    r: int,
    h: i32,
    colors: Colors,
    fake: bool,
)
    requires
        a.same_scene(b),
    ensures
        c.connectors(a, id, x, base, r, h, colors, fake) == c.connectors(
            b,
            id,
            x,
            base,
            r,
            h,
            colors,
            fake,
        ),
    decreases h - r + 1,
{
    if !(r < 1 || r > h) {
        match sum(base as int, r) {
            Err(_) => {},
            Ok(py) => {
                lemma_put(c, a, b, id, x, x, py, "| "@, colors, false, fake, false);
                let p = c.put(a, id, x, x, py, "| "@, colors, false, fake, false);
                if p.1 is Ok {
                    lemma_connectors(p.0, a, b, id, x, base, r + 1, h, colors, fake);
                }
            },
        }
    }
}

pub proof fn lemma_draw_block(
    c: Canvas,
    a: RuntimeView,
    b: RuntimeView,
    id: Seq<char>,
    x: i32,
    y: i32,
    fake: bool,
    depth: nat,
)
    requires
        a.same_scene(b),
    ensures
        c.draw_block(a, id, x, y, fake, depth) == c.draw_block(b, id, x, y, fake, depth),
    decreases depth, a.spec_of(a.block(id).opcode).lines.len() + 1, 0nat, 0nat,
{
    lemma_scene(a, b);
    if a.contains(id) {
        lemma_block(a, b, id);
        if a.has_spec(a.block(id).opcode) {
            let sp = a.spec_of(a.block(id).opcode);
            let start = Pen {
                dx: 0,
                dy: if sp.is_hat {
                    1
                } else {
                    0
                },
                max_width: 0,
                skip_padding: false,
            };
            lemma_draw_lines(c, a, b, id, x, y, fake, depth, 0, start);
            let body = c.draw_lines(a, id, x, y, fake, depth, 0, start);
            match body.1 {
                Err(_) => {},
                Ok(pen) => {
                    if sp.is_hat {
                        lemma_put(
                            body.0,
                            a,
                            b,
                            id,
                            x,
                            x,
                            y,
                            spaces(pen.max_width as int),
                            block_colors(sp),
                            false,
                            fake,
                            false,
                        );
                    }
                    let hat = if sp.is_hat {
                        body.0.put(
                            a,
                            id,
                            x,
                            x,
                            y,
                            spaces(pen.max_width as int),
                            block_colors(sp),
                            false,
                            fake,
                            false,
                        )
                    } else {
                        (body.0, Ok(0))
                    };
                    if hat.1 is Ok && sp.shape == Shape::Stack {
                        lemma_draw_tail(hat.0, a, b, id, x, y, fake, depth, pen);
                    }
                },
            }
        }
    }
}

pub proof fn lemma_draw_tail(
    c: Canvas,
    a: RuntimeView,
    b: RuntimeView,
    id: Seq<char>,
    x: i32,
    y: i32,
    fake: bool,
    depth: nat,
    pen: Pen,
)
    requires
        a.same_scene(b),
        a.contains(id),
    ensures
        c.draw_tail(a, id, x, y, fake, depth, pen) == c.draw_tail(b, id, x, y, fake, depth, pen),
    decreases depth, 0nat, 0nat, 0nat,
{
    lemma_scene(a, b);
    lemma_block(a, b, id);
    match sum(y as int, pen.dy as int) {
        Err(_) => {},
        Ok(below) => {
            let marked = c.drop_point(x, below, Shape::Stack, id, None);
            match a.block(id).next_id {
                Some(n) => {
                    let noted = marked.offset(n, 0, pen.dy);
                    if drawable(a, n, depth) {
                        lemma_draw_block(noted, a, b, n, x, below, fake, (depth - 1) as nat);
                    }
                },
                None => {},
            }
        },
    }
}

pub proof fn lemma_draw_lines(
    c: Canvas,
    a: RuntimeView,
    b: RuntimeView,
    id: Seq<char>,
    x: i32,
    y: i32,
    fake: bool,
    depth: nat,
    l: int,
    pen: Pen,
)
    requires
        a.same_scene(b),
        a.contains(id),
    ensures
        c.draw_lines(a, id, x, y, fake, depth, l, pen) == c.draw_lines(
            b,
            id,
            x,
            y,
            fake,
            depth,
            l,
            pen,
        ),
    decreases depth, a.spec_of(a.block(id).opcode).lines.len() - l, 2nat, 0nat,
{
    lemma_block(a, b, id);
    let bl = a.block(id);
    let sp = a.spec_of(bl.opcode);
    if !(l < 0 || l >= sp.lines.len()) {
        match sum(y as int, pen.dy as int) {
            Err(_) => {},
            Ok(py) => {
                let stack = sp.shape == Shape::Stack;
                let edge = if stack {
                    alignment_point_text(
                        bl.parent_id is Some,
                        bl.next_id is Some,
                        l == 0,
                        l == sp.lines.len() - 1,
                    )
                } else {
                    left_delimiter(sp.shape)
                };
                lemma_put(
                    c,
                    a,
                    b,
                    id,
                    x,
                    x,
                    py,
                    edge,
                    block_colors(sp),
                    !stack || l == sp.lines.len() - 1,
                    fake,
                    !stack && sp.is_shadow,
                );
                let p = c.put(
                    a,
                    id,
                    x,
                    x,
                    py,
                    edge,
                    block_colors(sp),
                    !stack || l == sp.lines.len() - 1,
                    fake,
                    !stack && sp.is_shadow,
                );
                match p.1 {
                    Err(_) => {},
                    Ok(w) => match advance(pen, w, true) {
                        Err(_) => {},
                        Ok(next) => {
                            lemma_draw_frags(p.0, a, b, id, x, y, fake, depth, l, 0, next);
                        },
                    },
                }
            },
        }
    }
}

pub proof fn lemma_draw_frags(
    c: Canvas,
    a: RuntimeView,
    b: RuntimeView,
    id: Seq<char>,
    x: i32,
    y: i32,
    fake: bool,
    depth: nat,
    l: int,
    f: int,
    pen: Pen,
)
    requires
        a.same_scene(b),
        a.contains(id),
    ensures
        c.draw_frags(a, id, x, y, fake, depth, l, f, pen) == c.draw_frags(
            b,
            id,
            x,
            y,
            fake,
            depth,
            l,
            f,
            pen,
        ),
    decreases depth, a.spec_of(a.block(id).opcode).lines.len() - l, 1nat, a.spec_of(
        a.block(id).opcode,
    ).lines[l].len() - f,
{
    lemma_block(a, b, id);
    let sp = a.spec_of(a.block(id).opcode);
    if !(l < 0 || l >= sp.lines.len()) {
        if f < 0 || f >= sp.lines[l].len() {
            lemma_end_line(c, a, b, id, x, y, fake, depth, l, pen);
        } else {
            lemma_draw_frag(c, a, b, id, x, y, fake, depth, sp.lines[l][f], pen);
            let one = c.draw_frag(a, id, x, y, fake, depth, sp.lines[l][f], pen);
            match one.1 {
                Err(_) => {},
                Ok(next) => {
                    lemma_draw_frags(one.0, a, b, id, x, y, fake, depth, l, f + 1, next);
                },
            }
        }
    }
}

pub proof fn lemma_end_line(
    c: Canvas,
    a: RuntimeView,
    b: RuntimeView,
    id: Seq<char>,
    x: i32,
    y: i32,
    fake: bool,
    depth: nat,
    l: int,
    pen: Pen,
)
    requires
        a.same_scene(b),
        a.contains(id),
    ensures
        c.end_line(a, id, x, y, fake, depth, l, pen) == c.end_line(
            b,
            id,
            x,
            y,
            fake,
            depth,
            l,
            pen,
        ),
    decreases depth, a.spec_of(a.block(id).opcode).lines.len() - l, 0nat, 0nat,
{
    lemma_block(a, b, id);
    let sp = a.spec_of(a.block(id).opcode);
    if !(l < 0 || l >= sp.lines.len()) {
        let stack = sp.shape == Shape::Stack;
        if !pen.skip_padding {
            lemma_write(
                c,
                a,
                b,
                id,
                x,
                y,
                pen,
                right_delimiter(sp.shape),
                block_colors(sp),
                true,
                fake,
                !stack && sp.is_shadow,
                true,
            );
        }
        let padded = if pen.skip_padding {
            (c, Ok(pen))
        } else {
            c.write(
                a,
                id,
                x,
                y,
                pen,
                right_delimiter(sp.shape),
                block_colors(sp),
                true,
                fake,
                !stack && sp.is_shadow,
                true,
            )
        };
        match padded.1 {
            Err(_) => {},
            Ok(p) => {
                if stack {
                    match sum(p.dy as int, 1) {
                        Err(_) => {},
                        Ok(dy) => {
                            lemma_draw_lines(
                                padded.0,
                                a,
                                b,
                                id,
                                x,
                                y,
                                fake,
                                depth,
                                l + 1,
                                Pen { dx: 0, dy, skip_padding: false, ..p },
                            );
                        },
                    }
                } else {
                    lemma_draw_lines(
                        padded.0,
                        a,
                        b,
                        id,
                        x,
                        y,
                        fake,
                        depth,
                        l + 1,
                        Pen { skip_padding: false, ..p },
                    );
                }
            },
        }
    }
}

pub proof fn lemma_draw_slot(
    c: Canvas,
    a: RuntimeView,
    b: RuntimeView,
    id: Seq<char>,
    x: i32,
    y: i32,
    fake: bool,
    depth: nat,
    pen: Pen,
    shape: Shape,
    name: Seq<char>,
    child: Option<Seq<char>>,
    empty: Seq<char>,
)
    requires
        a.same_scene(b),
        a.contains(id),
    ensures
        c.draw_slot(a, id, x, y, fake, depth, pen, shape, name, child, empty) == c.draw_slot(
            b,
            id,
            x,
            y,
            fake,
            depth,
            pen,
            shape,
            name,
            child,
            empty,
        ),
    decreases depth, 0nat, 0nat, 1nat,
{
    lemma_scene(a, b);
    lemma_block(a, b, id);
    match (sum(x as int, pen.dx as int), sum(y as int, pen.dy as int)) {
        (Ok(px), Ok(py)) => {
            let marked = c.drop_point(px, py, shape, id, Some(name));
            if child is Some && drawable(a, child->0, depth) {
                lemma_draw_block(marked, a, b, child->0, px, py, fake, (depth - 1) as nat);
            } else {
                lemma_write(
                    marked,
                    a,
                    b,
                    id,
                    x,
                    y,
                    pen,
                    empty,
                    alt_colors(a.spec_of(a.block(id).opcode)),
                    true,
                    fake,
                    false,
                    true,
                );
            }
        },
        _ => {},
    }
}

pub proof fn lemma_draw_substack(
    c: Canvas,
    a: RuntimeView,
    b: RuntimeView,
    id: Seq<char>,
    x: i32,
    y: i32,
    fake: bool,
    depth: nat,
    pen: Pen,
    name: Seq<char>,
    child: Option<Seq<char>>,
)
    requires
        a.same_scene(b),
        a.contains(id),
    ensures
        c.draw_substack(a, id, x, y, fake, depth, pen, name, child) == c.draw_substack(
            b,
            id,
            x,
            y,
            fake,
            depth,
            pen,
            name,
            child,
        ),
    decreases depth, 0nat, 0nat, 1nat,
{
    lemma_scene(a, b);
    lemma_block(a, b, id);
    match (sum(x as int, 2), sum(y as int, pen.dy as int)) {
        (Ok(px), Ok(py)) => {
            let marked = c.drop_point(px, py, Shape::Stack, id, Some(name));
            if child is Some && drawable(a, child->0, depth) {
                lemma_draw_block(marked, a, b, child->0, px, py, fake, (depth - 1) as nat);
                let sub = marked.draw_block(a, child->0, px, py, fake, (depth - 1) as nat);
                match sub.1 {
                    Err(_) => {},
                    Ok(height) => match sum(height as int, -1) {
                        Err(_) => {},
                        Ok(h) => {
                            lemma_connectors(
                                sub.0.offset(child->0, 2, pen.dy),
                                a,
                                b,
                                id,
                                x,
                                py,
                                1,
                                h,
                                block_colors(a.spec_of(a.block(id).opcode)),
                                fake,
                            );
                        },
                    },
                }
            }
        },
        _ => {},
    }
}

pub proof fn lemma_draw_frag(
    c: Canvas,
    a: RuntimeView,
    b: RuntimeView,
    id: Seq<char>,
    x: i32,
    y: i32,
    fake: bool,
    depth: nat,
    frag: FragmentView,
    pen: Pen,
)
    requires
        a.same_scene(b),
        a.contains(id),
    ensures
        c.draw_frag(a, id, x, y, fake, depth, frag, pen) == c.draw_frag(
            b,
            id,
            x,
            y,
            fake,
            depth,
            frag,
            pen,
        ),
    decreases depth, 0nat, 0nat, 2nat,
{
    lemma_block(a, b, id);
    let bl = a.block(id);
    let sp = a.spec_of(bl.opcode);
    let own = block_colors(sp);
    assert(b.block(id).input_names() =~= bl.input_names());
    assert(b.block(id).field_names() =~= bl.field_names());
    match frag {
        FragmentView::Text(t) => {
            lemma_write(c, a, b, id, x, y, pen, t, own, true, fake, false, true);
        },
        FragmentView::StrumberInput(name, _) => {
            lemma_draw_slot(
                c,
                a,
                b,
                id,
                x,
                y,
                fake,
                depth,
                pen,
                Shape::Circle,
                name,
                input_or_empty(bl, name).topmost(),
                "()"@,
            );
        },
        FragmentView::BooleanInput(name) => {
            lemma_draw_slot(
                c,
                a,
                b,
                id,
                x,
                y,
                fake,
                depth,
                pen,
                Shape::Hexagon,
                name,
                input_or_empty(bl, name).topmost(),
                "<>"@,
            );
        },
        FragmentView::BlockInput(name) => {
            lemma_draw_substack(
                c,
                a,
                b,
                id,
                x,
                y,
                fake,
                depth,
                pen,
                name,
                input_or_empty(bl, name).block_id,
            );
        },
        FragmentView::Dropdown(field, _) => {
            lemma_write(
                c,
                a,
                b,
                id,
                x,
                y,
                pen,
                seq!['['] + field + seq![']'],
                own,
                true,
                fake,
                false,
                false,
            );
        },
        FragmentView::Expander => {
            lemma_write(
                c,
                a,
                b,
                id,
                x,
                y,
                pen,
                spaces(pen.max_width - 1),
                own,
                true,
                fake,
                false,
                false,
            );
        },
        FragmentView::AlignmentPoint(name) => {
            match (sum(x as int, pen.dx as int), sum(y as int, pen.dy as int)) {
                (Ok(px), Ok(py)) => {
                    lemma_put(
                        c,
                        a,
                        b,
                        id,
                        px,
                        px,
                        py,
                        alignment_point_text(
                            false,
                            input_or_empty(bl, name).block_id is Some,
                            true,
                            true,
                        ),
                        own,
                        true,
                        fake,
                        false,
                    );
                },
                _ => {},
            }
        },
        FragmentView::Flag => {
            lemma_write(c, a, b, id, x, y, pen, "\u{25b8}"@, flag_colors(sp), true, fake, false, true);
        },
        FragmentView::Clockwise => {
            lemma_write(c, a, b, id, x, y, pen, "\u{21bb}"@, own, true, fake, false, true);
        },
        FragmentView::Anticlockwise => {
            lemma_write(c, a, b, id, x, y, pen, "\u{21ba}"@, own, true, fake, false, true);
        },
        FragmentView::WritableFieldText(field) => {
            lemma_write(c, a, b, id, x, y, pen, field_text(bl, field), own, true, fake, true, true);
        },
        FragmentView::FieldText(field) => {
            lemma_write(c, a, b, id, x, y, pen, field_text(bl, field), own, true, fake, false, true);
        },
        FragmentView::CustomColour(field) => {
            lemma_write(
                c,
                a,
                b,
                id,
                x,
                y,
                pen,
                "  "@,
                swatch_colors(field_text(bl, field)),
                true,
                fake,
                true,
                true,
            );
        },
    }
}


pub proof fn lemma_marker_dots(
    a: RuntimeView,
    b: RuntimeView,
    grid: Seq<Seq<Cell>>,
    x_first: int,
    y_first: int,
    nx: int,
    ny: int,
    i: int,
    j: int,
)
    requires
        a.same_scene(b),
    ensures
        marker_dots(grid, a, x_first, y_first, nx, ny, i, j) == marker_dots(
            grid,
            b,
            x_first,
            y_first,
            nx,
            ny,
            i,
            j,
        ),
    decreases nx - i, ny - j,
{
    if !(i < 0 || i >= nx) {
        if j < 0 || j >= ny {
            lemma_marker_dots(a, b, grid, x_first, y_first, nx, ny, i + 1, 0);
        } else {
            match (narrow(x_first + i * 10), narrow(y_first + j * 5)) {
                (Ok(x), Ok(y)) => {
                    lemma_printed(a, b, grid, x, y, "."@, dot_colors(), false, false);
                    let p = printed_in_view(grid, a, x, y, "."@, dot_colors(), false, false);
                    if p.1 is Ok {
                        lemma_marker_dots(a, b, p.0, x_first, y_first, nx, ny, i, j + 1);
                    }
                },
                _ => {},
            }
        }
    }
}

pub proof fn lemma_draw_tops(c: Canvas, a: RuntimeView, b: RuntimeView, k: int)
    requires
        a.same_scene(b),
    ensures
        draw_tops(c, a, k) == draw_tops(c, b, k),
    decreases a.top_level.len() - k,
{
    lemma_scene(a, b);
    if !(k < 0 || k >= a.top_level.len()) {
        let id = a.top_level[k];
        if a.cursor_block == Some(id) || !a.contains(id) {
            lemma_draw_tops(c, a, b, k + 1);
        } else {
            lemma_block(a, b, id);
            lemma_draw_block(c, a, b, id, a.block(id).x, a.block(id).y, false, a.blocks.len());
            let d = c.draw_block(a, id, a.block(id).x, a.block(id).y, false, a.blocks.len());
            if d.1 is Ok {
                lemma_draw_tops(d.0, a, b, k + 1);
            }
        }
    }
}

pub proof fn lemma_draw_all(c: Canvas, a: RuntimeView, b: RuntimeView)
    requires
        a.same_scene(b),
    ensures
        draw_all(c, a) == draw_all(c, b),
{
    lemma_scene(a, b);
    lemma_draw_tops(c, a, b, 0);
    let tops = draw_tops(c, a, 0);
    if tops.1 is Ok {
        match a.cursor_block {
            Some(id) => {
                if a.contains(id) {
                    lemma_block(a, b, id);
                    lemma_draw_block(
                        tops.0,
                        a,
                        b,
                        id,
                        a.block(id).x,
                        a.block(id).y,
                        false,
                        a.blocks.len(),
                    );
                }
            },
            None => {},
        }
    }
}

pub proof fn lemma_toolbox_rows(
    a: RuntimeView,
    b: RuntimeView,
    grid: Seq<Seq<Cell>>,
    offset_x: i32,
    offset_y: i32,
    height: i32,
    recompute: bool,
    i: int,
    dy: i32,
)
    requires
        a.same_scene(b),
    ensures
        toolbox_rows(grid, a, offset_x, offset_y, height, recompute, i, dy) == toolbox_rows(
            grid,
            b,
            offset_x,
            offset_y,
            height,
            recompute,
            i,
            dy,
        ),
    decreases a.toolbox.len() - i,
{
    lemma_scene(a, b);
    if !(i < 0 || i >= a.toolbox.len()) {
        let id = a.toolbox[i];
        let label = toolbox_label(a, i);
        assert(label == toolbox_label(b, i));
        match (sum(offset_y as int, dy as int), narrow(offset_x - 1 - label.len())) {
            (Ok(y), Ok(lx)) => {
                if !recompute {
                    lemma_printed(
                        a,
                        b,
                        grid,
                        lx,
                        y,
                        label,
                        Colors::of(crate::ui::Color::Reset, crate::ui::Color::Reset),
                        false,
                        true,
                    );
                }
                let labelled = if recompute {
                    (grid, Ok(()))
                } else {
                    printed_in_view(
                        grid,
                        a,
                        lx,
                        y,
                        label,
                        Colors::of(crate::ui::Color::Reset, crate::ui::Color::Reset),
                        false,
                        true,
                    )
                };
                if labelled.1 is Ok {
                    let start = canvas_of(labelled.0, AccumulatorsView::empty());
                    lemma_draw_block(start, a, b, id, offset_x, y, !recompute, a.blocks.len());
                    let drawn = start.draw_block(a, id, offset_x, y, !recompute, a.blocks.len());
                    match drawn.1 {
                        Err(_) => {},
                        Ok(delta) => match narrow(
                            dy + if is_stack(a, id) {
                                delta + 1
                            } else {
                                2
                            },
                        ) {
                            Err(_) => {},
                            Ok(below) => {
                                if below < height {
                                    lemma_toolbox_rows(
                                        a,
                                        b,
                                        drawn.0.grid,
                                        offset_x,
                                        offset_y,
                                        height,
                                        recompute,
                                        i + 1,
                                        below,
                                    );
                                }
                            },
                        },
                    }
                }
            },
            _ => {},
        }
    }
}

pub proof fn lemma_with_toolbox(
    a: RuntimeView,
    b: RuntimeView,
    grid: Seq<Seq<Cell>>,
    left_border: i32,
    top_border: i32,
    recompute: bool,
)
    requires
        a.same_scene(b),
    ensures
        with_toolbox(grid, a, left_border, top_border, recompute) == with_toolbox(
            grid,
            b,
            left_border,
            top_border,
            recompute,
        ),
{
    let vp = a.viewport;
    match (
        narrow(a.scroll_x + left_border + (vp.x_max - vp.x_min) + 6),
        narrow(a.scroll_y + top_border),
        narrow(vp.y_max - vp.y_min),
    ) {
        (Ok(offset_x), Ok(offset_y), Ok(height)) => {
            lemma_toolbox_rows(
                a,
                b,
                grid,
                offset_x,
                offset_y,
                height,
                recompute,
                a.toolbox_scroll as int,
                0,
            );
        },
        _ => {},
    }
}

/// The offset that the entries from index `from` on give the block `id`
/// last, where they give it one.
pub open spec fn last_offset(offsets: Seq<(Seq<char>, (i32, i32))>, id: Seq<char>, from: int) -> Option<
    (i32, i32),
>
    decreases offsets.len() - from,
{
    if from < 0 || from >= offsets.len() {
        None
    } else {
        match last_offset(offsets, id, from + 1) {
            Some(o) => Some(o),
            None => if offsets[from].0 == id {
                Some(offsets[from].1)
            } else {
                None
            },
        }
    }
}

/// The block after the entries from index `from` on gave it its offset.
pub open spec fn offset_by(
    b: BlockView,
    offsets: Seq<(Seq<char>, (i32, i32))>,
    id: Seq<char>,
    from: int,
) -> BlockView {
    match last_offset(offsets, id, from) {
        Some(o) => BlockView { offset_x: o.0, offset_y: o.1, ..b },
        None => b,
    }
}

/// Taking over offsets gives each block that is found under its id the
/// offset recorded for it last, and changes nothing else.
pub proof fn lemma_with_offsets(v: RuntimeView, offsets: Seq<(Seq<char>, (i32, i32))>, from: int)
    requires
        0 <= from,
    ensures
        ({
            let w = v.with_offsets(offsets, from);
            &&& w == (RuntimeView { blocks: w.blocks, ..v })
            &&& w.blocks.len() == v.blocks.len()
            &&& forall|j: int|
                0 <= j < v.blocks.len() ==> #[trigger] w.blocks[j] == (
                    v.blocks[j].0,
                    if v.index_of(v.blocks[j].0) == j {
                        offset_by(v.blocks[j].1, offsets, v.blocks[j].0, from)
                    } else {
                        v.blocks[j].1
                    },
                )
        }),
    decreases offsets.len() - from,
{
    if from < offsets.len() {
        let id = offsets[from].0;
        let o = offsets[from].1;
        let one = v.with_offset(id, o.0, o.1);
        lemma_with_offsets(one, offsets, from + 1);
        let w = v.with_offsets(offsets, from);
        lemma_find(v.ids(), id);
        assert(one.ids() =~= v.ids());
        assert forall|j: int| 0 <= j < v.blocks.len() implies #[trigger] w.blocks[j] == (
            v.blocks[j].0,
            if v.index_of(v.blocks[j].0) == j {
                offset_by(v.blocks[j].1, offsets, v.blocks[j].0, from)
            } else {
                v.blocks[j].1
            },
        ) by {
            assert(one.blocks[j].0 == v.blocks[j].0);
            assert(one.index_of(one.blocks[j].0) == v.index_of(v.blocks[j].0));
            lemma_find(v.ids(), v.blocks[j].0);
            assert(v.ids()[j] == v.blocks[j].0);
        }
    }
}

/// Taking over the same offsets once more changes nothing.
pub proof fn lemma_offsets_again(v: RuntimeView, offsets: Seq<(Seq<char>, (i32, i32))>)
    ensures
        v.with_offsets(offsets, 0).with_offsets(offsets, 0) == v.with_offsets(offsets, 0),
        v.same_scene(v.with_offsets(offsets, 0)),
{
    let w = v.with_offsets(offsets, 0);
    let u = w.with_offsets(offsets, 0);
    lemma_with_offsets(v, offsets, 0);
    lemma_with_offsets(w, offsets, 0);
    assert(w.ids() =~= v.ids());
    assert forall|j: int| 0 <= j < v.blocks.len() implies #[trigger] u.blocks[j] == w.blocks[j] by {
        assert(w.blocks[j].0 == v.blocks[j].0);
        assert(w.index_of(w.blocks[j].0) == v.index_of(v.blocks[j].0));
    }
    assert(u.blocks =~= w.blocks);
}

/// Two frames drawn one after the other from the same grid over an
/// unchanged scene are the same: the same cells, and the same indexes and
/// offsets in the state.
pub proof fn lemma_refresh_twice(grid: Seq<Seq<Cell>>, rt: RuntimeView)
    requires
        refreshed(grid, rt).2 is Ok,
    ensures
        refreshed(grid, refreshed(grid, rt).1) == refreshed(grid, rt),
{
    let first = refreshed(grid, rt);
    let a = with_viewport_border(grid, rt.viewport);
    let b = with_marker_dots(a.0, rt);
    let c = with_cursor_lines(b.0, rt);
    let start = canvas_of(c.0, AccumulatorsView::empty());
    let d = draw_all(start, rt);
    let taken = rt.process_accumulators(d.0.acc);
    let e = with_status_line(d.0.grid, taken);
    let f = with_toolbox(e, taken, taken.viewport_offset_x, taken.viewport_offset_y, false);
    let again = noting(taken, f.1);
    assert(first.1 == again);
    let indexed = RuntimeView {
        block_positions: d.0.acc.block_positions,
        drop_points: d.0.acc.drop_points,
        writable_points: d.0.acc.writable_points,
        ..rt
    };
    let offsets = d.0.acc.block_offsets;
    lemma_offsets_again(indexed, offsets);
    lemma_with_offsets(indexed, offsets, 0);
    assert(taken == indexed.with_offsets(offsets, 0));
    assert(rt.same_scene(again)) by {
        assert(indexed.same_scene(taken));
    }
    let vp = rt.viewport;
    lemma_marker_dots(
        rt,
        again,
        a.0,
        crate::ui::trunc_div(rt.scroll_x as int, 10) * 10,
        crate::ui::trunc_div(rt.scroll_y as int, 5) * 5,
        1 + crate::ui::trunc_div(vp.x_max - vp.x_min, 10),
        2 + crate::ui::trunc_div(vp.y_max - vp.y_min, 5),
        0,
        0,
    );
    lemma_draw_all(start, rt, again);
    // the state takes over the same indexes and offsets once more
    let indexed2 = RuntimeView {
        block_positions: d.0.acc.block_positions,
        drop_points: d.0.acc.drop_points,
        writable_points: d.0.acc.writable_points,
        ..again
    };
    assert(indexed2 == again);
    let taken2 = again.process_accumulators(d.0.acc);
    assert(taken2 == again.with_offsets(offsets, 0));
    lemma_with_offsets(again, offsets, 0);
    lemma_with_offsets(taken, offsets, 0);
    assert(again.ids() =~= taken.ids());
    assert(taken2.blocks =~= again.blocks) by {
        assert forall|j: int| 0 <= j < again.blocks.len() implies #[trigger] taken2.blocks[j]
            == again.blocks[j] by {
            assert(again.blocks[j] == taken.blocks[j]);
            assert(taken.with_offsets(offsets, 0).blocks[j] == taken.blocks[j]);
            assert(again.index_of(again.blocks[j].0) == taken.index_of(taken.blocks[j].0));
        }
    }
    assert(taken2 == again);
    assert(taken.same_scene(again));
    assert(with_status_line(d.0.grid, again) == e);
    lemma_with_toolbox(taken, again, e, taken.viewport_offset_x, taken.viewport_offset_y, false);
    assert(noting(again, f.1) == again);
}

/// A stack block that nothing follows ends with its drop point: the drop
/// point that is registered last lies in the block's column, as many rows
/// below its anchor as the block is high, and takes a stack block after the
/// block.
pub proof fn lemma_trailing_drop_point(
    c: Canvas,
    rt: RuntimeView,
    id: Seq<char>,
    x: i32,
    y: i32,
    fake: bool,
    depth: nat,
)
    requires
        rt.contains(id),
        rt.has_spec(rt.block(id).opcode),
        rt.spec_of(rt.block(id).opcode).shape == Shape::Stack,
        rt.block(id).next_id is None,
        c.draw_block(rt, id, x, y, fake, depth).1 is Ok,
    ensures
        ({
            let drawn = c.draw_block(rt, id, x, y, fake, depth);
            let h = drawn.1->Ok_0;
            let marks = drawn.0.acc.drop_points;
            &&& marks.len() > 0
            &&& marks.last().x == x
            &&& marks.last().y == y + h
            &&& marks.last().point == (DropPointView { shape: Shape::Stack, id, input: None })
        }),
{
}

/// Whether no fragment of the template opens a stack slot.
pub open spec fn plain(lines: Seq<Seq<FragmentView>>) -> bool {
    forall|l: int, f: int|
        0 <= l < lines.len() && 0 <= f < lines[l].len() ==> !(#[trigger] lines[l][f] is BlockInput)
}

/// Writing leaves the pen on its row.
pub proof fn lemma_write_keeps_row(rt: RuntimeView, id: Seq<char>, x: i32, y: i32, pen: Pen)
    ensures
        forall|
            c: Canvas,
            text: Seq<char>,
            colors: Colors,
            underline: bool,
            fake: bool,
            writable: bool,
            widen: bool,
        |
            (#[trigger] c.write(
                rt,
                id,
                x,
                y,
                pen,
                text,
                colors,
                underline,
                fake,
                writable,
                widen,
            )).1 matches Ok(p) ==> p.dy == pen.dy,
{
}

/// A value slot leaves the pen on its row.
pub proof fn lemma_slot_keeps_row(rt: RuntimeView, id: Seq<char>, x: i32, y: i32, pen: Pen)
    ensures
        forall|
            c: Canvas,
            fake: bool,
            depth: nat,
            shape: Shape,
            name: Seq<char>,
            child: Option<Seq<char>>,
            empty: Seq<char>,
        |
            (#[trigger] c.draw_slot(rt, id, x, y, fake, depth, pen, shape, name, child, empty)).1 matches Ok(
                p,
            ) ==> p.dy == pen.dy,
{
    lemma_write_keeps_row(rt, id, x, y, pen);
}

/// A fragment that opens no stack slot leaves the pen on its row.
#[verifier::rlimit(50)]
pub proof fn lemma_frag_keeps_row(
    c: Canvas,
    rt: RuntimeView,
    id: Seq<char>,
    x: i32,
    y: i32,
    fake: bool,
    depth: nat,
    frag: FragmentView,
    pen: Pen,
)
    requires
        !(frag is BlockInput),
        c.draw_frag(rt, id, x, y, fake, depth, frag, pen).1 is Ok,
    ensures
        c.draw_frag(rt, id, x, y, fake, depth, frag, pen).1->Ok_0.dy == pen.dy,
{
    lemma_write_keeps_row(rt, id, x, y, pen);
    lemma_slot_keeps_row(rt, id, x, y, pen);
}

/// The lines of a stack block without stack slots take one row each.
pub proof fn lemma_lines_height(
    c: Canvas,
    rt: RuntimeView,
    id: Seq<char>,
    x: i32,
    y: i32,
    fake: bool,
    depth: nat,
    l: int,
    pen: Pen,
)
    requires
        rt.spec_of(rt.block(id).opcode).shape == Shape::Stack,
        plain(rt.spec_of(rt.block(id).opcode).lines),
        0 <= l <= rt.spec_of(rt.block(id).opcode).lines.len(),
        c.draw_lines(rt, id, x, y, fake, depth, l, pen).1 is Ok,
    ensures
        c.draw_lines(rt, id, x, y, fake, depth, l, pen).1->Ok_0.dy == pen.dy + rt.spec_of(
            rt.block(id).opcode,
        ).lines.len() - l,
    decreases rt.spec_of(rt.block(id).opcode).lines.len() - l, 2nat, 0nat,
{
    let b = rt.block(id);
    let sp = rt.spec_of(b.opcode);
    if l < sp.lines.len() {
        match sum(y as int, pen.dy as int) {
            Err(_) => {},
            Ok(py) => {
                let edge = alignment_point_text(
                    b.parent_id is Some,
                    b.next_id is Some,
                    l == 0,
                    l == sp.lines.len() - 1,
                );
                let p = c.put(
                    rt,
                    id,
                    x,
                    x,
                    py,
                    edge,
                    block_colors(sp),
                    l == sp.lines.len() - 1,
                    fake,
                    false,
                );
                match p.1 {
                    Err(_) => {},
                    Ok(w) => match advance(pen, w, true) {
                        Err(_) => {},
                        Ok(next) => {
                            lemma_frags_height(p.0, rt, id, x, y, fake, depth, l, 0, next);
                        },
                    },
                }
            },
        }
    }
}

/// The fragments of a line, and the lines after it, of a stack block
/// without stack slots take one row for each line.
pub proof fn lemma_frags_height(
    c: Canvas,
    rt: RuntimeView,
    id: Seq<char>,
    x: i32,
    y: i32,
    fake: bool,
    depth: nat,
    l: int,
    f: int,
    pen: Pen,
)
    requires
        rt.spec_of(rt.block(id).opcode).shape == Shape::Stack,
        plain(rt.spec_of(rt.block(id).opcode).lines),
        0 <= l < rt.spec_of(rt.block(id).opcode).lines.len(),
        0 <= f,
        c.draw_frags(rt, id, x, y, fake, depth, l, f, pen).1 is Ok,
    ensures
        c.draw_frags(rt, id, x, y, fake, depth, l, f, pen).1->Ok_0.dy == pen.dy + rt.spec_of(
            rt.block(id).opcode,
        ).lines.len() - l,
    decreases rt.spec_of(rt.block(id).opcode).lines.len() - l, 1nat, rt.spec_of(
        rt.block(id).opcode,
    ).lines[l].len() - f,
{
    let sp = rt.spec_of(rt.block(id).opcode);
    if f >= sp.lines[l].len() {
        lemma_end_line_height(c, rt, id, x, y, fake, depth, l, pen);
    } else {
        let frag = sp.lines[l][f];
        let one = c.draw_frag(rt, id, x, y, fake, depth, frag, pen);
        match one.1 {
            Err(_) => {},
            Ok(next) => {
                lemma_frag_keeps_row(c, rt, id, x, y, fake, depth, frag, pen);
                lemma_frags_height(one.0, rt, id, x, y, fake, depth, l, f + 1, next);
            },
        }
    }
}

/// The end of a line, and the lines after it, of a stack block without
/// stack slots take one row for each line.
pub proof fn lemma_end_line_height(
    c: Canvas,
    rt: RuntimeView,
    id: Seq<char>,
    x: i32,
    y: i32,
    fake: bool,
    depth: nat,
    l: int,
    pen: Pen,
)
    requires
        rt.spec_of(rt.block(id).opcode).shape == Shape::Stack,
        plain(rt.spec_of(rt.block(id).opcode).lines),
        0 <= l < rt.spec_of(rt.block(id).opcode).lines.len(),
        c.end_line(rt, id, x, y, fake, depth, l, pen).1 is Ok,
    ensures
        c.end_line(rt, id, x, y, fake, depth, l, pen).1->Ok_0.dy == pen.dy + rt.spec_of(
            rt.block(id).opcode,
        ).lines.len() - l,
    decreases rt.spec_of(rt.block(id).opcode).lines.len() - l, 0nat, 0nat,
{
    let sp = rt.spec_of(rt.block(id).opcode);
    let padded = if pen.skip_padding {
        (c, Ok(pen))
    } else {
        c.write(
            rt,
            id,
            x,
            y,
            pen,
            right_delimiter(sp.shape),
            block_colors(sp),
            true,
            fake,
            false,
            true,
        )
    };
    match padded.1 {
        Err(_) => {},
        Ok(p) => {
            assert(p.dy == pen.dy);
            match sum(p.dy as int, 1) {
                Err(_) => {},
                Ok(dy) => {
                    lemma_lines_height(
                        padded.0,
                        rt,
                        id,
                        x,
                        y,
                        fake,
                        depth,
                        l + 1,
                        Pen { dx: 0, dy, skip_padding: false, ..p },
                    );
                },
            }
        },
    }
}

/// A stack block without stack slots that nothing follows is as high as
/// its template has lines, and one row higher where it wears a hat.
pub proof fn lemma_stack_height(
    c: Canvas,
    rt: RuntimeView,
    id: Seq<char>,
    x: i32,
    y: i32,
    fake: bool,
    depth: nat,
)
    requires
        rt.contains(id),
        rt.has_spec(rt.block(id).opcode),
        rt.spec_of(rt.block(id).opcode).shape == Shape::Stack,
        plain(rt.spec_of(rt.block(id).opcode).lines),
        rt.block(id).next_id is None,
        c.draw_block(rt, id, x, y, fake, depth).1 is Ok,
    ensures
        c.draw_block(rt, id, x, y, fake, depth).1->Ok_0 == rt.spec_of(
            rt.block(id).opcode,
        ).lines.len() + if rt.spec_of(rt.block(id).opcode).is_hat {
            1int
        } else {
            0int
        },
{
    let sp = rt.spec_of(rt.block(id).opcode);
    let start = Pen {
        dx: 0,
        dy: if sp.is_hat {
            1
        } else {
            0
        },
        max_width: 0,
        skip_padding: false,
    };
    lemma_lines_height(c, rt, id, x, y, fake, depth, 0, start);
}

} // verus!
