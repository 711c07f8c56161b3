//! The character grid, and the indexes that a layout pass fills: which cells
//! grab which block, which cells edit which block, and where a held block may
//! be dropped.

use vstd::prelude::*;
use vstd::string::*;
use crate::block::{Block, BlockView, InputView};
use crate::result::{ViiruError, minus, plus, sum};
use crate::runtime::{Runtime, RuntimeView, State, Viewport, empty_input};
use crate::spec::{Fragment, FragmentView, Shape, Spec, SpecView};
use crate::table::{keys, opt_text, position};
use crate::util::{chars_of, str_eq, decimal_string, decimal_text, hex_value, is_radix16_u32, radix16_digits, rgb_of_bits, try_parse_rgb};

verus! {

/// A run of cells on one row that belongs to a block.
pub struct Span {
    pub x: i32,
    pub y: i32,
    pub width: i32,
    pub id: String,
}

/// A place where a held block of the right shape can be attached: into the
/// input `input` of block `id`, or after block `id` where `input` is `None`.
pub struct DropPoint {
    pub shape: Shape,
    pub id: String,
    pub input: Option<String>,
}

/// A drop point and the cell it sits on.
pub struct Mark {
    pub x: i32,
    pub y: i32,
    pub point: DropPoint,
}

/// What one layout pass registers, in the order of registration. A later entry
/// on the same cell covers an earlier one.
pub struct Accumulators {
    pub block_positions: Vec<Span>,
    pub block_offsets: Vec<(String, (i32, i32))>,
    pub drop_points: Vec<Mark>,
    pub writable_points: Vec<Span>,
}

#[verifier::ext_equal]
pub struct SpanView {
    pub x: i32,
    pub y: i32,
    pub width: i32,
    pub id: Seq<char>,
}

#[verifier::ext_equal]
pub struct DropPointView {
    pub shape: Shape,
    pub id: Seq<char>,
    pub input: Option<Seq<char>>,
}

#[verifier::ext_equal]
pub struct MarkView {
    pub x: i32,
    pub y: i32,
    pub point: DropPointView,
}

#[verifier::ext_equal]
pub struct AccumulatorsView {
    pub block_positions: Seq<SpanView>,
    pub block_offsets: Seq<(Seq<char>, (i32, i32))>,
    pub drop_points: Seq<MarkView>,
    pub writable_points: Seq<SpanView>,
}

impl View for Span {
    type V = SpanView;

    open spec fn view(&self) -> SpanView {
        SpanView { x: self.x, y: self.y, width: self.width, id: self.id@ }
    }
}

impl View for DropPoint {
    type V = DropPointView;

    open spec fn view(&self) -> DropPointView {
        DropPointView { shape: self.shape, id: self.id@, input: opt_text(self.input) }
    }
}

impl View for Mark {
    type V = MarkView;

    open spec fn view(&self) -> MarkView {
        MarkView { x: self.x, y: self.y, point: self.point@ }
    }
}

/// The views of a list of spans.
pub open spec fn spans_view(spans: Seq<Span>) -> Seq<SpanView> {
    Seq::new(spans.len(), |i: int| spans[i]@)
}

/// The views of a list of marks.
pub open spec fn marks_view(marks: Seq<Mark>) -> Seq<MarkView> {
    Seq::new(marks.len(), |i: int| marks[i]@)
}

/// The views of a list of offsets.
pub open spec fn offsets_view(offsets: Seq<(String, (i32, i32))>) -> Seq<(Seq<char>, (i32, i32))> {
    Seq::new(offsets.len(), |i: int| (offsets[i].0@, offsets[i].1))
}

impl View for Accumulators {
    type V = AccumulatorsView;

    open spec fn view(&self) -> AccumulatorsView {
        AccumulatorsView {
            block_positions: spans_view(self.block_positions@),
            block_offsets: offsets_view(self.block_offsets@),
            drop_points: marks_view(self.drop_points@),
            writable_points: spans_view(self.writable_points@),
        }
    }
}

impl SpanView {
    /// Whether the span holds the cell `(x, y)`.
    pub open spec fn covers(self, x: int, y: int) -> bool {
        self.y == y && self.x <= x < self.x + self.width
    }
}

/// The block of the last span that holds the cell `(x, y)`.
pub open spec fn span_at(spans: Seq<SpanView>, x: int, y: int) -> Option<Seq<char>>
    decreases spans.len(),
{
    if spans.len() == 0 {
        None
    } else if spans.last().covers(x, y) {
        Some(spans.last().id)
    } else {
        span_at(spans.drop_last(), x, y)
    }
}

/// The index of the last mark on the cell `(x, y)`, or -1.
pub open spec fn mark_at(marks: Seq<MarkView>, x: int, y: int) -> int
    decreases marks.len(),
{
    if marks.len() == 0 {
        -1
    } else if marks.last().x == x && marks.last().y == y {
        marks.len() - 1
    } else {
        mark_at(marks.drop_last(), x, y)
    }
}

pub proof fn lemma_mark_at(marks: Seq<MarkView>, x: int, y: int)
    ensures
        -1 <= mark_at(marks, x, y) < marks.len(),
        mark_at(marks, x, y) >= 0 ==> marks[mark_at(marks, x, y)].x == x && marks[mark_at(
            marks,
            x,
            y,
        )].y == y,
    decreases marks.len(),
{
    if marks.len() > 0 && !(marks.last().x == x && marks.last().y == y) {
        lemma_mark_at(marks.drop_last(), x, y);
    }
}

impl AccumulatorsView {
    pub open spec fn empty() -> AccumulatorsView {
        AccumulatorsView {
            block_positions: Seq::empty(),
            block_offsets: Seq::empty(),
            drop_points: Seq::empty(),
            writable_points: Seq::empty(),
        }
    }

    pub open spec fn add_grab_row(self, id: Seq<char>, x: i32, y: i32, width: i32) -> Self {
        AccumulatorsView {
            block_positions: self.block_positions.push(SpanView { x, y, width, id }),
            ..self
        }
    }

    pub open spec fn add_writable_row(self, id: Seq<char>, x: i32, y: i32, width: i32) -> Self {
        AccumulatorsView {
            writable_points: self.writable_points.push(SpanView { x, y, width, id }),
            ..self
        }
    }

    pub open spec fn mark_block_offset(self, id: Seq<char>, dx: i32, dy: i32) -> Self {
        AccumulatorsView { block_offsets: self.block_offsets.push((id, (dx, dy))), ..self }
    }

    pub open spec fn add_drop_point(
        self,
        x: i32,
        y: i32,
        shape: Shape,
        id: Seq<char>,
        input: Option<Seq<char>>,
    ) -> Self {
        AccumulatorsView {
            drop_points: self.drop_points.push(
                MarkView { x, y, point: DropPointView { shape, id, input } },
            ),
            ..self
        }
    }
}

impl Accumulators {
    pub fn new() -> (acc: Self)
        ensures
            acc@ == AccumulatorsView::empty(),
    {
        let acc = Accumulators {
            block_positions: Vec::new(),
            block_offsets: Vec::new(),
            drop_points: Vec::new(),
            writable_points: Vec::new(),
        };
        assert(acc@.block_positions =~= Seq::empty());
        assert(acc@.block_offsets =~= Seq::empty());
        assert(acc@.drop_points =~= Seq::empty());
        assert(acc@.writable_points =~= Seq::empty());
        acc
    }

    /// Registers the `width` cells from `(x, y)` rightwards as grabbing
    /// `block_id`.
    pub fn add_grab_row(&mut self, block_id: &str, x: i32, y: i32, width: i32)
        ensures
            final(self)@ == old(self)@.add_grab_row(block_id@, x, y, width),
    {
        self.block_positions.push(Span { x, y, width, id: block_id.to_owned() });
        assert(final(self)@.block_positions =~= old(self)@.add_grab_row(
            block_id@,
            x,
            y,
            width,
        ).block_positions);
    }

    /// Records where `block_id` sits relative to its parent.
    pub fn mark_block_offset(&mut self, block_id: &str, dx: i32, dy: i32)
        ensures
            final(self)@ == old(self)@.mark_block_offset(block_id@, dx, dy),
    {
        self.block_offsets.push((block_id.to_owned(), (dx, dy)));
        assert(final(self)@.block_offsets =~= old(self)@.mark_block_offset(
            block_id@,
            dx,
            dy,
        ).block_offsets);
    }

    /// Registers a drop point on the cell `(x, y)`.
    pub fn add_drop_point(&mut self, x: i32, y: i32, shape: Shape, id: &str, input: Option<&str>)
        ensures
            final(self)@ == old(self)@.add_drop_point(
                x,
                y,
                shape,
                id@,
                match input {
                    Some(s) => Some(s@),
                    None => None,
                },
            ),
    {
        let input = match input {
            Some(s) => Some(s.to_owned()),
            None => None,
        };
        self.drop_points.push(Mark { x, y, point: DropPoint { shape, id: id.to_owned(), input } });
        assert(final(self)@.drop_points =~= old(self)@.drop_points.push(
            MarkView {
                x,
                y,
                point: DropPointView { shape, id: id@, input: opt_text(input) },
            },
        ));
    }

    /// Registers the `width` cells from `(x, y)` rightwards as editing
    /// `block_id`.
    pub fn add_writable_row(&mut self, block_id: &str, x: i32, y: i32, width: i32)
        ensures
            final(self)@ == old(self)@.add_writable_row(block_id@, x, y, width),
    {
        self.writable_points.push(Span { x, y, width, id: block_id.to_owned() });
        assert(final(self)@.writable_points =~= old(self)@.add_writable_row(
            block_id@,
            x,
            y,
            width,
        ).writable_points);
    }
}

/// The block of the last span that holds the cell `(x, y)`.
pub fn find_span(spans: &Vec<Span>, x: i32, y: i32) -> (r: Option<String>)
    ensures
        opt_text(r) == span_at(spans_view(spans@), x as int, y as int),
{
    let mut i: usize = spans.len();
    assert(spans_view(spans@).take(i as int) =~= spans_view(spans@));
    while i > 0
        invariant
            i <= spans.len(),
            span_at(spans_view(spans@).take(i as int), x as int, y as int) == span_at(
                spans_view(spans@),
                x as int,
                y as int,
            ),
        decreases i,
    {
        let ghost cur = spans_view(spans@).take(i as int);
        i -= 1;
        let s = &spans[i];
        assert(cur.last() == s@);
        assert(cur.drop_last() =~= spans_view(spans@).take(i as int));
        if s.y == y && s.x <= x && (x as i64) < (s.x as i64) + (s.width as i64) {
            return Some(s.id.clone());
        }
    }
    None
}

/// The index of the last mark on the cell `(x, y)`.
pub fn find_mark(marks: &Vec<Mark>, x: i32, y: i32) -> (r: Option<usize>)
    ensures
        match r {
            Some(i) => i as int == mark_at(marks_view(marks@), x as int, y as int),
            None => mark_at(marks_view(marks@), x as int, y as int) == -1,
        },
        r matches Some(i) ==> i < marks.len(),
{
    let mut i: usize = marks.len();
    assert(marks_view(marks@).take(i as int) =~= marks_view(marks@));
    while i > 0
        invariant
            i <= marks.len(),
            mark_at(marks_view(marks@).take(i as int), x as int, y as int) == mark_at(
                marks_view(marks@),
                x as int,
                y as int,
            ),
        decreases i,
    {
        let ghost cur = marks_view(marks@).take(i as int);
        i -= 1;
        let m = &marks[i];
        assert(cur.last() == m@);
        assert(cur.drop_last() =~= marks_view(marks@).take(i as int));
        if m.x == x && m.y == y {
            return Some(i);
        }
    }
    None
}

/// The connector glyph at the left edge of one line of a stack block: `top`
/// and `bottom` say whether something is attached above and below the block,
/// `is_start` and `is_end` whether the line is the block's first and last.
pub open spec fn alignment_point_text(top: bool, bottom: bool, is_start: bool, is_end: bool) -> Seq<
    char,
> {
    if is_start && is_end {
        if top && bottom {
            "| "@
        } else if top {
            "' "@
        } else if bottom {
            ". "@
        } else {
            "  "@
        }
    } else if is_start {
        if top {
            "| "@
        } else {
            ". "@
        }
    } else if is_end {
        if bottom {
            "| "@
        } else {
            "' "@
        }
    } else {
        "| "@
    }
}

pub fn alignment_point(top: bool, bottom: bool, is_start: bool, is_end: bool) -> (s: &'static str)
    ensures
        s@ == alignment_point_text(top, bottom, is_start, is_end),
        s@.len() == 2,
{
    proof {
        reveal_strlit("| ");
        reveal_strlit("' ");
        reveal_strlit(". ");
        reveal_strlit("  ");
    }
    if is_start && is_end {
        if top && bottom {
            "| "
        } else if top {
            "' "
        } else if bottom {
            ". "
        } else {
            "  "
        }
    } else if is_start {
        if top {
            "| "
        } else {
            ". "
        }
    } else if is_end {
        if bottom {
            "| "
        } else {
            "' "
        }
    } else {
        "| "
    }
}


/// A terminal colour: the terminal's own, dark grey, or one given by its
/// parts.
#[derive(Clone, Copy, PartialEq, Eq, Structural, Debug)]
pub enum Color {
    Reset,
    DarkGrey,
    Rgb { r: u8, g: u8, b: u8 },
}

/// A foreground and a background, each set or left as it is.
#[derive(Clone, Copy, Debug)]
pub struct Colors {
    pub foreground: Option<Color>,
    pub background: Option<Color>,
}

impl Colors {
    pub open spec fn of(foreground: Color, background: Color) -> Colors {
        Colors { foreground: Some(foreground), background: Some(background) }
    }

    /// Both colours set.
    pub fn new(foreground: Color, background: Color) -> (c: Colors)
        ensures
            c == Colors::of(foreground, background),
    {
        Colors { foreground: Some(foreground), background: Some(background) }
    }
}

/// One cell of the grid: its glyph, whether it is underlined, and its colours.
#[derive(Clone, Copy, Debug)]
pub struct Cell {
    pub char: Option<char>,
    pub underline: bool,
    pub colors: Option<Colors>,
}

impl Cell {
    /// A cell that shows nothing.
    pub open spec fn blank() -> Cell {
        Cell { char: None, underline: false, colors: None }
    }
}

impl Default for Cell {
    fn default() -> (c: Cell)
        ensures
            c == Cell::blank(),
    {
        Cell { char: None, underline: false, colors: None }
    }
}

/// The grid that a frame is drawn on, row by row.
pub struct Screen {
    pub cells: Vec<Vec<Cell>>,
}

/// The rows of a grid as sequences of cells.
pub open spec fn grid_view(cells: Seq<Vec<Cell>>) -> Seq<Seq<Cell>> {
    Seq::new(cells.len(), |i: int| cells[i]@)
}

impl View for Screen {
    type V = Seq<Seq<Cell>>;

    open spec fn view(&self) -> Seq<Seq<Cell>> {
        grid_view(self.cells@)
    }
}

/// A row of `columns` blank cells.
pub open spec fn blank_row(columns: int) -> Seq<Cell> {
    Seq::new(columns as nat, |j: int| Cell::blank())
}

/// A grid of `rows` rows of `columns` blank cells.
pub open spec fn blank_grid(columns: int, rows: int) -> Seq<Seq<Cell>> {
    Seq::new(rows as nat, |i: int| blank_row(columns))
}

/// The grid with every cell blank.
pub open spec fn cleared(grid: Seq<Seq<Cell>>) -> Seq<Seq<Cell>> {
    Seq::new(grid.len(), |i: int| blank_row(grid[i].len() as int))
}

/// `row` cut or filled up with blank cells to `columns` cells.
pub open spec fn resized_row(row: Seq<Cell>, columns: int) -> Seq<Cell> {
    Seq::new(
        columns as nat,
        |j: int|
            if j < row.len() {
                row[j]
            } else {
                Cell::blank()
            },
    )
}

/// The grid cut or filled up to `rows` rows of `columns` cells: a row that
/// stays keeps the cells that stay.
pub open spec fn resized(grid: Seq<Seq<Cell>>, columns: int, rows: int) -> Seq<Seq<Cell>> {
    Seq::new(
        rows as nat,
        |i: int|
            if i < grid.len() {
                resized_row(grid[i], columns)
            } else {
                blank_row(columns)
            },
    )
}

/// How many of `len` characters a print at `(x, y)` writes: those that fall on
/// the row, where the row and the first column exist.
pub open spec fn printed_count(grid: Seq<Seq<Cell>>, x: int, y: int, len: int) -> int {
    if 0 <= y < grid.len() && 0 <= x < grid[y].len() {
        if len <= grid[y].len() - x {
            len
        } else {
            grid[y].len() - x
        }
    } else {
        0
    }
}

/// The grid after `text` was printed from `(x, y)` rightwards, as far as the
/// row reaches.
pub open spec fn printed(
    grid: Seq<Seq<Cell>>,
    x: int,
    y: int,
    text: Seq<char>,
    underline: bool,
    colors: Option<Colors>,
) -> Seq<Seq<Cell>> {
    let n = printed_count(grid, x, y, text.len() as int);
    if n <= 0 {
        grid
    } else {
        grid.update(
            y,
            Seq::new(
                grid[y].len(),
                |j: int|
                    if x <= j < x + n {
                        Cell { char: Some(text[j - x]), underline, colors }
                    } else {
                        grid[y][j]
                    },
            ),
        )
    }
}

/// The first `n` characters of `text`, or all of it.
pub open spec fn take_up_to(text: Seq<char>, n: int) -> Seq<char> {
    if n <= 0 {
        Seq::empty()
    } else if n >= text.len() {
        text
    } else {
        text.take(n)
    }
}

/// `text` without its first `n` characters, or nothing.
pub open spec fn skip_up_to(text: Seq<char>, n: int) -> Seq<char> {
    if n <= 0 {
        text
    } else if n >= text.len() {
        Seq::empty()
        } else {
        text.skip(n)
    }
}

/// The screen column at which a print that starts at column `sx` shows its
/// first character: `sx` itself for a ghost print, else the first column
/// from `sx` on that lies in the viewport and on the screen.
pub open spec fn first_column(rt: RuntimeView, sx: int, fake: bool) -> int {
    if fake {
        sx
    } else if sx >= rt.viewport.x_min && sx >= 0 {
        sx
    } else if rt.viewport.x_min >= 0 {
        rt.viewport.x_min as int
    } else {
        0
    }
}

/// The part of `text` that a print at the screen cell `(sx, sy)` shows. A
/// ghost print is cut only at the window's right edge. Any other print shows
/// the characters that fall on a column of the viewport, on a row of the
/// viewport.
pub open spec fn clipped(rt: RuntimeView, sx: int, sy: int, text: Seq<char>, fake: bool) -> Seq<char> {
    if fake {
        take_up_to(text, rt.window_cols - sx)
    } else if sy < rt.viewport.y_min || sy >= rt.viewport.y_max {
        Seq::empty()
    } else {
        skip_up_to(take_up_to(text, rt.viewport.x_max - sx), first_column(rt, sx, fake) - sx)
    }
}

/// The grid after `text` was printed at the canvas cell `(x, y)`, clipped;
/// the overflow error where the cell's place on the screen leaves the 32-bit
/// range.
pub open spec fn printed_in_view(
    grid: Seq<Seq<Cell>>,
    rt: RuntimeView,
    x: i32,
    y: i32,
    text: Seq<char>,
    colors: Colors,
    underline: bool,
    fake: bool,
) -> (Seq<Seq<Cell>>, Result<(), ViiruError>) {
    match (sum(x as int, -(rt.scroll_x as int)), sum(y as int, -(rt.scroll_y as int))) {
        (Ok(sx), Ok(sy)) => (
            printed(
                grid,
                first_column(rt, sx as int, fake),
                sy as int,
                clipped(rt, sx as int, sy as int, text, fake),
                underline,
                Some(colors),
            ),
            Ok(()),
        ),
        _ => (grid, Err(ViiruError::Overflow)),
    }
}

/// A print that is no ghost changes the cells of the viewport that the text
/// falls on, and no others: the cell in column `c` of the text's row, where
/// that row is a row of the viewport and `c` a column of the viewport with a
/// character of the text on it, then holds that character.
pub proof fn lemma_printed_in_view(
    grid: Seq<Seq<Cell>>,
    rt: RuntimeView,
    x: i32,
    y: i32,
    text: Seq<char>,
    colors: Colors,
    underline: bool,
    r: int,
    c: int,
)
    requires
        printed_in_view(grid, rt, x, y, text, colors, underline, false).1 is Ok,
        0 <= r < grid.len(),
        0 <= c < grid[r].len(),
    ensures
        ({
            let after = printed_in_view(grid, rt, x, y, text, colors, underline, false).0;
            let sx = x - rt.scroll_x;
            let sy = y - rt.scroll_y;
            &&& after.len() == grid.len()
            &&& after[r].len() == grid[r].len()
            &&& after[r][c] == if r == sy && rt.viewport.y_min <= sy < rt.viewport.y_max
                && rt.viewport.x_min <= c < rt.viewport.x_max && sx <= c < sx + text.len() {
                Cell { char: Some(text[c - sx]), underline, colors: Some(colors) }
            } else {
                grid[r][c]
            }
        }),
{
    let sx = x - rt.scroll_x;
    let sy = y - rt.scroll_y;
    let lo = first_column(rt, sx, false);
    let shown = clipped(rt, sx, sy, text, false);
    let n = printed_count(grid, lo, sy, shown.len() as int);
    if rt.viewport.y_min <= sy < rt.viewport.y_max {
        let cut = take_up_to(text, rt.viewport.x_max - sx);
        assert(shown == skip_up_to(cut, lo - sx));
        if r == sy && lo <= c < lo + n {
            assert(shown[c - lo] == text[c - sx]);
        }
    }
}

/// A row of `columns` blank cells.
fn make_row(columns: usize) -> (row: Vec<Cell>)
    ensures
        row@ == blank_row(columns as int),
{
    let mut row: Vec<Cell> = Vec::new();
    let mut j: usize = 0;
    while j < columns
        invariant
            j <= columns,
            row@.len() == j,
            forall|k: int| 0 <= k < j ==> row@[k] == Cell::blank(),
        decreases columns - j,
    {
        row.push(Cell::default());
        j += 1;
    }
    assert(row@ =~= blank_row(columns as int));
    row
}

impl Screen {
    /// A blank grid of `rows` rows of `columns` cells.
    pub fn new(columns: u16, rows: u16) -> (s: Screen)
        ensures
            s@ == blank_grid(columns as int, rows as int),
    {
        let mut cells: Vec<Vec<Cell>> = Vec::new();
        let mut i: usize = 0;
        while i < rows as usize
            invariant
                i <= rows,
                cells@.len() == i,
                forall|k: int| 0 <= k < i ==> (#[trigger] cells@[k])@ == blank_row(columns as int),
            decreases rows - i,
        {
            cells.push(make_row(columns as usize));
            i += 1;
        }
        let s = Screen { cells };
        assert(s@ =~= blank_grid(columns as int, rows as int));
        s
    }

    /// Blanks every cell.
    pub fn clear(&mut self)
        ensures
            final(self)@ == cleared(old(self)@),
    {
        let mut i: usize = 0;
        while i < self.cells.len()
            invariant
                i <= self.cells.len(),
                self.cells@.len() == old(self).cells@.len(),
                forall|k: int|
                    0 <= k < i ==> (#[trigger] self.cells@[k])@ == blank_row(
                        old(self).cells@[k]@.len() as int,
                    ),
                forall|k: int|
                    i <= k < self.cells@.len() ==> (#[trigger] self.cells@[k])@ == old(
                        self,
                    ).cells@[k]@,
            decreases self.cells.len() - i,
        {
            let n = self.cells[i].len();
            self.cells[i] = make_row(n);
            i += 1;
        }
        assert(self@ =~= cleared(old(self)@));
    }

    /// Cuts or fills up the grid to `rows` rows of `columns` cells.
    pub fn resize(&mut self, columns: u16, rows: u16)
        ensures
            final(self)@ == resized(old(self)@, columns as int, rows as int),
    {
        let mut cells: Vec<Vec<Cell>> = Vec::new();
        let mut i: usize = 0;
        while i < rows as usize
            invariant
                i <= rows,
                *self == *old(self),
                cells@.len() == i,
                forall|k: int|
                    0 <= k < i ==> (#[trigger] cells@[k])@ == resized(
                        old(self)@,
                        columns as int,
                        rows as int,
                    )[k],
            decreases rows - i,
        {
            if i < self.cells.len() {
                let mut row: Vec<Cell> = Vec::new();
                let mut j: usize = 0;
                while j < columns as usize
                    invariant
                        j <= columns,
                        i < self.cells.len(),
                        row@.len() == j,
                        forall|k: int|
                            0 <= k < j ==> row@[k] == resized_row(
                                self.cells@[i as int]@,
                                columns as int,
                            )[k],
                    decreases columns - j,
                {
                    if j < self.cells[i].len() {
                        row.push(self.cells[i][j]);
                    } else {
                        row.push(Cell::default());
                    }
                    j += 1;
                }
                assert(row@ =~= resized_row(self.cells@[i as int]@, columns as int));
                cells.push(row);
            } else {
                cells.push(make_row(columns as usize));
            }
            i += 1;
        }
        self.cells = cells;
        assert(self@ =~= resized(old(self)@, columns as int, rows as int));
    }

    /// Prints the characters `from..to` of `chars` from `(x, y)` rightwards,
    /// as far as the row reaches; says whether all of them were printed.
    fn print_chars(
        &mut self,
        x: i64,
        y: i64,
        chars: &Vec<char>,
        from: usize,
        to: usize,
        underline: bool,
        colors: Option<Colors>,
    ) -> (done: bool)
        requires
            from <= to <= chars.len(),
        ensures
            final(self)@ == printed(
                old(self)@,
                x as int,
                y as int,
                chars@.subrange(from as int, to as int),
                underline,
                colors,
            ),
            done == (printed_count(old(self)@, x as int, y as int, to - from) == to - from),
    {
        let ghost text = chars@.subrange(from as int, to as int);
        if y < 0 || x < 0 || y as u64 >= self.cells.len() as u64 {
            return to == from;
        }
        let row = y as usize;
        let width = self.cells[row].len();
        if x as u64 >= width as u64 {
            return to == from;
        }
        let first = x as usize;
        let ghost n = printed_count(old(self)@, x as int, y as int, to - from);
        let mut k: usize = 0;
        while k < to - from && first + k < width
            invariant
                from <= to <= chars.len(),
                text == chars@.subrange(from as int, to as int),
                first == x,
                first < width,
                row == y,
                row < self.cells.len(),
                self.cells@.len() == old(self).cells@.len(),
                width == self.cells@[row as int]@.len(),
                width == old(self).cells@[row as int]@.len(),
                k <= to - from,
                x + k <= width,
                forall|i: int|
                    0 <= i < self.cells@.len() && i != row ==> self.cells@[i] == old(
                        self,
                    ).cells@[i],
                forall|j: int|
                    0 <= j < width ==> self.cells@[row as int]@[j] == if x <= j < x + k {
                        Cell { char: Some(text[j - x]), underline, colors }
                    } else {
                        old(self).cells@[row as int]@[j]
                    },
            decreases width - first - k,
        {
            let c = chars[from + k];
            assert(c == text[k as int]);
            let at = first + k;
            self.cells[row][at] = Cell { char: Some(c), underline, colors };
            k += 1;
        }
        proof {
            assert(k == n);
            if n > 0 {
                assert(self@[row as int] =~= Seq::new(
                    old(self)@[y as int].len(),
                    |j: int|
                        if x <= j < x + n {
                            Cell { char: Some(text[j - x]), underline, colors }
                        } else {
                            old(self)@[y as int][j]
                        },
                ));
            } else {
                assert(self@[row as int] =~= old(self)@[row as int]);
            }
            assert(self@ =~= printed(old(self)@, x as int, y as int, text, underline, colors));
        }
        k == to - from
    }

    /// Prints `s` from `(x, y)` rightwards, as far as the row reaches.
    /// Returns `None` where a character fell off the grid.
    pub fn print(&mut self, x: i32, y: i32, s: &str, underline: bool, colors: Option<Colors>) -> (r:
        Option<()>)
        ensures
            final(self)@ == printed(old(self)@, x as int, y as int, s@, underline, colors),
            r is Some <==> printed_count(old(self)@, x as int, y as int, s@.len() as int)
                == s@.len(),
    {
        let chars = chars_of(s);
        assert(chars@.subrange(0, chars@.len() as int) =~= s@);
        if self.print_chars(x as i64, y as i64, &chars, 0, chars.len(), underline, colors) {
            Some(())
        } else {
            None
        }
    }

    /// Prints `chars` at the canvas cell `(x, y)`, clipped.
    pub fn print_chars_in_view(
        &mut self,
        runtime: &Runtime,
        x: i32,
        y: i32,
        chars: &Vec<char>,
        colors: Colors,
        underline: bool,
        fake: bool,
    ) -> (r: Result<(), ViiruError>)
        ensures
            (final(self)@, r) == printed_in_view(
                old(self)@,
                runtime@,
                x,
                y,
                chars@,
                colors,
                underline,
                fake,
            ),
    {
        let sx = minus(x, runtime.scroll_x);
        let sy = minus(y, runtime.scroll_y);
        let (sx, sy) = match (sx, sy) {
            (Ok(sx), Ok(sy)) => (sx, sy),
            _ => {
                return Err(ViiruError::Overflow);
            },
        };
        let len = chars.len();
        let lo: i64 = if fake || (sx >= runtime.viewport.x_min && sx >= 0) {
            sx as i64
        } else if runtime.viewport.x_min >= 0 {
            runtime.viewport.x_min as i64
        } else {
            0
        };
        let (from, to): (usize, usize) = if fake {
            let room: i64 = runtime.window_cols as i64 - sx as i64;
            if room <= 0 {
                (0, 0)
            } else if room as u64 >= len as u64 {
                (0, len)
            } else {
                (0, room as usize)
            }
        } else if sy < runtime.viewport.y_min || sy >= runtime.viewport.y_max {
            (0, 0)
        } else {
            let room: i64 = runtime.viewport.x_max as i64 - sx as i64;
            let to: usize = if room <= 0 {
                0
            } else if room as u64 >= len as u64 {
                len
            } else {
                room as usize
            };
            let hidden: i64 = lo - sx as i64;
            if hidden as u64 >= to as u64 {
                (to, to)
            } else {
                (hidden as usize, to)
            }
        };
        proof {
            assert(lo == first_column(runtime@, sx as int, fake));
            assert(chars@.subrange(from as int, to as int) =~= clipped(
                runtime@,
                sx as int,
                sy as int,
                chars@,
                fake,
            ));
        }
        let _ = self.print_chars(lo, sy as i64, chars, from, to, underline, Some(colors));
        Ok(())
    }

    /// Prints `text` at the canvas cell `(x, y)`, clipped to the viewport or,
    /// for a ghost print, to the window.
    pub fn print_in_view(
        &mut self,
        runtime: &Runtime,
        x: i32,
        y: i32,
        text: &str,
        colors: Colors,
        underline: bool,
        fake: bool,
    ) -> (r: Result<(), ViiruError>)
        ensures
            (final(self)@, r) == printed_in_view(
                old(self)@,
                runtime@,
                x,
                y,
                text@,
                colors,
                underline,
                fake,
            ),
    {
        let chars = chars_of(text);
        self.print_chars_in_view(runtime, x, y, &chars, colors, underline, fake)
    }
}


/// Where a block's next fragment goes, relative to the block's anchor, and
/// how wide the block has grown.
#[derive(Clone, Copy, Debug)]
pub struct Pen {
    pub dx: i32,
    pub dy: i32,
    pub max_width: i32,
    /// Whether the line under way ends without a right edge.
    pub skip_padding: bool,
}

/// What a layout pass writes: the grid and the indexes.
#[verifier::ext_equal]
pub struct Canvas {
    pub grid: Seq<Seq<Cell>>,
    pub acc: AccumulatorsView,
}

/// What a step of a layout pass leaves: the canvas, and the result or the
/// error.
pub type Drawn<T> = (Canvas, Result<T, ViiruError>);

pub open spec fn rgb(c: (u8, u8, u8)) -> Color {
    Color::Rgb { r: c.0, g: c.1, b: c.2 }
}

/// The colours of a block's own cells.
pub open spec fn block_colors(sp: SpecView) -> Colors {
    Colors::of(rgb(sp.text_color), rgb(sp.block_color))
}

/// The colours of an empty slot.
pub open spec fn alt_colors(sp: SpecView) -> Colors {
    Colors::of(rgb(sp.text_color), rgb(sp.alt_color))
}

/// The colours of the flag icon.
pub open spec fn flag_colors(sp: SpecView) -> Colors {
    Colors::of(Color::Rgb { r: 0x6d, g: 0xbf, b: 0x63 }, rgb(sp.block_color))
}

/// The colours of a swatch whose field holds `text`: the colour that the
/// text writes after its first character, as background; the terminal's own
/// where it writes none.
pub open spec fn swatch_colors(text: Seq<char>) -> Colors {
    Colors::of(
        Color::Reset,
        if text.len() > 0 && is_radix16_u32(text.skip(1)) {
            rgb(rgb_of_bits(hex_value(radix16_digits(text.skip(1)))))
        } else {
            Color::Reset
        },
    )
}

/// The number of cells that `text` takes.
pub open spec fn width_of(text: Seq<char>) -> Result<i32, ViiruError> {
    if text.len() <= i32::MAX {
        Ok(text.len() as i32)
    } else {
        Err(ViiruError::Overflow)
    }
}

/// `n` blanks; none where `n` is not positive.
pub open spec fn spaces(n: int) -> Seq<char> {
    Seq::new(
        if n > 0 {
            n as nat
        } else {
            0
        },
        |i: int| ' ',
    )
}

/// The greater of two widths.
pub open spec fn wider(a: i32, b: i32) -> i32 {
    if a >= b {
        a
    } else {
        b
    }
}

/// The left edge of an expression block.
pub open spec fn left_delimiter(shape: Shape) -> Seq<char> {
    if shape == Shape::Hexagon {
        "<"@
    } else {
        "("@
    }
}

/// The right edge of a block's line.
pub open spec fn right_delimiter(shape: Shape) -> Seq<char> {
    match shape {
        Shape::Circle => ")"@,
        Shape::Hexagon => ">"@,
        Shape::Stack => " "@,
    }
}

/// The input `name` of the block; one that holds nothing where the block
/// has no such input.
pub open spec fn input_or_empty(b: BlockView, name: Seq<char>) -> InputView {
    if b.has_input(name) {
        b.input(name)
    } else {
        empty_input()
    }
}

/// The text of the field `name` of the block; empty where the block has no
/// such field.
pub open spec fn field_text(b: BlockView, name: Seq<char>) -> Seq<char> {
    if b.has_field(name) {
        b.field(name).text
    } else {
        Seq::empty()
    }
}

/// Whether a layout pass with `depth` levels left descends into block `id`:
/// the graph holds it and its opcode has a template.
pub open spec fn drawable(rt: RuntimeView, id: Seq<char>, depth: nat) -> bool {
    depth > 0 && rt.contains(id) && rt.has_spec(rt.block(id).opcode)
}

/// `pen` moved right by `w` cells.
pub open spec fn advance(pen: Pen, w: i32, widen: bool) -> Result<Pen, ViiruError> {
    match sum(pen.dx as int, w as int) {
        Ok(dx) => Ok(
            Pen {
                dx,
                max_width: if widen {
                    wider(pen.max_width, dx)
                } else {
                    pen.max_width
                },
                ..pen
            },
        ),
        Err(e) => Err(e),
    }
}

impl Canvas {
    /// The canvas with a row registered for `id`, as editing it or as
    /// grabbing it.
    pub open spec fn row(self, id: Seq<char>, x: i32, y: i32, w: i32, writable: bool) -> Canvas {
        Canvas {
            acc: if writable {
                self.acc.add_writable_row(id, x, y, w)
            } else {
                self.acc.add_grab_row(id, x, y, w)
            },
            ..self
        }
    }

    pub open spec fn drop_point(
        self,
        x: i32,
        y: i32,
        shape: Shape,
        id: Seq<char>,
        input: Option<Seq<char>>,
    ) -> Canvas {
        Canvas { acc: self.acc.add_drop_point(x, y, shape, id, input), ..self }
    }

    pub open spec fn offset(self, id: Seq<char>, dx: i32, dy: i32) -> Canvas {
        Canvas { acc: self.acc.mark_block_offset(id, dx, dy), ..self }
    }

    /// The canvas after `text` was printed at `(px, py)` and its cells were
    /// registered for `id` from `(rx, py)` on; and the width of the text.
    pub open spec fn put(
        self,
        rt: RuntimeView,
        id: Seq<char>,
        px: i32,
        rx: i32,
        py: i32,
        text: Seq<char>,
        colors: Colors,
        underline: bool,
        fake: bool,
        writable: bool,
    ) -> Drawn<i32> {
        match width_of(text) {
            Err(e) => (self, Err(e)),
            Ok(w) => {
                let p = printed_in_view(self.grid, rt, px, py, text, colors, underline, fake);
                match p.1 {
                    Err(e) => (Canvas { grid: p.0, ..self }, Err(e)),
                    Ok(_) => (Canvas { grid: p.0, ..self }.row(id, rx, py, w, writable), Ok(w)),
                }
            },
        }
    }

    /// The canvas after `text` was printed and registered where the pen
    /// stands; and the pen moved past it.
    pub open spec fn write(
        self,
        rt: RuntimeView,
        id: Seq<char>,
        x: i32,
        y: i32,
        pen: Pen,
        text: Seq<char>,
        colors: Colors,
        underline: bool,
        fake: bool,
        writable: bool,
        widen: bool,
    ) -> Drawn<Pen> {
        match (sum(x as int, pen.dx as int), sum(y as int, pen.dy as int)) {
            (Ok(px), Ok(py)) => {
                let p = self.put(rt, id, px, px, py, text, colors, underline, fake, writable);
                match p.1 {
                    Err(e) => (p.0, Err(e)),
                    Ok(w) => (p.0, advance(pen, w, widen)),
                }
            },
            _ => (self, Err(ViiruError::Overflow)),
        }
    }

    /// The canvas after the left edge of the parent of a stack slot was
    /// continued over the rows `r..=h` below `base`.
    pub open spec fn connectors(
        self,
        rt: RuntimeView,
        id: Seq<char>,
        x: i32,
        base: i32,
        r: int,
        h: i32,
        colors: Colors,
        fake: bool,
    ) -> Drawn<()>
        decreases h - r + 1,
    {
        if r < 1 || r > h {
            (self, Ok(()))
        } else {
            match sum(base as int, r) {
                Err(e) => (self, Err(e)),
                Ok(py) => {
                    let p = self.put(rt, id, x, x, py, "| "@, colors, false, fake, false);
                    match p.1 {
                        Err(e) => (p.0, Err(e)),
                        Ok(_) => p.0.connectors(rt, id, x, base, r + 1, h, colors, fake),
                    }
                },
            }
        }
    }

    /// The canvas after block `id` was laid out with its anchor at
    /// `(x, y)`, and the block's extent: its height for a stack block, else
    /// its width. Below `depth` levels nothing more is drawn. A block that
    /// the graph does not hold, or whose opcode has no template, is not
    /// drawn and has no extent.
    pub open spec fn draw_block(
        self,
        rt: RuntimeView,
        id: Seq<char>,
        x: i32,
        y: i32,
        fake: bool,
        depth: nat,
    ) -> Drawn<i32>
        decreases depth, rt.spec_of(rt.block(id).opcode).lines.len() + 1, 0nat, 0nat,
    {
        if !rt.contains(id) || !rt.has_spec(rt.block(id).opcode) {
            (self, Ok(0))
        } else {
            let b = rt.block(id);
            let sp = rt.spec_of(b.opcode);
            let start = Pen {
                dx: 0,
                dy: if sp.is_hat {
                    1
                } else {
                    0
                },
                max_width: 0,
                skip_padding: false,
            };
            let body = self.draw_lines(rt, id, x, y, fake, depth, 0, start);
            match body.1 {
                Err(e) => (body.0, Err(e)),
                Ok(pen) => {
                    let hat = if sp.is_hat {
                        body.0.put(
                            rt,
                            id,
                            x,
                            x,
                            y,
                            spaces(pen.max_width as int),
                            block_colors(sp),
                            false,
                            fake,
                            false,
                        )
                    } else {
                        (body.0, Ok(0))
                    };
                    match hat.1 {
                        Err(e) => (hat.0, Err(e)),
                        Ok(_) => if sp.shape == Shape::Stack {
                            hat.0.draw_tail(rt, id, x, y, fake, depth, pen)
                        } else {
                            (hat.0, Ok(pen.max_width))
                        },
                    }
                },
            }
        }
    }

    /// The canvas after the drop point below a stack block was registered
    /// and the block after it was laid out there; and the height of both.
    pub open spec fn draw_tail(
        self,
        rt: RuntimeView,
        id: Seq<char>,
        x: i32,
        y: i32,
        fake: bool,
        depth: nat,
        pen: Pen,
    ) -> Drawn<i32>
        decreases depth, 0nat, 0nat, 0nat,
    {
        match sum(y as int, pen.dy as int) {
            Err(e) => (self, Err(e)),
            Ok(below) => {
                let marked = self.drop_point(x, below, Shape::Stack, id, None);
                match rt.block(id).next_id {
                    Some(n) => {
                        let noted = marked.offset(n, 0, pen.dy);
                        if drawable(rt, n, depth) {
                            let sub = noted.draw_block(rt, n, x, below, fake, (depth - 1) as nat);
                            match sub.1 {
                                Err(e) => (sub.0, Err(e)),
                                Ok(h) => (sub.0, sum(pen.dy as int, h as int)),
                            }
                        } else {
                            (noted, Ok(pen.dy))
                        }
                    },
                    None => (marked, Ok(pen.dy)),
                }
            },
        }
    }

    /// The canvas after the lines from `l` on were laid out; and where the
    /// pen ends.
    pub open spec fn draw_lines(
        self,
        rt: RuntimeView,
        id: Seq<char>,
        x: i32,
        y: i32,
        fake: bool,
        depth: nat,
        l: int,
        pen: Pen,
    ) -> Drawn<Pen>
        decreases depth, rt.spec_of(rt.block(id).opcode).lines.len() - l, 2nat, 0nat,
    {
        let b = rt.block(id);
        let sp = rt.spec_of(b.opcode);
        if l < 0 || l >= sp.lines.len() {
            (self, Ok(pen))
        } else {
            match sum(y as int, pen.dy as int) {
                Err(e) => (self, Err(e)),
                Ok(py) => {
                    let stack = sp.shape == Shape::Stack;
                    let edge = if stack {
                        alignment_point_text(
                            b.parent_id is Some,
                            b.next_id is Some,
                            l == 0,
                            l == sp.lines.len() - 1,
                        )
                    } else {
                        left_delimiter(sp.shape)
                    };
                    let p = self.put(
                        rt,
                        id,
                        x,
                        x,
                        py,
                        edge,
                        block_colors(sp),
                        !stack || l == sp.lines.len() - 1,
                        fake,
                        !stack && sp.is_shadow,
                    );
                    match p.1 {
                        Err(e) => (p.0, Err(e)),
                        Ok(w) => match advance(pen, w, true) {
                            Err(e) => (p.0, Err(e)),
                            Ok(next) => p.0.draw_frags(rt, id, x, y, fake, depth, l, 0, next),
                        },
                    }
                },
            }
        }
    }

    /// The canvas after the fragments from `f` on of line `l`, the end of
    /// that line and the lines after it were laid out.
    pub open spec fn draw_frags(
        self,
        rt: RuntimeView,
        id: Seq<char>,
        x: i32,
        y: i32,
        fake: bool,
        depth: nat,
        l: int,
        f: int,
        pen: Pen,
    ) -> Drawn<Pen>
        decreases depth, rt.spec_of(rt.block(id).opcode).lines.len() - l, 1nat, rt.spec_of(
            rt.block(id).opcode,
        ).lines[l].len() - f,
    {
        let sp = rt.spec_of(rt.block(id).opcode);
        if l < 0 || l >= sp.lines.len() {
            (self, Ok(pen))
        } else if f < 0 || f >= sp.lines[l].len() {
            self.end_line(rt, id, x, y, fake, depth, l, pen)
        } else {
            let one = self.draw_frag(rt, id, x, y, fake, depth, sp.lines[l][f], pen);
            match one.1 {
                Err(e) => (one.0, Err(e)),
                Ok(next) => one.0.draw_frags(rt, id, x, y, fake, depth, l, f + 1, next),
            }
        }
    }

    /// The canvas after line `l` got its right edge, unless it ends without
    /// one, and the lines after it were laid out.
    pub open spec fn end_line(
        self,
        rt: RuntimeView,
        id: Seq<char>,
        x: i32,
        y: i32,
        fake: bool,
        depth: nat,
        l: int,
        pen: Pen,
    ) -> Drawn<Pen>
        decreases depth, rt.spec_of(rt.block(id).opcode).lines.len() - l, 0nat, 0nat,
    {
        let sp = rt.spec_of(rt.block(id).opcode);
        if l < 0 || l >= sp.lines.len() {
            (self, Ok(pen))
        } else {
            let stack = sp.shape == Shape::Stack;
            let padded = if pen.skip_padding {
                (self, Ok(pen))
            } else {
                self.write(
                    rt,
                    id,
                    x,
                    y,
                    pen,
                    right_delimiter(sp.shape),
                    block_colors(sp),
                    true,
                    fake,
                    !stack && sp.is_shadow,
                    true,
                )
            };
            match padded.1 {
                Err(e) => (padded.0, Err(e)),
                Ok(p) => if stack {
                    match sum(p.dy as int, 1) {
                        Err(e) => (padded.0, Err(e)),
                        Ok(dy) => padded.0.draw_lines(
                            rt,
                            id,
                            x,
                            y,
                            fake,
                            depth,
                            l + 1,
                            Pen { dx: 0, dy, skip_padding: false, ..p },
                        ),
                    }
                } else {
                    padded.0.draw_lines(
                        rt,
                        id,
                        x,
                        y,
                        fake,
                        depth,
                        l + 1,
                        Pen { skip_padding: false, ..p },
                    )
                },
            }
        }
    }

    /// The canvas after a value or boolean slot was laid out where the pen
    /// stands: its drop point, and the block `child` in it or, where there is
    /// none to draw, the placeholder `empty`.
    pub open spec fn draw_slot(
        self,
        rt: RuntimeView,
        id: Seq<char>,
        x: i32,
        y: i32,
        fake: bool,
        depth: nat,
        pen: Pen,
        shape: Shape,
        name: Seq<char>,
        child: Option<Seq<char>>,
        empty: Seq<char>,
    ) -> Drawn<Pen>
        decreases depth, 0nat, 0nat, 1nat,
    {
        match (sum(x as int, pen.dx as int), sum(y as int, pen.dy as int)) {
            (Ok(px), Ok(py)) => {
                let marked = self.drop_point(px, py, shape, id, Some(name));
                if child is Some && drawable(rt, child->0, depth) {
                    let sub = marked.draw_block(rt, child->0, px, py, fake, (depth - 1) as nat);
                    match sub.1 {
                        Err(e) => (sub.0, Err(e)),
                        Ok(w) => (sub.0.offset(child->0, pen.dx, pen.dy), advance(pen, w, true)),
                    }
                } else {
                    marked.write(
                        rt,
                        id,
                        x,
                        y,
                        pen,
                        empty,
                        alt_colors(rt.spec_of(rt.block(id).opcode)),
                        true,
                        fake,
                        false,
                        true,
                    )
                }
            },
            _ => (self, Err(ViiruError::Overflow)),
        }
    }

    /// The canvas after a stack slot was laid out: its drop point two cells
    /// in, the block `child` there, and the parent's left edge continued
    /// beside every row of it but the first.
    pub open spec fn draw_substack(
        self,
        rt: RuntimeView,
        id: Seq<char>,
        x: i32,
        y: i32,
        fake: bool,
        depth: nat,
        pen: Pen,
        name: Seq<char>,
        child: Option<Seq<char>>,
    ) -> Drawn<Pen>
        decreases depth, 0nat, 0nat, 1nat,
    {
        match (sum(x as int, 2), sum(y as int, pen.dy as int)) {
            (Ok(px), Ok(py)) => {
                let marked = self.drop_point(px, py, Shape::Stack, id, Some(name));
                let done = Pen { skip_padding: true, ..pen };
                if child is Some && drawable(rt, child->0, depth) {
                    let sub = marked.draw_block(rt, child->0, px, py, fake, (depth - 1) as nat);
                    match sub.1 {
                        Err(e) => (sub.0, Err(e)),
                        Ok(height) => match sum(height as int, -1) {
                            Err(e) => (sub.0, Err(e)),
                            Ok(h) => {
                                let edged = sub.0.offset(child->0, 2, pen.dy).connectors(
                                    rt,
                                    id,
                                    x,
                                    py,
                                    1,
                                    h,
                                    block_colors(rt.spec_of(rt.block(id).opcode)),
                                    fake,
                                );
                                match edged.1 {
                                    Err(e) => (edged.0, Err(e)),
                                    Ok(_) => match sum(pen.dy as int, h as int) {
                                        Err(e) => (edged.0, Err(e)),
                                        Ok(dy) => (edged.0, Ok(Pen { dy, ..done })),
                                    },
                                }
                            },
                        },
                    }
                } else {
                    (marked, Ok(done))
                }
            },
            _ => (self, Err(ViiruError::Overflow)),
        }
    }

    /// The canvas after one fragment was laid out where the pen stands.
    pub open spec fn draw_frag(
        self,
        rt: RuntimeView,
        id: Seq<char>,
        x: i32,
        y: i32,
        fake: bool,
        depth: nat,
        frag: FragmentView,
        pen: Pen,
    ) -> Drawn<Pen>
        decreases depth, 0nat, 0nat, 2nat,
    {
        let b = rt.block(id);
        let sp = rt.spec_of(b.opcode);
        let own = block_colors(sp);
        match frag {
            FragmentView::Text(t) => self.write(rt, id, x, y, pen, t, own, true, fake, false, true),
            FragmentView::StrumberInput(name, _) => self.draw_slot(
                rt,
                id,
                x,
                y,
                fake,
                depth,
                pen,
                Shape::Circle,
                name,
                input_or_empty(b, name).topmost(),
                "()"@,
            ),
            FragmentView::BooleanInput(name) => self.draw_slot(
                rt,
                id,
                x,
                y,
                fake,
                depth,
                pen,
                Shape::Hexagon,
                name,
                input_or_empty(b, name).topmost(),
                "<>"@,
            ),
            FragmentView::BlockInput(name) => self.draw_substack(
                rt,
                id,
                x,
                y,
                fake,
                depth,
                pen,
                name,
                input_or_empty(b, name).block_id,
            ),
            FragmentView::Dropdown(field, _) => self.write(
                rt,
                id,
                x,
                y,
                pen,
                seq!['['] + field + seq![']'],
                own,
                true,
                fake,
                false,
                false,
            ),
            FragmentView::Expander => {
                let p = self.write(
                    rt,
                    id,
                    x,
                    y,
                    pen,
                    spaces(pen.max_width - 1),
                    own,
                    true,
                    fake,
                    false,
                    false,
                );
                match p.1 {
                    Err(e) => (p.0, Err(e)),
                    Ok(_) => (p.0, Ok(Pen { dx: pen.max_width, skip_padding: true, ..pen })),
                }
            },
            FragmentView::AlignmentPoint(name) => match (
                sum(x as int, pen.dx as int),
                sum(y as int, pen.dy as int),
            ) {
                (Ok(px), Ok(py)) => {
                    let p = self.put(
                        rt,
                        id,
                        px,
                        px,
                        py,
                        alignment_point_text(
                            false,
                            input_or_empty(b, name).block_id is Some,
                            true,
                            true,
                        ),
                        own,
                        true,
                        fake,
                        false,
                    );
                    match p.1 {
                        Err(e) => (p.0, Err(e)),
                        Ok(w) => (p.0, advance(pen, w, true)),
                    }
                },
                _ => (self, Err(ViiruError::Overflow)),
            },
            FragmentView::Flag => self.write(
                rt,
                id,
                x,
                y,
                pen,
                "\u{25b8}"@,
                flag_colors(sp),
                true,
                fake,
                false,
                true,
            ),
            FragmentView::Clockwise => self.write(
                rt,
                id,
                x,
                y,
                pen,
                "\u{21bb}"@,
                own,
                true,
                fake,
                false,
                true,
            ),
            FragmentView::Anticlockwise => self.write(
                rt,
                id,
                x,
                y,
                pen,
                "\u{21ba}"@,
                own,
                true,
                fake,
                false,
                true,
            ),
            FragmentView::WritableFieldText(field) => self.write(
                rt,
                id,
                x,
                y,
                pen,
                field_text(b, field),
                own,
                true,
                fake,
                true,
                true,
            ),
            FragmentView::FieldText(field) => self.write(
                rt,
                id,
                x,
                y,
                pen,
                field_text(b, field),
                own,
                true,
                fake,
                false,
                true,
            ),
            FragmentView::CustomColour(field) => self.write(
                rt,
                id,
                x,
                y,
                pen,
                "  "@,
                swatch_colors(field_text(b, field)),
                true,
                fake,
                true,
                true,
            ),
        }
    }
}


/// What a screen and a set of indexes hold together.
pub open spec fn canvas_of(grid: Seq<Seq<Cell>>, acc: AccumulatorsView) -> Canvas {
    Canvas { grid, acc }
}

fn color_of(c: (u8, u8, u8)) -> (r: Color)
    ensures
        r == rgb(c),
{
    Color::Rgb { r: c.0, g: c.1, b: c.2 }
}

fn own_colors(sp: &Spec) -> (c: Colors)
    ensures
        c == block_colors(sp@),
{
    Colors::new(color_of(sp.text_color), color_of(sp.block_color))
}

fn empty_colors(sp: &Spec) -> (c: Colors)
    ensures
        c == alt_colors(sp@),
{
    Colors::new(color_of(sp.text_color), color_of(sp.alt_color))
}

fn icon_colors(sp: &Spec) -> (c: Colors)
    ensures
        c == flag_colors(sp@),
{
    Colors::new(Color::Rgb { r: 0x6d, g: 0xbf, b: 0x63 }, color_of(sp.block_color))
}

fn colors_of_swatch(text: &str) -> (c: Colors)
    ensures
        c == swatch_colors(text@),
{
    let n = text.unicode_len();
    if n == 0 {
        return Colors::new(Color::Reset, Color::Reset);
    }
    let tail = text.substring_char(1, n);
    assert(tail@ =~= text@.skip(1));
    match try_parse_rgb(tail) {
        Some(c) => Colors::new(Color::Reset, color_of(c)),
        None => Colors::new(Color::Reset, Color::Reset),
    }
}

fn blanks(n: i32) -> (r: Vec<char>)
    ensures
        r@ == spaces(n as int),
{
    let count: usize = if n > 0 {
        n as usize
    } else {
        0
    };
    let mut r: Vec<char> = Vec::new();
    let mut k: usize = 0;
    while k < count
        invariant
            k <= count,
            r@.len() == k,
            forall|j: int| 0 <= j < k ==> r@[j] == ' ',
        decreases count - k,
    {
        r.push(' ');
        k += 1;
    }
    assert(r@ =~= spaces(n as int));
    r
}

fn bracketed(field: &str) -> (r: Vec<char>)
    ensures
        r@ == seq!['['] + field@ + seq![']'],
{
    let inner = chars_of(field);
    let mut r: Vec<char> = Vec::new();
    r.push('[');
    let mut k: usize = 0;
    while k < inner.len()
        invariant
            k <= inner.len(),
            r@ == seq!['['] + inner@.take(k as int),
        decreases inner.len() - k,
    {
        r.push(inner[k]);
        assert(inner@.take(k as int + 1) =~= inner@.take(k as int).push(inner@[k as int]));
        assert(r@ =~= seq!['['] + inner@.take(k as int + 1));
        k += 1;
    }
    r.push(']');
    assert(inner@.take(k as int) =~= inner@);
    assert(r@ =~= seq!['['] + field@ + seq![']']);
    r
}

/// The input `name` of the block: the block that a slot shows, and the real
/// block.
fn input_of(block: &Block, name: &str) -> (r: (Option<String>, Option<String>))
    ensures
        opt_text(r.0) == input_or_empty(block@, name@).topmost(),
        opt_text(r.1) == input_or_empty(block@, name@).block_id,
{
    let k = position(&block.inputs, name);
    proof {
        assert(keys(block.inputs@) =~= block@.input_names());
    }
    if k >= block.inputs.len() {
        return (None, None);
    }
    let input = &block.inputs[k].1;
    let actual = crate::table::clone_opt(&input.block_id);
    let top = if input.block_id.is_some() {
        crate::table::clone_opt(&input.block_id)
    } else {
        crate::table::clone_opt(&input.shadow_id)
    };
    (top, actual)
}

/// The text of the field `name` of the block.
fn text_of_field(block: &Block, name: &str) -> (r: String)
    ensures
        r@ == field_text(block@, name@),
{
    let k = position(&block.fields, name);
    proof {
        assert(keys(block.fields@) =~= block@.field_names());
    }
    if k >= block.fields.len() {
        String::new()
    } else {
        block.fields[k].1.text.clone()
    }
}

fn moved(pen: Pen, w: i32, widen: bool) -> (r: Result<Pen, ViiruError>)
    ensures
        r == advance(pen, w, widen),
{
    match plus(pen.dx, w) {
        Ok(dx) => Ok(
            Pen {
                dx,
                dy: pen.dy,
                max_width: if widen && dx > pen.max_width {
                    dx
                } else {
                    pen.max_width
                },
                skip_padding: pen.skip_padding,
            },
        ),
        Err(e) => Err(e),
    }
}

impl Screen {
    fn put(
        &mut self,
        acc: &mut Accumulators,
        rt: &Runtime,
        id: &str,
        px: i32,
        rx: i32,
        py: i32,
        chars: &Vec<char>,
        colors: Colors,
        underline: bool,
        fake: bool,
        writable: bool,
    ) -> (r: Result<i32, ViiruError>)
        ensures
            (canvas_of(final(self)@, final(acc)@), r) == canvas_of(old(self)@, old(acc)@).put(
                rt@,
                id@,
                px,
                rx,
                py,
                chars@,
                colors,
                underline,
                fake,
                writable,
            ),
    {
        if chars.len() > i32::MAX as usize {
            return Err(ViiruError::Overflow);
        }
        let w = chars.len() as i32;
        match self.print_chars_in_view(rt, px, py, chars, colors, underline, fake) {
            Ok(_) => {},
            Err(e) => {
                return Err(e);
            },
        }
        if writable {
            acc.add_writable_row(id, rx, py, w);
        } else {
            acc.add_grab_row(id, rx, py, w);
        }
        Ok(w)
    }

    fn write(
        &mut self,
        acc: &mut Accumulators,
        rt: &Runtime,
        id: &str,
        x: i32,
        y: i32,
        pen: Pen,
        chars: &Vec<char>,
        colors: Colors,
        underline: bool,
        fake: bool,
        writable: bool,
        widen: bool,
    ) -> (r: Result<Pen, ViiruError>)
        ensures
            (canvas_of(final(self)@, final(acc)@), r) == canvas_of(old(self)@, old(acc)@).write(
                rt@,
                id@,
                x,
                y,
                pen,
                chars@,
                colors,
                underline,
                fake,
                writable,
                widen,
            ),
    {
        let (px, py) = match (plus(x, pen.dx), plus(y, pen.dy)) {
            (Ok(px), Ok(py)) => (px, py),
            _ => {
                return Err(ViiruError::Overflow);
            },
        };
        match self.put(acc, rt, id, px, px, py, chars, colors, underline, fake, writable) {
            Ok(w) => moved(pen, w, widen),
            Err(e) => Err(e),
        }
    }

    fn connectors(
        &mut self,
        acc: &mut Accumulators,
        rt: &Runtime,
        id: &str,
        x: i32,
        base: i32,
        h: i32,
        colors: Colors,
        fake: bool,
    ) -> (r: Result<(), ViiruError>)
        ensures
            (canvas_of(final(self)@, final(acc)@), r) == canvas_of(
                old(self)@,
                old(acc)@,
            ).connectors(rt@, id@, x, base, 1, h, colors, fake),
    {
        let edge = chars_of("| ");
        let ghost total = canvas_of(self@, acc@).connectors(rt@, id@, x, base, 1, h, colors, fake);
        let mut r: i64 = 1;
        while r <= h as i64
            invariant
                1 <= r <= i32::MAX + 1,
                edge@ == "| "@,
                canvas_of(self@, acc@).connectors(rt@, id@, x, base, r as int, h, colors, fake)
                    == total,
                total == canvas_of(old(self)@, old(acc)@).connectors(
                    rt@,
                    id@,
                    x,
                    base,
                    1,
                    h,
                    colors,
                    fake,
                ),
            decreases h - r + 1,
        {
            let py = match plus(base, r as i32) {
                Ok(py) => py,
                Err(e) => {
                    return Err(e);
                },
            };
            match self.put(acc, rt, id, x, x, py, &edge, colors, false, fake, false) {
                Ok(_) => {},
                Err(e) => {
                    return Err(e);
                },
            }
            r += 1;
        }
        Ok(())
    }

    fn draw_slot(
        &mut self,
        acc: &mut Accumulators,
        rt: &Runtime,
        id: &str,
        x: i32,
        y: i32,
        fake: bool,
        depth: usize,
        pen: Pen,
        shape: Shape,
        name: &str,
        child: Option<String>,
        empty: &str,
        s: usize,
    ) -> (r: Result<Pen, ViiruError>)
        requires
            s == rt@.spec_index(rt@.block(id@).opcode),
            s < rt.specs.len(),
        ensures
            (canvas_of(final(self)@, final(acc)@), r) == canvas_of(
                old(self)@,
                old(acc)@,
            ).draw_slot(
                rt@,
                id@,
                x,
                y,
                fake,
                depth as nat,
                pen,
                shape,
                name@,
                opt_text(child),
                empty@,
            ),
        decreases depth, 0nat, 0nat, 1nat,
    {
        let (px, py) = match (plus(x, pen.dx), plus(y, pen.dy)) {
            (Ok(px), Ok(py)) => (px, py),
            _ => {
                return Err(ViiruError::Overflow);
            },
        };
        acc.add_drop_point(px, py, shape, id, Some(name));
        match &child {
            Some(c) => {
                if depth > 0 && can_draw(rt, c.as_str()) {
                    return match self.draw_rec(rt, c.as_str(), px, py, acc, fake, depth - 1) {
                        Ok(w) => {
                            acc.mark_block_offset(c.as_str(), pen.dx, pen.dy);
                            moved(pen, w, true)
                        },
                        Err(e) => Err(e),
                    };
                }
            },
            None => {},
        }
        let text = chars_of(empty);
        let colors = empty_colors(&rt.specs[s].1);
        self.write(acc, rt, id, x, y, pen, &text, colors, true, fake, false, true)
    }

    fn draw_substack(
        &mut self,
        acc: &mut Accumulators,
        rt: &Runtime,
        id: &str,
        x: i32,
        y: i32,
        fake: bool,
        depth: usize,
        pen: Pen,
        name: &str,
        child: Option<String>,
        s: usize,
    ) -> (r: Result<Pen, ViiruError>)
        requires
            s == rt@.spec_index(rt@.block(id@).opcode),
            s < rt.specs.len(),
        ensures
            (canvas_of(final(self)@, final(acc)@), r) == canvas_of(
                old(self)@,
                old(acc)@,
            ).draw_substack(rt@, id@, x, y, fake, depth as nat, pen, name@, opt_text(child)),
        decreases depth, 0nat, 0nat, 1nat,
    {
        let (px, py) = match (plus(x, 2), plus(y, pen.dy)) {
            (Ok(px), Ok(py)) => (px, py),
            _ => {
                return Err(ViiruError::Overflow);
            },
        };
        acc.add_drop_point(px, py, Shape::Stack, id, Some(name));
        let done = Pen { dx: pen.dx, dy: pen.dy, max_width: pen.max_width, skip_padding: true };
        match &child {
            Some(c) => {
                if depth > 0 && can_draw(rt, c.as_str()) {
                    let height = match self.draw_rec(rt, c.as_str(), px, py, acc, fake, depth - 1) {
                        Ok(h) => h,
                        Err(e) => {
                            return Err(e);
                        },
                    };
                    let h = match minus(height, 1) {
                        Ok(h) => h,
                        Err(e) => {
                            return Err(e);
                        },
                    };
                    acc.mark_block_offset(c.as_str(), 2, pen.dy);
                    let colors = own_colors(&rt.specs[s].1);
                    match self.connectors(acc, rt, id, x, py, h, colors, fake) {
                        Ok(_) => {},
                        Err(e) => {
                            return Err(e);
                        },
                    }
                    return match plus(pen.dy, h) {
                        Ok(dy) => Ok(
                            Pen { dx: pen.dx, dy, max_width: pen.max_width, skip_padding: true },
                        ),
                        Err(e) => Err(e),
                    };
                }
            },
            None => {},
        }
        Ok(done)
    }

    #[verifier::rlimit(60)]
    fn draw_frag(
        &mut self,
        acc: &mut Accumulators,
        rt: &Runtime,
        id: &str,
        x: i32,
        y: i32,
        fake: bool,
        depth: usize,
        frag: &Fragment,
        pen: Pen,
        i: usize,
        s: usize,
    ) -> (r: Result<Pen, ViiruError>)
        requires
            i == rt@.index_of(id@),
            i < rt.blocks.len(),
            s == rt@.spec_index(rt@.block(id@).opcode),
            s < rt.specs.len(),
        ensures
            (canvas_of(final(self)@, final(acc)@), r) == canvas_of(
                old(self)@,
                old(acc)@,
            ).draw_frag(rt@, id@, x, y, fake, depth as nat, frag@, pen),
        decreases depth, 0nat, 0nat, 2nat,
    {
        let block = &rt.blocks[i].1;
        let sp = &rt.specs[s].1;
        let own = own_colors(sp);
        match frag {
            Fragment::Text(t) => {
                let text = chars_of(t.as_str());
                self.write(acc, rt, id, x, y, pen, &text, own, true, fake, false, true)
            },
            Fragment::StrumberInput(name, _) => {
                let input = input_of(block, name.as_str());
                self.draw_slot(
                    acc,
                    rt,
                    id,
                    x,
                    y,
                    fake,
                    depth,
                    pen,
                    Shape::Circle,
                    name.as_str(),
                    input.0,
                    "()",
                    s,
                )
            },
            Fragment::BooleanInput(name) => {
                let input = input_of(block, name.as_str());
                self.draw_slot(
                    acc,
                    rt,
                    id,
                    x,
                    y,
                    fake,
                    depth,
                    pen,
                    Shape::Hexagon,
                    name.as_str(),
                    input.0,
                    "<>",
                    s,
                )
            },
            Fragment::BlockInput(name) => {
                let input = input_of(block, name.as_str());
                self.draw_substack(acc, rt, id, x, y, fake, depth, pen, name.as_str(), input.1, s)
            },
            Fragment::Dropdown(field, _) => {
                let text = bracketed(field.as_str());
                self.write(acc, rt, id, x, y, pen, &text, own, true, fake, false, false)
            },
            Fragment::Expander => {
                let text = blanks(if pen.max_width > i32::MIN {
                    pen.max_width - 1
                } else {
                    0
                });
                match self.write(acc, rt, id, x, y, pen, &text, own, true, fake, false, false) {
                    Ok(_) => Ok(
                        Pen {
                            dx: pen.max_width,
                            dy: pen.dy,
                            max_width: pen.max_width,
                            skip_padding: true,
                        },
                    ),
                    Err(e) => Err(e),
                }
            },
            Fragment::AlignmentPoint(name) => {
                let (px, py) = match (plus(x, pen.dx), plus(y, pen.dy)) {
                    (Ok(px), Ok(py)) => (px, py),
                    _ => {
                        return Err(ViiruError::Overflow);
                    },
                };
                let input = input_of(block, name.as_str());
                let text = chars_of(alignment_point(false, input.1.is_some(), true, true));
                match self.put(acc, rt, id, px, px, py, &text, own, true, fake, false) {
                    Ok(w) => moved(pen, w, true),
                    Err(e) => Err(e),
                }
            },
            Fragment::Flag => {
                let text = chars_of("\u{25b8}");
                let colors = icon_colors(sp);
                self.write(acc, rt, id, x, y, pen, &text, colors, true, fake, false, true)
            },
            Fragment::Clockwise => {
                let text = chars_of("\u{21bb}");
                self.write(acc, rt, id, x, y, pen, &text, own, true, fake, false, true)
            },
            Fragment::Anticlockwise => {
                let text = chars_of("\u{21ba}");
                self.write(acc, rt, id, x, y, pen, &text, own, true, fake, false, true)
            },
            Fragment::WritableFieldText(field) => {
                let text = chars_of(text_of_field(block, field.as_str()).as_str());
                self.write(acc, rt, id, x, y, pen, &text, own, true, fake, true, true)
            },
            Fragment::FieldText(field) => {
                let text = chars_of(text_of_field(block, field.as_str()).as_str());
                self.write(acc, rt, id, x, y, pen, &text, own, true, fake, false, true)
            },
            Fragment::CustomColour(field) => {
                let value = text_of_field(block, field.as_str());
                let colors = colors_of_swatch(value.as_str());
                let text = chars_of("  ");
                self.write(acc, rt, id, x, y, pen, &text, colors, true, fake, true, true)
            },
        }
    }

    #[verifier::rlimit(60)]
    fn draw_rec(
        &mut self,
        rt: &Runtime,
        id: &str,
        x: i32,
        y: i32,
        acc: &mut Accumulators,
        fake: bool,
        depth: usize,
    ) -> (r: Result<i32, ViiruError>)
        ensures
            (canvas_of(final(self)@, final(acc)@), r) == canvas_of(
                old(self)@,
                old(acc)@,
            ).draw_block(rt@, id@, x, y, fake, depth as nat),
        decreases depth, rt@.spec_of(rt@.block(id@).opcode).lines.len() + 1, 0nat, 0nat,
    {
        let i = rt.index_of(id);
        if i >= rt.blocks.len() {
            return Ok(0);
        }
        let block = &rt.blocks[i].1;
        let s = rt.spec_index(block.opcode.as_str());
        if s >= rt.specs.len() {
            return Ok(0);
        }
        let sp = &rt.specs[s].1;
        let own = own_colors(sp);
        let stack = match sp.shape {
            Shape::Stack => true,
            _ => false,
        };
        let mut pen = Pen {
            dx: 0,
            dy: if sp.is_hat {
                1
            } else {
                0
            },
            max_width: 0,
            skip_padding: false,
        };
        let ghost whole = canvas_of(old(self)@, old(acc)@).draw_block(
            rt@,
            id@,
            x,
            y,
            fake,
            depth as nat,
        );
        let ghost body = canvas_of(self@, acc@).draw_lines(
            rt@,
            id@,
            x,
            y,
            fake,
            depth as nat,
            0,
            pen,
        );
        let n = sp.lines.len();
        let mut l: usize = 0;
        while l < n
            invariant
                l <= n,
                i == rt@.index_of(id@),
                i < rt.blocks.len(),
                s == rt@.spec_index(rt@.block(id@).opcode),
                s < rt.specs.len(),
                sp == rt.specs@[s as int].1,
                block == rt.blocks@[i as int].1,
                n == sp.lines@.len(),
                n == sp@.lines.len(),
                rt@.block(id@) == block@,
                rt@.spec_of(rt@.block(id@).opcode) == sp@,
                own == block_colors(sp@),
                stack == (sp.shape == Shape::Stack),
                canvas_of(self@, acc@).draw_lines(rt@, id@, x, y, fake, depth as nat, l as int, pen)
                    == body,
                body.1 is Err ==> whole == (body.0, Err::<i32, ViiruError>(body.1->Err_0)),
                whole == canvas_of(old(self)@, old(acc)@).draw_block(
                    rt@,
                    id@,
                    x,
                    y,
                    fake,
                    depth as nat,
                ),
            decreases n - l,
        {
            let py = match plus(y, pen.dy) {
                Ok(py) => py,
                Err(e) => {
                    return Err(e);
                },
            };
            let is_end = l == n - 1;
            let edge = if stack {
                chars_of(
                    alignment_point(
                        block.parent_id.is_some(),
                        block.next_id.is_some(),
                        l == 0,
                        is_end,
                    ),
                )
            } else {
                match sp.shape {
                    Shape::Hexagon => chars_of("<"),
                    _ => chars_of("("),
                }
            };
            let w = match self.put(
                acc,
                rt,
                id,
                x,
                x,
                py,
                &edge,
                own,
                !stack || is_end,
                fake,
                !stack && sp.is_shadow,
            ) {
                Ok(w) => w,
                Err(e) => {
                    return Err(e);
                },
            };
            pen = match moved(pen, w, true) {
                Ok(p) => p,
                Err(e) => {
                    return Err(e);
                },
            };
            let line = &sp.lines[l];
            let mut f: usize = 0;
            while f < line.len()
                invariant
                    l < n,
                    f <= line.len(),
                    i == rt@.index_of(id@),
                    i < rt.blocks.len(),
                    s == rt@.spec_index(rt@.block(id@).opcode),
                    s < rt.specs.len(),
                    sp == rt.specs@[s as int].1,
                    n == sp.lines@.len(),
                    n == sp@.lines.len(),
                    rt@.block(id@) == block@,
                    rt@.spec_of(rt@.block(id@).opcode) == sp@,
                    line == sp.lines@[l as int],
                    line@.len() == sp@.lines[l as int].len(),
                    canvas_of(self@, acc@).draw_frags(
                        rt@,
                        id@,
                        x,
                        y,
                        fake,
                        depth as nat,
                        l as int,
                        f as int,
                        pen,
                    ) == body,
                    body.1 is Err ==> whole == (body.0, Err::<i32, ViiruError>(body.1->Err_0)),
                    whole == canvas_of(old(self)@, old(acc)@).draw_block(
                        rt@,
                        id@,
                        x,
                        y,
                        fake,
                        depth as nat,
                    ),
                decreases line.len() - f,
            {
                assert(sp@.lines[l as int][f as int] == line@[f as int]@);
                pen = match self.draw_frag(acc, rt, id, x, y, fake, depth, &line[f], pen, i, s) {
                    Ok(p) => p,
                    Err(e) => {
                        return Err(e);
                    },
                };
                f += 1;
            }
            assert(canvas_of(self@, acc@).end_line(
                rt@,
                id@,
                x,
                y,
                fake,
                depth as nat,
                l as int,
                pen,
            ) == body);
            if !pen.skip_padding {
                let text = match sp.shape {
                    Shape::Circle => chars_of(")"),
                    Shape::Hexagon => chars_of(">"),
                    Shape::Stack => chars_of(" "),
                };
                pen = match self.write(
                    acc,
                    rt,
                    id,
                    x,
                    y,
                    pen,
                    &text,
                    own,
                    true,
                    fake,
                    !stack && sp.is_shadow,
                    true,
                ) {
                    Ok(p) => p,
                    Err(e) => {
                        return Err(e);
                    },
                };
            }
            if stack {
                let dy = match plus(pen.dy, 1) {
                    Ok(dy) => dy,
                    Err(e) => {
                        return Err(e);
                    },
                };
                pen = Pen { dx: 0, dy, max_width: pen.max_width, skip_padding: false };
            } else {
                pen = Pen { dx: pen.dx, dy: pen.dy, max_width: pen.max_width, skip_padding: false };
            }
            l += 1;
        }
        if sp.is_hat {
            let text = blanks(pen.max_width);
            match self.put(acc, rt, id, x, x, y, &text, own, false, fake, false) {
                Ok(_) => {},
                Err(e) => {
                    return Err(e);
                },
            }
        }
        if !stack {
            return Ok(pen.max_width);
        }
        let below = match plus(y, pen.dy) {
            Ok(v) => v,
            Err(e) => {
                return Err(e);
            },
        };
        acc.add_drop_point(x, below, Shape::Stack, id, None);
        match &block.next_id {
            Some(next) => {
                acc.mark_block_offset(next.as_str(), 0, pen.dy);
                if depth > 0 && can_draw(rt, next.as_str()) {
                    match self.draw_rec(rt, next.as_str(), x, below, acc, fake, depth - 1) {
                        Ok(h) => plus(pen.dy, h),
                        Err(e) => Err(e),
                    }
                } else {
                    Ok(pen.dy)
                }
            },
            None => Ok(pen.dy),
        }
    }

    /// Lays out block `block_id` with its anchor at `(x, y)`: prints it and
    /// what it holds, and registers every cell and drop point. Returns the
    /// block's extent: its height for a stack block, else its width.
    pub fn draw_block(
        &mut self,
        runtime: &Runtime,
        block_id: &str,
        x: i32,
        y: i32,
        accumulators: &mut Accumulators,
        fake: bool,
    ) -> (r: Result<i32, ViiruError>)
        ensures
            (canvas_of(final(self)@, final(accumulators)@), r) == canvas_of(
                old(self)@,
                old(accumulators)@,
            ).draw_block(runtime@, block_id@, x, y, fake, runtime@.blocks.len()),
    {
        self.draw_rec(runtime, block_id, x, y, accumulators, fake, runtime.blocks.len())
    }
}

/// Whether the graph holds block `id` and its opcode has a template.
fn can_draw(rt: &Runtime, id: &str) -> (r: bool)
    ensures
        r == (rt@.contains(id@) && rt@.has_spec(rt@.block(id@).opcode)),
{
    let i = rt.index_of(id);
    if i >= rt.blocks.len() {
        return false;
    }
    rt.has_spec(rt.blocks[i].1.opcode.as_str())
}


/// `n` copies of `c`; none where `n` is not positive.
pub open spec fn run(c: char, n: int) -> Seq<char> {
    Seq::new(
        if n > 0 {
            n as nat
        } else {
            0
        },
        |i: int| c,
    )
}

/// `v` as a 32-bit integer, where it is one.
pub open spec fn narrow(v: int) -> Result<i32, ViiruError> {
    sum(v, 0)
}

/// `a / b` rounded towards zero, for a positive `b`.
pub open spec fn trunc_div(a: int, b: int) -> int {
    if a >= 0 {
        a / b
    } else {
        -((-a) / b)
    }
}

/// An integer written in base 10, with `-` before a negative one.
pub open spec fn int_text(v: int) -> Seq<char> {
    if v < 0 {
        seq!['-'] + decimal_text((-v) as nat)
    } else {
        decimal_text(v as nat)
    }
}

/// How many bytes the character takes in UTF-8.
pub open spec fn utf8_len(c: char) -> int {
    if (c as u32) < 0x80 {
        1
    } else if (c as u32) < 0x800 {
        2
    } else if (c as u32) < 0x10000 {
        3
    } else {
        4
    }
}

/// The colours of the viewport's border.
pub open spec fn border_colors() -> Colors {
    Colors::of(Color::Rgb { r: 0x7f, g: 0x3e, b: 0xcf }, Color::Reset)
}

/// The colours of the marker dots.
pub open spec fn dot_colors() -> Colors {
    Colors::of(Color::DarkGrey, Color::Reset)
}

/// The grid after both side edges of the border were drawn on the rows
/// `y..=vp.y_max`.
pub open spec fn border_sides(grid: Seq<Seq<Cell>>, vp: Viewport, left: int, y: int) -> Seq<Seq<Cell>>
    decreases vp.y_max - y + 1,
{
    if y > vp.y_max {
        grid
    } else {
        let a = printed(grid, left, y, "|"@, false, Some(border_colors()));
        let b = printed(a, vp.x_max as int, y, "|"@, false, Some(border_colors()));
        border_sides(b, vp, left, y + 1)
    }
}

/// The grid after the border was drawn around the viewport: a row of
/// dashes above and below, a column of bars left and right, and the four
/// corners. The overflow error where a cell of the border leaves the 32-bit
/// range.
pub open spec fn with_viewport_border(grid: Seq<Seq<Cell>>, vp: Viewport) -> (
    Seq<Seq<Cell>>,
    Result<(), ViiruError>,
) {
    match (
        sum(vp.x_min as int, -1),
        sum(vp.y_min as int, -1),
        sum(vp.x_max as int, -(vp.x_min as int)),
    ) {
        (Ok(left), Ok(top), Ok(width)) => {
            let colors = Some(border_colors());
            let a = printed(grid, vp.x_min as int, top as int, run('-', width as int), false, colors);
            let b = printed(a, vp.x_min as int, vp.y_max as int, run('-', width as int), false, colors);
            let c = border_sides(b, vp, left as int, vp.y_min as int);
            let d = printed(c, left as int, top as int, "."@, false, colors);
            let e = printed(d, vp.x_max as int, top as int, "."@, false, colors);
            let f = printed(e, left as int, vp.y_max as int, "'"@, false, colors);
            (printed(f, vp.x_max as int, vp.y_max as int, "'"@, false, colors), Ok(()))
        },
        _ => (grid, Err(ViiruError::Overflow)),
    }
}

/// The grid after the cursor's column was drawn on the rows from `y` on,
/// but for the cursor's own row.
pub open spec fn cursor_column(grid: Seq<Seq<Cell>>, vp: Viewport, sx: int, sy: int, y: int) -> Seq<
    Seq<Cell>,
>
    decreases vp.y_max - y,
{
    if y >= vp.y_max {
        grid
    } else if y == sy {
        cursor_column(grid, vp, sx, sy, y + 1)
    } else {
        cursor_column(printed(grid, sx, y, "|"@, false, None), vp, sx, sy, y + 1)
    }
}

/// The grid after the cross hairs of the cursor were drawn across the
/// viewport: dashes on the cursor's row left and right of it, bars on its
/// column above and below it.
pub open spec fn with_cursor_lines(grid: Seq<Seq<Cell>>, rt: RuntimeView) -> (
    Seq<Seq<Cell>>,
    Result<(), ViiruError>,
) {
    let vp = rt.viewport;
    match (
        sum(rt.cursor_x as int, -(rt.scroll_x as int)),
        sum(rt.cursor_y as int, -(rt.scroll_y as int)),
    ) {
        (Ok(sx), Ok(sy)) => {
            let row = if vp.y_min <= sy < vp.y_max {
                let a = printed(
                    grid,
                    vp.x_min as int,
                    sy as int,
                    run('-', sx - vp.x_min),
                    false,
                    None,
                );
                printed(a, sx + 1, sy as int, run('-', vp.x_max - sx - 1), false, None)
            } else {
                grid
            };
            (
                if vp.x_min <= sx < vp.x_max {
                    cursor_column(row, vp, sx as int, sy as int, vp.y_min as int)
                } else {
                    row
                },
                Ok(()),
            )
        },
        _ => (grid, Err(ViiruError::Overflow)),
    }
}

/// The cell of the terminal on which the cursor is shown: the cursor's
/// place on the screen, each part cut to 16 bits.
pub open spec fn cursor_cell(rt: RuntimeView) -> Result<(u16, u16), ViiruError> {
    match (
        sum(rt.cursor_x as int, -(rt.scroll_x as int)),
        sum(rt.cursor_y as int, -(rt.scroll_y as int)),
    ) {
        (Ok(sx), Ok(sy)) => Ok(((sx as int % 0x10000) as u16, (sy as int % 0x10000) as u16)),
        _ => Err(ViiruError::Overflow),
    }
}

/// The grid after the marker dots from column `i`, row `j` of the dot
/// raster on were drawn.
pub open spec fn marker_dots(
    grid: Seq<Seq<Cell>>,
    rt: RuntimeView,
    x_first: int,
    y_first: int,
    nx: int,
    ny: int,
    i: int,
    j: int,
) -> (Seq<Seq<Cell>>, Result<(), ViiruError>)
    decreases nx - i, ny - j,
{
    if i < 0 || i >= nx {
        (grid, Ok(()))
    } else if j < 0 || j >= ny {
        marker_dots(grid, rt, x_first, y_first, nx, ny, i + 1, 0)
    } else {
        match (narrow(x_first + i * 10), narrow(y_first + j * 5)) {
            (Ok(x), Ok(y)) => {
                let p = printed_in_view(grid, rt, x, y, "."@, dot_colors(), false, false);
                match p.1 {
                    Err(e) => p,
                    Ok(_) => marker_dots(p.0, rt, x_first, y_first, nx, ny, i, j + 1),
                }
            },
            _ => (grid, Err(ViiruError::Overflow)),
        }
    }
}

/// The grid after a dot was drawn on every tenth column and fifth row of the
/// canvas that the viewport shows.
pub open spec fn with_marker_dots(grid: Seq<Seq<Cell>>, rt: RuntimeView) -> (
    Seq<Seq<Cell>>,
    Result<(), ViiruError>,
) {
    let vp = rt.viewport;
    marker_dots(
        grid,
        rt,
        trunc_div(rt.scroll_x as int, 10) * 10,
        trunc_div(rt.scroll_y as int, 5) * 5,
        1 + trunc_div(vp.x_max - vp.x_min, 10),
        2 + trunc_div(vp.y_max - vp.y_min, 5),
        0,
        0,
    )
}

fn narrowed(v: i64) -> (r: Result<i32, ViiruError>)
    ensures
        r == narrow(v as int),
{
    if v < i32::MIN as i64 || v > i32::MAX as i64 {
        Err(ViiruError::Overflow)
    } else {
        Ok(v as i32)
    }
}

fn div_towards_zero(a: i64, b: i64) -> (r: i64)
    requires
        b > 0,
        -0x1_0000_0000 <= a <= 0x1_0000_0000,
    ensures
        r == trunc_div(a as int, b as int),
        -0x1_0000_0000 <= r <= 0x1_0000_0000,
{
    if a >= 0 {
        let q = (a as u64) / (b as u64);
        assert(q <= a) by (nonlinear_arith)
            requires
                q == (a as int) / (b as int),
                a >= 0,
                b > 0,
        ;
        q as i64
    } else {
        let q = ((-a) as u64) / (b as u64);
        assert(q <= -a) by (nonlinear_arith)
            requires
                q == (-(a as int)) / (b as int),
                a < 0,
                b > 0,
        ;
        -(q as i64)
    }
}

/// An integer written in base 10.
pub fn int_string(v: i32) -> (s: String)
    ensures
        s@ == int_text(v as int),
{
    if v < 0 {
        proof {
            reveal_strlit("-");
        }
        let mut s = "-".to_owned();
        let digits = decimal_string((-(v as i64)) as usize);
        s.append(digits.as_str());
        s
    } else {
        decimal_string(v as usize)
    }
}

impl Screen {
    /// Prints `count` copies of `c` from `(x, y)` rightwards, as far as the
    /// row reaches.
    fn print_run(&mut self, x: i64, y: i64, c: char, count: i64, underline: bool, colors: Option<Colors>)
        ensures
            final(self)@ == printed(
                old(self)@,
                x as int,
                y as int,
                run(c, count as int),
                underline,
                colors,
            ),
    {
        let ghost text = run(c, count as int);
        if y < 0 || x < 0 || count <= 0 || y as u64 >= self.cells.len() as u64 {
            return ;
        }
        let row = y as usize;
        let width = self.cells[row].len();
        if x as u64 >= width as u64 {
            return ;
        }
        let first = x as usize;
        let ghost n = printed_count(old(self)@, x as int, y as int, count as int);
        let mut k: usize = 0;
        while (k as u64) < count as u64 && first + k < width
            invariant
                text == run(c, count as int),
                count > 0,
                first == x,
                first < width,
                row == y,
                row < self.cells.len(),
                self.cells@.len() == old(self).cells@.len(),
                width == self.cells@[row as int]@.len(),
                width == old(self).cells@[row as int]@.len(),
                k <= count,
                first + k <= width,
                forall|i: int|
                    0 <= i < self.cells@.len() && i != row ==> self.cells@[i] == old(
                        self,
                    ).cells@[i],
                forall|j: int|
                    0 <= j < width ==> self.cells@[row as int]@[j] == if x <= j < x + k {
                        Cell { char: Some(c), underline, colors }
                    } else {
                        old(self).cells@[row as int]@[j]
                    },
            decreases width - first - k,
        {
            let at = first + k;
            self.cells[row][at] = Cell { char: Some(c), underline, colors };
            k += 1;
        }
        proof {
            assert(k == n);
            assert(self@[row as int] =~= Seq::new(
                old(self)@[y as int].len(),
                |j: int|
                    if x <= j < x + n {
                        Cell { char: Some(text[j - x]), underline, colors }
                    } else {
                        old(self)@[y as int][j]
                    },
            ));
            assert(self@ =~= printed(old(self)@, x as int, y as int, text, underline, colors));
        }
    }

    /// Prints the one character `c` at `(x, y)`, where the grid has that
    /// cell.
    fn print_one(&mut self, x: i64, y: i64, c: char, colors: Option<Colors>)
        ensures
            final(self)@ == printed(old(self)@, x as int, y as int, seq![c], false, colors),
    {
        assert(run(c, 1) =~= seq![c]);
        self.print_run(x, y, c, 1, false, colors);
    }

    /// Draws the border around the viewport.
    pub fn draw_viewport_border(&mut self, runtime: &Runtime) -> (r: Result<(), ViiruError>)
        ensures
            (final(self)@, r) == with_viewport_border(old(self)@, runtime@.viewport),
    {
        proof {
            reveal_strlit("|");
            reveal_strlit(".");
            reveal_strlit("'");
            assert("|"@ =~= seq!['|']);
            assert("."@ =~= seq!['.']);
            assert("'"@ =~= seq!['\'']);
        }
        let vp = runtime.viewport;
        let (left, top, width) = match (minus(vp.x_min, 1), minus(vp.y_min, 1), minus(vp.x_max, vp.x_min)) {
            (Ok(left), Ok(top), Ok(width)) => (left as i64, top as i64, width as i64),
            _ => {
                return Err(ViiruError::Overflow);
            },
        };
        let colors = Some(Colors::new(Color::Rgb { r: 0x7f, g: 0x3e, b: 0xcf }, Color::Reset));
        self.print_run(vp.x_min as i64, top, '-', width, false, colors);
        self.print_run(vp.x_min as i64, vp.y_max as i64, '-', width, false, colors);
        let ghost sides = border_sides(self@, vp, left as int, vp.y_min as int);
        let mut y: i64 = vp.y_min as i64;
        while y <= vp.y_max as i64
            invariant
                vp.y_min <= y <= vp.y_max + 1 || vp.y_max < vp.y_min,
                colors == Some(border_colors()),
                "|"@ == seq!['|'],
                border_sides(self@, vp, left as int, y as int) == sides,
            decreases vp.y_max - y + 1,
        {
            self.print_one(left, y, '|', colors);
            self.print_one(vp.x_max as i64, y, '|', colors);
            y += 1;
        }
        self.print_one(left, top, '.', colors);
        self.print_one(vp.x_max as i64, top, '.', colors);
        self.print_one(left, vp.y_max as i64, '\'', colors);
        self.print_one(vp.x_max as i64, vp.y_max as i64, '\'', colors);
        Ok(())
    }

    /// Draws the cross hairs of the cursor across the viewport.
    pub fn draw_cursor_lines(&mut self, runtime: &Runtime) -> (r: Result<(), ViiruError>)
        ensures
            (final(self)@, r) == with_cursor_lines(old(self)@, runtime@),
    {
        proof {
            reveal_strlit("|");
            assert("|"@ =~= seq!['|']);
        }
        let vp = runtime.viewport;
        let (sx, sy) = match (
            minus(runtime.cursor_x, runtime.scroll_x),
            minus(runtime.cursor_y, runtime.scroll_y),
        ) {
            (Ok(sx), Ok(sy)) => (sx as i64, sy as i64),
            _ => {
                return Err(ViiruError::Overflow);
            },
        };
        if vp.y_min as i64 <= sy && sy < vp.y_max as i64 {
            self.print_run(vp.x_min as i64, sy, '-', sx - vp.x_min as i64, false, None);
            self.print_run(sx + 1, sy, '-', vp.x_max as i64 - sx - 1, false, None);
        }
        if vp.x_min as i64 <= sx && sx < vp.x_max as i64 {
            let ghost column = cursor_column(self@, vp, sx as int, sy as int, vp.y_min as int);
            let mut y: i64 = vp.y_min as i64;
            while y < vp.y_max as i64
                invariant
                    vp.y_min <= y <= vp.y_max || vp.y_max < vp.y_min,
                    "|"@ == seq!['|'],
                    cursor_column(self@, vp, sx as int, sy as int, y as int) == column,
                decreases vp.y_max - y,
            {
                if y != sy {
                    self.print_one(sx, y, '|', None);
                }
                y += 1;
            }
        }
        Ok(())
    }

    /// The cell of the terminal on which the cursor is to be shown.
    pub fn draw_cursor(&self, runtime: &Runtime) -> (r: Result<(u16, u16), ViiruError>)
        ensures
            r == cursor_cell(runtime@),
    {
        match (
            minus(runtime.cursor_x, runtime.scroll_x),
            minus(runtime.cursor_y, runtime.scroll_y),
        ) {
            (Ok(sx), Ok(sy)) => {
                let x: u16 = (((sx as i64) % 0x10000 + 0x10000) % 0x10000) as u16;
                let y: u16 = (((sy as i64) % 0x10000 + 0x10000) % 0x10000) as u16;
                Ok((x, y))
            },
            _ => Err(ViiruError::Overflow),
        }
    }

    /// Draws the marker dots of the canvas.
    pub fn draw_marker_dots(&mut self, runtime: &Runtime) -> (r: Result<(), ViiruError>)
        ensures
            (final(self)@, r) == with_marker_dots(old(self)@, runtime@),
    {
        let vp = runtime.viewport;
        let x_first: i64 = div_towards_zero(runtime.scroll_x as i64, 10) * 10;
        let y_first: i64 = div_towards_zero(runtime.scroll_y as i64, 5) * 5;
        let nx: i64 = 1 + div_towards_zero(vp.x_max as i64 - vp.x_min as i64, 10);
        let ny: i64 = 2 + div_towards_zero(vp.y_max as i64 - vp.y_min as i64, 5);
        let dot = chars_of(".");
        let colors = Colors::new(Color::DarkGrey, Color::Reset);
        let ghost total = marker_dots(
            self@,
            runtime@,
            x_first as int,
            y_first as int,
            nx as int,
            ny as int,
            0,
            0,
        );
        let mut i: i64 = 0;
        while i < nx
            invariant
                0 <= i,
                -0x2_0000_0000 <= nx <= 0x2_0000_0000,
                -0x2_0000_0000 <= ny <= 0x2_0000_0000,
                -0xa_0000_0000 <= x_first <= 0xa_0000_0000,
                -0xa_0000_0000 <= y_first <= 0xa_0000_0000,
                dot@ == "."@,
                colors == dot_colors(),
                marker_dots(
                    self@,
                    runtime@,
                    x_first as int,
                    y_first as int,
                    nx as int,
                    ny as int,
                    i as int,
                    0,
                ) == total,
                total == with_marker_dots(old(self)@, runtime@),
            decreases nx - i,
        {
            let mut j: i64 = 0;
            while j < ny
                invariant
                    0 <= i < nx,
                    0 <= j,
                    -0x2_0000_0000 <= nx <= 0x2_0000_0000,
                    -0x2_0000_0000 <= ny <= 0x2_0000_0000,
                    -0xa_0000_0000 <= x_first <= 0xa_0000_0000,
                    -0xa_0000_0000 <= y_first <= 0xa_0000_0000,
                    dot@ == "."@,
                    colors == dot_colors(),
                    marker_dots(
                        self@,
                        runtime@,
                        x_first as int,
                        y_first as int,
                        nx as int,
                        ny as int,
                        i as int,
                        j as int,
                    ) == total,
                    total == with_marker_dots(old(self)@, runtime@),
                decreases ny - j,
            {
                let (x, y) = match (narrowed(x_first + i * 10), narrowed(y_first + j * 5)) {
                    (Ok(x), Ok(y)) => (x, y),
                    _ => {
                        return Err(ViiruError::Overflow);
                    },
                };
                match self.print_chars_in_view(runtime, x, y, &dot, colors, false, false) {
                    Ok(_) => {},
                    Err(e) => {
                        return Err(e);
                    },
                }
                j += 1;
            }
            i += 1;
        }
        Ok(())
    }
}


/// What the terminal is told when a frame is flushed.
#[derive(Clone, Copy, PartialEq, Eq, Structural, Debug)]
pub enum Command {
    /// Hide the cursor.
    Hide,
    /// Move the cursor to a column and row.
    MoveTo(u16, u16),
    /// Switch underlining on or off.
    Underline(bool),
    Foreground(Color),
    Background(Color),
    /// Back to the terminal's own colours.
    ResetColor,
    Print(char),
    /// Move the cursor to the start of the next row.
    NextLine,
}

/// The attributes that the terminal has been left with.
#[derive(Clone, Copy, Debug)]
pub struct Brush {
    pub underline: bool,
    pub foreground: Color,
    pub background: Color,
}

/// The command that switches underlining to what `cell` asks for, where it
/// differs.
pub open spec fn flush_underline(cell: Cell, brush: Brush) -> Seq<Command> {
    if cell.underline != brush.underline {
        seq![Command::Underline(cell.underline)]
    } else {
        Seq::empty()
    }
}

/// The colours that the terminal has after `cell`: those that the cell sets,
/// the old ones for what it leaves, and the terminal's own where the cell
/// has no colours.
pub open spec fn brush_after(cell: Cell, brush: Brush) -> Brush {
    match cell.colors {
        Some(colors) => Brush {
            underline: cell.underline,
            foreground: match colors.foreground {
                Some(c) => c,
                None => brush.foreground,
            },
            background: match colors.background {
                Some(c) => c,
                None => brush.background,
            },
        },
        None => Brush {
            underline: cell.underline,
            foreground: Color::Reset,
            background: Color::Reset,
        },
    }
}

/// The commands that switch the colours to those of `cell`, where they
/// differ: one for each colour that the cell sets anew, or one reset where
/// the cell has no colours and the terminal is not on its own.
pub open spec fn flush_colors(cell: Cell, brush: Brush) -> Seq<Command> {
    let next = brush_after(cell, brush);
    if cell.colors is Some {
        (if next.foreground != brush.foreground {
            seq![Command::Foreground(next.foreground)]
        } else {
            Seq::empty()
        }) + (if next.background != brush.background {
            seq![Command::Background(next.background)]
        } else {
            Seq::empty()
        })
    } else if brush.foreground != Color::Reset || brush.background != Color::Reset {
        seq![Command::ResetColor]
    } else {
        Seq::empty()
    }
}

/// The glyph that a cell shows: its character, or a blank.
pub open spec fn glyph(cell: Cell) -> char {
    match cell.char {
        Some(c) => c,
        None => ' ',
    }
}

/// The commands that change the terminal's attributes to those of `cell`, as
/// far as they differ, and print its glyph; and the attributes afterwards.
pub open spec fn flush_cell(cell: Cell, brush: Brush) -> (Seq<Command>, Brush) {
    (
        flush_underline(cell, brush) + flush_colors(cell, brush) + seq![
            Command::Print(glyph(cell)),
        ],
        brush_after(cell, brush),
    )
}

/// The commands that flush the grid from cell `j` of row `i` on, each row
/// followed by a move to the next.
pub open spec fn flush_from(grid: Seq<Seq<Cell>>, i: int, j: int, brush: Brush) -> Seq<Command>
    decreases grid.len() - i, grid[i].len() - j,
{
    if i < 0 || i >= grid.len() {
        Seq::empty()
    } else if j < 0 || j >= grid[i].len() {
        seq![Command::NextLine] + flush_from(grid, i + 1, 0, brush)
    } else {
        let one = flush_cell(grid[i][j], brush);
        one.0 + flush_from(grid, i, j + 1, one.1)
    }
}

/// The commands that flush the grid: hide the cursor, go to the top left,
/// then every cell row by row.
pub open spec fn flushed(grid: Seq<Seq<Cell>>) -> Seq<Command> {
    seq![Command::Hide, Command::MoveTo(0, 0)] + flush_from(
        grid,
        0,
        0,
        Brush { underline: false, foreground: Color::Reset, background: Color::Reset },
    )
}

/// The number before a toolbox entry, marked where the toolbox cursor is on
/// it.
pub open spec fn toolbox_label(rt: RuntimeView, i: int) -> Seq<char> {
    if i == rt.toolbox_cursor {
        if rt.state == State::Toolbox {
            seq!['>'] + decimal_text(i as nat)
        } else {
            seq!['='] + decimal_text(i as nat)
        }
    } else {
        decimal_text(i as nat)
    }
}

/// Whether the toolbox entry `id` is a stack block.
pub open spec fn is_stack(rt: RuntimeView, id: Seq<char>) -> bool {
    rt.contains(id) && rt.has_spec(rt.block(id).opcode) && rt.spec_of(rt.block(id).opcode).shape
        == Shape::Stack
}

/// The grid after the toolbox entries from index `i` on were drawn from
/// `dy` rows below the toolbox's top; and the index of the entry that filled
/// the height, where one did.
pub open spec fn toolbox_rows(
    grid: Seq<Seq<Cell>>,
    rt: RuntimeView,
    offset_x: i32,
    offset_y: i32,
    height: i32,
    recompute: bool,
    i: int,
    dy: i32,
) -> (Seq<Seq<Cell>>, Result<Option<usize>, ViiruError>)
    decreases rt.toolbox.len() - i,
{
    if i < 0 || i >= rt.toolbox.len() {
        (grid, Ok(None))
    } else {
        let id = rt.toolbox[i];
        let label = toolbox_label(rt, i);
        match (sum(offset_y as int, dy as int), narrow(offset_x - 1 - label.len())) {
            (Ok(y), Ok(lx)) => {
                let labelled = if recompute {
                    (grid, Ok(()))
                } else {
                    printed_in_view(
                        grid,
                        rt,
                        lx,
                        y,
                        label,
                        Colors::of(Color::Reset, Color::Reset),
                        false,
                        true,
                    )
                };
                match labelled.1 {
                    Err(e) => (labelled.0, Err(e)),
                    Ok(_) => {
                        let drawn = canvas_of(labelled.0, AccumulatorsView::empty()).draw_block(
                            rt,
                            id,
                            offset_x,
                            y,
                            !recompute,
                            rt.blocks.len(),
                        );
                        match drawn.1 {
                            Err(e) => (drawn.0.grid, Err(e)),
                            Ok(delta) => match narrow(
                                dy + if is_stack(rt, id) {
                                    delta + 1
                                } else {
                                    2
                                },
                            ) {
                                Err(e) => (drawn.0.grid, Err(e)),
                                Ok(below) => if below >= height {
                                    (drawn.0.grid, Ok(Some(i as usize)))
                                } else {
                                    toolbox_rows(
                                        drawn.0.grid,
                                        rt,
                                        offset_x,
                                        offset_y,
                                        height,
                                        recompute,
                                        i + 1,
                                        below,
                                    )
                                },
                            },
                        }
                    },
                }
            },
            _ => (grid, Err(ViiruError::Overflow)),
        }
    }
}

/// The grid after the toolbox was drawn right of the viewport, from the
/// entry that the toolbox is scrolled to; and the index of the last entry
/// that fits, where the entries fill the viewport's height.
pub open spec fn with_toolbox(
    grid: Seq<Seq<Cell>>,
    rt: RuntimeView,
    left_border: i32,
    top_border: i32,
    recompute: bool,
) -> (Seq<Seq<Cell>>, Result<Option<usize>, ViiruError>) {
    let vp = rt.viewport;
    match (
        narrow(rt.scroll_x + left_border + (vp.x_max - vp.x_min) + 6),
        narrow(rt.scroll_y + top_border),
        narrow(vp.y_max - vp.y_min),
    ) {
        (Ok(offset_x), Ok(offset_y), Ok(height)) => toolbox_rows(
            grid,
            rt,
            offset_x,
            offset_y,
            height,
            recompute,
            rt.toolbox_scroll as int,
            0,
        ),
        _ => (grid, Err(ViiruError::Overflow)),
    }
}

/// The state with the last visible toolbox entry noted, where a drawing of
/// the toolbox found one.
pub open spec fn noting(rt: RuntimeView, found: Result<Option<usize>, ViiruError>) -> RuntimeView {
    match found {
        Ok(Some(i)) => RuntimeView { toolbox_visible_max: i, ..rt },
        _ => rt,
    }
}

/// The canvas after the top-level blocks from index `k` on were laid out,
/// each at its own position, but for the block that the cursor holds.
pub open spec fn draw_tops(c: Canvas, rt: RuntimeView, k: int) -> Drawn<()>
    decreases rt.top_level.len() - k,
{
    if k < 0 || k >= rt.top_level.len() {
        (c, Ok(()))
    } else {
        let id = rt.top_level[k];
        if rt.cursor_block == Some(id) || !rt.contains(id) {
            draw_tops(c, rt, k + 1)
        } else {
            let d = c.draw_block(
                rt,
                id,
                rt.block(id).x,
                rt.block(id).y,
                false,
                rt.blocks.len(),
            );
            match d.1 {
                Err(e) => (d.0, Err(e)),
                Ok(_) => draw_tops(d.0, rt, k + 1),
            }
        }
    }
}

/// The canvas after every top-level block was laid out, the held block
/// last so that it lies on top.
pub open spec fn draw_all(c: Canvas, rt: RuntimeView) -> Drawn<()> {
    let tops = draw_tops(c, rt, 0);
    match tops.1 {
        Err(e) => tops,
        Ok(_) => match rt.cursor_block {
            Some(id) => if rt.contains(id) {
                let d = tops.0.draw_block(
                    rt,
                    id,
                    rt.block(id).x,
                    rt.block(id).y,
                    false,
                    rt.blocks.len(),
                );
                match d.1 {
                    Err(e) => (d.0, Err(e)),
                    Ok(_) => (d.0, Ok(())),
                }
            } else {
                tops
            },
            None => tops,
        },
    }
}

/// What the status line shows at its right end: the cursor's position and
/// the last command.
pub open spec fn position_text(rt: RuntimeView) -> Seq<char> {
    int_text(rt.cursor_x as int) + seq![','] + int_text(rt.cursor_y as int) + seq![' ', rt.last_command]
}

/// What is asked for while a path is typed.
pub open spec fn command_prefix(c: char) -> Seq<char> {
    if c == 'o' {
        "file path: "@
    } else if c == 'w' {
        "output path: "@
    } else {
        Seq::empty()
    }
}

/// The grid after the status line was drawn in the row below the
/// viewport's border: the status message or, while a path is typed, the
/// prompt and the path; and the cursor's position at the right.
pub open spec fn with_status_line(grid: Seq<Seq<Cell>>, rt: RuntimeView) -> Seq<Seq<Cell>> {
    let vp = rt.viewport;
    let row = vp.y_max + 1;
    let position = position_text(rt);
    let bytes = position.len() - 1 + utf8_len(rt.last_command);
    let a = printed(grid, vp.x_max - bytes, row, position, false, None);
    if rt.state == State::Command {
        let prefix = command_prefix(rt.last_command);
        let b = printed(a, vp.x_min as int, row, prefix, false, None);
        printed(b, vp.x_min + prefix.len(), row, rt.command_buffer, false, None)
    } else {
        printed(a, vp.x_min as int, row, rt.status_message, false, None)
    }
}

/// The grid and the state after a whole frame was drawn: the border, the
/// marker dots, the cross hairs, every top-level block, the status line
/// and the toolbox. The state takes over what the layout registered.
pub open spec fn refreshed(grid: Seq<Seq<Cell>>, rt: RuntimeView) -> (
    Seq<Seq<Cell>>,
    RuntimeView,
    Result<(), ViiruError>,
) {
    let a = with_viewport_border(grid, rt.viewport);
    if a.1 is Err {
        (a.0, rt, a.1)
    } else {
        let b = with_marker_dots(a.0, rt);
        if b.1 is Err {
            (b.0, rt, b.1)
        } else {
            let c = with_cursor_lines(b.0, rt);
            if c.1 is Err {
                (c.0, rt, c.1)
            } else {
                let d = draw_all(canvas_of(c.0, AccumulatorsView::empty()), rt);
                if d.1 is Err {
                    (d.0.grid, rt, d.1)
                } else {
                    let taken = rt.process_accumulators(d.0.acc);
                    let e = with_status_line(d.0.grid, taken);
                    let f = with_toolbox(
                        e,
                        taken,
                        taken.viewport_offset_x,
                        taken.viewport_offset_y,
                        false,
                    );
                    (
                        f.0,
                        noting(taken, f.1),
                        match f.1 {
                            Ok(_) => Ok(()),
                            Err(e) => Err(e),
                        },
                    )
                }
            }
        }
    }
}

/// Ten to the power `k`.
pub open spec fn pow10(k: nat) -> nat
    decreases k,
{
    if k == 0 {
        1
    } else {
        10 * pow10((k - 1) as nat)
    }
}

/// A number below ten to the power `k` is written with at most `k` digits.
pub proof fn lemma_decimal_len(n: nat, k: nat)
    requires
        n < pow10(k),
        k >= 1,
    ensures
        1 <= decimal_text(n).len() <= k,
    decreases k,
{
    reveal_with_fuel(pow10, 2);
    if n >= 10 {
        lemma_decimal_len(n / 10, (k - 1) as nat);
    }
}

/// A 32-bit integer is written with at most eleven characters.
pub proof fn lemma_int_text_len(v: int)
    requires
        i32::MIN <= v <= i32::MAX,
    ensures
        1 <= int_text(v).len() <= 11,
{
    assert(pow10(10) == 10_000_000_000) by {
        reveal_with_fuel(pow10, 11);
    }
    if v < 0 {
        lemma_decimal_len((-v) as nat, 10);
    } else {
        lemma_decimal_len(v as nat, 10);
    }
}

fn char_utf8_len(c: char) -> (n: usize)
    ensures
        n == utf8_len(c),
{
    let v: u32 = c as u32;
    if v < 0x80 {
        1
    } else if v < 0x800 {
        2
    } else if v < 0x10000 {
        3
    } else {
        4
    }
}

/// Pushing onto a concatenation is concatenating with the pushed tail.
proof fn lemma_push_after(a: Seq<Command>, b: Seq<Command>, x: Command)
    ensures
        (a + b).push(x) == a + (b + seq![x]),
{
    assert((a + b).push(x) =~= a + (b + seq![x]));
}

fn flush_one(cell: Cell, brush: Brush, out: &mut Vec<Command>) -> (next: Brush)
    ensures
        final(out)@ == old(out)@ + flush_cell(cell, brush).0,
        next == flush_cell(cell, brush).1,
{
    let ghost start = out@;
    if cell.underline != brush.underline {
        out.push(Command::Underline(cell.underline));
    }
    assert(out@ =~= start + flush_underline(cell, brush));
    let next = match cell.colors {
        Some(colors) => {
            let fg = match colors.foreground {
                Some(c) => c,
                None => brush.foreground,
            };
            let bg = match colors.background {
                Some(c) => c,
                None => brush.background,
            };
            if fg != brush.foreground {
                out.push(Command::Foreground(fg));
            }
            if bg != brush.background {
                out.push(Command::Background(bg));
            }
            Brush { underline: cell.underline, foreground: fg, background: bg }
        },
        None => {
            if brush.foreground != Color::Reset || brush.background != Color::Reset {
                out.push(Command::ResetColor);
            }
            Brush { underline: cell.underline, foreground: Color::Reset, background: Color::Reset }
        },
    };
    let ghost mid = flush_underline(cell, brush) + flush_colors(cell, brush);
    assert(out@ =~= start + mid);
    let c = match cell.char {
        Some(c) => c,
        None => ' ',
    };
    out.push(Command::Print(c));
    proof {
        lemma_push_after(start, mid, Command::Print(c));
    }
    next
}

impl Screen {
    /// The commands that bring the terminal to show the grid. Attributes are
    /// only set where they change from one cell to the next.
    pub fn flush_contents(&self) -> (out: Vec<Command>)
        ensures
            out@ == flushed(self@),
    {
        let mut out: Vec<Command> = Vec::new();
        out.push(Command::Hide);
        out.push(Command::MoveTo(0, 0));
        let ghost head = out@;
        assert(head =~= seq![Command::Hide, Command::MoveTo(0, 0)]);
        let mut brush = Brush {
            underline: false,
            foreground: Color::Reset,
            background: Color::Reset,
        };
        let ghost total = flush_from(self@, 0, 0, brush);
        let mut i: usize = 0;
        while i < self.cells.len()
            invariant
                i <= self.cells.len(),
                out@ + flush_from(self@, i as int, 0, brush) == head + total,
            decreases self.cells.len() - i,
        {
            let row = &self.cells[i];
            let mut j: usize = 0;
            while j < row.len()
                invariant
                    i < self.cells.len(),
                    row == self.cells@[i as int],
                    j <= row.len(),
                    out@ + flush_from(self@, i as int, j as int, brush) == head + total,
                decreases row.len() - j,
            {
                let ghost before = out@;
                let ghost was = brush;
                brush = flush_one(row[j], brush, &mut out);
                proof {
                    let one = flush_cell(self@[i as int][j as int], was);
                    assert(before + (one.0 + flush_from(self@, i as int, j as int + 1, one.1))
                        =~= (before + one.0) + flush_from(self@, i as int, j as int + 1, one.1));
                }
                j += 1;
            }
            let ghost before = out@;
            out.push(Command::NextLine);
            proof {
                assert(before + (seq![Command::NextLine] + flush_from(
                    self@,
                    i as int + 1,
                    0,
                    brush,
                )) =~= before.push(Command::NextLine) + flush_from(self@, i as int + 1, 0, brush));
            }
            i += 1;
        }
        assert(out@ =~= head + total);
        out
    }

    /// Prints `chars` from `(x, y)` rightwards, as far as the row reaches.
    fn print_wide(&mut self, x: i64, y: i64, chars: &Vec<char>)
        ensures
            final(self)@ == printed(old(self)@, x as int, y as int, chars@, false, None),
    {
        assert(chars@.subrange(0, chars@.len() as int) =~= chars@);
        let _ = self.print_chars(x, y, chars, 0, chars.len(), false, None);
    }

    /// Draws the status line in the row below the viewport's border.
    fn draw_status_line(&mut self, runtime: &Runtime)
        ensures
            final(self)@ == with_status_line(old(self)@, runtime@),
    {
        let vp = runtime.viewport;
        let row: i64 = vp.y_max as i64 + 1;
        proof {
            reveal_strlit(",");
            reveal_strlit(" ");
        }
        let mut position = int_string(runtime.cursor_x);
        position.append(",");
        position.append(int_string(runtime.cursor_y).as_str());
        position.append(" ");
        let mut chars = chars_of(position.as_str());
        chars.push(runtime.last_command);
        proof {
            assert(chars@ =~= position_text(runtime@));
            lemma_int_text_len(runtime.cursor_x as int);
            lemma_int_text_len(runtime.cursor_y as int);
        }
        let bytes: i64 = chars.len() as i64 - 1 + char_utf8_len(runtime.last_command) as i64;
        self.print_wide(vp.x_max as i64 - bytes, row, &chars);
        match runtime.state {
            State::Command => {
                proof {
                    reveal_strlit("");
                    reveal_strlit("file path: ");
                    reveal_strlit("output path: ");
                }
                let prefix = if runtime.last_command == 'o' {
                    chars_of("file path: ")
                } else if runtime.last_command == 'w' {
                    chars_of("output path: ")
                } else {
                    chars_of("")
                };
                assert(prefix@ =~= command_prefix(runtime@.last_command));
                self.print_wide(vp.x_min as i64, row, &prefix);
                let buffer = chars_of(runtime.command_buffer.as_str());
                self.print_wide(vp.x_min as i64 + prefix.len() as i64, row, &buffer);
            },
            _ => {
                let message = chars_of(runtime.status_message.as_str());
                self.print_wide(vp.x_min as i64, row, &message);
            },
        }
    }
}


/// A machine-sized number is written with at most twenty digits.
proof fn lemma_usize_text_len(n: usize)
    ensures
        1 <= decimal_text(n as nat).len() <= 20,
{
    assert(pow10(20) == 100_000_000_000_000_000_000) by {
        reveal_with_fuel(pow10, 21);
    }
    lemma_decimal_len(n as nat, 20);
}

/// The number before the toolbox entry `i`.
fn label_of(rt: &Runtime, i: usize) -> (r: Vec<char>)
    ensures
        r@ == toolbox_label(rt@, i as int),
        r@.len() <= 21,
{
    proof {
        lemma_usize_text_len(i);
    }
    let digits = chars_of(decimal_string(i).as_str());
    if i != rt.toolbox_cursor {
        return digits;
    }
    let mut r: Vec<char> = Vec::new();
    match rt.state {
        State::Toolbox => {
            r.push('>');
        },
        _ => {
            r.push('=');
        },
    }
    let ghost mark = r@;
    let mut k: usize = 0;
    while k < digits.len()
        invariant
            k <= digits.len(),
            mark.len() == 1,
            r@ == mark + digits@.take(k as int),
        decreases digits.len() - k,
    {
        r.push(digits[k]);
        assert(digits@.take(k as int + 1) =~= digits@.take(k as int).push(digits@[k as int]));
        assert(r@ =~= mark + digits@.take(k as int + 1));
        k += 1;
    }
    assert(digits@.take(k as int) =~= digits@);
    assert(r@ =~= toolbox_label(rt@, i as int));
    r
}

/// Whether the toolbox entry `id` is a stack block.
fn stack_shaped(rt: &Runtime, id: &str) -> (r: bool)
    ensures
        r == is_stack(rt@, id@),
{
    let i = rt.index_of(id);
    if i >= rt.blocks.len() {
        return false;
    }
    let s = rt.spec_index(rt.blocks[i].1.opcode.as_str());
    if s >= rt.specs.len() {
        return false;
    }
    match rt.specs[s].1.shape {
        Shape::Stack => true,
        _ => false,
    }
}

impl Screen {
    /// Draws the toolbox right of the viewport, from the entry that it is
    /// scrolled to, and notes the last entry that fits. With `recompute` the
    /// entries are only measured: no number is printed before them and each
    /// is clipped like a block of the canvas.
    pub fn draw_toolbox(
        &mut self,
        runtime: &mut Runtime,
        left_border: i32,
        top_border: i32,
        recompute: bool,
    ) -> (r: Result<(), ViiruError>)
        ensures
            ({
                let t = with_toolbox(
                    old(self)@,
                    old(runtime)@,
                    left_border,
                    top_border,
                    recompute,
                );
                &&& final(self)@ == t.0
                &&& final(runtime)@ == noting(old(runtime)@, t.1)
                &&& r == match t.1 {
                    Ok(_) => Ok::<(), ViiruError>(()),
                    Err(e) => Err::<(), ViiruError>(e),
                }
            }),
    {
        let vp = runtime.viewport;
        let (offset_x, offset_y, height) = match (
            narrowed(
                runtime.scroll_x as i64 + left_border as i64 + (vp.x_max as i64 - vp.x_min as i64)
                    + 6,
            ),
            narrowed(runtime.scroll_y as i64 + top_border as i64),
            narrowed(vp.y_max as i64 - vp.y_min as i64),
        ) {
            (Ok(a), Ok(b), Ok(c)) => (a, b, c),
            _ => {
                return Err(ViiruError::Overflow);
            },
        };
        let colors = Colors::new(Color::Reset, Color::Reset);
        let ghost total = with_toolbox(
            old(self)@,
            old(runtime)@,
            left_border,
            top_border,
            recompute,
        );
        let mut dy: i32 = 0;
        let mut i: usize = runtime.toolbox_scroll;
        while i < runtime.toolbox.len()
            invariant
                *runtime == *old(runtime),
                colors == Colors::of(Color::Reset, Color::Reset),
                toolbox_rows(
                    self@,
                    runtime@,
                    offset_x,
                    offset_y,
                    height,
                    recompute,
                    i as int,
                    dy,
                ) == total,
                total == with_toolbox(
                    old(self)@,
                    old(runtime)@,
                    left_border,
                    top_border,
                    recompute,
                ),
            decreases runtime.toolbox.len() - i,
        {
            let label = label_of(runtime, i);
            let (y, lx) = match (
                plus(offset_y, dy),
                narrowed(offset_x as i64 - 1 - label.len() as i64),
            ) {
                (Ok(y), Ok(lx)) => (y, lx),
                _ => {
                    return Err(ViiruError::Overflow);
                },
            };
            if !recompute {
                match self.print_chars_in_view(runtime, lx, y, &label, colors, false, true) {
                    Ok(_) => {},
                    Err(e) => {
                        return Err(e);
                    },
                }
            }
            let mut unused = Accumulators::new();
            let depth = runtime.blocks.len();
            let delta = match self.draw_rec(
                runtime,
                runtime.toolbox[i].as_str(),
                offset_x,
                y,
                &mut unused,
                !recompute,
                depth,
            ) {
                Ok(d) => d,
                Err(e) => {
                    return Err(e);
                },
            };
            let step: i64 = if stack_shaped(runtime, runtime.toolbox[i].as_str()) {
                delta as i64 + 1
            } else {
                2
            };
            dy = match narrowed(dy as i64 + step) {
                Ok(v) => v,
                Err(e) => {
                    return Err(e);
                },
            };
            if dy >= height {
                runtime.toolbox_visible_max = i;
                return Ok(());
            }
            i += 1;
        }
        Ok(())
    }

    /// Draws a whole frame and lets the state take over what the layout
    /// registered.
    pub fn refresh_screen(&mut self, runtime: &mut Runtime) -> (r: Result<(), ViiruError>)
        ensures
            (final(self)@, final(runtime)@, r) == refreshed(old(self)@, old(runtime)@),
    {
        match self.draw_viewport_border(runtime) {
            Ok(_) => {},
            Err(e) => {
                return Err(e);
            },
        }
        match self.draw_marker_dots(runtime) {
            Ok(_) => {},
            Err(e) => {
                return Err(e);
            },
        }
        match self.draw_cursor_lines(runtime) {
            Ok(_) => {},
            Err(e) => {
                return Err(e);
            },
        }
        let mut acc = Accumulators::new();
        let ghost all = draw_all(canvas_of(self@, acc@), runtime@);
        let ghost tops = draw_tops(canvas_of(self@, acc@), runtime@, 0);
        let depth = runtime.blocks.len();
        let mut k: usize = 0;
        while k < runtime.top_level.len()
            invariant
                *runtime == *old(runtime),
                depth == runtime.blocks.len(),
                draw_tops(canvas_of(self@, acc@), runtime@, k as int) == tops,
                tops.1 is Err ==> all == tops,
                all.1 is Err ==> refreshed(old(self)@, old(runtime)@) == (
                    all.0.grid,
                    old(runtime)@,
                    all.1,
                ),
            decreases runtime.top_level.len() - k,
        {
            let id = runtime.top_level[k].as_str();
            let held = match &runtime.cursor_block {
                Some(c) => str_eq(c.as_str(), id),
                None => false,
            };
            let i = runtime.index_of(id);
            if !held && i < runtime.blocks.len() {
                let x = runtime.blocks[i].1.x;
                let y = runtime.blocks[i].1.y;
                match self.draw_rec(runtime, id, x, y, &mut acc, false, depth) {
                    Ok(_) => {},
                    Err(e) => {
                        return Err(e);
                    },
                }
            }
            k += 1;
        }
        match &runtime.cursor_block {
            Some(c) => {
                let i = runtime.index_of(c.as_str());
                if i < runtime.blocks.len() {
                    let x = runtime.blocks[i].1.x;
                    let y = runtime.blocks[i].1.y;
                    match self.draw_rec(runtime, c.as_str(), x, y, &mut acc, false, depth) {
                        Ok(_) => {},
                        Err(e) => {
                            return Err(e);
                        },
                    }
                }
            },
            None => {},
        }
        runtime.process_accumulators(acc);
        self.draw_status_line(runtime);
        let left = runtime.viewport_offset_x;
        let top = runtime.viewport_offset_y;
        self.draw_toolbox(runtime, left, top, false)
    }
}

} // verus!
