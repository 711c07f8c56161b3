//! The interaction state machine: what a key does in each mode. A key
//! changes the editor's state and says what the driver has to do next:
//! draw a new frame, quit, or ask the host to open or save a project.

use vstd::prelude::*;
use vstd::string::*;
use crate::block::Block;
use crate::result::{ViiruError, plus, sum};
use crate::runtime::{Runtime, RuntimeView, State, Step, Viewport};
use crate::table::{clone_opt, keys, opt_text, position};
use crate::ui::{Cell, Screen, find_span, narrow, noting, span_at, trunc_div, with_toolbox};
use crate::util::{joined, push_char, str_eq, without_last};

verus! {

#[derive(Clone, Copy, PartialEq, Eq, Structural, Debug)]
pub enum Key {
    Char(char),
    Enter,
    Esc,
    Backspace,
    /// Any other key.
    Other,
}

/// What the driver has to ask of the host after a key.
#[derive(Debug)]
pub enum Request {
    Nothing,
    Quit,
    /// Open the project at this path.
    Load(String),
    /// Save the project to this path.
    Save(String),
}

#[derive(Debug)]
pub struct Outcome {
    /// Whether the frame has to be drawn anew.
    pub needs_refresh: bool,
    pub request: Request,
}

#[verifier::ext_equal]
pub enum RequestView {
    Nothing,
    Quit,
    Load(Seq<char>),
    Save(Seq<char>),
}

#[verifier::ext_equal]
pub struct OutcomeView {
    pub needs_refresh: bool,
    pub request: RequestView,
}

impl View for Request {
    type V = RequestView;

    open spec fn view(&self) -> RequestView {
        match *self {
            Request::Nothing => RequestView::Nothing,
            Request::Quit => RequestView::Quit,
            Request::Load(p) => RequestView::Load(p@),
            Request::Save(p) => RequestView::Save(p@),
        }
    }
}

impl View for Outcome {
    type V = OutcomeView;

    open spec fn view(&self) -> OutcomeView {
        OutcomeView { needs_refresh: self.needs_refresh, request: self.request@ }
    }
}

/// The view of the result of a key.
pub open spec fn outcome_result(r: Result<Outcome, ViiruError>) -> Result<OutcomeView, ViiruError> {
    match r {
        Ok(o) => Ok(o@),
        Err(e) => Err(e),
    }
}

/// What a key leaves: the state, the grid, and the outcome or the error.
pub type Handled = (RuntimeView, Seq<Seq<Cell>>, Result<OutcomeView, ViiruError>);

/// The four ways the cursor steps.
#[derive(Clone, Copy, PartialEq, Eq, Structural, Debug)]
pub enum Direction {
    Left,
    Down,
    Up,
    Right,
}

/// A new frame and nothing else.
pub open spec fn redraw() -> OutcomeView {
    OutcomeView { needs_refresh: true, request: RequestView::Nothing }
}

/// Neither a new frame nor anything else.
pub open spec fn ignored() -> OutcomeView {
    OutcomeView { needs_refresh: false, request: RequestView::Nothing }
}

/// A step of the engine as what a key leaves: a new frame where the step
/// went through.
pub open spec fn after(step: Step<()>, grid: Seq<Seq<Cell>>) -> Handled {
    (
        step.0,
        grid,
        match step.1 {
            Ok(_) => Ok(redraw()),
            Err(e) => Err(e),
        },
    )
}

impl RuntimeView {
    /// This state with the view moved by `(dx, dy)`.
    pub open spec fn scrolled(self, dx: int, dy: int) -> Step<()> {
        match (sum(self.scroll_x as int, dx), sum(self.scroll_y as int, dy)) {
            (Ok(x), Ok(y)) => (RuntimeView { scroll_x: x, scroll_y: y, ..self }, Ok(())),
            _ => (self, Err(ViiruError::Overflow)),
        }
    }

    /// This state after the cursor stepped and the view followed where the
    /// cursor reached its edge.
    pub open spec fn walk(self, d: Direction) -> Step<()> {
        let stepped = match d {
            Direction::Left => self.move_x(-1i32),
            Direction::Right => self.move_x(1),
            Direction::Up => self.move_y(-1i32),
            Direction::Down => self.move_y(1),
        };
        if stepped.1 is Err {
            stepped
        } else {
            let r = stepped.0;
            let vp = r.viewport;
            match d {
                Direction::Left => if r.cursor_x - r.scroll_x == vp.x_min - 1 {
                    r.scrolled(-1, 0)
                } else {
                    stepped
                },
                Direction::Right => if r.cursor_x - r.scroll_x == vp.x_max {
                    r.scrolled(1, 0)
                } else {
                    stepped
                },
                Direction::Up => if r.cursor_y - r.scroll_y < vp.y_min {
                    r.scrolled(0, -1)
                } else {
                    stepped
                },
                Direction::Down => if r.cursor_y - r.scroll_y == vp.y_max {
                    r.scrolled(0, 1)
                } else {
                    stepped
                },
            }
        }
    }

    /// This state after the view and the cursor stepped together.
    pub open spec fn pan(self, d: Direction) -> Step<()> {
        let moved = match d {
            Direction::Left => self.scrolled(-1, 0),
            Direction::Right => self.scrolled(1, 0),
            Direction::Up => self.scrolled(0, -1),
            Direction::Down => self.scrolled(0, 1),
        };
        if moved.1 is Err {
            moved
        } else {
            match d {
                Direction::Left => moved.0.move_x(-1i32),
                Direction::Right => moved.0.move_x(1),
                Direction::Up => moved.0.move_y(-1i32),
                Direction::Down => moved.0.move_y(1),
            }
        }
    }

    /// The block under the cursor: the one drawn last on the cursor's cell,
    /// if the graph holds it.
    pub open spec fn selected(self) -> Option<Seq<char>> {
        match span_at(self.block_positions, self.cursor_x as int, self.cursor_y as int) {
            Some(id) => if self.contains(id) {
                Some(id)
            } else {
                None
            },
            None => None,
        }
    }

    /// The block whose editable cell is under the cursor.
    pub open spec fn editable(self) -> Option<Seq<char>> {
        match span_at(self.writable_points, self.cursor_x as int, self.cursor_y as int) {
            Some(id) => if self.contains(id) {
                Some(id)
            } else {
                None
            },
            None => None,
        }
    }

    /// This state after the block under the cursor was picked up.
    pub open spec fn pick_up(self) -> Step<()> {
        match self.selected() {
            Some(id) => {
                let held = self.put_to_cursor(id);
                if held.1 is Err {
                    held
                } else {
                    (RuntimeView { state: State::Hold, ..held.0 }, Ok(()))
                }
            },
            None => (self, Ok(())),
        }
    }

    /// This state after a copy of block `id` was made and picked up.
    pub open spec fn stamp_and_hold(self, id: Seq<char>) -> Step<()> {
        let made = self.stamp(id, true, self.blocks.len());
        match made.1 {
            Err(e) => (made.0, Err(e)),
            Ok(copy) => if made.0.contains(copy) {
                let held = made.0.put_to_cursor(copy);
                if held.1 is Err {
                    held
                } else {
                    (RuntimeView { state: State::Hold, ..held.0 }, Ok(()))
                }
            } else {
                (made.0, Ok(()))
            },
        }
    }

    /// This state after the toolbox entry under the toolbox cursor was
    /// copied, picked up and brought to the cursor.
    pub open spec fn take_from_toolbox(self) -> Step<()> {
        if self.toolbox_cursor < self.toolbox.len() && self.contains(
            self.toolbox[self.toolbox_cursor as int],
        ) {
            let made = self.stamp(
                self.toolbox[self.toolbox_cursor as int],
                true,
                self.blocks.len(),
            );
            match made.1 {
                Err(e) => (made.0, Err(e)),
                Ok(copy) => if made.0.contains(copy) {
                    let held = made.0.put_to_cursor(copy);
                    if held.1 is Err {
                        held
                    } else {
                        let placed = held.0.slide_to(copy, held.0.cursor_x, held.0.cursor_y);
                        if placed.1 is Err {
                            placed
                        } else {
                            (RuntimeView { state: State::Hold, ..placed.0 }, Ok(()))
                        }
                    }
                } else {
                    (made.0, Ok(()))
                },
            }
        } else {
            (self, Ok(()))
        }
    }

    /// Whether block `id` only ends control, so that nothing may follow it.
    pub open spec fn refuses_next(self, id: Seq<char>) -> bool {
        self.block(id).boot_defined() && self.block(id).is_boot()
    }

    /// This state after the held block was let go into the input `name` of
    /// `parent`: the real block that sits there is detached and moved one
    /// cell right and down, then the held block takes its place.
    pub open spec fn drop_into(self, held: Seq<char>, parent: Seq<char>, name: Seq<char>) -> Step<()> {
        if !self.can_attach_input(held, parent, name) || self.block(held).parent_id is Some {
            (self, Ok(()))
        } else {
            let cleared = match self.block(parent).input(name).block_id {
                Some(e) => if self.contains(e) {
                    let loose = self.detach(e);
                    if loose.1 is Err {
                        loose
                    } else {
                        loose.0.slide_by(e, 1, 1, loose.0.blocks.len())
                    }
                } else {
                    (self, Ok(()))
                },
                None => (self, Ok(())),
            };
            if cleared.1 is Err {
                cleared
            } else if !cleared.0.can_attach_input(held, parent, name) || cleared.0.block(
                held,
            ).parent_id is Some {
                cleared
            } else {
                (cleared.0.attach_input(held, parent, name, false), Ok(()))
            }
        }
    }

    /// This state after the held block was let go after block `parent`: it
    /// is chained there where nothing follows `parent` yet and `parent` does
    /// not end control; where something follows already, the status line
    /// says so.
    pub open spec fn drop_after(self, held: Seq<char>, parent: Seq<char>) -> RuntimeView {
        if !self.contains(held) || !self.contains(parent) || self.block(held).parent_id is Some
            || self.refuses_next(parent) {
            self
        } else if self.block(parent).next_id is Some {
            RuntimeView { status_message: "Can't place between stacks yet"@, ..self }
        } else {
            self.attach_next(held, parent)
        }
    }

    /// This state after the held block was let go: attached where it lies on
    /// a drop point that takes it, else left where it is as a top-level
    /// block.
    pub open spec fn release(self) -> Step<()> {
        let free = RuntimeView { cursor_block: None, state: State::Move, ..self };
        match self.cursor_block {
            None => (free, Ok(())),
            Some(held) => match self.current_drop_point() {
                None => (free, Ok(())),
                Some((parent, input)) => match input {
                    Some(name) => free.drop_into(held, parent, name),
                    None => (free.drop_after(held, parent), Ok(())),
                },
            },
        }
    }

    /// This state after the held block, or else the block under the cursor,
    /// was deleted.
    pub open spec fn delete_here(self) -> Step<()> {
        if self.state == State::Hold {
            match self.cursor_block {
                Some(id) => {
                    let free = RuntimeView { cursor_block: None, ..self };
                    if free.contains(id) {
                        let gone = free.delete(id);
                        if gone.1 is Err {
                            gone
                        } else {
                            (RuntimeView { state: State::Move, ..gone.0 }, Ok(()))
                        }
                    } else {
                        (RuntimeView { state: State::Move, ..free }, Ok(()))
                    }
                },
                None => (self, Ok(())),
            }
        } else {
            match self.selected() {
                Some(id) => self.delete(id),
                None => (self, Ok(())),
            }
        }
    }

    /// This state with the toolbox cursor one entry further down.
    pub open spec fn toolbox_cursor_down(self) -> RuntimeView {
        if self.toolbox.len() == 0 {
            self
        } else if self.toolbox_cursor + 1 < self.toolbox.len() {
            RuntimeView { toolbox_cursor: (self.toolbox_cursor + 1) as usize, ..self }
        } else {
            RuntimeView { toolbox_cursor: (self.toolbox.len() - 1) as usize, ..self }
        }
    }

    /// This state with the toolbox scrolled one entry further down.
    pub open spec fn toolbox_scroll_down(self) -> RuntimeView {
        if self.toolbox.len() == 0 {
            self
        } else if self.toolbox_scroll + 1 < self.toolbox.len() {
            RuntimeView { toolbox_scroll: (self.toolbox_scroll + 1) as usize, ..self }
        } else {
            RuntimeView { toolbox_scroll: (self.toolbox.len() - 1) as usize, ..self }
        }
    }

    /// This state with the toolbox cursor one entry further up, and the
    /// toolbox scrolled up to it where it left the top.
    pub open spec fn toolbox_cursor_up(self) -> RuntimeView {
        let cursor = if self.toolbox_cursor > 0 {
            (self.toolbox_cursor - 1) as usize
        } else {
            0
        };
        RuntimeView {
            toolbox_cursor: cursor,
            toolbox_scroll: if self.toolbox_scroll > 0 && cursor == self.toolbox_scroll - 1 {
                cursor
            } else {
                self.toolbox_scroll
            },
            ..self
        }
    }

    /// This state with the toolbox cursor and the toolbox itself one entry
    /// further up.
    pub open spec fn toolbox_page_up(self) -> RuntimeView {
        RuntimeView {
            toolbox_cursor: if self.toolbox_cursor > 0 {
                (self.toolbox_cursor - 1) as usize
            } else {
                0
            },
            toolbox_scroll: if self.toolbox_scroll > 0 {
                (self.toolbox_scroll - 1) as usize
            } else {
                0
            },
            ..self
        }
    }

    /// This state after a literal was typed into: `c` appended to the
    /// literal of the block that is edited.
    pub open spec fn type_into(self, c: char) -> RuntimeView {
        if self.contains(self.editing_shadow) {
            self.set_strumber_field(
                self.editing_shadow,
                self.get_strumber_field(self.editing_shadow).push(c),
            )
        } else {
            self
        }
    }

    /// This state after the last character of the literal that is edited was
    /// rubbed out.
    pub open spec fn rub_out(self) -> RuntimeView {
        if self.contains(self.editing_shadow) {
            let text = self.get_strumber_field(self.editing_shadow);
            self.set_strumber_field(
                self.editing_shadow,
                if text.len() > 0 {
                    text.drop_last()
                } else {
                    text
                },
            )
        } else {
            self
        }
    }

    /// This state after the window got `columns` columns and `rows` rows:
    /// the viewport leaves room for the toolbox at the right and the status
    /// lines below.
    pub open spec fn resized(self, columns: u16, rows: u16) -> Step<()> {
        match (sum(columns as int, -(self.toolbox_width as int)), sum(rows as int, -(self.status_height as int))) {
            (Ok(x_max), Ok(y_max)) => (
                RuntimeView {
                    window_cols: columns,
                    window_rows: rows,
                    viewport: Viewport {
                        x_min: self.viewport_offset_x,
                        x_max,
                        y_min: self.viewport_offset_y,
                        y_max,
                    },
                    ..self
                },
                Ok(()),
            ),
            _ => (self, Err(ViiruError::Overflow)),
        }
    }

    /// This state at the start of a session in a window of `columns`
    /// columns and `rows` rows: the viewport starts three columns in and one
    /// row down, the toolbox takes 45 columns and the status lines five
    /// rows, and the origin of the canvas is in the middle of the viewport.
    pub open spec fn started(self, columns: u16, rows: u16) -> Step<()> {
        let ready = RuntimeView {
            viewport_offset_x: 3,
            viewport_offset_y: 1,
            toolbox_width: 45,
            status_height: 5,
            ..self
        }.resized(columns, rows);
        if ready.1 is Err {
            ready
        } else {
            let vp = ready.0.viewport;
            match (
                narrow(-3 - trunc_div(vp.x_max - vp.x_min, 2)),
                narrow(-1 - trunc_div(vp.y_max - vp.y_min, 2)),
            ) {
                (Ok(x), Ok(y)) => (RuntimeView { scroll_x: x, scroll_y: y, ..ready.0 }, Ok(())),
                _ => (ready.0, Err(ViiruError::Overflow)),
            }
        }
    }

    /// This state after the host answered a request to open `path`.
    pub open spec fn note_opened(self, path: Seq<char>, success: bool) -> RuntimeView {
        RuntimeView {
            status_message: if success {
                "Opened project file "@ + path
            } else {
                "Failed to open project file at "@ + path
            },
            ..self
        }
    }

    /// This state after the host answered a request to save to `path`:
    /// nothing counts as unsaved any more.
    pub open spec fn note_saved(self, path: Seq<char>, success: bool) -> RuntimeView {
        RuntimeView {
            is_dirty: false,
            status_message: if success {
                "Saved project into "@ + path
            } else {
                "Failed to write project file to "@ + path
            },
            ..self
        }
    }
}

/// The toolbox scrolled down, and measured anew each time, until the toolbox
/// cursor is among the entries that fit or the toolbox cannot scroll
/// further.
pub open spec fn reveal_cursor(rt: RuntimeView, grid: Seq<Seq<Cell>>) -> (
    RuntimeView,
    Seq<Seq<Cell>>,
    Result<(), ViiruError>,
)
    decreases rt.toolbox.len() - rt.toolbox_scroll,
{
    if rt.toolbox_cursor > rt.toolbox_visible_max && rt.toolbox_scroll + 1 < rt.toolbox.len()
        && rt.toolbox_scroll < usize::MAX {
        let lower = RuntimeView { toolbox_scroll: (rt.toolbox_scroll + 1) as usize, ..rt };
        let measured = with_toolbox(
            grid,
            lower,
            lower.viewport_offset_x,
            lower.viewport_offset_y,
            true,
        );
        match measured.1 {
            Err(e) => (lower, measured.0, Err(e)),
            Ok(_) => reveal_cursor(noting(lower, measured.1), measured.0),
        }
    } else {
        (rt, grid, Ok(()))
    }
}

/// What a key does while a path is typed: it is added to the path or rubs
/// out its last character; escape drops the path; enter hands the path to
/// the host, to open for `o` and to save for `w`.
pub open spec fn command_key(rt: RuntimeView, key: Key) -> (RuntimeView, OutcomeView) {
    match key {
        Key::Enter => (
            RuntimeView { command_buffer: Seq::empty(), state: State::Move, ..rt },
            OutcomeView {
                needs_refresh: true,
                request: if rt.last_command == 'o' {
                    RequestView::Load(rt.command_buffer)
                } else if rt.last_command == 'w' {
                    RequestView::Save(rt.command_buffer)
                } else {
                    RequestView::Nothing
                },
            },
        ),
        Key::Esc => (
            RuntimeView { command_buffer: Seq::empty(), state: State::Move, ..rt },
            redraw(),
        ),
        Key::Backspace => (
            RuntimeView {
                command_buffer: if rt.command_buffer.len() > 0 {
                    rt.command_buffer.drop_last()
                } else {
                    rt.command_buffer
                },
                ..rt
            },
            redraw(),
        ),
        Key::Char(c) => (RuntimeView { command_buffer: rt.command_buffer.push(c), ..rt }, redraw()),
        Key::Other => (rt, redraw()),
    }
}

/// What a key does while a literal is edited: it is added to the literal or
/// rubs out its last character; enter and escape end the editing.
pub open spec fn inline_key(rt: RuntimeView, key: Key) -> (RuntimeView, OutcomeView) {
    match key {
        Key::Enter => (RuntimeView { state: State::Move, ..rt }, redraw()),
        Key::Esc => (RuntimeView { state: State::Move, ..rt }, redraw()),
        Key::Backspace => (rt.rub_out(), redraw()),
        Key::Char(c) => (rt.type_into(c), redraw()),
        Key::Other => (rt, ignored()),
    }
}

/// Whether the cursor can step in this mode.
pub open spec fn roams(state: State) -> bool {
    state == State::Move || state == State::Hold
}

/// What a character does to the cursor and the view: `h`, `j`, `k` and `l`
/// step the cursor, their capitals step the view along with it.
pub open spec fn roam_key(rt: RuntimeView, c: char) -> Option<Step<()>> {
    if c == 'h' {
        Some(rt.walk(Direction::Left))
    } else if c == 'l' {
        Some(rt.walk(Direction::Right))
    } else if c == 'j' {
        Some(rt.walk(Direction::Down))
    } else if c == 'k' {
        Some(rt.walk(Direction::Up))
    } else if c == 'H' {
        Some(rt.pan(Direction::Left))
    } else if c == 'L' {
        Some(rt.pan(Direction::Right))
    } else if c == 'J' {
        Some(rt.pan(Direction::Down))
    } else if c == 'K' {
        Some(rt.pan(Direction::Up))
    } else {
        None
    }
}

/// What a character does to blocks while the cursor roams the canvas: `D`
/// deletes; the space bar picks up or lets go; `s` copies the block under
/// the cursor and holds the copy, or leaves a copy of the held block; `i`
/// starts editing the literal under the cursor.
pub open spec fn block_key(rt: RuntimeView, c: char) -> Option<(RuntimeView, Result<OutcomeView, ViiruError>)> {
    let moving = rt.state == State::Move;
    if c == 'D' {
        Some(concluded(rt.delete_here()))
    } else if c == ' ' {
        Some(
            concluded(
                if moving {
                    rt.pick_up()
                } else {
                    rt.release()
                },
            ),
        )
    } else if c == 's' && moving {
        match rt.selected() {
            Some(id) => Some(concluded(rt.stamp_and_hold(id))),
            None => Some((rt, Ok(ignored()))),
        }
    } else if c == 's' {
        match rt.cursor_block {
            Some(id) => if rt.contains(id) {
                let made = rt.stamp(id, true, rt.blocks.len());
                Some(
                    (
                        made.0,
                        match made.1 {
                            Ok(_) => Ok(redraw()),
                            Err(e) => Err(e),
                        },
                    ),
                )
            } else {
                Some((rt, Ok(ignored())))
            },
            None => Some((rt, Ok(ignored()))),
        }
    } else if c == 'i' && moving {
        match rt.editable() {
            Some(id) => Some(
                (RuntimeView { editing_shadow: id, state: State::Inline, ..rt }, Ok(redraw())),
            ),
            None => Some((rt, Ok(ignored()))),
        }
    } else if c == 't' && moving {
        Some((RuntimeView { state: State::Toolbox, ..rt }, Ok(redraw())))
    } else {
        None
    }
}

/// A step of the engine as the outcome of a key.
pub open spec fn concluded(step: Step<()>) -> (RuntimeView, Result<OutcomeView, ViiruError>) {
    (
        step.0,
        match step.1 {
            Ok(_) => Ok(redraw()),
            Err(e) => Err(e),
        },
    )
}

/// What a character does in the toolbox: `j` and `k` step its cursor, their
/// capitals scroll it as well, the space bar takes a copy of the entry under
/// the cursor, `t` leaves.
pub open spec fn toolbox_key(rt: RuntimeView, grid: Seq<Seq<Cell>>, c: char) -> Handled {
    if c == 'j' {
        let shown = reveal_cursor(rt.toolbox_cursor_down(), grid);
        (
            shown.0,
            shown.1,
            match shown.2 {
                Ok(_) => Ok(redraw()),
                Err(e) => Err(e),
            },
        )
    } else if c == 'k' {
        (rt.toolbox_cursor_up(), grid, Ok(redraw()))
    } else if c == 'J' {
        (rt.toolbox_cursor_down().toolbox_scroll_down(), grid, Ok(redraw()))
    } else if c == 'K' {
        (rt.toolbox_page_up(), grid, Ok(redraw()))
    } else if c == 't' {
        (RuntimeView { state: State::Move, ..rt }, grid, Ok(redraw()))
    } else if c == ' ' {
        after(rt.take_from_toolbox(), grid)
    } else {
        (rt, grid, Ok(ignored()))
    }
}

/// What a character does in the modes that take commands. `q` quits unless
/// something is unsaved, `Q` quits anyway, `o` and `w` ask for a path; any
/// other character goes by the mode.
pub open spec fn char_key(rt: RuntimeView, grid: Seq<Seq<Cell>>, c: char) -> Handled {
    if c == 'q' {
        if rt.is_dirty {
            (RuntimeView { status_message: "Unsaved changes. (Q to force)"@, ..rt }, grid, Ok(redraw()))
        } else {
            (rt, grid, Ok(OutcomeView { needs_refresh: false, request: RequestView::Quit }))
        }
    } else if c == 'Q' {
        (rt, grid, Ok(OutcomeView { needs_refresh: false, request: RequestView::Quit }))
    } else if c == 'o' || c == 'w' {
        (RuntimeView { state: State::Command, ..rt }, grid, Ok(redraw()))
    } else if rt.state == State::Toolbox {
        toolbox_key(rt, grid, c)
    } else {
        match roam_key(rt, c) {
            Some(step) => after(step, grid),
            None => match block_key(rt, c) {
                Some(done) => (done.0, grid, done.1),
                None => (rt, grid, Ok(ignored())),
            },
        }
    }
}

/// What a key does: while a path is typed or a literal is edited, it goes
/// there; else a character is noted as the last command and obeyed, and any
/// other key does nothing.
pub open spec fn key_handled(rt: RuntimeView, grid: Seq<Seq<Cell>>, key: Key) -> Handled {
    if rt.state == State::Command {
        let done = command_key(rt, key);
        (done.0, grid, Ok(done.1))
    } else if rt.state == State::Inline {
        let done = inline_key(rt, key);
        (done.0, grid, Ok(done.1))
    } else {
        match key {
            Key::Char(c) => char_key(RuntimeView { last_command: c, ..rt }, grid, c),
            _ => (rt, grid, Ok(ignored())),
        }
    }
}


fn half(v: i64) -> (r: i64)
    requires
        -0x1_0000_0000 <= v <= 0x1_0000_0000,
    ensures
        r == trunc_div(v as int, 2),
        -0x1_0000_0000 <= r <= 0x1_0000_0000,
{
    if v >= 0 {
        v / 2
    } else {
        -((-v) / 2)
    }
}

fn fit(v: i64) -> (r: Result<i32, ViiruError>)
    ensures
        r == narrow(v as int),
{
    if v < i32::MIN as i64 || v > i32::MAX as i64 {
        Err(ViiruError::Overflow)
    } else {
        Ok(v as i32)
    }
}

/// Whether the block only ends control, so that nothing may follow it.
fn ends_control(block: &Block) -> (r: bool)
    ensures
        r == (block@.boot_defined() && block@.is_boot()),
{
    if str_eq(block.opcode.as_str(), "control_stop") {
        let f = position(&block.fields, "STOP_OPTION");
        proof {
            assert(keys(block.fields@) =~= block@.field_names());
        }
        if f >= block.fields.len() {
            return false;
        }
    }
    block.is_boot()
}

impl Runtime {
    fn scroll_by(&mut self, dx: i32, dy: i32) -> (r: Result<(), ViiruError>)
        ensures
            (final(self)@, r) == old(self)@.scrolled(dx as int, dy as int),
    {
        match (plus(self.scroll_x, dx), plus(self.scroll_y, dy)) {
            (Ok(x), Ok(y)) => {
                self.scroll_x = x;
                self.scroll_y = y;
                Ok(())
            },
            _ => Err(ViiruError::Overflow),
        }
    }

    /// Steps the cursor and lets the view follow it at the edge.
    pub fn walk(&mut self, d: Direction) -> (r: Result<(), ViiruError>)
        ensures
            (final(self)@, r) == old(self)@.walk(d),
    {
        let stepped = match d {
            Direction::Left => self.move_x(-1),
            Direction::Right => self.move_x(1),
            Direction::Up => self.move_y(-1),
            Direction::Down => self.move_y(1),
        };
        let ghost spec_stepped = match d {
            Direction::Left => old(self)@.move_x(-1i32),
            Direction::Right => old(self)@.move_x(1),
            Direction::Up => old(self)@.move_y(-1i32),
            Direction::Down => old(self)@.move_y(1),
        };
        assert((self@, stepped) == spec_stepped);
        if stepped.is_err() {
            return stepped;
        }
        let vp = self.viewport;
        let sx: i64 = self.cursor_x as i64 - self.scroll_x as i64;
        let sy: i64 = self.cursor_y as i64 - self.scroll_y as i64;
        let follow = match d {
            Direction::Left => sx == vp.x_min as i64 - 1,
            Direction::Right => sx == vp.x_max as i64,
            Direction::Up => sy < vp.y_min as i64,
            Direction::Down => sy == vp.y_max as i64,
        };
        if !follow {
            return stepped;
        }
        match d {
            Direction::Left => self.scroll_by(-1, 0),
            Direction::Right => self.scroll_by(1, 0),
            Direction::Up => self.scroll_by(0, -1),
            Direction::Down => self.scroll_by(0, 1),
        }
    }

    /// Steps the view and the cursor together.
    pub fn pan(&mut self, d: Direction) -> (r: Result<(), ViiruError>)
        ensures
            (final(self)@, r) == old(self)@.pan(d),
    {
        let moved = match d {
            Direction::Left => self.scroll_by(-1, 0),
            Direction::Right => self.scroll_by(1, 0),
            Direction::Up => self.scroll_by(0, -1),
            Direction::Down => self.scroll_by(0, 1),
        };
        match moved {
            Ok(_) => {},
            Err(e) => {
                return Err(e);
            },
        }
        match d {
            Direction::Left => self.move_x(-1),
            Direction::Right => self.move_x(1),
            Direction::Up => self.move_y(-1),
            Direction::Down => self.move_y(1),
        }
    }

    /// The block under the cursor.
    pub fn selected(&self) -> (r: Option<String>)
        ensures
            opt_text(r) == self@.selected(),
    {
        match find_span(&self.block_positions, self.cursor_x, self.cursor_y) {
            Some(id) => {
                if self.contains(id.as_str()) {
                    Some(id)
                } else {
                    None
                }
            },
            None => None,
        }
    }

    /// The block whose editable cell is under the cursor.
    pub fn editable(&self) -> (r: Option<String>)
        ensures
            opt_text(r) == self@.editable(),
    {
        match find_span(&self.writable_points, self.cursor_x, self.cursor_y) {
            Some(id) => {
                if self.contains(id.as_str()) {
                    Some(id)
                } else {
                    None
                }
            },
            None => None,
        }
    }

    /// Picks up the block under the cursor.
    pub fn pick_up(&mut self) -> (r: Result<(), ViiruError>)
        ensures
            (final(self)@, r) == old(self)@.pick_up(),
    {
        match self.selected() {
            Some(id) => {
                match self.put_to_cursor(id.as_str()) {
                    Ok(_) => {
                        self.state = State::Hold;
                        Ok(())
                    },
                    Err(e) => Err(e),
                }
            },
            None => Ok(()),
        }
    }

    fn stamp_and_hold(&mut self, id: &str) -> (r: Result<(), ViiruError>)
        requires
            old(self)@.contains(id@),
        ensures
            (final(self)@, r) == old(self)@.stamp_and_hold(id@),
    {
        let copy = match self.stamp_block(id, true) {
            Ok(c) => c,
            Err(e) => {
                return Err(e);
            },
        };
        if !self.contains(copy.as_str()) {
            return Ok(());
        }
        match self.put_to_cursor(copy.as_str()) {
            Ok(_) => {
                self.state = State::Hold;
                Ok(())
            },
            Err(e) => Err(e),
        }
    }

    /// Copies the toolbox entry under the toolbox cursor, picks the copy up
    /// and brings it to the cursor.
    pub fn take_from_toolbox(&mut self) -> (r: Result<(), ViiruError>)
        ensures
            (final(self)@, r) == old(self)@.take_from_toolbox(),
    {
        if self.toolbox_cursor >= self.toolbox.len() {
            return Ok(());
        }
        let entry = self.toolbox[self.toolbox_cursor].clone();
        if !self.contains(entry.as_str()) {
            return Ok(());
        }
        let copy = match self.stamp_block(entry.as_str(), true) {
            Ok(c) => c,
            Err(e) => {
                return Err(e);
            },
        };
        if !self.contains(copy.as_str()) {
            return Ok(());
        }
        match self.put_to_cursor(copy.as_str()) {
            Ok(_) => {},
            Err(e) => {
                return Err(e);
            },
        }
        if !self.contains(copy.as_str()) {
            self.state = State::Hold;
            return Ok(());
        }
        let x = self.cursor_x;
        let y = self.cursor_y;
        match self.slide_block_to(copy.as_str(), x, y) {
            Ok(_) => {
                self.state = State::Hold;
                Ok(())
            },
            Err(e) => Err(e),
        }
    }

    fn drop_into(&mut self, held: &str, parent: &str, name: &str) -> (r: Result<(), ViiruError>)
        ensures
            (final(self)@, r) == old(self)@.drop_into(held@, parent@, name@),
    {
        if !self.accepts(held, parent, name) {
            return Ok(());
        }
        let p = self.index_of(parent);
        let k = position(&self.blocks[p].1.inputs, name);
        proof {
            assert(keys(self.blocks@[p as int].1.inputs@) =~= self@.block(parent@).input_names());
        }
        let existing = clone_opt(&self.blocks[p].1.inputs[k].1.block_id);
        assert(opt_text(existing) == old(self)@.block(parent@).input(name@).block_id);
        let ghost start = self@;
        let ghost wanted = match start.block(parent@).input(name@).block_id {
            Some(e) => if start.contains(e) {
                let loose = start.detach(e);
                if loose.1 is Err {
                    loose
                } else {
                    loose.0.slide_by(e, 1, 1, loose.0.blocks.len())
                }
            } else {
                (start, Ok::<(), ViiruError>(()))
            },
            None => (start, Ok::<(), ViiruError>(())),
        };
        let cleared = self.make_room(existing);
        assert((self@, cleared) == wanted);
        if cleared.is_err() {
            return cleared;
        }
        if self.accepts(held, parent, name) {
            let _ = self.link_input(held, parent, name, false);
            Ok(())
        } else {
            cleared
        }
    }

    /// Detaches block `existing`, where there is one, and moves it one cell
    /// right and down.
    fn make_room(&mut self, existing: Option<String>) -> (r: Result<(), ViiruError>)
        ensures
            (final(self)@, r) == match opt_text(existing) {
                Some(e) => if old(self)@.contains(e) {
                    let loose = old(self)@.detach(e);
                    if loose.1 is Err {
                        loose
                    } else {
                        loose.0.slide_by(e, 1, 1, loose.0.blocks.len())
                    }
                } else {
                    (old(self)@, Ok::<(), ViiruError>(()))
                },
                None => (old(self)@, Ok::<(), ViiruError>(())),
            },
    {
        match &existing {
            Some(e) => {
                if !self.contains(e.as_str()) {
                    return Ok(());
                }
                let loose = self.detach_block(e.as_str());
                if loose.is_err() {
                    return loose;
                }
                if self.contains(e.as_str()) {
                    self.slide_block_by(e.as_str(), 1, 1)
                } else {
                    Ok(())
                }
            },
            None => Ok(()),
        }
    }

    /// Whether the parentless block `held` can go into the input `name` of
    /// `parent`.
    fn accepts(&self, held: &str, parent: &str, name: &str) -> (r: bool)
        ensures
            r == (self@.can_attach_input(held@, parent@, name@) && self@.block(
                held@,
            ).parent_id is None),
    {
        let h = self.index_of(held);
        let p = self.index_of(parent);
        if h >= self.blocks.len() || p >= self.blocks.len() {
            return false;
        }
        let k = position(&self.blocks[p].1.inputs, name);
        proof {
            assert(keys(self.blocks@[p as int].1.inputs@) =~= self@.block(parent@).input_names());
        }
        k < self.blocks[p].1.inputs.len() && self.blocks[h].1.parent_id.is_none()
    }

    fn drop_after(&mut self, held: &str, parent: &str)
        ensures
            final(self)@ == old(self)@.drop_after(held@, parent@),
    {
        let h = self.index_of(held);
        let p = self.index_of(parent);
        if h >= self.blocks.len() || p >= self.blocks.len() {
            return ;
        }
        if self.blocks[h].1.parent_id.is_some() || ends_control(&self.blocks[p].1) {
            return ;
        }
        if self.blocks[p].1.next_id.is_some() {
            self.status_message = "Can't place between stacks yet".to_owned();
            return ;
        }
        self.link_next(held, parent);
    }

    /// Lets the held block go: it is attached where it lies on a drop point
    /// that takes it, else it stays where it is.
    pub fn release(&mut self) -> (r: Result<(), ViiruError>)
        ensures
            (final(self)@, r) == old(self)@.release(),
    {
        let target = self.current_drop_point();
        let held = clone_opt(&self.cursor_block);
        self.cursor_block = None;
        self.state = State::Move;
        match (held, target) {
            (Some(held), Some((parent, input))) => {
                match input {
                    Some(name) => self.drop_into(held.as_str(), parent.as_str(), name.as_str()),
                    None => {
                        self.drop_after(held.as_str(), parent.as_str());
                        Ok(())
                    },
                }
            },
            _ => Ok(()),
        }
    }

    /// Deletes the held block, or else the block under the cursor.
    pub fn delete_here(&mut self) -> (r: Result<(), ViiruError>)
        ensures
            (final(self)@, r) == old(self)@.delete_here(),
    {
        match self.state {
            State::Hold => {
                let held = clone_opt(&self.cursor_block);
                match held {
                    Some(id) => {
                        self.cursor_block = None;
                        if self.contains(id.as_str()) {
                            match self.delete_block(id.as_str()) {
                                Ok(_) => {},
                                Err(e) => {
                                    return Err(e);
                                },
                            }
                        }
                        self.state = State::Move;
                        Ok(())
                    },
                    None => Ok(()),
                }
            },
            _ => {
                match self.selected() {
                    Some(id) => self.delete_block(id.as_str()),
                    None => Ok(()),
                }
            },
        }
    }

    fn toolbox_cursor_down(&mut self)
        ensures
            final(self)@ == old(self)@.toolbox_cursor_down(),
    {
        let n = self.toolbox.len();
        if n == 0 {
            return ;
        }
        if self.toolbox_cursor < n - 1 {
            self.toolbox_cursor = self.toolbox_cursor + 1;
        } else {
            self.toolbox_cursor = n - 1;
        }
    }

    fn toolbox_scroll_down(&mut self)
        ensures
            final(self)@ == old(self)@.toolbox_scroll_down(),
    {
        let n = self.toolbox.len();
        if n == 0 {
            return ;
        }
        if self.toolbox_scroll < n - 1 {
            self.toolbox_scroll = self.toolbox_scroll + 1;
        } else {
            self.toolbox_scroll = n - 1;
        }
    }

    fn toolbox_cursor_up(&mut self)
        ensures
            final(self)@ == old(self)@.toolbox_cursor_up(),
    {
        if self.toolbox_cursor > 0 {
            self.toolbox_cursor = self.toolbox_cursor - 1;
        }
        if self.toolbox_scroll > 0 && self.toolbox_cursor == self.toolbox_scroll - 1 {
            self.toolbox_scroll = self.toolbox_cursor;
        }
    }

    fn toolbox_page_up(&mut self)
        ensures
            final(self)@ == old(self)@.toolbox_page_up(),
    {
        if self.toolbox_cursor > 0 {
            self.toolbox_cursor = self.toolbox_cursor - 1;
        }
        if self.toolbox_scroll > 0 {
            self.toolbox_scroll = self.toolbox_scroll - 1;
        }
    }

    fn type_into(&mut self, c: char)
        ensures
            final(self)@ == old(self)@.type_into(c),
    {
        let id = self.editing_shadow.clone();
        if !self.contains(id.as_str()) {
            return ;
        }
        let mut text = self.get_strumber_field(id.as_str());
        push_char(&mut text, c);
        self.set_strumber_field(id.as_str(), text.as_str());
    }

    fn rub_out(&mut self)
        ensures
            final(self)@ == old(self)@.rub_out(),
    {
        let id = self.editing_shadow.clone();
        if !self.contains(id.as_str()) {
            return ;
        }
        let text = without_last(self.get_strumber_field(id.as_str()).as_str());
        self.set_strumber_field(id.as_str(), text.as_str());
    }

    /// Takes over a new window size.
    pub fn resize(&mut self, columns: u16, rows: u16) -> (r: Result<(), ViiruError>)
        ensures
            (final(self)@, r) == old(self)@.resized(columns, rows),
    {
        match (
            fit(columns as i64 - self.toolbox_width as i64),
            fit(rows as i64 - self.status_height as i64),
        ) {
            (Ok(x_max), Ok(y_max)) => {
                self.window_cols = columns;
                self.window_rows = rows;
                self.viewport = Viewport {
                    x_min: self.viewport_offset_x,
                    x_max,
                    y_min: self.viewport_offset_y,
                    y_max,
                };
                Ok(())
            },
            _ => Err(ViiruError::Overflow),
        }
    }

    /// Sets the editor up for a window of `columns` columns and `rows`
    /// rows.
    pub fn start(&mut self, columns: u16, rows: u16) -> (r: Result<(), ViiruError>)
        ensures
            (final(self)@, r) == old(self)@.started(columns, rows),
    {
        self.viewport_offset_x = 3;
        self.viewport_offset_y = 1;
        self.toolbox_width = 45;
        self.status_height = 5;
        match self.resize(columns, rows) {
            Ok(_) => {},
            Err(e) => {
                return Err(e);
            },
        }
        let vp = self.viewport;
        match (
            fit(-3 - half(vp.x_max as i64 - vp.x_min as i64)),
            fit(-1 - half(vp.y_max as i64 - vp.y_min as i64)),
        ) {
            (Ok(x), Ok(y)) => {
                self.scroll_x = x;
                self.scroll_y = y;
                Ok(())
            },
            _ => Err(ViiruError::Overflow),
        }
    }

    /// Notes the host's answer to a request to open `path`.
    pub fn note_opened(&mut self, path: &str, success: bool)
        ensures
            final(self)@ == old(self)@.note_opened(path@, success),
    {
        self.status_message = if success {
            joined("Opened project file ", path)
        } else {
            joined("Failed to open project file at ", path)
        };
    }

    /// Notes the host's answer to a request to save to `path`.
    pub fn note_saved(&mut self, path: &str, success: bool)
        ensures
            final(self)@ == old(self)@.note_saved(path@, success),
    {
        self.is_dirty = false;
        self.status_message = if success {
            joined("Saved project into ", path)
        } else {
            joined("Failed to write project file to ", path)
        };
    }

    fn command_key(&mut self, key: Key) -> (r: Outcome)
        ensures
            (final(self)@, r@) == command_key(old(self)@, key),
    {
        match key {
            Key::Enter => {
                let mut path = String::new();
                std::mem::swap(&mut self.command_buffer, &mut path);
                self.state = State::Move;
                let request = if self.last_command == 'o' {
                    Request::Load(path)
                } else if self.last_command == 'w' {
                    Request::Save(path)
                } else {
                    Request::Nothing
                };
                Outcome { needs_refresh: true, request }
            },
            Key::Esc => {
                self.command_buffer = String::new();
                self.state = State::Move;
                Outcome { needs_refresh: true, request: Request::Nothing }
            },
            Key::Backspace => {
                self.command_buffer = without_last(self.command_buffer.as_str());
                Outcome { needs_refresh: true, request: Request::Nothing }
            },
            Key::Char(c) => {
                push_char(&mut self.command_buffer, c);
                Outcome { needs_refresh: true, request: Request::Nothing }
            },
            Key::Other => Outcome { needs_refresh: true, request: Request::Nothing },
        }
    }

    fn inline_key(&mut self, key: Key) -> (r: Outcome)
        ensures
            (final(self)@, r@) == inline_key(old(self)@, key),
    {
        match key {
            Key::Enter => {
                self.state = State::Move;
                Outcome { needs_refresh: true, request: Request::Nothing }
            },
            Key::Esc => {
                self.state = State::Move;
                Outcome { needs_refresh: true, request: Request::Nothing }
            },
            Key::Backspace => {
                self.rub_out();
                Outcome { needs_refresh: true, request: Request::Nothing }
            },
            Key::Char(c) => {
                self.type_into(c);
                Outcome { needs_refresh: true, request: Request::Nothing }
            },
            Key::Other => Outcome { needs_refresh: false, request: Request::Nothing },
        }
    }
}

/// What a finished step means for the driver.
fn seen(r: Result<(), ViiruError>) -> (o: Result<Outcome, ViiruError>)
    ensures
        outcome_result(o) == match r {
            Ok(_) => Ok::<OutcomeView, ViiruError>(redraw()),
            Err(e) => Err::<OutcomeView, ViiruError>(e),
        },
{
    match r {
        Ok(_) => Ok(Outcome { needs_refresh: true, request: Request::Nothing }),
        Err(e) => Err(e),
    }
}

fn nothing() -> (o: Result<Outcome, ViiruError>)
    ensures
        outcome_result(o) == Ok::<OutcomeView, ViiruError>(ignored()),
{
    Ok(Outcome { needs_refresh: false, request: Request::Nothing })
}

fn shown() -> (o: Result<Outcome, ViiruError>)
    ensures
        outcome_result(o) == Ok::<OutcomeView, ViiruError>(redraw()),
{
    Ok(Outcome { needs_refresh: true, request: Request::Nothing })
}

fn quit() -> (o: Result<Outcome, ViiruError>)
    ensures
        outcome_result(o) == Ok::<OutcomeView, ViiruError>(
            OutcomeView { needs_refresh: false, request: RequestView::Quit },
        ),
{
    Ok(Outcome { needs_refresh: false, request: Request::Quit })
}

/// Scrolls the toolbox down until its cursor is among the entries that fit.
fn reveal_cursor_exec(runtime: &mut Runtime, screen: &mut Screen) -> (r: Result<(), ViiruError>)
    ensures
        (final(runtime)@, final(screen)@, r) == reveal_cursor(old(runtime)@, old(screen)@),
{
    let ghost total = reveal_cursor(runtime@, screen@);
    while runtime.toolbox_cursor > runtime.toolbox_visible_max && runtime.toolbox_scroll
        < runtime.toolbox.len() && runtime.toolbox_scroll + 1 < runtime.toolbox.len()
        invariant
            reveal_cursor(runtime@, screen@) == total,
            total == reveal_cursor(old(runtime)@, old(screen)@),
            runtime.toolbox@.len() == old(runtime).toolbox@.len(),
        decreases runtime.toolbox.len() - runtime.toolbox_scroll,
    {
        runtime.toolbox_scroll = runtime.toolbox_scroll + 1;
        let left = runtime.viewport_offset_x;
        let top = runtime.viewport_offset_y;
        match screen.draw_toolbox(runtime, left, top, true) {
            Ok(_) => {},
            Err(e) => {
                return Err(e);
            },
        }
    }
    Ok(())
}

fn roam_key_exec(runtime: &mut Runtime, c: char) -> (r: Option<Result<(), ViiruError>>)
    ensures
        match r {
            Some(done) => roam_key(old(runtime)@, c) == Some((final(runtime)@, done)),
            None => roam_key(old(runtime)@, c) is None && final(runtime)@ == old(runtime)@,
        },
{
    if c == 'h' {
        Some(runtime.walk(Direction::Left))
    } else if c == 'l' {
        Some(runtime.walk(Direction::Right))
    } else if c == 'j' {
        Some(runtime.walk(Direction::Down))
    } else if c == 'k' {
        Some(runtime.walk(Direction::Up))
    } else if c == 'H' {
        Some(runtime.pan(Direction::Left))
    } else if c == 'L' {
        Some(runtime.pan(Direction::Right))
    } else if c == 'J' {
        Some(runtime.pan(Direction::Down))
    } else if c == 'K' {
        Some(runtime.pan(Direction::Up))
    } else {
        None
    }
}

fn block_key_exec(runtime: &mut Runtime, c: char) -> (r: Option<Result<Outcome, ViiruError>>)
    requires
        old(runtime).state == State::Move || old(runtime).state == State::Hold,
    ensures
        match r {
            Some(done) => block_key(old(runtime)@, c) == Some(
                (final(runtime)@, outcome_result(done)),
            ),
            None => block_key(old(runtime)@, c) is None && final(runtime)@ == old(runtime)@,
        },
{
    let moving = match runtime.state {
        State::Move => true,
        _ => false,
    };
    if c == 'D' {
        Some(seen(runtime.delete_here()))
    } else if c == ' ' {
        if moving {
            Some(seen(runtime.pick_up()))
        } else {
            Some(seen(runtime.release()))
        }
    } else if c == 's' && moving {
        match runtime.selected() {
            Some(id) => Some(seen(runtime.stamp_and_hold(id.as_str()))),
            None => Some(nothing()),
        }
    } else if c == 's' {
        let held = clone_opt(&runtime.cursor_block);
        match held {
            Some(id) => {
                if runtime.contains(id.as_str()) {
                    match runtime.stamp_block(id.as_str(), true) {
                        Ok(_) => Some(shown()),
                        Err(e) => Some(Err(e)),
                    }
                } else {
                    Some(nothing())
                }
            },
            None => Some(nothing()),
        }
    } else if c == 'i' && moving {
        match runtime.editable() {
            Some(id) => {
                runtime.editing_shadow = id;
                runtime.state = State::Inline;
                Some(shown())
            },
            None => Some(nothing()),
        }
    } else if c == 't' && moving {
        runtime.state = State::Toolbox;
        Some(shown())
    } else {
        None
    }
}

fn toolbox_key_exec(runtime: &mut Runtime, screen: &mut Screen, c: char) -> (r: Result<
    Outcome,
    ViiruError,
>)
    ensures
        (final(runtime)@, final(screen)@, outcome_result(r)) == toolbox_key(
            old(runtime)@,
            old(screen)@,
            c,
        ),
{
    if c == 'j' {
        runtime.toolbox_cursor_down();
        seen(reveal_cursor_exec(runtime, screen))
    } else if c == 'k' {
        runtime.toolbox_cursor_up();
        shown()
    } else if c == 'J' {
        runtime.toolbox_cursor_down();
        runtime.toolbox_scroll_down();
        shown()
    } else if c == 'K' {
        runtime.toolbox_page_up();
        shown()
    } else if c == 't' {
        runtime.state = State::Move;
        shown()
    } else if c == ' ' {
        seen(runtime.take_from_toolbox())
    } else {
        nothing()
    }
}

fn char_key_exec(runtime: &mut Runtime, screen: &mut Screen, c: char) -> (r: Result<
    Outcome,
    ViiruError,
>)
    requires
        old(runtime).state != State::Command,
        old(runtime).state != State::Inline,
    ensures
        (final(runtime)@, final(screen)@, outcome_result(r)) == char_key(
            old(runtime)@,
            old(screen)@,
            c,
        ),
{
    if c == 'q' {
        if runtime.is_dirty {
            runtime.status_message = "Unsaved changes. (Q to force)".to_owned();
            shown()
        } else {
            quit()
        }
    } else if c == 'Q' {
        quit()
    } else if c == 'o' || c == 'w' {
        runtime.state = State::Command;
        shown()
    } else {
        match runtime.state {
            State::Toolbox => toolbox_key_exec(runtime, screen, c),
            _ => {
                match roam_key_exec(runtime, c) {
                    Some(done) => seen(done),
                    None => {
                        match block_key_exec(runtime, c) {
                            Some(done) => done,
                            None => nothing(),
                        }
                    },
                }
            },
        }
    }
}

/// Obeys a key. The grid is only written to where the toolbox has to be
/// measured anew.
pub fn handle_key(runtime: &mut Runtime, screen: &mut Screen, key: Key) -> (r: Result<
    Outcome,
    ViiruError,
>)
    ensures
        (final(runtime)@, final(screen)@, outcome_result(r)) == key_handled(
            old(runtime)@,
            old(screen)@,
            key,
        ),
{
    match runtime.state {
        State::Command => Ok(runtime.command_key(key)),
        State::Inline => Ok(runtime.inline_key(key)),
        _ => {
            match key {
                Key::Char(c) => {
                    runtime.last_command = c;
                    char_key_exec(runtime, screen, c)
                },
                _ => nothing(),
            }
        },
    }
}

} // verus!
