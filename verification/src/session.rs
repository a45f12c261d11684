//! The interactive session: its state machine, and the render plan it
//! produces. The surrounding program polls the terminal, feeds events in,
//! performs the returned actions (searching, invoking, copying, leaving),
//! and writes the render operations out.

use crate::candidates::{built_from, query_text, Candidates};
use crate::matched_path::{chunks_of, chunk_concat, MatchView};
use crate::query::Query;
use crate::starting_point::StartingPoint;
use crate::status_line::StatusLine;
use vstd::prelude::*;

verus! {

/// Where the render loop stands: what changed since the last render.
#[derive(Debug, Clone, Copy, PartialEq, Eq, Structural)]
pub enum SessionState {
    /// Nothing pending; the screen may still need a redraw after a
    /// selection or cursor move, which `rendered` tracks separately.
    Ready,
    /// The query changed; a re-search is due once input goes idle, and
    /// this survives renders until that search happens.
    QueryChanged,
    /// The candidate list was rebuilt.
    PathsChanged,
    /// The selection or the cursor moved.
    SelectionChanged,
}

/// One input event, as the surrounding program reads it.
pub enum SessionEvent {
    /// A printable grapheme cluster was typed.
    Grapheme(String),
    Backspace,
    Up,
    Down,
    Left,
    Right,
    Enter,
    CopyAbsolute,
    CopyRelative,
    Quit,
    Resize,
    /// The input poll timed out with nothing to read.
    Tick,
    /// An event of no interest.
    Noop,
}

/// What the surrounding program must do next.
pub enum SessionAction {
    /// Keep polling.
    Idle,
    /// Walk the tree again and hand the paths back via `apply_paths`.
    Search,
    /// Invoke the external command on this path and stop.
    Invoke(String),
    /// Copy this text to the clipboard if one is available, then stop.
    CopyAndExit(Option<String>),
    /// Stop without invoking anything.
    Exit,
}

/// How many candidate rows fit a terminal of `rows` lines: everything but
/// the query line and the help line, and one more line when a status line
/// is shown.
pub open spec fn visible_rows(rows: int, mode: StatusLine) -> int {
    let used: int = if mode is Hidden {
        2
    } else {
        3
    };
    if rows >= used {
        rows - used
    } else {
        0
    }
}

/// The number of candidate rows that fit the terminal.
pub fn visible_paths_length(rows: u16, mode: StatusLine) -> (r: usize)
    ensures
        r == visible_rows(rows as int, mode),
{
    match mode {
        StatusLine::Hidden => {
            if rows >= 2 {
                (rows - 2) as usize
            } else {
                0
            }
        },
        _ => {
            if rows >= 3 {
                (rows - 3) as usize
            } else {
                0
            }
        },
    }
}

/// One terminal operation of the render plan.
pub enum RenderOp {
    /// Clear the whole screen.
    ClearAll,
    /// Move the cursor to the given column and row.
    MoveTo(u16, u16),
    /// Move to the start of the next line.
    NextLine,
    /// Move the cursor right by the given number of columns.
    MoveRight(u16),
    /// Print text at the cursor.
    Print(String),
    /// Start bold text.
    Bold,
    /// Start reversed text.
    Reverse,
    /// Reset all attributes.
    ResetAttr,
}

/// The mathematical content of a render operation.
pub ghost enum OpView {
    ClearAll,
    MoveTo { col: int, row: int },
    NextLine,
    MoveRight { cols: int },
    Print { text: Seq<char> },
    Bold,
    Reverse,
    ResetAttr,
}

impl View for RenderOp {
    type V = OpView;

    open spec fn view(&self) -> OpView {
        match self {
            RenderOp::ClearAll => OpView::ClearAll,
            RenderOp::MoveTo(c, r) => OpView::MoveTo { col: *c as int, row: *r as int },
            RenderOp::NextLine => OpView::NextLine,
            RenderOp::MoveRight(c) => OpView::MoveRight { cols: *c as int },
            RenderOp::Print(s) => OpView::Print { text: s@ },
            RenderOp::Bold => OpView::Bold,
            RenderOp::Reverse => OpView::Reverse,
            RenderOp::ResetAttr => OpView::ResetAttr,
        }
    }
}

/// The operations that print a chunk list: matched chunks in bold.
pub open spec fn ops_for_chunks(cs: Seq<(Seq<char>, bool)>) -> Seq<OpView>
    decreases cs.len(),
{
    if cs.len() == 0 {
        Seq::empty()
    } else {
        ops_for_chunks(cs.drop_last()) + (if cs.last().1 {
            seq![OpView::Bold, OpView::Print { text: cs.last().0 }, OpView::ResetAttr]
        } else {
            seq![OpView::Print { text: cs.last().0 }]
        })
    }
}

/// The column budget left for a candidate row after its two-column prefix.
pub open spec fn row_budget(cols: int) -> int {
    if cols >= 2 {
        cols - 2
    } else {
        0
    }
}

/// The operations for one candidate row: the selection marker, the
/// highlighted chunks of the relative path, and a line break.
pub open spec fn row_ops(m: MatchView, is_selected: bool, cols: int) -> Seq<OpView> {
    seq![
        OpView::Print {
            text: if is_selected {
                "> "@
            } else {
                "  "@
            },
        },
    ] + ops_for_chunks(chunks_of(m.rel, m.rpos, row_budget(cols))) + seq![OpView::NextLine]
}

/// The operations for all candidate rows, in order.
pub open spec fn rows_ops(ms: Seq<MatchView>, selected: Option<usize>, cols: int) -> Seq<OpView>
    decreases ms.len(),
{
    if ms.len() == 0 {
        Seq::empty()
    } else {
        rows_ops(ms.drop_last(), selected, cols) + row_ops(
            ms.last(),
            selected matches Some(s) && s as int == ms.len() - 1,
            cols,
        )
    }
}

/// The operations that draw the query line.
pub open spec fn query_line_ops(qt: Seq<char>) -> Seq<OpView> {
    seq![
        OpView::MoveTo { col: 0, row: 0 },
        OpView::Print { text: "Search: "@ },
        OpView::Print { text: qt },
    ]
}

/// `n` spaces.
pub open spec fn spaces(n: int) -> Seq<char>
    decreases n,
{
    if n <= 0 {
        Seq::empty()
    } else {
        spaces(n - 1) + seq![' ']
    }
}

/// `s` padded with spaces to at least `w` characters.
pub open spec fn pad_to(s: Seq<char>, w: int) -> Seq<char> {
    if s.len() < w {
        s + spaces(w - s.len())
    } else {
        s
    }
}

/// The text of the status line: the selected candidate's path in the
/// configured representation, truncated to the terminal width, or a note
/// that nothing matched.
pub open spec fn status_text(c: Candidates, mode: StatusLine, cols: int) -> Seq<char> {
    match c.selected {
        Option::None => "No matching files found."@,
        Option::Some(s) => {
            let m = c.paths@[s as int]@;
            if mode is Relative {
                chunk_concat(chunks_of(m.rel, m.rpos, cols))
            } else {
                chunk_concat(chunks_of(m.abs, m.apos, cols))
            }
        },
    }
}

/// The row the status line is drawn on.
pub open spec fn status_row(rows: int) -> int {
    if rows >= 2 {
        rows - 2
    } else {
        0
    }
}

/// The operations that draw the status line, or nothing when it is
/// hidden.
pub open spec fn status_ops(c: Candidates, mode: StatusLine, cols: int, rows: int) -> Seq<OpView> {
    if mode is Hidden {
        Seq::empty()
    } else {
        seq![
            OpView::MoveTo { col: 0, row: status_row(rows) },
            OpView::Bold,
            OpView::Reverse,
            OpView::Print { text: pad_to(status_text(c, mode, cols), cols) },
            OpView::ResetAttr,
        ]
    }
}

/// The row the help line is drawn on.
pub open spec fn help_row(rows: int) -> int {
    if rows >= 1 {
        rows - 1
    } else {
        0
    }
}

/// The operations that draw the one-line key-binding help, shown only
/// when the terminal is at least 97 columns wide.
pub open spec fn help_ops(cols: int, rows: int) -> Seq<OpView> {
    if cols < 97 {
        Seq::empty()
    } else {
        seq![
            OpView::MoveTo { col: 0, row: help_row(rows) },
            OpView::Bold,
            OpView::Print { text: "<Up>/<Ctrl-p>:"@ },
            OpView::ResetAttr,
            OpView::MoveRight { cols: 1 },
            OpView::Print { text: "Up"@ },
            OpView::MoveRight { cols: 2 },
            OpView::Bold,
            OpView::Print { text: "<Down>/<Ctrl-n>:"@ },
            OpView::ResetAttr,
            OpView::MoveRight { cols: 1 },
            OpView::Print { text: "Down"@ },
            OpView::MoveRight { cols: 2 },
            OpView::Bold,
            OpView::Print { text: "<Enter>:"@ },
            OpView::ResetAttr,
            OpView::MoveRight { cols: 1 },
            OpView::Print { text: "Execute"@ },
            OpView::MoveRight { cols: 2 },
            OpView::Bold,
            OpView::Print { text: "<C-d>/<C-y>:"@ },
            OpView::ResetAttr,
            OpView::MoveRight { cols: 1 },
            OpView::Print { text: "Copy (relative/absolute)"@ },
        ]
    }
}

/// The column the cursor rests on: the query's cursor column behind the
/// prompt, clamped to what a terminal coordinate can hold.
pub open spec fn cursor_col(q: Query) -> int {
    if q.terminal_pos + 8 <= u16::MAX {
        q.terminal_pos + 8
    } else {
        u16::MAX as int
    }
}

/// The whole render plan: clear, query line, candidate rows, status line,
/// help line, and the cursor placed after the query.
pub open spec fn render_spec(s: Session, cols: int, rows: int) -> Seq<OpView> {
    seq![OpView::ClearAll] + query_line_ops(query_text(s.query)) + seq![
        OpView::MoveTo { col: 0, row: 1 },
    ] + rows_ops(
        s.candidates.paths@.map_values(|m: crate::matched_path::MatchedPath| m@),
        s.candidates.selected,
        cols,
    ) + status_ops(s.candidates, s.status_line, cols, rows) + help_ops(cols, rows) + seq![
        OpView::MoveTo { col: cursor_col(s.query), row: 0 },
    ]
}

/// One interactive session: the query being typed, the current candidate
/// list, the most significant work still pending, whether the screen is
/// up to date, and the fixed preferences the session runs with.
///
/// `state` records pending work and is consumed only by what performs
/// it: a pending `QueryChanged` survives any number of renders until a
/// poll timeout turns it into a search, so rapid keystrokes coalesce
/// into one search performed once input goes idle. `rendered` records
/// separately whether the screen reflects the current session.
pub struct Session {
    pub query: Query,
    pub candidates: Candidates,
    pub state: SessionState,
    pub rendered: bool,
    pub status_line: StatusLine,
    pub starting_point: StartingPoint,
}

impl Session {
    /// The query buffer and the candidate list are well formed.
    pub open spec fn wf(self) -> bool {
        &&& self.query.wf()
        &&& self.candidates.wf()
    }

    /// Starts a session: the query buffer holds the initial query with the
    /// cursor at its end, the candidate list is empty, and the state asks
    /// for the initial search and render.
    pub fn new(starting_point: StartingPoint, initial_query: &str, status_line: StatusLine) -> (r:
        Session)
        requires
            initial_query@.len() <= usize::MAX / 2,
        ensures
            r.wf(),
            r.query.value@.map_values(|s: String| s@) == crate::unicode::graphemes_of(
                initial_query@,
            ),
            r.query.idx == r.query.value@.len(),
            r.candidates.paths@.len() == 0,
            r.candidates.selected is None,
            r.state == SessionState::QueryChanged,
            r.rendered == false,
            r.status_line == status_line,
            r.starting_point == starting_point,
    {
        Session {
            query: Query::new(initial_query),
            candidates: Candidates { paths: Vec::new(), selected: None },
            state: SessionState::QueryChanged,
            rendered: false,
            status_line,
            starting_point,
        }
    }

    /// Feeds one event through the state machine and says what to do
    /// next. Quitting, invoking and copying leave the session untouched;
    /// editing marks the query changed; moving marks the selection
    /// changed, except that a still-pending query change is kept so the
    /// debounced search is not lost; a timeout with a changed query, or a
    /// resize, asks for a search.
    pub fn handle_event(&mut self, ev: SessionEvent) -> (a: SessionAction)
        requires
            old(self).wf(),
            ev is Grapheme ==> old(self).query.value@.len() < usize::MAX / 2,
        ensures
            final(self).wf(),
            final(self).status_line == old(self).status_line,
            final(self).starting_point == old(self).starting_point,
            ev matches SessionEvent::Grapheme(g) ==> {
                &&& final(self).query.value@ == old(self).query.value@.insert(
                    old(self).query.idx as int,
                    g,
                )
                &&& final(self).query.idx == old(self).query.idx + 1
                &&& final(self).candidates == old(self).candidates
                &&& final(self).state == SessionState::QueryChanged
                &&& final(self).rendered == false
                &&& a is Idle
            },
            ev is Backspace ==> {
                &&& (old(self).query.idx > 0 ==> final(self).query.value@ == old(
                    self,
                ).query.value@.remove(old(self).query.idx - 1) && final(self).query.idx == old(
                    self,
                ).query.idx - 1)
                &&& (old(self).query.idx == 0 ==> final(self).query == old(self).query)
                &&& final(self).candidates == old(self).candidates
                &&& final(self).state == SessionState::QueryChanged
                &&& final(self).rendered == false
                &&& a is Idle
            },
            ev is Up ==> {
                &&& final(self).query == old(self).query
                &&& final(self).candidates.paths@ == old(self).candidates.paths@
                &&& (old(self).candidates.paths@.len() > 0 ==> final(self).candidates.selected == (
                match old(self).candidates.selected {
                    Some(s) => Some(
                        if s > 0 {
                            (s - 1) as usize
                        } else {
                            s
                        },
                    ),
                    None => Option::<usize>::None,
                }))
                &&& final(self).state == (if old(self).state is QueryChanged {
                    SessionState::QueryChanged
                } else {
                    SessionState::SelectionChanged
                })
                &&& final(self).rendered == false
                &&& a is Idle
            },
            ev is Down ==> {
                &&& final(self).query == old(self).query
                &&& final(self).candidates.paths@ == old(self).candidates.paths@
                &&& (old(self).candidates.paths@.len() > 0 ==> final(self).candidates.selected == (
                match old(self).candidates.selected {
                    Some(s) => Some(
                        if s < old(self).candidates.paths@.len() - 1 {
                            (s + 1) as usize
                        } else {
                            s
                        },
                    ),
                    None => Some(0usize),
                }))
                &&& final(self).state == (if old(self).state is QueryChanged {
                    SessionState::QueryChanged
                } else {
                    SessionState::SelectionChanged
                })
                &&& final(self).rendered == false
                &&& a is Idle
            },
            ev is Left ==> {
                &&& final(self).query.value@ == old(self).query.value@
                &&& final(self).query.idx == (if old(self).query.idx > 0 {
                    old(self).query.idx - 1
                } else {
                    0int
                })
                &&& final(self).candidates == old(self).candidates
                &&& final(self).state == (if old(self).state is QueryChanged {
                    SessionState::QueryChanged
                } else {
                    SessionState::SelectionChanged
                })
                &&& final(self).rendered == false
                &&& a is Idle
            },
            ev is Right ==> {
                &&& final(self).query.value@ == old(self).query.value@
                &&& final(self).query.idx == (if old(self).query.idx < old(
                    self,
                ).query.value@.len() {
                    old(self).query.idx + 1
                } else {
                    old(self).query.idx as int
                })
                &&& final(self).candidates == old(self).candidates
                &&& final(self).state == (if old(self).state is QueryChanged {
                    SessionState::QueryChanged
                } else {
                    SessionState::SelectionChanged
                })
                &&& final(self).rendered == false
                &&& a is Idle
            },
            ev is Enter ==> {
                &&& *final(self) == *old(self)
                &&& (old(self).candidates.selected matches Some(s) ==> a matches
                    SessionAction::Invoke(p) && p@ == (
                if old(self).status_line is Relative {
                    old(self).candidates.paths@[s as int]@.rel
                } else {
                    old(self).candidates.paths@[s as int]@.abs
                }))
                &&& (old(self).candidates.selected is None ==> a is Idle)
            },
            ev is CopyAbsolute ==> {
                &&& *final(self) == *old(self)
                &&& (old(self).candidates.selected matches Some(s) ==> a matches
                    SessionAction::CopyAndExit(p) && p matches Some(t) && t@ == old(
                    self,
                ).candidates.paths@[s as int]@.abs)
                &&& (old(self).candidates.selected is None ==> (a matches
                SessionAction::CopyAndExit(p) && p is None))
            },
            ev is CopyRelative ==> {
                &&& *final(self) == *old(self)
                &&& (old(self).candidates.selected matches Some(s) ==> a matches
                    SessionAction::CopyAndExit(p) && p matches Some(t) && t@ == old(
                    self,
                ).candidates.paths@[s as int]@.rel)
                &&& (old(self).candidates.selected is None ==> (a matches
                SessionAction::CopyAndExit(p) && p is None))
            },
            ev is Quit ==> (*final(self) == *old(self) && a is Exit),
            ev is Resize ==> (*final(self) == *old(self) && a is Search),
            ev is Tick ==> (*final(self) == *old(self) && a == (
            if old(self).state is QueryChanged {
                SessionAction::Search
            } else {
                SessionAction::Idle
            })),
            ev is Noop ==> (*final(self) == *old(self) && a is Idle),
    {
        match ev {
            SessionEvent::Grapheme(g) => {
                self.query.push(g);
                self.state = SessionState::QueryChanged;
                self.rendered = false;
                SessionAction::Idle
            },
            SessionEvent::Backspace => {
                self.query.pop();
                self.state = SessionState::QueryChanged;
                self.rendered = false;
                SessionAction::Idle
            },
            SessionEvent::Up => {
                self.candidates.move_up();
                self.mark_selection_changed();
                SessionAction::Idle
            },
            SessionEvent::Down => {
                self.candidates.move_down();
                self.mark_selection_changed();
                SessionAction::Idle
            },
            SessionEvent::Left => {
                self.query.move_left();
                self.mark_selection_changed();
                SessionAction::Idle
            },
            SessionEvent::Right => {
                self.query.move_right();
                self.mark_selection_changed();
                SessionAction::Idle
            },
            SessionEvent::Enter => {
                match self.candidates.selected() {
                    Some(p) => {
                        let path = match self.status_line {
                            StatusLine::Relative => p.relative().to_owned(),
                            _ => p.absolute().to_owned(),
                        };
                        SessionAction::Invoke(path)
                    },
                    None => SessionAction::Idle,
                }
            },
            SessionEvent::CopyAbsolute => {
                match self.candidates.selected() {
                    Some(p) => SessionAction::CopyAndExit(Some(p.absolute().to_owned())),
                    None => SessionAction::CopyAndExit(None),
                }
            },
            SessionEvent::CopyRelative => {
                match self.candidates.selected() {
                    Some(p) => SessionAction::CopyAndExit(Some(p.relative().to_owned())),
                    None => SessionAction::CopyAndExit(None),
                }
            },
            SessionEvent::Quit => SessionAction::Exit,
            SessionEvent::Resize => SessionAction::Search,
            SessionEvent::Tick => {
                match self.state {
                    SessionState::QueryChanged => SessionAction::Search,
                    _ => SessionAction::Idle,
                }
            },
            SessionEvent::Noop => SessionAction::Idle,
        }
    }

    /// Records a selection or cursor move: the screen must be redrawn,
    /// but a query change still waiting for its search stays pending.
    fn mark_selection_changed(&mut self)
        ensures
            final(self).query == old(self).query,
            final(self).candidates == old(self).candidates,
            final(self).status_line == old(self).status_line,
            final(self).starting_point == old(self).starting_point,
            final(self).state == (if old(self).state is QueryChanged {
                SessionState::QueryChanged
            } else {
                SessionState::SelectionChanged
            }),
            final(self).rendered == false,
    {
        match self.state {
            SessionState::QueryChanged => {},
            _ => {
                self.state = SessionState::SelectionChanged;
            },
        }
        self.rendered = false;
    }

    /// Replaces the candidate list with one built from the given walked
    /// paths, and marks the paths changed.
    pub fn apply_paths(&mut self, visible: usize, paths: &Vec<String>)
        requires
            old(self).wf(),
            forall|i: int|
                0 <= i < paths@.len() ==> (#[trigger] paths@[i])@.len() >= old(
                    self,
                ).starting_point.0@.len() && paths@[i]@.take(old(self).starting_point.0@.len() as int)
                    == old(self).starting_point.0@,
        ensures
            final(self).wf(),
            final(self).query == old(self).query,
            final(self).status_line == old(self).status_line,
            final(self).starting_point == old(self).starting_point,
            final(self).state == SessionState::PathsChanged,
            final(self).rendered == false,
            built_from(
                final(self).candidates,
                query_text(old(self).query),
                old(self).starting_point.0@,
                paths@,
                visible as int,
            ),
    {
        self.candidates = Candidates::new(visible, &self.starting_point, paths, &self.query);
        self.state = SessionState::PathsChanged;
        self.rendered = false;
    }

    /// Whether the screen is out of date.
    pub fn needs_render(&self) -> (r: bool)
        ensures
            r == !self.rendered,
    {
        !self.rendered
    }

    /// Marks the screen up to date and resets the state to `Ready` —
    /// except that an unsearched query change stays pending, so the
    /// debounced search still fires on the next poll timeout.
    pub fn set_rendered(&mut self)
        requires
            old(self).wf(),
        ensures
            final(self).wf(),
            *final(self) == (Session {
                rendered: true,
                state: if old(self).state is QueryChanged {
                    SessionState::QueryChanged
                } else {
                    SessionState::Ready
                },
                ..*old(self)
            }),
    {
        match self.state {
            SessionState::QueryChanged => {},
            _ => {
                self.state = SessionState::Ready;
            },
        }
        self.rendered = true;
    }
}

impl Session {
    /// Produces the render plan for a terminal of the given size.
    pub fn render_ops(&self, columns: u16, rows: u16) -> (r: Vec<RenderOp>)
        requires
            self.wf(),
        ensures
            r@.map_values(|o: RenderOp| o@) == render_spec(*self, columns as int, rows as int),
    {
        let ghost cols: int = columns as int;
        let ghost views = self.candidates.paths@.map_values(
            |m: crate::matched_path::MatchedPath| m@,
        );
        let ghost sel = self.candidates.selected;
        let mut ops: Vec<RenderOp> = Vec::new();
        ops.push(RenderOp::ClearAll);
        ops.push(RenderOp::MoveTo(0, 0));
        ops.push(RenderOp::Print("Search: ".to_owned()));
        ops.push(RenderOp::Print(self.query.to_string()));
        ops.push(RenderOp::MoveTo(0, 1));
        let ghost head = seq![OpView::ClearAll] + query_line_ops(query_text(self.query)) + seq![
            OpView::MoveTo { col: 0, row: 1 },
        ];
        proof {
            assert(ops@.map_values(|o: RenderOp| o@) =~= head);
            assert(rows_ops(views.take(0), sel, cols) =~= Seq::<OpView>::empty());
            assert(head + rows_ops(views.take(0), sel, cols) =~= head);
        }
        let budget: usize = if columns >= 2 {
            (columns - 2) as usize
        } else {
            0
        };
        let mut i: usize = 0;
        while i < self.candidates.paths.len()
            invariant
                self.wf(),
                cols == columns as int,
                budget as int == row_budget(cols),
                views == self.candidates.paths@.map_values(
                    |m: crate::matched_path::MatchedPath| m@,
                ),
                sel == self.candidates.selected,
                i <= self.candidates.paths@.len(),
                ops@.map_values(|o: RenderOp| o@) == head + rows_ops(views.take(i as int), sel, cols),
            decreases self.candidates.paths@.len() - i,
        {
            let ghost row_head = head + rows_ops(views.take(i as int), sel, cols);
            let is_sel: bool = match self.candidates.selected {
                Some(s) => s == i,
                None => false,
            };
            if is_sel {
                ops.push(RenderOp::Print("> ".to_owned()));
            } else {
                ops.push(RenderOp::Print("  ".to_owned()));
            }
            let ghost marker = OpView::Print {
                text: if is_sel {
                    "> "@
                } else {
                    "  "@
                },
            };
            proof {
                assert(ops@.map_values(|o: RenderOp| o@) =~= row_head + seq![marker]);
            }
            let chunks = (&self.candidates.paths[i]).relative_chunks(budget);
            let ghost cs = chunks_of(views[i as int].rel, views[i as int].rpos, row_budget(cols));
            proof {
                assert(chunks@.map_values(|c: crate::matched_path::Chunk| c@) == cs);
                assert(ops_for_chunks(cs.take(0)) =~= Seq::<OpView>::empty());
                assert((row_head + seq![marker]) + ops_for_chunks(cs.take(0)) =~= row_head + seq![
                    marker,
                ]);
            }
            let mut j: usize = 0;
            while j < chunks.len()
                invariant
                    j <= chunks@.len(),
                    cs == chunks@.map_values(|c: crate::matched_path::Chunk| c@),
                    ops@.map_values(|o: RenderOp| o@) == (row_head + seq![marker]) + ops_for_chunks(
                        cs.take(j as int),
                    ),
                decreases chunks@.len() - j,
            {
                proof {
                    assert(cs.take(j + 1).drop_last() =~= cs.take(j as int));
                    assert(cs.take(j + 1).last() == cs[j as int]);
                    assert(cs[j as int] == chunks@[j as int]@);
                }
                let ghost chunk_tail = if cs[j as int].1 {
                    seq![
                        OpView::Bold,
                        OpView::Print { text: cs[j as int].0 },
                        OpView::ResetAttr,
                    ]
                } else {
                    seq![OpView::Print { text: cs[j as int].0 }]
                };
                proof {
                    assert(ops_for_chunks(cs.take(j + 1)) == ops_for_chunks(
                        cs.take(j + 1).drop_last(),
                    ) + chunk_tail);
                    assert(ops_for_chunks(cs.take(j + 1)) == ops_for_chunks(cs.take(j as int))
                        + chunk_tail);
                }
                if chunks[j].matched() {
                    ops.push(RenderOp::Bold);
                    ops.push(RenderOp::Print(chunks[j].value.clone()));
                    ops.push(RenderOp::ResetAttr);
                } else {
                    ops.push(RenderOp::Print(chunks[j].value.clone()));
                }
                proof {
                    assert(ops@.map_values(|o: RenderOp| o@) =~= ((row_head + seq![marker])
                        + ops_for_chunks(cs.take(j as int))) + chunk_tail);
                    assert(ops@.map_values(|o: RenderOp| o@) =~= (row_head + seq![marker])
                        + ops_for_chunks(cs.take(j + 1)));
                }
                j = j + 1;
            }
            ops.push(RenderOp::NextLine);
            proof {
                assert(cs.take(cs.len() as int) =~= cs);
                assert(ops@.map_values(|o: RenderOp| o@) =~= ((row_head + seq![marker])
                    + ops_for_chunks(cs)) + seq![OpView::NextLine]);
                assert(views.take(i + 1).drop_last() =~= views.take(i as int));
                assert(views.take(i + 1).last() == views[i as int]);
                assert((sel matches Some(s) && s as int == views.take(i + 1).len() - 1) == is_sel);
                assert(rows_ops(views.take(i + 1), sel, cols) == rows_ops(
                    views.take(i as int),
                    sel,
                    cols,
                ) + row_ops(views[i as int], is_sel, cols));
                assert(row_ops(views[i as int], is_sel, cols) =~= seq![marker] + ops_for_chunks(cs)
                    + seq![OpView::NextLine]);
                assert(ops@.map_values(|o: RenderOp| o@) =~= head + rows_ops(
                    views.take(i + 1),
                    sel,
                    cols,
                ));
            }
            i = i + 1;
        }
        proof {
            assert(views.take(views.len() as int) =~= views);
        }
        let ghost body_done = head + rows_ops(views, sel, cols);
        match self.status_line {
            StatusLine::Hidden => {
                proof {
                    assert(status_ops(self.candidates, self.status_line, cols, rows as int)
                        =~= Seq::<OpView>::empty());
                    assert(body_done + status_ops(self.candidates, self.status_line, cols, rows as int)
                        =~= body_done);
                }
            },
            _ => {
                let mut msg: String = match self.candidates.selected() {
                    None => "No matching files found.".to_owned(),
                    Some(p) => {
                        match self.status_line {
                            StatusLine::Relative => p.truncated_relative(columns as usize),
                            _ => p.truncated_absolute(columns as usize),
                        }
                    },
                };
                let ghost raw = status_text(self.candidates, self.status_line, cols);
                proof {
                    assert(msg@ == raw);
                }
                let mut cnt: usize = msg.as_str().unicode_len();
                proof {
                    assert(spaces(0) =~= Seq::<char>::empty());
                    assert(raw + spaces(0) =~= raw);
                }
                while cnt < columns as usize
                    invariant
                        cols == columns as int,
                        cnt == msg@.len(),
                        raw.len() <= cnt,
                        msg@ == raw + spaces(cnt - raw.len()),
                        cnt <= raw.len() || cnt <= columns as usize,
                    decreases columns as usize - cnt,
                {
                    proof {
                        reveal_strlit(" ");
                        assert(" "@ =~= seq![' ']);
                        assert((raw + spaces(cnt - raw.len())) + seq![' '] =~= raw + spaces(
                            cnt + 1 - raw.len(),
                        ));
                    }
                    msg.append(" ");
                    cnt = cnt + 1;
                }
                proof {
                    assert(msg@ == pad_to(raw, cols));
                }
                let srow: u16 = if rows >= 2 {
                    rows - 2
                } else {
                    0
                };
                ops.push(RenderOp::MoveTo(0, srow));
                ops.push(RenderOp::Bold);
                ops.push(RenderOp::Reverse);
                ops.push(RenderOp::Print(msg));
                ops.push(RenderOp::ResetAttr);
                proof {
                    assert(ops@.map_values(|o: RenderOp| o@) =~= body_done + status_ops(
                        self.candidates,
                        self.status_line,
                        cols,
                        rows as int,
                    ));
                }
            },
        }
        let ghost status_done = body_done + status_ops(
            self.candidates,
            self.status_line,
            cols,
            rows as int,
        );
        proof {
            assert(ops@.map_values(|o: RenderOp| o@) == status_done);
        }
        if columns >= 97 {
            let hrow: u16 = if rows >= 1 {
                rows - 1
            } else {
                0
            };
            ops.push(RenderOp::MoveTo(0, hrow));
            ops.push(RenderOp::Bold);
            ops.push(RenderOp::Print("<Up>/<Ctrl-p>:".to_owned()));
            ops.push(RenderOp::ResetAttr);
            ops.push(RenderOp::MoveRight(1));
            ops.push(RenderOp::Print("Up".to_owned()));
            ops.push(RenderOp::MoveRight(2));
            ops.push(RenderOp::Bold);
            ops.push(RenderOp::Print("<Down>/<Ctrl-n>:".to_owned()));
            ops.push(RenderOp::ResetAttr);
            ops.push(RenderOp::MoveRight(1));
            ops.push(RenderOp::Print("Down".to_owned()));
            ops.push(RenderOp::MoveRight(2));
            ops.push(RenderOp::Bold);
            ops.push(RenderOp::Print("<Enter>:".to_owned()));
            ops.push(RenderOp::ResetAttr);
            ops.push(RenderOp::MoveRight(1));
            ops.push(RenderOp::Print("Execute".to_owned()));
            ops.push(RenderOp::MoveRight(2));
            ops.push(RenderOp::Bold);
            ops.push(RenderOp::Print("<C-d>/<C-y>:".to_owned()));
            ops.push(RenderOp::ResetAttr);
            ops.push(RenderOp::MoveRight(1));
            ops.push(RenderOp::Print("Copy (relative/absolute)".to_owned()));
        }
        proof {
            assert(ops@.map_values(|o: RenderOp| o@) =~= status_done + help_ops(cols, rows as int));
        }
        let ccol: u16 = if self.query.terminal_pos <= (u16::MAX - 8) as usize {
            (self.query.terminal_pos as u16) + 8
        } else {
            u16::MAX
        };
        ops.push(RenderOp::MoveTo(ccol, 0));
        proof {
            assert(ops@.map_values(|o: RenderOp| o@) =~= render_spec(
                *self,
                columns as int,
                rows as int,
            ));
        }
        ops
    }
}

} // verus!
