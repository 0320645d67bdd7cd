//! State of the interactive supervisor: the processes it has launched and the
//! view over them, and how each event changes it.

use crate::split_input::strings_view;
use vstd::prelude::*;

verus! {

/// Scroll keys move the view by this many lines or columns.
pub const HORIZONTAL_STEP: usize = 4;

/// Lines of output kept in view at the tail of a compact pane.
pub const COMPACT_TAIL: usize = 5;

/// How many of the latest key presses the header shows.
pub const KEY_HISTORY: usize = 8;

/// A key press, as far as the supervisor tells keys apart.
#[derive(Clone, Copy, Debug, PartialEq, Eq, Structural)]
pub enum Key {
    Char(char),
    Esc,
    PageUp,
    PageDown,
    Up,
    Down,
    Left,
    Right,
    Home,
    End,
    Other,
}

/// How a child process ended.
#[derive(Clone, Copy, Debug, PartialEq, Eq, Structural)]
pub enum ProcessStatus {
    Success,
    Failure(i32),
    Signal,
}

/// The status of a child that exited: success, else its exit code, else (no
/// code) it was ended by a signal.
pub open spec fn exit_status(success: bool, code: Option<i32>) -> ProcessStatus {
    if success {
        ProcessStatus::Success
    } else {
        match code {
            Some(c) => ProcessStatus::Failure(c),
            None => ProcessStatus::Signal,
        }
    }
}

pub fn classify_exit(success: bool, code: Option<i32>) -> (r: ProcessStatus)
    ensures
        r == exit_status(success, code),
{
    if success {
        ProcessStatus::Success
    } else {
        match code {
            Some(c) => ProcessStatus::Failure(c),
            None => ProcessStatus::Signal,
        }
    }
}

/// What a child runner learned from a non-blocking check on its child.
pub enum ChildPoll {
    Running,
    Exited { success: bool, code: Option<i32> },
    WaitFailed,
}

/// What a child runner does next.
#[derive(Clone, Copy, Debug, PartialEq, Eq, Structural)]
pub enum RunnerStep {
    /// Try to read one more line of output, then poll again.
    ReadLine,
    /// Read what output is left, report this status, and stop.
    Finish(ProcessStatus),
    /// The child can no longer be watched: stop without reporting a status.
    Abort,
}

pub fn runner_step(poll: ChildPoll) -> (r: RunnerStep)
    ensures
        r == match poll {
            ChildPoll::Running => RunnerStep::ReadLine,
            ChildPoll::Exited { success, code } => RunnerStep::Finish(exit_status(success, code)),
            ChildPoll::WaitFailed => RunnerStep::Abort,
        },
{
    match poll {
        ChildPoll::Running => RunnerStep::ReadLine,
        ChildPoll::Exited { success, code } => RunnerStep::Finish(classify_exit(success, code)),
        ChildPoll::WaitFailed => RunnerStep::Abort,
    }
}

/// One process as the supervisor sees it.
pub struct ProcessModel {
    pub args: Seq<Seq<char>>,
    pub lines: Seq<Seq<char>>,
    pub status: Option<ProcessStatus>,
}

/// The supervisor's state as a mathematical value.
pub struct AppModel {
    pub processes: Seq<ProcessModel>,
    pub selected: nat,
    pub line_offset: nat,
    pub column_offset: nat,
    pub wrap: bool,
    pub expanded: bool,
    pub viewport_height: nat,
    pub should_exit: bool,
    pub keys: Seq<Key>,
}

/// An event as a mathematical value.
pub enum EventModel {
    KeyPress(Key),
    NewBatch(Seq<Seq<char>>),
    Output(nat, Seq<Seq<char>>),
    Exited(nat, ProcessStatus),
}

/// What the caller must do after an event was applied.
#[derive(Clone, Copy, Debug, PartialEq, Eq, Structural)]
pub enum Effect {
    Nothing,
    /// Start the runner of the new process with this id.
    Spawn(usize),
    /// Join the runner of the process with this id, which has just ended.
    Join(usize),
}

pub open spec fn sat_sub(a: nat, b: nat) -> nat {
    if a > b {
        (a - b) as nat
    } else {
        0
    }
}

pub open spec fn sat_add(a: nat, b: nat) -> nat {
    if a + b <= usize::MAX {
        a + b
    } else {
        usize::MAX as nat
    }
}

pub open spec fn min(a: nat, b: nat) -> nat {
    if a <= b {
        a
    } else {
        b
    }
}

/// Keeps only the latest presses of a key history.
pub open spec fn recent(keys: Seq<Key>) -> Seq<Key> {
    if keys.len() > KEY_HISTORY {
        keys.drop_first()
    } else {
        keys
    }
}

impl AppModel {
    /// The state at startup: no processes, overview mode, nothing scrolled.
    pub open spec fn initial() -> AppModel {
        AppModel {
            processes: seq![],
            selected: 0,
            line_offset: 0,
            column_offset: 0,
            wrap: false,
            expanded: false,
            viewport_height: 0,
            should_exit: false,
            keys: seq![],
        }
    }

    /// The selection is a valid index, or zero while there is no process.
    pub open spec fn wf(self) -> bool {
        if self.processes.len() == 0 {
            self.selected == 0
        } else {
            self.selected < self.processes.len()
        }
    }

    /// Number of output lines of the selected process.
    pub open spec fn selected_line_count(self) -> nat {
        if self.selected < self.processes.len() {
            self.processes[self.selected as int].lines.len()
        } else {
            0
        }
    }

    /// Index of the last output line of the selected process (zero if none).
    pub open spec fn last_line(self) -> nat {
        sat_sub(self.selected_line_count(), 1)
    }

    /// The line offset that keeps the newest output in view: the viewport
    /// height in expanded mode, a short fixed tail in overview mode.
    pub open spec fn tail_offset(self) -> nat {
        let height = if self.expanded {
            self.viewport_height
        } else {
            COMPACT_TAIL as nat
        };
        sat_sub(self.selected_line_count(), height)
    }

    pub open spec fn with_tail_scroll(self) -> AppModel {
        AppModel { line_offset: self.tail_offset(), column_offset: 0, ..self }
    }

    pub open spec fn with_selected(self, selected: nat) -> AppModel {
        AppModel { selected, ..self }.with_tail_scroll()
    }

    pub open spec fn on_key(self, key: Key) -> AppModel {
        let s = AppModel { keys: recent(self.keys.push(key)), ..self };
        let last_process = sat_sub(s.processes.len(), 1);
        match key {
            Key::Char(c) => if c == 'q' {
                AppModel { should_exit: true, ..s }
            } else if c == '/' {
                AppModel { expanded: !s.expanded, ..s }.with_tail_scroll()
            } else if c == 'w' {
                AppModel { wrap: !s.wrap, ..s }
            } else {
                s
            },
            Key::Esc => AppModel { should_exit: true, ..s },
            Key::PageUp => s.with_selected(min(sat_sub(s.selected, 1), last_process)),
            Key::PageDown => s.with_selected(min(s.selected + 1, last_process)),
            Key::Up => AppModel { line_offset: min(sat_sub(s.line_offset, 1), s.last_line()), ..s },
            Key::Down => AppModel { line_offset: min(s.line_offset + 1, s.last_line()), ..s },
            Key::Left => AppModel {
                column_offset: if s.wrap {
                    0
                } else {
                    sat_sub(s.column_offset, HORIZONTAL_STEP as nat)
                },
                ..s
            },
            Key::Right => AppModel {
                column_offset: if s.wrap {
                    0
                } else {
                    sat_add(s.column_offset, HORIZONTAL_STEP as nat)
                },
                ..s
            },
            Key::Home => AppModel { line_offset: 0, ..s },
            Key::End => AppModel { line_offset: s.last_line(), ..s },
            Key::Other => s,
        }
    }

    /// A new batch becomes a new running process, which is selected.
    pub open spec fn on_new_batch(self, args: Seq<Seq<char>>) -> AppModel {
        let p = ProcessModel { args, lines: seq![], status: None };
        AppModel { processes: self.processes.push(p), ..self }.with_selected(self.processes.len())
    }

    /// Output of a running process is appended to it; the selected process
    /// keeps its newest output in view.
    pub open spec fn on_output(self, pid: nat, lines: Seq<Seq<char>>) -> AppModel {
        if pid < self.processes.len() && self.processes[pid as int].status is None {
            let p = self.processes[pid as int];
            let s = AppModel {
                processes: self.processes.update(
                    pid as int,
                    ProcessModel { lines: p.lines + lines, ..p },
                ),
                ..self
            };
            if pid == self.selected {
                s.with_tail_scroll()
            } else {
                s
            }
        } else {
            self
        }
    }

    /// A running process takes its final status; a status is never replaced.
    pub open spec fn on_exit(self, pid: nat, status: ProcessStatus) -> AppModel {
        if pid < self.processes.len() && self.processes[pid as int].status is None {
            let p = self.processes[pid as int];
            AppModel {
                processes: self.processes.update(
                    pid as int,
                    ProcessModel { status: Some(status), ..p },
                ),
                ..self
            }
        } else {
            self
        }
    }

    /// Events that can arrive: output and exits only name known processes.
    pub open spec fn accepts(self, e: EventModel) -> bool {
        match e {
            EventModel::Output(pid, _) => pid < self.processes.len(),
            EventModel::Exited(pid, _) => pid < self.processes.len(),
            _ => true,
        }
    }

    pub open spec fn step(self, e: EventModel) -> AppModel {
        match e {
            EventModel::KeyPress(k) => self.on_key(k),
            EventModel::NewBatch(args) => self.on_new_batch(args),
            EventModel::Output(pid, lines) => self.on_output(pid, lines),
            EventModel::Exited(pid, status) => self.on_exit(pid, status),
        }
    }

    /// The work that applying an event hands back to the caller: a new batch
    /// starts a runner; the exit of a running process releases its runner.
    pub open spec fn effect(self, e: EventModel) -> Effect {
        match e {
            EventModel::NewBatch(_) => Effect::Spawn(self.processes.len() as usize),
            EventModel::Exited(pid, _) => if pid < self.processes.len()
                && self.processes[pid as int].status is None {
                Effect::Join(pid as usize)
            } else {
                Effect::Nothing
            },
            _ => Effect::Nothing,
        }
    }
}

/// Height of a pane in the frame.
#[derive(Clone, Copy, Debug, PartialEq, Eq, Structural)]
pub enum PaneSize {
    /// Exactly this many lines.
    Exact(usize),
    /// At most this many lines.
    AtMost(usize),
    /// All the room that is left.
    Fill,
}

/// Colour of a pane's title, from its process's status.
#[derive(Clone, Copy, Debug, PartialEq, Eq, Structural)]
pub enum TitleColor {
    /// Still running.
    Neutral,
    /// Succeeded.
    Positive,
    /// Failed or ended by a signal.
    Attention,
}

/// A scroll position: the first line shown and the first column shown.
#[derive(Clone, Copy, Debug, PartialEq, Eq, Structural)]
pub struct Scroll {
    pub line: usize,
    pub column: usize,
}

/// One pane of a frame: the process it shows, its height, the colour of its
/// title, and the scroll position of its content (only the selected pane
/// shows content).
#[derive(Clone, Copy, Debug, PartialEq, Eq, Structural)]
pub struct Pane {
    pub pid: usize,
    pub size: PaneSize,
    pub color: TitleColor,
    pub scroll: Option<Scroll>,
    pub line_count: usize,
}

pub open spec fn title_color(status: Option<ProcessStatus>) -> TitleColor {
    match status {
        None => TitleColor::Neutral,
        Some(ProcessStatus::Success) => TitleColor::Positive,
        Some(_) => TitleColor::Attention,
    }
}

impl AppModel {
    /// The compact pane of process `i`: one line for a process that succeeded
    /// and is not selected, else the title and up to a short tail of output.
    pub open spec fn pane(self, i: int) -> Pane {
        let p = self.processes[i];
        let is_selected = i == self.selected;
        Pane {
            pid: i as usize,
            size: if p.status == Some(ProcessStatus::Success) && !is_selected {
                PaneSize::Exact(1)
            } else {
                PaneSize::AtMost((1 + min(COMPACT_TAIL as nat, p.lines.len())) as usize)
            },
            color: title_color(p.status),
            scroll: if is_selected {
                Some(Scroll { line: self.line_offset as usize, column: self.column_offset as usize })
            } else {
                None
            },
            line_count: p.lines.len() as usize,
        }
    }

    /// The panes below the header line: in expanded mode the selected process
    /// alone, at full height; in overview mode one compact pane per process.
    pub open spec fn panes(self) -> Seq<Pane> {
        if self.expanded {
            if self.processes.len() == 0 {
                seq![]
            } else {
                seq![Pane { size: PaneSize::Fill, ..self.pane(self.selected as int) }]
            }
        } else {
            Seq::new(self.processes.len(), |i: int| self.pane(i))
        }
    }
}

/// Rendering reads nothing but the state: two renders of the same state give
/// the same frame.
pub proof fn lemma_render_is_repeatable(a: AppModel, b: AppModel)
    requires
        a == b,
    ensures
        a.panes() == b.panes(),
{
}

/// In every frame exactly the selected process's pane shows content.
pub proof fn lemma_only_selected_pane_scrolls(s: AppModel)
    requires
        s.wf(),
        s.processes.len() <= usize::MAX,
    ensures
        forall|i: int|
            0 <= i < s.panes().len() ==> (#[trigger] s.panes()[i].scroll is Some <==> s.panes()[i].pid
                == s.selected),
{
}

/// Applying any event that can arrive keeps the selection within the list of
/// processes (zero while the list is empty).
pub proof fn lemma_step_keeps_selection_valid(s: AppModel, e: EventModel)
    requires
        s.wf(),
        s.accepts(e),
    ensures
        s.step(e).wf(),
{
}

/// A new batch adds exactly one process, running and without output, at the
/// end of the list, and selects it.
pub proof fn lemma_new_batch_appends_and_selects(s: AppModel, args: Seq<Seq<char>>)
    ensures
        s.step(EventModel::NewBatch(args)).processes == s.processes.push(
            ProcessModel { args, lines: seq![], status: None },
        ),
        s.step(EventModel::NewBatch(args)).selected == s.processes.len(),
{
}

/// Records are only ever appended: every event keeps each existing process's
/// arguments, keeps its earlier output as a prefix of its output, and never
/// changes a final status.
pub proof fn lemma_records_only_grow(s: AppModel, e: EventModel, i: int)
    requires
        0 <= i < s.processes.len(),
    ensures
        s.processes.len() <= s.step(e).processes.len(),
        s.step(e).processes[i].args == s.processes[i].args,
        s.processes[i].lines.len() <= s.step(e).processes[i].lines.len(),
        s.step(e).processes[i].lines.subrange(0, s.processes[i].lines.len() as int)
            == s.processes[i].lines,
        s.processes[i].status is Some ==> s.step(e).processes[i].status == s.processes[i].status,
{
    let a = s.processes[i].lines;
    let b = s.step(e).processes[i].lines;
    assert(b.subrange(0, a.len() as int) =~= a);
}

/// Once a process has a final status, no event changes that status or its
/// output.
pub proof fn lemma_final_status_is_kept(s: AppModel, e: EventModel, pid: nat)
    requires
        pid < s.processes.len(),
        s.processes[pid as int].status is Some,
    ensures
        s.step(e).processes[pid as int] == s.processes[pid as int],
{
}

/// An event for the supervisor's main loop.
pub enum AppEvent {
    KeyPress(Key),
    NewBatch(Vec<String>),
    Output { pid: usize, lines: Vec<String> },
    Exited { pid: usize, status: ProcessStatus },
}

impl View for AppEvent {
    type V = EventModel;

    open spec fn view(&self) -> EventModel {
        match self {
            AppEvent::KeyPress(k) => EventModel::KeyPress(*k),
            AppEvent::NewBatch(args) => EventModel::NewBatch(strings_view(args@)),
            AppEvent::Output { pid, lines } => EventModel::Output(*pid as nat, strings_view(lines@)),
            AppEvent::Exited { pid, status } => EventModel::Exited(*pid as nat, *status),
        }
    }
}

/// The event that one line read from a child's output makes; a read of zero
/// bytes makes none.
pub fn output_event(pid: usize, bytes_read: usize, line: String) -> (r: Option<AppEvent>)
    ensures
        bytes_read == 0 ==> r is None,
        bytes_read > 0 ==> r is Some && r->Some_0@ == EventModel::Output(pid as nat, seq![line@]),
{
    if bytes_read == 0 {
        None
    } else {
        let lines = vec![line];
        proof {
            assert(strings_view(lines@) =~= seq![line@]);
        }
        Some(AppEvent::Output { pid, lines })
    }
}

/// One launched batch: its arguments, the output read so far, and its status
/// (`None` while it runs).
pub struct ProcessRecord {
    args: Vec<String>,
    output_lines: Vec<String>,
    status: Option<ProcessStatus>,
}

impl View for ProcessRecord {
    type V = ProcessModel;

    closed spec fn view(&self) -> ProcessModel {
        ProcessModel {
            args: strings_view(self.args@),
            lines: strings_view(self.output_lines@),
            status: self.status,
        }
    }
}

/// The interactive supervisor's state. Only the main loop changes it, one
/// event at a time.
pub struct App {
    processes: Vec<ProcessRecord>,
    exit: bool,
    selected: usize,
    scroll_position: (usize, usize),
    wrap: bool,
    expanded: bool,
    max_lines: usize,
    keys: Vec<Key>,
}

impl View for App {
    type V = AppModel;

    closed spec fn view(&self) -> AppModel {
        AppModel {
            processes: self.processes@.map_values(|p: ProcessRecord| p@),
            selected: self.selected as nat,
            line_offset: self.scroll_position.0 as nat,
            column_offset: self.scroll_position.1 as nat,
            wrap: self.wrap,
            expanded: self.expanded,
            viewport_height: self.max_lines as nat,
            should_exit: self.exit,
            keys: self.keys@,
        }
    }
}

impl App {
    pub fn new() -> (r: App)
        ensures
            r@ == AppModel::initial(),
    {
        let r = App {
            processes: Vec::new(),
            exit: false,
            selected: 0,
            scroll_position: (0, 0),
            wrap: false,
            expanded: false,
            max_lines: 0,
            keys: Vec::new(),
        };
        proof {
            assert(r@.processes =~= Seq::<ProcessModel>::empty());
            assert(r@.keys =~= Seq::<Key>::empty());
        }
        r
    }

    fn selected_line_count(&self) -> (n: usize)
        ensures
            n == self@.selected_line_count(),
    {
        if self.selected < self.processes.len() {
            self.processes[self.selected].output_lines.len()
        } else {
            0
        }
    }

    fn reset_scroll_position(&mut self)
        ensures
            final(self)@ == old(self)@.with_tail_scroll(),
    {
        let n = self.selected_line_count();
        let height = if self.expanded {
            self.max_lines
        } else {
            COMPACT_TAIL
        };
        self.scroll_position = (n.saturating_sub(height), 0);
    }

    /// Applies a key press. No key changes the processes, and the selection
    /// stays valid.
    pub fn handle_key_event(&mut self, key: Key)
        requires
            old(self)@.wf(),
        ensures
            final(self)@ == old(self)@.on_key(key),
            final(self)@.wf(),
            final(self)@.processes == old(self)@.processes,
    {
        self.keys.push(key);
        if self.keys.len() > KEY_HISTORY {
            self.keys.remove(0);
        }
        proof {
            assert(self@.keys =~= recent(old(self)@.keys.push(key)));
        }
        let last_process = self.processes.len().saturating_sub(1);
        let last_line = self.selected_line_count().saturating_sub(1);
        match key {
            Key::Char(c) => {
                if c == 'q' {
                    self.exit = true;
                } else if c == '/' {
                    self.expanded = !self.expanded;
                    self.reset_scroll_position();
                } else if c == 'w' {
                    self.wrap = !self.wrap;
                }
            },
            Key::Esc => {
                self.exit = true;
            },
            Key::PageUp => {
                let s = self.selected.saturating_sub(1);
                self.selected = if s < last_process {
                    s
                } else {
                    last_process
                };
                self.reset_scroll_position();
            },
            Key::PageDown => {
                let s = self.selected + 1;
                self.selected = if s < last_process {
                    s
                } else {
                    last_process
                };
                self.reset_scroll_position();
            },
            Key::Up => {
                let l = self.scroll_position.0.saturating_sub(1);
                self.scroll_position.0 = if l < last_line {
                    l
                } else {
                    last_line
                };
            },
            Key::Down => {
                let l = self.scroll_position.0.saturating_add(1);
                self.scroll_position.0 = if l < last_line {
                    l
                } else {
                    last_line
                };
            },
            Key::Left => {
                self.scroll_position.1 = if self.wrap {
                    0
                } else {
                    self.scroll_position.1.saturating_sub(HORIZONTAL_STEP)
                };
            },
            Key::Right => {
                self.scroll_position.1 = if self.wrap {
                    0
                } else {
                    self.scroll_position.1.saturating_add(HORIZONTAL_STEP)
                };
            },
            Key::Home => {
                self.scroll_position.0 = 0;
            },
            Key::End => {
                self.scroll_position.0 = last_line;
            },
            Key::Other => {},
        }
    }

    /// Adds a running process for a new batch and selects it; returns its id.
    pub fn spawn_sub_process(&mut self, inputs: Vec<String>) -> (pid: usize)
        requires
            old(self)@.wf(),
            old(self)@.processes.len() < usize::MAX,
        ensures
            final(self)@ == old(self)@.on_new_batch(strings_view(inputs@)),
            pid == old(self)@.processes.len(),
            final(self)@.processes == old(self)@.processes.push(
                ProcessModel { args: strings_view(inputs@), lines: seq![], status: None },
            ),
            final(self)@.selected == pid,
            final(self)@.wf(),
    {
        let pid = self.processes.len();
        let ghost before = self@;
        self.processes.push(ProcessRecord { args: inputs, output_lines: Vec::new(), status: None });
        proof {
            let p = ProcessModel { args: strings_view(inputs@), lines: seq![], status: None };
            assert(strings_view(Seq::<String>::empty()) =~= Seq::<Seq<char>>::empty());
            assert(self@.processes =~= before.processes.push(p));
        }
        self.selected = pid;
        self.reset_scroll_position();
        pid
    }

    /// Appends output lines to a running process.
    pub fn handle_output_event(&mut self, pid: usize, lines: Vec<String>)
        requires
            old(self)@.wf(),
            pid < old(self)@.processes.len(),
        ensures
            final(self)@ == old(self)@.on_output(pid as nat, strings_view(lines@)),
            final(self)@.wf(),
    {
        if self.processes[pid].status.is_some() {
            return;
        }
        let ghost before = self@;
        let mut lines = lines;
        let ghost new_lines = strings_view(lines@);
        {
            let p = &mut self.processes[pid];
            p.output_lines.append(&mut lines);
        }
        proof {
            let q = before.processes[pid as int];
            assert(strings_view(self.processes@[pid as int].output_lines@) =~= q.lines + new_lines);
            assert(self@.processes =~= before.processes.update(
                pid as int,
                ProcessModel { lines: q.lines + new_lines, ..q },
            ));
        }
        if self.selected == pid {
            self.reset_scroll_position();
        }
    }

    /// Gives a running process its final status; returns whether its runner
    /// is now to be joined.
    pub fn handle_exit_event(&mut self, pid: usize, status: ProcessStatus) -> (joined: bool)
        requires
            old(self)@.wf(),
            pid < old(self)@.processes.len(),
        ensures
            final(self)@ == old(self)@.on_exit(pid as nat, status),
            final(self)@.wf(),
            joined == old(self)@.processes[pid as int].status is None,
    {
        if self.processes[pid].status.is_some() {
            return false;
        }
        let ghost before = self@;
        {
            let p = &mut self.processes[pid];
            p.status = Some(status);
        }
        proof {
            let q = before.processes[pid as int];
            assert(self@.processes =~= before.processes.update(
                pid as int,
                ProcessModel { status: Some(status), ..q },
            ));
        }
        true
    }

    /// Applies one event and says what the caller must do about it.
    pub fn apply_event(&mut self, event: AppEvent) -> (r: Effect)
        requires
            old(self)@.wf(),
            old(self)@.accepts(event@),
            old(self)@.processes.len() < usize::MAX,
        ensures
            final(self)@ == old(self)@.step(event@),
            r == old(self)@.effect(event@),
    {
        match event {
            AppEvent::KeyPress(k) => {
                self.handle_key_event(k);
                Effect::Nothing
            },
            AppEvent::NewBatch(args) => Effect::Spawn(self.spawn_sub_process(args)),
            AppEvent::Output { pid, lines } => {
                self.handle_output_event(pid, lines);
                Effect::Nothing
            },
            AppEvent::Exited { pid, status } => {
                if self.handle_exit_event(pid, status) {
                    Effect::Join(pid)
                } else {
                    Effect::Nothing
                }
            },
        }
    }
}

/// What the renderer draws: a header naming the selected process, then the
/// panes.
#[derive(Debug, PartialEq, Eq)]
pub struct Frame {
    pub selected: usize,
    pub panes: Vec<Pane>,
}

impl App {
    fn pane(&self, i: usize) -> (r: Pane)
        requires
            i < self@.processes.len(),
        ensures
            r == self@.pane(i as int),
    {
        let p = &self.processes[i];
        let n = p.output_lines.len();
        let is_selected = i == self.selected;
        let succeeded = match p.status {
            Some(ProcessStatus::Success) => true,
            _ => false,
        };
        let size = if succeeded && !is_selected {
            PaneSize::Exact(1)
        } else {
            PaneSize::AtMost(1 + if n < COMPACT_TAIL { n } else { COMPACT_TAIL })
        };
        let color = match p.status {
            None => TitleColor::Neutral,
            Some(ProcessStatus::Success) => TitleColor::Positive,
            Some(_) => TitleColor::Attention,
        };
        let scroll = if is_selected {
            Some(Scroll { line: self.scroll_position.0, column: self.scroll_position.1 })
        } else {
            None
        };
        Pane { pid: i, size, color, scroll, line_count: n }
    }

    /// The frame for the current state; the state is left as it is.
    pub fn render(&self) -> (r: Frame)
        requires
            self@.wf(),
        ensures
            r.selected as nat == self@.selected,
            r.panes@ == self@.panes(),
    {
        let mut panes: Vec<Pane> = Vec::new();
        if self.expanded {
            if self.processes.len() > 0 {
                let p = self.pane(self.selected);
                panes.push(Pane { size: PaneSize::Fill, ..p });
                proof {
                    assert(panes@ =~= self@.panes());
                }
            } else {
                proof {
                    assert(panes@ =~= self@.panes());
                }
            }
        } else {
            let n = self.processes.len();
            let mut i: usize = 0;
            while i < n
                invariant
                    n == self@.processes.len(),
                    i <= n,
                    !self.expanded,
                    panes@ =~= Seq::new(i as nat, |j: int| self@.pane(j)),
                decreases n - i,
            {
                panes.push(self.pane(i));
                i = i + 1;
            }
            proof {
                assert(panes@ =~= self@.panes());
            }
        }
        Frame { selected: self.selected, panes }
    }
}

impl App {
    /// Records the height of the area that the last frame was drawn into.
    pub fn set_viewport_height(&mut self, height: usize)
        ensures
            final(self)@ == (AppModel { viewport_height: height as nat, ..old(self)@ }),
    {
        self.max_lines = height;
    }

    pub fn should_exit(&self) -> (r: bool)
        ensures
            r == self@.should_exit,
    {
        self.exit
    }

    pub fn process_count(&self) -> (n: usize)
        ensures
            n == self@.processes.len(),
    {
        self.processes.len()
    }

    pub fn args(&self, pid: usize) -> (r: &Vec<String>)
        requires
            pid < self@.processes.len(),
        ensures
            strings_view(r@) == self@.processes[pid as int].args,
    {
        &self.processes[pid].args
    }

    pub fn output_lines(&self, pid: usize) -> (r: &Vec<String>)
        requires
            pid < self@.processes.len(),
        ensures
            strings_view(r@) == self@.processes[pid as int].lines,
    {
        &self.processes[pid].output_lines
    }

    pub fn status(&self, pid: usize) -> (r: Option<ProcessStatus>)
        requires
            pid < self@.processes.len(),
        ensures
            r == self@.processes[pid as int].status,
    {
        self.processes[pid].status
    }

    pub fn wrap(&self) -> (r: bool)
        ensures
            r == self@.wrap,
    {
        self.wrap
    }

    /// The latest key presses, oldest first.
    pub fn recent_keys(&self) -> (r: &Vec<Key>)
        ensures
            r@ == self@.keys,
    {
        &self.keys
    }
}

} // verus!
