//! The dashboard of the text interface: the tab on screen, whether the help
//! dialog is open, and the navigation state of every table, driven one key
//! press at a time. The caller reads the keys, draws the screen and carries
//! out what a key asks of the rest of the program.

use vstd::prelude::*;
use crate::table::{initial_table, XTableState, XTableView};

verus! {

/// The number of tabs.
pub const TAB_COUNT: usize = 7;
pub const TAB_IDX_PARTICIPANT: usize = 0;
pub const TAB_IDX_WRITER: usize = 1;
pub const TAB_IDX_READER: usize = 2;
pub const TAB_IDX_TOPIC: usize = 3;
pub const TAB_IDX_STATISTICS: usize = 4;
pub const TAB_IDX_METRICS: usize = 5;
pub const TAB_IDX_ABNORMALITIES: usize = 6;

/// A key press, as far as the dashboard reads it.
#[derive(Debug, Clone, Copy, PartialEq, Eq, Structural)]
pub enum Key {
    Char(char),
    Up,
    Down,
    Left,
    Right,
    PageUp,
    PageDown,
    Home,
    End,
    Tab,
    BackTab,
    Other,
}

/// What has the keyboard: the tabs, or the help dialog over them.
#[derive(Debug, Clone, Copy, PartialEq, Eq, Structural)]
pub enum Focus {
    Dashboard,
    Help,
}

/// What the caller does after a key press.
#[derive(Debug, Clone, Copy, PartialEq, Eq, Structural)]
pub enum KeyOutcome {
    /// Keep running.
    Continue,
    /// Stop the program.
    Exit,
    /// Ask the updater to start or stop logging (and stop the program when
    /// the updater is gone).
    ToggleLogging,
}

/// A navigation command for the table on screen.
#[derive(Debug, Clone, Copy, PartialEq, Eq, Structural)]
pub enum TableCommand {
    Up,
    Down,
    PageUp,
    PageDown,
    Home,
    End,
    Left,
    Right,
    ToggleShow,
    ToggleSort,
}

/// A table after a command.
pub open spec fn apply_command(v: XTableView, c: TableCommand) -> XTableView {
    match c {
        TableCommand::Up => v.item_up(),
        TableCommand::Down => v.item_down(),
        TableCommand::PageUp => v.page_up(),
        TableCommand::PageDown => v.page_down(),
        TableCommand::Home => v.item_first(),
        TableCommand::End => v.item_last(),
        TableCommand::Left => v.column_left(),
        TableCommand::Right => v.column_right(),
        TableCommand::ToggleShow => v.show_toggled(),
        TableCommand::ToggleSort => v.sort_toggled(),
    }
}

/// The table command a key gives, if any.
pub open spec fn key_command(k: Key) -> Option<TableCommand> {
    match k {
        Key::Up => Some(TableCommand::Up),
        Key::Down => Some(TableCommand::Down),
        Key::PageUp => Some(TableCommand::PageUp),
        Key::PageDown => Some(TableCommand::PageDown),
        Key::Home => Some(TableCommand::Home),
        Key::End => Some(TableCommand::End),
        Key::Left => Some(TableCommand::Left),
        Key::Right => Some(TableCommand::Right),
        Key::Char(c) => if c == 'v' {
            Some(TableCommand::ToggleShow)
        } else if c == 's' {
            Some(TableCommand::ToggleSort)
        } else {
            None
        },
        _ => None,
    }
}

/// The table that a tab shows, by its place among the six tables: the
/// metrics tab shows none.
pub open spec fn table_slot(tab: usize) -> Option<int> {
    if tab < TAB_IDX_METRICS {
        Some(tab as int)
    } else if tab == TAB_IDX_ABNORMALITIES {
        Some(5)
    } else {
        None
    }
}

/// The tabs, the focus and the six tables.
#[derive(Debug)]
pub struct Dashboard {
    tab_index: usize,
    focus: Focus,
    participants: XTableState,
    writers: XTableState,
    readers: XTableState,
    topics: XTableState,
    statistics: XTableState,
    abnormalities: XTableState,
}

/// The content of a [`Dashboard`]; the tables in tab order, without the
/// metrics tab.
pub struct DashboardView {
    pub tab_index: usize,
    pub focus: Focus,
    pub tables: Seq<XTableView>,
}

impl View for Dashboard {
    type V = DashboardView;

    closed spec fn view(&self) -> DashboardView {
        DashboardView {
            tab_index: self.tab_index,
            focus: self.focus,
            tables: seq![
                self.participants@,
                self.writers@,
                self.readers@,
                self.topics@,
                self.statistics@,
                self.abnormalities@,
            ],
        }
    }
}

impl DashboardView {
    /// A tab is on screen and every table is well formed.
    pub open spec fn wf(self) -> bool {
        &&& self.tab_index < TAB_COUNT
        &&& self.tables.len() == 6
        &&& forall|i: int| 0 <= i < 6 ==> (#[trigger] self.tables[i]).wf()
    }

    /// The dashboard after `c` is applied to the table on screen.
    pub open spec fn command_applied(self, c: TableCommand) -> DashboardView {
        match table_slot(self.tab_index) {
            Some(s) => DashboardView { tables: self.tables.update(s, apply_command(self.tables[s], c)), ..self },
            None => self,
        }
    }

    /// The dashboard after key `k`, and what the caller does next: `q`
    /// closes the help dialog or, on the tabs, ends the program; `h` opens
    /// the help dialog; `r` toggles logging; TAB and Shift+TAB cycle
    /// through the tabs; the other keys navigate the table on screen.
    pub open spec fn key_step(self, k: Key) -> (DashboardView, KeyOutcome) {
        match k {
            Key::Char(c) => if c == 'q' {
                match self.focus {
                    Focus::Dashboard => (self, KeyOutcome::Exit),
                    Focus::Help => (DashboardView { focus: Focus::Dashboard, ..self }, KeyOutcome::Continue),
                }
            } else if c == 'h' {
                (DashboardView { focus: Focus::Help, ..self }, KeyOutcome::Continue)
            } else if c == 'r' {
                (self, KeyOutcome::ToggleLogging)
            } else {
                match key_command(k) {
                    Some(cmd) => (self.command_applied(cmd), KeyOutcome::Continue),
                    None => (self, KeyOutcome::Continue),
                }
            },
            Key::Tab => (
                DashboardView { tab_index: ((self.tab_index + 1) % (TAB_COUNT as int)) as usize, ..self },
                KeyOutcome::Continue,
            ),
            Key::BackTab => (
                DashboardView { tab_index: ((self.tab_index + (TAB_COUNT - 1)) % (TAB_COUNT as int)) as usize, ..self },
                KeyOutcome::Continue,
            ),
            _ => match key_command(k) {
                Some(cmd) => (self.command_applied(cmd), KeyOutcome::Continue),
                None => (self, KeyOutcome::Continue),
            },
        }
    }
}

/// Applies a command to one table.
fn apply_to(t: &mut XTableState, c: TableCommand)
    requires
        old(t)@.wf(),
    ensures
        final(t)@.wf(),
        final(t)@ == apply_command(old(t)@, c),
{
    match c {
        TableCommand::Up => t.previous_item(),
        TableCommand::Down => t.next_item(),
        TableCommand::PageUp => t.previous_page(),
        TableCommand::PageDown => t.next_page(),
        TableCommand::Home => t.first_item(),
        TableCommand::End => t.last_item(),
        TableCommand::Left => t.previous_column(),
        TableCommand::Right => t.next_column(),
        TableCommand::ToggleShow => t.toggle_show(),
        TableCommand::ToggleSort => t.toggle_sort(),
    }
}

/// The table command a key gives, if any.
fn command_of(k: Key) -> (r: Option<TableCommand>)
    ensures
        r == key_command(k),
{
    match k {
        Key::Up => Some(TableCommand::Up),
        Key::Down => Some(TableCommand::Down),
        Key::PageUp => Some(TableCommand::PageUp),
        Key::PageDown => Some(TableCommand::PageDown),
        Key::Home => Some(TableCommand::Home),
        Key::End => Some(TableCommand::End),
        Key::Left => Some(TableCommand::Left),
        Key::Right => Some(TableCommand::Right),
        Key::Char(c) => if c == 'v' {
            Some(TableCommand::ToggleShow)
        } else if c == 's' {
            Some(TableCommand::ToggleSort)
        } else {
            None
        },
        _ => None,
    }
}

impl Dashboard {
    /// The participants tab on screen, no dialog open, every table new.
    pub fn new() -> (r: Self)
        ensures
            r@.wf(),
            r@.tab_index == TAB_IDX_PARTICIPANT,
            r@.focus == Focus::Dashboard,
            forall|i: int| 0 <= i < 6 ==> #[trigger] r@.tables[i] == initial_table(),
    {
        Dashboard {
            tab_index: TAB_IDX_PARTICIPANT,
            focus: Focus::Dashboard,
            participants: XTableState::new(),
            writers: XTableState::new(),
            readers: XTableState::new(),
            topics: XTableState::new(),
            statistics: XTableState::new(),
            abnormalities: XTableState::new(),
        }
    }

    /// The tab on screen.
    pub fn tab_index(&self) -> (r: usize)
        ensures
            r == self@.tab_index,
    {
        self.tab_index
    }

    /// What has the keyboard.
    pub fn focus(&self) -> (r: Focus)
        ensures
            r == self@.focus,
    {
        self.focus
    }

    /// The table of tab `tab`, if it shows one.
    pub fn table(&self, tab: usize) -> (r: Option<&XTableState>)
        ensures
            match table_slot(tab) {
                Some(s) => r matches Some(t) && t@ == self@.tables[s],
                None => r is None,
            },
    {
        match tab {
            TAB_IDX_PARTICIPANT => Some(&self.participants),
            TAB_IDX_WRITER => Some(&self.writers),
            TAB_IDX_READER => Some(&self.readers),
            TAB_IDX_TOPIC => Some(&self.topics),
            TAB_IDX_STATISTICS => Some(&self.statistics),
            TAB_IDX_ABNORMALITIES => Some(&self.abnormalities),
            _ => None,
        }
    }

    /// Records what drawing the table of tab `tab` found (see
    /// [`XTableState::update_layout`]) and the first row it showed.
    pub fn record_layout(&mut self, tab: usize, num_entries: usize, area_height: u16, num_columns: usize, offset: usize)
        requires
            old(self)@.wf(),
        ensures
            final(self)@.wf(),
            final(self)@.tab_index == old(self)@.tab_index,
            final(self)@.focus == old(self)@.focus,
            match table_slot(tab) {
                Some(s) => final(self)@.tables == old(self)@.tables.update(
                    s,
                    XTableView { offset, ..old(self)@.tables[s].laid_out(num_entries, area_height, num_columns) },
                ),
                None => final(self)@.tables == old(self)@.tables,
            },
    {
        let t = match tab {
            TAB_IDX_PARTICIPANT => &mut self.participants,
            TAB_IDX_WRITER => &mut self.writers,
            TAB_IDX_READER => &mut self.readers,
            TAB_IDX_TOPIC => &mut self.topics,
            TAB_IDX_STATISTICS => &mut self.statistics,
            TAB_IDX_ABNORMALITIES => &mut self.abnormalities,
            _ => return,
        };
        t.update_layout(num_entries, area_height, num_columns);
        t.set_offset(offset);
    }

    /// Handles one key press and says what the caller does next.
    pub fn process_key(&mut self, key: Key) -> (r: KeyOutcome)
        requires
            old(self)@.wf(),
        ensures
            final(self)@.wf(),
            (final(self)@, r) == old(self)@.key_step(key),
    {
        if let Key::Char(c) = key {
            if c == 'q' {
                match self.focus {
                    Focus::Dashboard => return KeyOutcome::Exit,
                    Focus::Help => {
                        self.focus = Focus::Dashboard;
                        return KeyOutcome::Continue;
                    },
                }
            } else if c == 'h' {
                self.focus = Focus::Help;
                return KeyOutcome::Continue;
            } else if c == 'r' {
                return KeyOutcome::ToggleLogging;
            }
        }
        match key {
            Key::Tab => {
                self.tab_index = (self.tab_index + 1) % TAB_COUNT;
                return KeyOutcome::Continue;
            },
            Key::BackTab => {
                self.tab_index = (self.tab_index + (TAB_COUNT - 1)) % TAB_COUNT;
                return KeyOutcome::Continue;
            },
            _ => {},
        }
        if let Some(cmd) = command_of(key) {
            match self.tab_index {
                TAB_IDX_PARTICIPANT => apply_to(&mut self.participants, cmd),
                TAB_IDX_WRITER => apply_to(&mut self.writers, cmd),
                TAB_IDX_READER => apply_to(&mut self.readers, cmd),
                TAB_IDX_TOPIC => apply_to(&mut self.topics, cmd),
                TAB_IDX_STATISTICS => apply_to(&mut self.statistics, cmd),
                TAB_IDX_ABNORMALITIES => apply_to(&mut self.abnormalities, cmd),
                _ => {},
            }
            proof {
                let s = old(self)@;
                let t = self@;
                if let Some(k) = table_slot(s.tab_index) {
                    assert(t.tables =~= s.tables.update(k, apply_command(s.tables[k], cmd)));
                } else {
                    assert(t.tables =~= s.tables);
                }
            }
        } else {
            proof {
                assert(self@.tables =~= old(self)@.tables);
            }
        }
        KeyOutcome::Continue
    }
}

/// A command keeps a table well formed.
proof fn lemma_command_keeps_wf(v: XTableView, c: TableCommand)
    requires
        v.wf(),
    ensures
        apply_command(v, c).wf(),
{
    if c == TableCommand::ToggleShow {
        if let Some(i) = v.column_index {
            assert(v.show_toggled().show.len() == v.show.len());
        }
    }
}

/// TAB followed by Shift+TAB (or the other way round) returns to the same
/// tab and changes nothing else.
pub proof fn law_tab_round_trip(d: DashboardView)
    requires
        d.wf(),
    ensures
        d.key_step(Key::Tab).0.key_step(Key::BackTab).0 == d,
        d.key_step(Key::BackTab).0.key_step(Key::Tab).0 == d,
        d.key_step(Key::Tab).1 == KeyOutcome::Continue,
{
}

/// Opening the help dialog and closing it with `q` returns to the tabs
/// without ending the program; on the tabs, `q` ends it and nothing else.
pub proof fn law_quit_closes_help_first(d: DashboardView)
    ensures
        d.key_step(Key::Char('h')).0.key_step(Key::Char('q')) == (DashboardView { focus: Focus::Dashboard, ..d }, KeyOutcome::Continue),
        d.focus == Focus::Dashboard ==> d.key_step(Key::Char('q')) == (d, KeyOutcome::Exit),
{
}

/// The tab on screen stays a tab, and every table stays well formed,
/// whatever key is pressed.
pub proof fn law_key_keeps_wf(d: DashboardView, k: Key)
    requires
        d.wf(),
    ensures
        d.key_step(k).0.wf(),
{
    if let Some(cmd) = key_command(k) {
        if let Some(s) = table_slot(d.tab_index) {
            lemma_command_keeps_wf(d.tables[s], cmd);
        }
    }
}

} // verus!
