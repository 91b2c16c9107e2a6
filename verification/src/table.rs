//! Navigation in the tables of the text interface: the selected row, the
//! first row shown, the highlighted column, which columns are shown, and
//! the sort order; and the text of a drawn table: its header, the cells of
//! folded columns, and the width of every column.

use vstd::prelude::*;
use vstd::utf8::encode_utf8;
use crate::text::{push_char, push_str, to_owned_string};

verus! {

/// Rows sorted by a column, ascending or descending.
#[derive(Debug, Clone, Copy)]
pub struct Sort {
    pub column_index: usize,
    pub ascending: bool,
}

/// The navigation state of one table.
#[derive(Debug)]
pub struct XTableState {
    selected: Option<usize>,
    offset: usize,
    num_entries: usize,
    num_columns: usize,
    page_height: usize,
    column_index: Option<usize>,
    show: Vec<bool>,
    sort: Option<Sort>,
}

/// The content of an [`XTableState`].
pub struct XTableView {
    pub selected: Option<usize>,
    pub offset: usize,
    pub num_entries: usize,
    pub num_columns: usize,
    pub page_height: usize,
    pub column_index: Option<usize>,
    pub show: Seq<bool>,
    pub sort: Option<Sort>,
}

impl View for XTableState {
    type V = XTableView;

    closed spec fn view(&self) -> XTableView {
        XTableView {
            selected: self.selected,
            offset: self.offset,
            num_entries: self.num_entries,
            num_columns: self.num_columns,
            page_height: self.page_height,
            column_index: self.column_index,
            show: self.show@,
            sort: self.sort,
        }
    }
}

/// `x - y`, wrapping around at zero.
pub open spec fn wrap_sub(x: usize, y: usize) -> usize {
    if x >= y { (x - y) as usize } else { (x - y + usize::MAX + 1) as usize }
}

/// `x + y`, wrapping around at the bound of `usize`.
pub open spec fn wrap_add_usize(x: usize, y: usize) -> usize {
    if x + y > usize::MAX { (x + y - usize::MAX - 1) as usize } else { (x + y) as usize }
}

/// A table that has not been drawn yet: the first row is selected.
pub open spec fn initial_table() -> XTableView {
    XTableView {
        selected: Some(0),
        offset: 0,
        num_entries: 0,
        num_columns: 0,
        page_height: 1,
        column_index: None,
        show: Seq::empty(),
        sort: None,
    }
}

impl XTableView {
    /// One show flag per column, the highlighted column exists, and a page
    /// holds at least one row.
    pub open spec fn wf(self) -> bool {
        &&& self.show.len() == self.num_columns
        &&& (self.column_index matches Some(c) ==> c < self.num_columns)
        &&& self.page_height >= 1
    }

    /// The view after drawing found `num_entries` rows, an area
    /// `area_height` lines high (three lines go to borders and the header,
    /// a page holds at least one row) and `num_columns` columns: a
    /// highlighted column beyond the last is dropped, and show flags are cut
    /// or extended (new columns are shown) to one per column.
    pub open spec fn laid_out(self, num_entries: usize, area_height: u16, num_columns: usize) -> XTableView {
        XTableView {
            num_entries,
            page_height: if area_height >= 4 { (area_height - 3) as usize } else { 1 },
            num_columns,
            column_index: match self.column_index {
                Some(c) => if c >= num_columns { None } else { Some(c) },
                None => None,
            },
            show: if self.show.len() >= num_columns {
                self.show.take(num_columns as int)
            } else {
                self.show + Seq::new((num_columns - self.show.len()) as nat, |i: int| true)
            },
            ..self
        }
    }

    /// The view after moving the selection one row up.
    pub open spec fn item_up(self) -> XTableView {
        if self.num_entries > 0 {
            XTableView {
                selected: Some(match self.selected {
                    Some(i) => if i >= 1 { (i - 1) as usize } else { 0 },
                    None => 0,
                }),
                ..self
            }
        } else {
            self
        }
    }

    /// The view after moving the selection one row down.
    pub open spec fn item_down(self) -> XTableView {
        if self.num_entries > 0 {
            XTableView {
                selected: Some(match self.selected {
                    Some(i) => if i + 1 <= self.num_entries - 1 { (i + 1) as usize } else { (self.num_entries - 1) as usize },
                    None => 0,
                }),
                ..self
            }
        } else {
            self
        }
    }

    /// The view after moving the selection a page up.
    pub open spec fn page_up(self) -> XTableView {
        if self.num_entries > 0 {
            let orig = match self.selected { Some(i) => i, None => 0 };
            let new = if orig >= self.page_height { (orig - self.page_height) as usize } else { 0 };
            XTableView {
                selected: Some(new),
                offset: wrap_sub(self.offset, (orig - new) as usize),
                ..self
            }
        } else {
            self
        }
    }

    /// The view after moving the selection a page down.
    pub open spec fn page_down(self) -> XTableView {
        if self.num_entries > 0 {
            let orig = match self.selected { Some(i) => i, None => 0 };
            let last = (self.num_entries - 1) as usize;
            let new = if orig + self.page_height <= last { (orig + self.page_height) as usize } else { last };
            XTableView {
                selected: Some(new),
                offset: if new >= orig { wrap_add_usize(self.offset, (new - orig) as usize) } else { wrap_sub(self.offset, (orig - new) as usize) },
                ..self
            }
        } else {
            self
        }
    }

    /// The view after selecting the first row.
    pub open spec fn item_first(self) -> XTableView {
        if self.num_entries > 0 {
            XTableView { selected: Some(0), ..self }
        } else {
            self
        }
    }

    /// The view after selecting the last row.
    pub open spec fn item_last(self) -> XTableView {
        if self.num_entries > 0 {
            XTableView { selected: Some((self.num_entries - 1) as usize), ..self }
        } else {
            self
        }
    }

    /// The view after choosing the sort column again.
    pub open spec fn sort_toggled(self) -> XTableView {
        match self.column_index {
            Some(c) => XTableView {
                sort: Some(match self.sort {
                    Some(s) => if s.column_index == c {
                        Sort { column_index: c, ascending: !s.ascending }
                    } else {
                        Sort { column_index: c, ascending: true }
                    },
                    None => Sort { column_index: c, ascending: true },
                }),
                ..self
            },
            None => self,
        }
    }

    /// The view after highlighting the column to the right.
    pub open spec fn column_right(self) -> XTableView {
        match self.column_index {
            Some(c) => XTableView {
                column_index: Some(if c + 1 <= self.num_columns - 1 { (c + 1) as usize } else { (self.num_columns - 1) as usize }),
                ..self
            },
            None => if self.num_columns > 0 {
                XTableView { column_index: Some(0), ..self }
            } else {
                self
            },
        }
    }

    /// The view after highlighting the column to the left.
    pub open spec fn column_left(self) -> XTableView {
        match self.column_index {
            Some(c) => XTableView { column_index: Some(if c >= 1 { (c - 1) as usize } else { 0 }), ..self },
            None => if self.num_columns > 0 {
                XTableView { column_index: Some(0), ..self }
            } else {
                self
            },
        }
    }

    /// The view after highlighting the first column.
    pub open spec fn column_first(self) -> XTableView {
        if self.num_columns > 0 {
            XTableView { column_index: Some(0), ..self }
        } else {
            self
        }
    }

    /// The view after highlighting the last column.
    pub open spec fn column_last(self) -> XTableView {
        if self.num_columns > 0 {
            XTableView { column_index: Some((self.num_columns - 1) as usize), ..self }
        } else {
            self
        }
    }

    /// The view after folding or unfolding the highlighted column.
    pub open spec fn show_toggled(self) -> XTableView {
        match self.column_index {
            Some(c) => XTableView { show: self.show.update(c as int, !self.show[c as int]), ..self },
            None => self,
        }
    }
}

impl XTableState {
    /// A table that has not been drawn yet: the first row is selected.
    pub fn new() -> (r: Self)
        ensures
            r@ == initial_table(),
            r@.wf(),
    {
        let r = XTableState {
            selected: Some(0),
            offset: 0,
            num_entries: 0,
            num_columns: 0,
            page_height: 1,
            column_index: None,
            show: Vec::new(),
            sort: None,
        };
        assert(r@.show =~= Seq::<bool>::empty());
        r
    }

    /// The selected row.
    pub fn selected(&self) -> (r: Option<usize>)
        ensures
            r == self@.selected,
    {
        self.selected
    }

    /// The first row shown.
    pub fn offset(&self) -> (r: usize)
        ensures
            r == self@.offset,
    {
        self.offset
    }

    /// The highlighted column.
    pub fn column_index(&self) -> (r: Option<usize>)
        ensures
            r == self@.column_index,
    {
        self.column_index
    }

    /// Whether column `i` is shown in full.
    pub fn is_shown(&self, i: usize) -> (r: bool)
        requires
            i < self@.show.len(),
        ensures
            r == self@.show[i as int],
    {
        self.show[i]
    }

    /// The show flag of every column.
    pub fn shown_columns(&self) -> (r: Vec<bool>)
        ensures
            r@ == self@.show,
    {
        let n = self.show.len();
        let mut out: Vec<bool> = Vec::new();
        let mut i: usize = 0;
        while i < n
            invariant
                n == self.show@.len(),
                i <= n,
                out@ == self.show@.take(i as int),
            decreases n - i,
        {
            out.push(self.show[i]);
            i = i + 1;
            assert(self.show@.take(i as int) =~= self.show@.take(i - 1).push(self.show@[i - 1]));
        }
        assert(self.show@.take(n as int) =~= self.show@);
        out
    }

    /// The sort order.
    pub fn sort(&self) -> (r: Option<Sort>)
        ensures
            r == self@.sort,
    {
        self.sort
    }

    /// Records the first row that drawing the table showed.
    pub fn set_offset(&mut self, offset: usize)
        ensures
            final(self)@ == (XTableView { offset, ..old(self)@ }),
    {
        self.offset = offset;
    }

    /// Records what drawing the table found: the number of rows, the height
    /// of the area (three lines go to borders and the header, a page holds
    /// at least one row), and the number of columns. A highlighted column
    /// beyond the last is dropped; show flags are cut or extended (new
    /// columns are shown) to one per column.
    pub fn update_layout(&mut self, num_entries: usize, area_height: u16, num_columns: usize)
        ensures
            final(self)@ == old(self)@.laid_out(num_entries, area_height, num_columns),
            final(self)@.wf(),
    {
        self.num_entries = num_entries;
        self.page_height = if area_height >= 4 { (area_height - 3) as usize } else { 1 };
        self.num_columns = num_columns;
        if let Some(c) = self.column_index {
            if c >= num_columns {
                self.column_index = None;
            }
        }
        let ghost before = self.show@;
        let ghost mid = self@;
        if self.show.len() >= num_columns {
            self.show.truncate(num_columns);
        } else {
            let mut k = self.show.len();
            while k < num_columns
                invariant
                    self@ == (XTableView { show: self@.show, ..mid }),
                    before.len() <= k <= num_columns,
                    self.show@ == before + Seq::new((k - before.len()) as nat, |i: int| true),
                decreases num_columns - k,
            {
                self.show.push(true);
                k = k + 1;
                assert(self.show@ =~= before + Seq::new((k - before.len()) as nat, |i: int| true));
            }
        }
    }

    /// Selects the row above (the first row stays selected); with no row
    /// selected, selects the first. Nothing happens in an empty table.
    pub fn previous_item(&mut self)
        ensures
            final(self)@ == old(self)@.item_up(),
    {
        if self.num_entries > 0 {
            let new_idx = match self.selected {
                Some(idx) => if idx >= 1 { idx - 1 } else { 0 },
                None => 0,
            };
            self.selected = Some(new_idx);
        }
    }

    /// Selects the row below (the last row stays selected); with no row
    /// selected, selects the first. Nothing happens in an empty table.
    pub fn next_item(&mut self)
        ensures
            final(self)@ == old(self)@.item_down(),
    {
        if self.num_entries > 0 {
            let last_idx = self.num_entries - 1;
            let new_idx = match self.selected {
                Some(idx) => if idx < last_idx { idx + 1 } else { last_idx },
                None => 0,
            };
            self.selected = Some(new_idx);
        }
    }

    /// Moves the selection a page up (to the first row at most) and the
    /// shown rows with it. Nothing happens in an empty table.
    pub fn previous_page(&mut self)
        ensures
            final(self)@ == old(self)@.page_up(),
    {
        if self.num_entries > 0 {
            let orig_idx = match self.selected {
                Some(i) => i,
                None => 0,
            };
            let new_idx = if orig_idx >= self.page_height { orig_idx - self.page_height } else { 0 };
            self.selected = Some(new_idx);
            let diff = orig_idx - new_idx;
            self.offset = if self.offset >= diff { self.offset - diff } else { usize::MAX - (diff - self.offset - 1) };
        }
    }

    /// Moves the selection a page down (to the last row at most) and the
    /// shown rows with it. Nothing happens in an empty table.
    pub fn next_page(&mut self)
        ensures
            final(self)@ == old(self)@.page_down(),
    {
        if self.num_entries > 0 {
            let last_idx = self.num_entries - 1;
            let orig_idx = match self.selected {
                Some(i) => i,
                None => 0,
            };
            let new_idx = if orig_idx <= last_idx && last_idx - orig_idx >= self.page_height {
                orig_idx + self.page_height
            } else {
                last_idx
            };
            self.selected = Some(new_idx);
            if new_idx >= orig_idx {
                let diff = new_idx - orig_idx;
                self.offset = if self.offset <= usize::MAX - diff { self.offset + diff } else { diff - (usize::MAX - self.offset) - 1 };
            } else {
                let diff = orig_idx - new_idx;
                self.offset = if self.offset >= diff { self.offset - diff } else { usize::MAX - (diff - self.offset - 1) };
            }
        }
    }

    /// Selects the first row of a table that has rows.
    pub fn first_item(&mut self)
        ensures
            final(self)@ == old(self)@.item_first(),
    {
        if self.num_entries > 0 {
            self.selected = Some(0);
        }
    }

    /// Selects the last row of a table that has rows.
    pub fn last_item(&mut self)
        ensures
            final(self)@ == old(self)@.item_last(),
    {
        if self.num_entries > 0 {
            self.selected = Some(self.num_entries - 1);
        }
    }

    /// Highlights the column to the right (the last stays highlighted); with
    /// none highlighted, highlights the first of a table that has columns.
    pub fn next_column(&mut self)
        requires
            old(self)@.wf(),
        ensures
            final(self)@.wf(),
            final(self)@ == old(self)@.column_right(),
    {
        match self.column_index {
            Some(c) => {
                let max_index = self.num_columns - 1;
                self.column_index = Some(if c < max_index { c + 1 } else { max_index });
            },
            None => {
                if self.num_columns > 0 {
                    self.column_index = Some(0);
                }
            },
        }
    }

    /// Highlights the column to the left (the first stays highlighted); with
    /// none highlighted, highlights the first of a table that has columns.
    pub fn previous_column(&mut self)
        requires
            old(self)@.wf(),
        ensures
            final(self)@.wf(),
            final(self)@ == old(self)@.column_left(),
    {
        match self.column_index {
            Some(c) => {
                self.column_index = Some(if c >= 1 { c - 1 } else { 0 });
            },
            None => {
                if self.num_columns > 0 {
                    self.column_index = Some(0);
                }
            },
        }
    }

    /// Highlights the first column of a table that has columns.
    pub fn first_column(&mut self)
        requires
            old(self)@.wf(),
        ensures
            final(self)@.wf(),
            final(self)@ == old(self)@.column_first(),
    {
        if self.num_columns > 0 {
            self.column_index = Some(0);
        }
    }

    /// Highlights the last column of a table that has columns.
    pub fn last_column(&mut self)
        requires
            old(self)@.wf(),
        ensures
            final(self)@.wf(),
            final(self)@ == old(self)@.column_last(),
    {
        if self.num_columns > 0 {
            self.column_index = Some(self.num_columns - 1);
        }
    }

    /// Shows the highlighted column in full, or folds it to one letter.
    pub fn toggle_show(&mut self)
        requires
            old(self)@.wf(),
        ensures
            final(self)@.wf(),
            final(self)@ == old(self)@.show_toggled(),
    {
        if let Some(c) = self.column_index {
            let v = self.show[c];
            self.show.set(c, !v);
        }
    }

    /// Sorts by the highlighted column: ascending first, then flipping the
    /// direction while the same column stays chosen.
    pub fn toggle_sort(&mut self)
        ensures
            final(self)@ == old(self)@.sort_toggled(),
    {
        if let Some(c) = self.column_index {
            let next = match self.sort {
                Some(s) => if s.column_index == c {
                    Sort { column_index: c, ascending: !s.ascending }
                } else {
                    Sort { column_index: c, ascending: true }
                },
                None => Sort { column_index: c, ascending: true },
            };
            self.sort = Some(next);
        }
    }
}

/// The selection is on a row of a table that has rows.
pub open spec fn on_a_row(v: XTableView) -> bool {
    v.selected matches Some(i) && i < v.num_entries
}

/// Moving through the rows of a table that has rows keeps the selection
/// on a row: up, down, a page up or down, to the first or the last row.
pub proof fn law_selection_stays_on_rows(v: XTableView)
    requires
        v.num_entries > 0,
        v.selected matches Some(i) ==> i < v.num_entries,
    ensures
        on_a_row(v.item_up()),
        on_a_row(v.item_down()),
        on_a_row(v.page_up()),
        on_a_row(v.page_down()),
        on_a_row(v.item_first()),
        on_a_row(v.item_last()),
{
}

/// Folding or unfolding the highlighted column twice restores the table.
pub proof fn law_toggle_show_twice(v: XTableView)
    requires
        v.wf(),
    ensures
        v.show_toggled().show_toggled() == v,
{
    if let Some(c) = v.column_index {
        assert(v.show_toggled().show_toggled().show =~= v.show);
    }
}

/// Choosing the same sort column twice sorts by it in the other direction.
pub proof fn law_toggle_sort_twice(v: XTableView)
    requires
        v.column_index is Some,
    ensures
        v.sort_toggled().sort_toggled().sort == Some(Sort {
            column_index: v.column_index->0,
            ascending: !v.sort_toggled().sort->0.ascending,
        }),
{
}


/// The header of column `index` titled `title`: a shown column carries its
/// title and, when the table is sorted by it, an arrow up (ascending) or
/// down; a folded column carries the first letter of its title (a space
/// for an empty title).
pub open spec fn header_text(title: Seq<char>, index: usize, show: bool, sort: Option<Sort>) -> Seq<char> {
    if show {
        match sort {
            Some(s) => if s.column_index == index {
                if s.ascending { title.push('\u{2191}') } else { title.push('\u{2193}') }
            } else {
                title
            },
            None => title,
        }
    } else if title.len() > 0 {
        seq![title[0]]
    } else {
        seq![' ']
    }
}

/// The first character of a string.
fn first_char(t: &str) -> (r: Option<char>)
    ensures
        t@.len() > 0 ==> r == Some(t@[0]),
        t@.len() == 0 ==> r is None,
{
    let mut it = t.chars();
    it.next()
}

/// The header of column `index` titled `title`.
pub fn header_label(title: &str, index: usize, show: bool, sort: Option<Sort>) -> (r: String)
    ensures
        r@ == header_text(title@, index, show, sort),
{
    if show {
        let mut h = to_owned_string(title);
        if let Some(s) = sort {
            if s.column_index == index {
                push_char(&mut h, if s.ascending { '\u{2191}' } else { '\u{2193}' });
            }
        }
        h
    } else {
        let c = match first_char(title) {
            Some(c) => c,
            None => ' ',
        };
        let mut h = String::new();
        push_char(&mut h, c);
        assert(h@ =~= seq![c]);
        h
    }
}

/// The headers of a table: one per column that has both a title and a show
/// flag.
pub fn header_labels(titles: &Vec<&str>, show: &Vec<bool>, sort: Option<Sort>) -> (r: Vec<String>)
    ensures
        r@.len() == if titles@.len() <= show@.len() { titles@.len() } else { show@.len() },
        forall|i: int| 0 <= i < r@.len() ==> (#[trigger] r@[i])@ == header_text(titles@[i]@, i as usize, show@[i], sort),
{
    let n = if titles.len() <= show.len() { titles.len() } else { show.len() };
    let mut out: Vec<String> = Vec::new();
    let mut i: usize = 0;
    while i < n
        invariant
            n <= titles@.len(),
            n <= show@.len(),
            i <= n,
            out@.len() == i,
            forall|k: int| 0 <= k < i ==> (#[trigger] out@[k])@ == header_text(titles@[k]@, k as usize, show@[k], sort),
        decreases n - i,
    {
        out.push(header_label(titles[i], i, show[i], sort));
        i = i + 1;
    }
    out
}

/// The cells of a row as drawn: the text of shown columns, nothing for
/// folded ones; one per column that has both a cell and a show flag.
pub fn visible_cells(cells: &Vec<String>, show: &Vec<bool>) -> (r: Vec<String>)
    ensures
        r@.len() == if cells@.len() <= show@.len() { cells@.len() } else { show@.len() },
        forall|i: int| 0 <= i < r@.len() ==> (#[trigger] r@[i])@ == if show@[i] { cells@[i]@ } else { Seq::<char>::empty() },
{
    let n = if cells.len() <= show.len() { cells.len() } else { show.len() };
    let mut out: Vec<String> = Vec::new();
    let mut i: usize = 0;
    while i < n
        invariant
            n <= cells@.len(),
            n <= show@.len(),
            i <= n,
            out@.len() == i,
            forall|k: int| 0 <= k < i ==> (#[trigger] out@[k])@ == if show@[k] { cells@[k]@ } else { Seq::<char>::empty() },
        decreases n - i,
    {
        if show[i] {
            out.push(cells[i].clone());
        } else {
            out.push(String::new());
        }
        i = i + 1;
    }
    out
}

/// The length in bytes of a string's UTF-8 encoding, as `str::len` gives
/// it.
pub open spec fn text_len(t: Seq<char>) -> usize {
    encode_utf8(t).len() as usize
}

/// The widest cell of column `c` among the first `k` rows, and at least
/// `w`.
pub open spec fn widest(rows: Seq<Seq<Seq<char>>>, c: int, k: int, w: usize) -> usize
    decreases k,
{
    if k <= 0 {
        w
    } else {
        let rest = widest(rows, c, k - 1, w);
        let here = text_len(rows[k - 1][c]);
        if here > rest { here } else { rest }
    }
}

/// The content of a table's rows.
pub open spec fn rows_text(rows: Seq<Vec<String>>) -> Seq<Seq<Seq<char>>> {
    rows.map_values(|r: Vec<String>| r@.map_values(|t: String| t@))
}

/// The width of column `c` titled `title`: for a shown column, the widest
/// of its cells and its header (cut to 16 bits); one for a folded column.
pub open spec fn column_width(rows: Seq<Seq<Seq<char>>>, c: int, title: Seq<char>, show: bool) -> u16 {
    if show {
        widest(rows, c, rows.len() as int, text_len(title)) as u16
    } else {
        1
    }
}

/// The widths of the columns of a table, one per header; every row has a
/// cell for every header.
pub fn column_widths(rows: &Vec<Vec<String>>, header: &Vec<String>, show: &Vec<bool>) -> (r: Vec<u16>)
    requires
        header@.len() <= show@.len(),
        forall|k: int| 0 <= k < rows@.len() ==> (#[trigger] rows@[k])@.len() >= header@.len(),
    ensures
        r@.len() == header@.len(),
        forall|c: int| 0 <= c < r@.len() ==> (#[trigger] r@[c]) == column_width(rows_text(rows@), c, header@[c]@, show@[c]),
{
    let ghost text = rows_text(rows@);
    let n = header.len();
    let mut out: Vec<u16> = Vec::new();
    let mut c: usize = 0;
    while c < n
        invariant
            n == header@.len(),
            n <= show@.len(),
            text == rows_text(rows@),
            forall|k: int| 0 <= k < rows@.len() ==> (#[trigger] rows@[k])@.len() >= n,
            c <= n,
            out@.len() == c,
            forall|d: int| 0 <= d < c ==> (#[trigger] out@[d]) == column_width(text, d, header@[d]@, show@[d]),
        decreases n - c,
    {
        if show[c] {
            let mut w: usize = header[c].as_str().len();
            let m = rows.len();
            let mut k: usize = 0;
            while k < m
                invariant
                    m == rows@.len(),
                    n == header@.len(),
                    c < n,
                    text == rows_text(rows@),
                    forall|q: int| 0 <= q < rows@.len() ==> (#[trigger] rows@[q])@.len() >= n,
                    k <= m,
                    w == widest(text, c as int, k as int, text_len(header@[c as int]@)),
                decreases m - k,
            {
                let len = rows[k][c].as_str().len();
                proof {
                    assert(text[k as int][c as int] == rows@[k as int]@[c as int]@);
                }
                if len > w {
                    w = len;
                }
                k = k + 1;
            }
            let cw = #[verifier::truncate] (w as u16);
            out.push(cw);
        } else {
            out.push(1);
        }
        c = c + 1;
    }
    out
}

} // verus!
