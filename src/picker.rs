//! The resume picker's state machine. One key is handled at a time, to
//! completion. Effects on disk are handed back as a [`Command`]; the caller
//! performs them and reports the outcome through the `finish_*` methods.
use crate::index::{insert_pos, SessionEntry};
use crate::picker_rows::{
    build_rows, find_first_entry, find_last_entry, first_entry, last_entry, layout, move_down,
    move_up, selectable, settle, settle_selection, step_down, step_up, steps_down, steps_up, Row,
    free_text, free_text_query, highlight_positions, subseq_match, words,
};
use crate::rollout::opt_view;
use crate::text::string_of;
use vstd::prelude::*;

verus! {

/// The picker's mode; exactly one is active.
#[derive(PartialEq, Eq, Structural, Debug, Clone, Copy)]
pub enum Mode {
    Browsing,
    Filtering,
    Renaming,
    ConfirmDelete,
    ConfirmResume,
}

/// A key press, as the picker sees it.
#[derive(PartialEq, Eq, Structural, Debug, Clone, Copy)]
pub enum Key {
    Up,
    Down,
    PageUp,
    PageDown,
    Home,
    End,
    Enter,
    Esc,
    /// The cancel combination (Ctrl-C); it acts as Esc.
    Cancel,
    Backspace,
    Char(char),
}

/// What the caller does after a key.
pub enum Command {
    /// Nothing beyond redrawing.
    Nothing,
    /// Leave the picker and resume the session at this path.
    Resume(String),
    /// Leave the picker without a selection.
    Cancel,
    /// Append a state record naming the session at `path`, then report
    /// through [`PickerState::finish_rename`].
    AppendName { path: String, name: String },
    /// Move the file at `path` to a free backup path (see [`backup_path`]),
    /// then report through [`PickerState::finish_delete`].
    MoveToBackup { path: String },
    /// Move `backup` back to `original` and read it again, then report
    /// through [`PickerState::finish_undo`].
    Restore { original: String, backup: String },
}

/// A transient message for the operator.
pub enum Hint {
    Restored,
    RenameFailed,
    DeleteFailed,
    UndoFailed,
    PathCopied(String),
    IdCopied(u128),
    ShortIdCopied(u128),
}

/// What the footer under the list shows, in order of precedence.
#[derive(PartialEq, Eq, Structural, Debug, Clone, Copy)]
pub enum Preview {
    /// How to finish a rename.
    RenameHelp,
    /// The transient hint.
    Hint,
    /// How to use the filter.
    FilterHelp,
    /// The pending deletion.
    ConfirmDelete,
    /// The pending resume from another directory.
    ConfirmResume,
    /// Details of the selected entry, by its index.
    Selected(usize),
    /// The key summary.
    Keys,
}

/// Unicode general category Cc, the set that `char::is_control` tests.
pub open spec fn is_control(c: char) -> bool {
    c <= '\u{1F}' || ('\u{7F}' <= c && c <= '\u{9F}')
}

/// Whether `c` is a control character.
pub fn control(c: char) -> (r: bool)
    ensures
        r == is_control(c),
{
    c <= '\u{1F}' || ('\u{7F}' <= c && c <= '\u{9F}')
}

/// The picker's whole state.
pub struct PickerState {
    pub entries: Vec<SessionEntry>,
    pub rows: Vec<Row>,
    pub selected: Option<usize>,
    /// The first row shown.
    pub scroll_top: usize,
    /// How many rows fit on screen.
    pub visible_rows: usize,
    pub mode: Mode,
    pub filter_text: Vec<char>,
    pub rename_text: Vec<char>,
    /// The path awaiting confirmation, in the two confirming modes.
    pub target: Option<String>,
    /// The one deletion that can be undone: (original path, backup path).
    pub last_deleted: Option<(String, String)>,
    pub hint: Option<Hint>,
    pub current_cwd: String,
    pub today: i32,
}

/// The entries of `s` whose path is not `p`, in order.
pub open spec fn without_path(s: Seq<SessionEntry>, p: Seq<char>) -> Seq<SessionEntry>
    decreases s.len(),
{
    if s.len() == 0 {
        s
    } else if s.last().path@ == p {
        without_path(s.drop_last(), p)
    } else {
        without_path(s.drop_last(), p).push(s.last())
    }
}

/// The position of the first entry of `s` at path `p`.
pub open spec fn path_index(s: Seq<SessionEntry>, p: Seq<char>) -> Option<int>
    decreases s.len(),
{
    if s.len() == 0 {
        None
    } else if s[0].path@ == p {
        Some(0)
    } else {
        match path_index(s.drop_first(), p) {
            Some(i) => Some(i + 1),
            None => None,
        }
    }
}

/// `s` after `e` is brought back: it replaces the entry at its path, or
/// takes its place in the newest-first order when there is none.
pub open spec fn restored(s: Seq<SessionEntry>, e: SessionEntry) -> Seq<SessionEntry> {
    match path_index(s, e.path@) {
        Some(i) => s.update(i, e),
        None => s.insert(insert_pos(s, e), e),
    }
}

/// True when `b` is `a` named `name`: its state name and its title are `name`.
pub open spec fn retitled(a: SessionEntry, b: SessionEntry, name: Seq<char>) -> bool {
    b.title@ == name && opt_view(b.name) == Some(name) && b.timestamp == a.timestamp && b.id == a.id && b.when == a.when && b.day == a.day && b.path == a.path
        && b.cwd == a.cwd && b.git == a.git && b.approx_turns == a.approx_turns
        && b.duration_secs == a.duration_secs && b.size_bytes == a.size_bytes
}

/// `path` without the extension of its file name: up to the last `.` that
/// comes after the first character of the name (after the last `/`); the
/// whole path when the name has no such dot.
pub open spec fn without_extension(path: Seq<char>) -> Seq<char> {
    let name_start = match crate::hosts::last_index(path, '/') {
        Some(s) => s + 1,
        None => 0,
    };
    match crate::hosts::last_index(path, '.') {
        Some(d) if d > name_start => path.subrange(0, d),
        _ => path,
    }
}

/// The backup path for `path` on the `n`-th try: the file's extension
/// replaced by `deleted`, and from the second try on a number after it,
/// such as `rollout-a.deleted`, then `rollout-a.deleted.1`.
pub open spec fn backup_text(path: Seq<char>, n: u64) -> Seq<char> {
    let base = without_extension(path) + seq!['.', 'd', 'e', 'l', 'e', 't', 'e', 'd'];
    if n == 0 {
        base
    } else {
        base.push('.') + crate::text::decimal(n as nat)
    }
}

/// The backup path for `path` on try `n`; the caller tries `n = 0, 1, ...`
/// until one names no file.
pub fn backup_path(path: &str, n: u64) -> (r: String)
    ensures
        r@ == backup_text(path@, n),
{
    let cs = crate::text::chars_of(path);
    let total = cs.len();
    let name_start: usize = match crate::hosts::find_last(&cs, '/') {
        Some(s) => {
            proof {
                crate::hosts::lemma_last_index_in(cs@, '/');
            }
            assert(s < total);
            s + 1
        },
        None => 0,
    };
    let mut out = match crate::hosts::find_last(&cs, '.') {
        Some(d) => {
            proof {
                crate::hosts::lemma_last_index_in(cs@, '.');
            }
            if d > name_start {
                crate::text::slice_chars(&cs, 0, d)
            } else {
                crate::text::slice_chars(&cs, 0, cs.len())
            }
        },
        None => crate::text::slice_chars(&cs, 0, cs.len()),
    };
    assert(cs@.subrange(0, cs@.len() as int) =~= cs@);
    assert(out@ == without_extension(path@));
    let suffix: Vec<char> = vec!['.', 'd', 'e', 'l', 'e', 't', 'e', 'd'];
    crate::text::push_all(&mut out, suffix.as_slice());
    if n > 0 {
        out.push('.');
        let d = crate::text::decimal_text(n);
        let dc = crate::text::chars_of(d.as_str());
        crate::text::push_all(&mut out, dc.as_slice());
    }
    string_of(out.as_slice())
}

/// True when resuming `e` from directory `cwd` asks for confirmation: it
/// was recorded in another directory.
pub open spec fn needs_confirm(e: SessionEntry, cwd: Seq<char>) -> bool {
    match opt_view(e.cwd) {
        Some(c) => c != cwd,
        None => false,
    }
}

/// The first entry row whose session was recorded in `cwd`.
pub open spec fn cwd_row(rows: Seq<Row>, entries: Seq<SessionEntry>, cwd: Seq<char>) -> Option<int>
    decreases rows.len(),
{
    if rows.len() == 0 {
        None
    } else if (rows[0] matches Row::Entry(k) && k < entries.len() && opt_view(entries[k as int].cwd)
        == Some(cwd)) {
        Some(0)
    } else {
        match cwd_row(rows.drop_first(), entries, cwd) {
            Some(i) => Some(i + 1),
            None => None,
        }
    }
}

proof fn lemma_first_entry_exists(rows: Seq<Row>, t: int)
    requires
        selectable(rows, t),
    ensures
        first_entry(rows) is Some,
    decreases t,
{
    if t > 0 && !(rows[0] is Entry) {
        assert(rows.drop_first()[t - 1] == rows[t]);
        lemma_first_entry_exists(rows.drop_first(), t - 1);
    }
}

proof fn lemma_cwd_row(rows: Seq<Row>, entries: Seq<SessionEntry>, cwd: Seq<char>)
    ensures
        cwd_row(rows, entries, cwd) matches Some(i) ==> selectable(rows, i),
    decreases rows.len(),
{
    if rows.len() > 0 {
        lemma_cwd_row(rows.drop_first(), entries, cwd);
    }
}

/// The rows one page holds: the visible row count, at least one.
pub open spec fn page_len(visible_rows: usize) -> nat {
    if visible_rows == 0 {
        1
    } else {
        visible_rows as nat
    }
}

/// True of the keys that move the selection.
pub open spec fn is_move(k: Key) -> bool {
    k == Key::Up || k == Key::Down || k == Key::PageUp || k == Key::PageDown || k == Key::Home
        || k == Key::End
}

/// Where a page step from `sel` over `rows` lands: `n` single steps.
pub open spec fn paged(rows: Seq<Row>, sel: Option<usize>, n: nat, down: bool) -> Option<usize> {
    match sel {
        Some(i) => Some(
            (if down {
                steps_down(rows, i as int, n)
            } else {
                steps_up(rows, i as int, n)
            }) as usize,
        ),
        None => None,
    }
}

/// The row at index `j`, when there is one.
pub open spec fn opt_row(j: Option<int>) -> Option<usize> {
    match j {
        Some(j) => Some(j as usize),
        None => None,
    }
}

/// The first row at which the window starts so that `sel` is in view: the
/// window moves only as far as it must.
pub open spec fn scrolled(top: int, sel: int, window: int) -> int {
    if sel < top {
        sel
    } else if sel >= top + window {
        sel + 1 - window
    } else {
        top
    }
}

impl PickerState {
    /// The picker's invariant: the rows are the layout of the entries under
    /// the filter, every entry row names an entry, the selection (when
    /// there is one) is on an entry row, and a path awaits confirmation
    /// exactly in the confirming modes.
    pub open spec fn wf(&self) -> bool {
        &&& self.rows@ == layout(self.entries@, self.filter_text@, self.today)
        &&& forall|j: int|
            0 <= j < self.rows@.len() ==> (#[trigger] self.rows@[j] matches Row::Entry(k) ==> k
                < self.entries@.len())
        &&& (self.selected matches Some(i) ==> selectable(self.rows@, i as int))
        &&& (self.target is Some) == (self.mode == Mode::ConfirmDelete || self.mode
            == Mode::ConfirmResume)
    }

    /// The path of the selected entry.
    pub open spec fn selected_path_view(&self) -> Option<Seq<char>> {
        match self.selected {
            Some(i) => match self.rows@[i as int] {
                Row::Entry(k) => Some(self.entries@[k as int].path@),
                Row::Header(_) => None,
            },
            None => None,
        }
    }

    /// The selected entry.
    pub open spec fn selected_entry(&self) -> Option<SessionEntry> {
        match self.selected {
            Some(i) => match self.rows@[i as int] {
                Row::Entry(k) => Some(self.entries@[k as int]),
                Row::Header(_) => None,
            },
            None => None,
        }
    }

    /// A picker over `entries` (newest first), browsing, with the first entry
    /// recorded in `current_cwd` selected, or else the first entry.
    pub fn new(entries: Vec<SessionEntry>, current_cwd: String, today: i32, visible_rows: usize) -> (r: PickerState)
        ensures
            r.wf(),
            r.mode == Mode::Browsing,
            r.entries@ == entries@,
            r.filter_text@.len() == 0,
            r.last_deleted is None,
            r.visible_rows == visible_rows,
            r.selected == match cwd_row(r.rows@, entries@, current_cwd@) {
                Some(j) => Some(j as usize),
                None => opt_row(first_entry(r.rows@)),
            },
            entries@.len() > 0 ==> r.selected is Some,
    {
        let filter: Vec<char> = Vec::new();
        let rows = build_rows(&entries, &filter, today);
        let ghost ev = entries@;
        let mut selected: Option<usize> = None;
        let mut j: usize = 0;
        assert(rows@.subrange(0, rows@.len() as int) =~= rows@);
        while j < rows.len() && selected.is_none()
            invariant
                j <= rows@.len(),
                entries@ == ev,
                forall|t: int| 0 <= t < rows@.len() ==> (#[trigger] rows@[t] matches Row::Entry(k) ==> k < entries@.len()),
                selected matches Some(x) ==> cwd_row(rows@, ev, current_cwd@) == Some(x as int),
                selected is None ==> cwd_row(rows@, ev, current_cwd@) == match cwd_row(rows@.subrange(j as int, rows@.len() as int), ev, current_cwd@) {
                    Some(k) => Some(k + j),
                    None => None,
                },
            decreases rows@.len() - j + if selected is None { 1int } else { 0int },
        {
            let ghost sub = rows@.subrange(j as int, rows@.len() as int);
            assert(sub.drop_first() =~= rows@.subrange(j + 1, rows@.len() as int));
            if let Row::Entry(k) = rows[j] {
                if let Some(c) = &entries[k].cwd {
                    if *c == current_cwd {
                        selected = Some(j);
                    }
                }
            }
            if selected.is_none() {
                j = j + 1;
            }
        }
        assert(selected is None ==> rows@.subrange(j as int, rows@.len() as int) =~= Seq::<Row>::empty());
        proof {
            crate::picker_rows::lemma_first_entry(rows@);
            lemma_cwd_row(rows@, ev, current_cwd@);
        }
        if selected.is_none() {
            selected = find_first_entry(&rows);
        }
        proof {
            if entries@.len() > 0 {
                assert(crate::text::trim(filter@) =~= Seq::<char>::empty());
                crate::picker_rows::lemma_layout_has_entry(entries@, filter@, today);
                assert(rows@[rows@.len() - 1] is Entry);
                lemma_first_entry_exists(rows@, rows@.len() - 1);
            }
        }
        let mut p = PickerState {
            entries,
            rows,
            selected,
            scroll_top: 0,
            visible_rows,
            mode: Mode::Browsing,
            filter_text: filter,
            rename_text: Vec::new(),
            target: None,
            last_deleted: None,
            hint: None,
            current_cwd,
            today,
        };
        p.ensure_visible();
        p
    }

    /// A picker as [`PickerState::new`] makes it, seen on today's local date.
    pub fn for_today(entries: Vec<SessionEntry>, current_cwd: String, visible_rows: usize) -> (r: PickerState)
        ensures
            r.wf(),
            r.mode == Mode::Browsing,
            r.entries@ == entries@,
            r.filter_text@.len() == 0,
            r.last_deleted is None,
            r.visible_rows == visible_rows,
            entries@.len() > 0 ==> r.selected is Some,
    {
        let today = crate::clock::local_today();
        PickerState::new(entries, current_cwd, today, visible_rows)
    }

    /// Moves the window the least needed to keep the selection in view.
    pub fn ensure_visible(&mut self)
        ensures
            final(self).scroll_top == match old(self).selected {
                Some(i) => scrolled(
                    old(self).scroll_top as int,
                    i as int,
                    if old(self).visible_rows == 0 { 1 } else { old(self).visible_rows as int },
                ) as usize,
                None => old(self).scroll_top,
            },
            final(self).selected == old(self).selected,
            final(self).rows == old(self).rows,
            final(self).entries == old(self).entries,
            final(self).mode == old(self).mode,
            final(self).filter_text == old(self).filter_text,
            final(self).rename_text == old(self).rename_text,
            final(self).target == old(self).target,
            final(self).last_deleted == old(self).last_deleted,
            final(self).today == old(self).today,
            final(self).current_cwd == old(self).current_cwd,
            final(self).visible_rows == old(self).visible_rows,
            final(self).selected matches Some(i) ==> final(self).scroll_top <= i
                && i < final(self).scroll_top + if old(self).visible_rows == 0 { 1 } else { old(self).visible_rows as int },
    {
        let window: usize = if self.visible_rows == 0 {
            1
        } else {
            self.visible_rows
        };
        if let Some(sel) = self.selected {
            if sel < self.scroll_top {
                self.scroll_top = sel;
            } else if sel as u128 >= self.scroll_top as u128 + window as u128 {
                self.scroll_top = sel - window + 1;
            }
        }
    }

    /// Lays the rows out again after the entries or the filter changed, and
    /// settles the selection on them.
    pub fn rebuild(&mut self)
        requires
            (old(self).target is Some) == (old(self).mode == Mode::ConfirmDelete || old(self).mode
                == Mode::ConfirmResume),
        ensures
            final(self).wf(),
            final(self).rows@ == layout(old(self).entries@, old(self).filter_text@, old(self).today),
            final(self).selected matches Some(i) ==> settle(final(self).rows@, old(self).selected)
                == Some(i as int),
            final(self).selected is None ==> settle(final(self).rows@, old(self).selected) is None,
            final(self).entries == old(self).entries,
            final(self).mode == old(self).mode,
            final(self).filter_text == old(self).filter_text,
            final(self).rename_text == old(self).rename_text,
            final(self).target == old(self).target,
            final(self).last_deleted == old(self).last_deleted,
            final(self).today == old(self).today,
            final(self).current_cwd == old(self).current_cwd,
            final(self).visible_rows == old(self).visible_rows,
    {
        self.rows = build_rows(&self.entries, &self.filter_text, self.today);
        self.selected = settle_selection(&self.rows, self.selected);
        self.ensure_visible();
    }

    /// The path of the selected entry.
    pub fn selected_path(&self) -> (r: Option<String>)
        requires
            self.wf(),
        ensures
            opt_view(r) == self.selected_path_view(),
    {
        match self.selected {
            Some(i) => match self.rows[i] {
                Row::Entry(k) => Some(self.entries[k].path.clone()),
                Row::Header(_) => None,
            },
            None => None,
        }
    }

    /// The new row count after the screen was resized; the selection stays.
    pub fn resize(&mut self, visible_rows: usize)
        requires
            old(self).wf(),
        ensures
            final(self).wf(),
            final(self).visible_rows == visible_rows,
            final(self).selected == old(self).selected,
            final(self).scroll_top == match old(self).selected {
                Some(i) => scrolled(
                    old(self).scroll_top as int,
                    i as int,
                    if visible_rows == 0 { 1 } else { visible_rows as int },
                ) as usize,
                None => old(self).scroll_top,
            },
            final(self).selected matches Some(i) ==> final(self).scroll_top <= i
                && i < final(self).scroll_top + if visible_rows == 0 { 1 } else { visible_rows as int },
            final(self).rows == old(self).rows,
            final(self).entries == old(self).entries,
            final(self).mode == old(self).mode,
            final(self).filter_text == old(self).filter_text,
            final(self).rename_text == old(self).rename_text,
            final(self).target == old(self).target,
            final(self).last_deleted == old(self).last_deleted,
    {
        self.visible_rows = visible_rows;
        self.ensure_visible();
    }

    fn step(&mut self, down: bool)
        requires
            old(self).wf(),
        ensures
            final(self).wf(),
            final(self).selected == match old(self).selected {
                Some(i) => Some(
                    (if down {
                        step_down(old(self).rows@, i as int)
                    } else {
                        step_up(old(self).rows@, i as int)
                    }) as usize,
                ),
                None => match (if down {
                    first_entry(old(self).rows@)
                } else {
                    last_entry(old(self).rows@)
                }) {
                    Some(j) => Some(j as usize),
                    None => None,
                },
            },
            final(self).rows == old(self).rows,
            final(self).entries == old(self).entries,
            final(self).mode == old(self).mode,
            final(self).filter_text == old(self).filter_text,
            final(self).rename_text == old(self).rename_text,
            final(self).target == old(self).target,
            final(self).last_deleted == old(self).last_deleted,
            final(self).today == old(self).today,
            final(self).current_cwd == old(self).current_cwd,
            final(self).visible_rows == old(self).visible_rows,
    {
        match self.selected {
            Some(i) => {
                proof {
                    crate::picker_rows::lemma_scan_down(self.rows@, i as int, 1);
                    crate::picker_rows::lemma_scan_up(self.rows@, i as int, 1);
                }
                let j = if down {
                    move_down(&self.rows, i)
                } else {
                    move_up(&self.rows, i)
                };
                self.selected = Some(j);
            },
            None => {
                proof {
                    crate::picker_rows::lemma_first_entry(self.rows@);
                    crate::picker_rows::lemma_last_entry(self.rows@);
                }
                self.selected = if down {
                    find_first_entry(&self.rows)
                } else {
                    find_last_entry(&self.rows)
                };
            },
        }
        self.ensure_visible();
    }

    fn jump(&mut self, to_end: bool)
        requires
            old(self).wf(),
        ensures
            final(self).wf(),
            final(self).selected == match (if to_end {
                last_entry(old(self).rows@)
            } else {
                first_entry(old(self).rows@)
            }) {
                Some(j) => Some(j as usize),
                None => None::<usize>,
            },
            final(self).rows == old(self).rows,
            final(self).entries == old(self).entries,
            final(self).mode == old(self).mode,
            final(self).filter_text == old(self).filter_text,
            final(self).rename_text == old(self).rename_text,
            final(self).target == old(self).target,
            final(self).last_deleted == old(self).last_deleted,
            final(self).today == old(self).today,
            final(self).current_cwd == old(self).current_cwd,
            final(self).visible_rows == old(self).visible_rows,
    {
        proof {
            crate::picker_rows::lemma_first_entry(self.rows@);
            crate::picker_rows::lemma_last_entry(self.rows@);
        }
        self.selected = if to_end {
            find_last_entry(&self.rows)
        } else {
            find_first_entry(&self.rows)
        };
        self.ensure_visible();
    }

    fn page(&mut self, down: bool)
        requires
            old(self).wf(),
        ensures
            final(self).wf(),
            old(self).selected matches Some(i) ==> final(self).selected == Some(
                (if down {
                    steps_down(old(self).rows@, i as int, if old(self).visible_rows == 0 { 1 } else { old(self).visible_rows as nat })
                } else {
                    steps_up(old(self).rows@, i as int, if old(self).visible_rows == 0 { 1 } else { old(self).visible_rows as nat })
                }) as usize,
            ),
            old(self).selected is None ==> final(self).selected is None,
            final(self).rows == old(self).rows,
            final(self).entries == old(self).entries,
            final(self).mode == old(self).mode,
            final(self).filter_text == old(self).filter_text,
            final(self).rename_text == old(self).rename_text,
            final(self).target == old(self).target,
            final(self).last_deleted == old(self).last_deleted,
            final(self).today == old(self).today,
            final(self).current_cwd == old(self).current_cwd,
            final(self).visible_rows == old(self).visible_rows,
    {
        if let Some(i0) = self.selected {
            let n: usize = if self.visible_rows == 0 {
                1
            } else {
                self.visible_rows
            };
            let mut cur: usize = i0;
            let mut t: usize = 0;
            proof {
                crate::picker_rows::lemma_down_steps_stay_selectable(self.rows@, i0 as int, 0);
            }
            while t < n
                invariant
                    t <= n,
                    self.wf(),
                    self.selected == old(self).selected,
                    self.rows == old(self).rows,
                    selectable(self.rows@, cur as int),
                    cur as int == if down {
                        steps_down(self.rows@, i0 as int, t as nat)
                    } else {
                        steps_up(self.rows@, i0 as int, t as nat)
                    },
                decreases n - t,
            {
                proof {
                    crate::picker_rows::lemma_scan_down(self.rows@, cur as int, 1);
                    crate::picker_rows::lemma_scan_up(self.rows@, cur as int, 1);
                }
                cur = if down {
                    move_down(&self.rows, cur)
                } else {
                    move_up(&self.rows, cur)
                };
                t = t + 1;
            }
            self.selected = Some(cur);
            self.ensure_visible();
        }
    }

    fn edit_text(buf: &mut Vec<char>, key: Key)
        ensures
            final(buf)@ == match key {
                Key::Char(c) => if is_control(c) { old(buf)@ } else { old(buf)@.push(c) },
                Key::Backspace => if old(buf)@.len() > 0 { old(buf)@.drop_last() } else { old(buf)@ },
                _ => old(buf)@,
            },
    {
        match key {
            Key::Char(c) => {
                if !control(c) {
                    buf.push(c);
                }
            },
            Key::Backspace => {
                if buf.len() > 0 {
                    let _ = buf.pop();
                }
            },
            _ => {},
        }
    }

    /// Handles one key press to completion.
    pub fn handle_key(&mut self, key: Key) -> (cmd: Command)
        requires
            old(self).wf(),
        ensures
            final(self).wf(),
            final(self).entries == old(self).entries,
            final(self).today == old(self).today,
            final(self).current_cwd == old(self).current_cwd,
            // Filtering: typing edits the filter; Enter keeps it; Esc clears it.
            old(self).mode == Mode::Filtering && (key is Char || key is Backspace) ==> final(self).mode
                == Mode::Filtering && final(self).filter_text@ == match key {
                Key::Char(c) => if is_control(c) { old(self).filter_text@ } else { old(self).filter_text@.push(c) },
                _ => if old(self).filter_text@.len() > 0 { old(self).filter_text@.drop_last() } else { old(self).filter_text@ },
            },
            old(self).mode == Mode::Filtering && key == Key::Enter ==> final(self).mode == Mode::Browsing
                && final(self).filter_text == old(self).filter_text && cmd is Nothing,
            old(self).mode == Mode::Filtering && (key == Key::Esc || key == Key::Cancel) ==> final(self).mode
                == Mode::Browsing && final(self).filter_text@.len() == 0 && cmd is Nothing,
            // Renaming: typing edits the buffer; Enter commits a non-empty name; Esc discards it.
            old(self).mode == Mode::Renaming && (key is Char || key is Backspace) ==> final(self).mode
                == Mode::Renaming && final(self).rename_text@ == match key {
                Key::Char(c) => if is_control(c) { old(self).rename_text@ } else { old(self).rename_text@.push(c) },
                _ => if old(self).rename_text@.len() > 0 { old(self).rename_text@.drop_last() } else { old(self).rename_text@ },
            },
            old(self).mode == Mode::Renaming && key == Key::Enter ==> final(self).mode == Mode::Browsing
                && final(self).rename_text@.len() == 0 && ((cmd is AppendName) == (old(
                self,
            ).rename_text@.len() > 0 && old(self).selected_path_view() is Some)) && (!(cmd is AppendName)
                ==> cmd is Nothing),
            old(self).mode == Mode::Renaming && key == Key::Enter && cmd is AppendName ==> (cmd matches Command::AppendName { path, name } && old(self).selected_path_view()
                == Some(path@) && name@ == old(self).rename_text@),
            old(self).mode == Mode::Renaming && (key == Key::Esc || key == Key::Cancel) ==> final(self).mode
                == Mode::Browsing && final(self).rename_text@.len() == 0 && cmd is Nothing,
            // Movement is disabled while typing.
            (old(self).mode == Mode::Filtering || old(self).mode == Mode::Renaming) && !(key is Char
                || key is Backspace || key == Key::Enter || key == Key::Esc || key == Key::Cancel)
                ==> final(self).selected == old(self).selected && cmd is Nothing,
            // Browsing: '/' starts a filter, 'r' a rename, 'd' a delete, 'u' undoes.
            old(self).mode == Mode::Browsing && key == Key::Char('/') ==> final(self).mode == Mode::Filtering
                && final(self).filter_text@.len() == 0 && cmd is Nothing,
            old(self).mode == Mode::Browsing && key == Key::Char('r') ==> final(self).mode == Mode::Renaming
                && final(self).rename_text@.len() == 0 && cmd is Nothing,
            old(self).mode == Mode::Browsing && key == Key::Char('d') ==> cmd is Nothing && (match old(
                self,
            ).selected_path_view() {
                Some(p) => final(self).mode == Mode::ConfirmDelete && opt_view(final(self).target) == Some(p),
                None => final(self).mode == Mode::Browsing,
            }),
            old(self).mode == Mode::Browsing && key == Key::Char('u') ==> final(self).last_deleted is None
                && final(self).mode == Mode::Browsing && (match old(self).last_deleted {
                Some((o, b)) => (cmd matches Command::Restore { original, backup } && original@ == o@ && backup@ == b@),
                None => cmd is Nothing,
            }),
            old(self).mode == Mode::Browsing && (key == Key::Esc || key == Key::Cancel) ==> cmd is Cancel,
            // Confirming a delete.
            old(self).mode == Mode::ConfirmDelete && key == Key::Enter ==> final(self).mode == Mode::Browsing
                && (cmd matches Command::MoveToBackup { path } && opt_view(old(self).target) == Some(path@)),
            (old(self).mode == Mode::ConfirmDelete || old(self).mode == Mode::ConfirmResume) && (key
                == Key::Esc || key == Key::Cancel) ==> final(self).mode == Mode::Browsing && final(self).target is None
                && cmd is Nothing,
            // Resuming: a session recorded in another directory asks once more.
            (old(self).mode == Mode::Browsing || old(self).mode == Mode::ConfirmResume) && key == Key::Enter
                ==> match old(self).selected_entry() {
                Some(e) => if (old(self).mode == Mode::ConfirmResume && opt_view(old(self).target) == Some(e.path@))
                    || !needs_confirm(e, old(self).current_cwd@) {
                    cmd matches Command::Resume(p) && p@ == e.path@
                } else {
                    cmd is Nothing && final(self).mode == Mode::ConfirmResume && opt_view(final(self).target)
                        == Some(e.path@)
                },
                None => cmd is Nothing,
            },
            // Single steps, in every mode that allows movement.
            !(old(self).mode == Mode::Filtering || old(self).mode == Mode::Renaming) && (key == Key::Down
                || key == Key::Up) ==> cmd is Nothing && final(self).mode == old(self).mode && final(self).selected
                == match old(self).selected {
                Some(i) => Some(
                    (if key == Key::Down {
                        step_down(old(self).rows@, i as int)
                    } else {
                        step_up(old(self).rows@, i as int)
                    }) as usize,
                ),
                None => match (if key == Key::Down {
                    first_entry(old(self).rows@)
                } else {
                    last_entry(old(self).rows@)
                }) {
                    Some(j) => Some(j as usize),
                    None => None,
                },
            },
            // Typing edits only its buffer and asks for nothing.
            (old(self).mode == Mode::Filtering || old(self).mode == Mode::Renaming) && (key is Char
                || key is Backspace) ==> cmd is Nothing && final(self).target == old(self).target
                && final(self).last_deleted == old(self).last_deleted,
            old(self).mode == Mode::Renaming && (key is Char || key is Backspace) ==> final(self).selected
                == old(self).selected && final(self).rows == old(self).rows && final(self).filter_text
                == old(self).filter_text,
            old(self).mode == Mode::Filtering && (key is Char || key is Backspace) ==> final(self).rename_text
                == old(self).rename_text,
            // Movement keys while typing change nothing.
            (old(self).mode == Mode::Filtering || old(self).mode == Mode::Renaming) && is_move(key)
                ==> cmd is Nothing && final(self).mode == old(self).mode && final(self).selected
                == old(self).selected && final(self).rows == old(self).rows && final(self).filter_text
                == old(self).filter_text && final(self).rename_text == old(self).rename_text
                && final(self).target == old(self).target && final(self).last_deleted == old(self).last_deleted,
            // Starting a rename, confirming a rename and Enter on a session keep the selection.
            old(self).mode == Mode::Browsing && key == Key::Char('r') ==> final(self).selected
                == old(self).selected && final(self).rows == old(self).rows && final(self).filter_text
                == old(self).filter_text,
            old(self).mode == Mode::Renaming && key == Key::Enter ==> final(self).selected == old(self).selected
                && final(self).rows == old(self).rows,
            (old(self).mode == Mode::Browsing || old(self).mode == Mode::ConfirmResume) && key == Key::Enter
                ==> final(self).selected == old(self).selected && final(self).rows == old(self).rows
                && final(self).filter_text == old(self).filter_text && final(self).last_deleted
                == old(self).last_deleted,
            (old(self).mode == Mode::ConfirmDelete || old(self).mode == Mode::ConfirmResume) && (key
                == Key::Esc || key == Key::Cancel) ==> final(self).selected == old(self).selected
                && final(self).rows == old(self).rows && final(self).entries == old(self).entries,
            // Pages and jumps, in every mode that allows movement.
            !(old(self).mode == Mode::Filtering || old(self).mode == Mode::Renaming) && is_move(key) ==> cmd is Nothing
                && final(self).mode == old(self).mode && final(self).rows == old(self).rows
                && final(self).target == old(self).target && final(self).last_deleted == old(self).last_deleted,
            !(old(self).mode == Mode::Filtering || old(self).mode == Mode::Renaming) && key == Key::PageDown
                ==> final(self).selected == paged(old(self).rows@, old(self).selected, page_len(old(self).visible_rows), true),
            !(old(self).mode == Mode::Filtering || old(self).mode == Mode::Renaming) && key == Key::PageUp
                ==> final(self).selected == paged(old(self).rows@, old(self).selected, page_len(old(self).visible_rows), false),
            !(old(self).mode == Mode::Filtering || old(self).mode == Mode::Renaming) && key == Key::Home
                ==> final(self).selected == opt_row(first_entry(old(self).rows@)),
            !(old(self).mode == Mode::Filtering || old(self).mode == Mode::Renaming) && key == Key::End
                ==> final(self).selected == opt_row(last_entry(old(self).rows@)),
    {
        self.hint = None;
        match self.mode {
            Mode::Filtering => match key {
                Key::Char(_) | Key::Backspace => {
                    PickerState::edit_text(&mut self.filter_text, key);
                    self.rebuild();
                    Command::Nothing
                },
                Key::Enter => {
                    self.mode = Mode::Browsing;
                    Command::Nothing
                },
                Key::Esc | Key::Cancel => {
                    self.mode = Mode::Browsing;
                    self.filter_text = Vec::new();
                    self.rebuild();
                    Command::Nothing
                },
                _ => Command::Nothing,
            },
            Mode::Renaming => match key {
                Key::Char(_) | Key::Backspace => {
                    PickerState::edit_text(&mut self.rename_text, key);
                    Command::Nothing
                },
                Key::Enter => {
                    self.mode = Mode::Browsing;
                    let mut name: Vec<char> = Vec::new();
                    core::mem::swap(&mut name, &mut self.rename_text);
                    if name.len() > 0 {
                        match self.selected_path() {
                            Some(p) => Command::AppendName { path: p, name: string_of(name.as_slice()) },
                            None => Command::Nothing,
                        }
                    } else {
                        Command::Nothing
                    }
                },
                Key::Esc | Key::Cancel => {
                    self.mode = Mode::Browsing;
                    self.rename_text = Vec::new();
                    Command::Nothing
                },
                _ => Command::Nothing,
            },
            Mode::ConfirmDelete => match key {
                Key::Enter => {
                    let t = self.target.take();
                    self.mode = Mode::Browsing;
                    match t {
                        Some(p) => Command::MoveToBackup { path: p },
                        None => Command::Nothing,
                    }
                },
                Key::Esc | Key::Cancel => {
                    self.target = None;
                    self.mode = Mode::Browsing;
                    Command::Nothing
                },
                _ => self.handle_move(key),
            },
            Mode::ConfirmResume => match key {
                Key::Enter => self.enter_resume(),
                Key::Esc | Key::Cancel => {
                    self.target = None;
                    self.mode = Mode::Browsing;
                    Command::Nothing
                },
                _ => self.handle_move(key),
            },
            Mode::Browsing => match key {
                Key::Enter => self.enter_resume(),
                Key::Esc | Key::Cancel => Command::Cancel,
                Key::Char(c) => self.browse_char(c),
                _ => self.handle_move(key),
            },
        }
    }

    fn handle_move(&mut self, key: Key) -> (cmd: Command)
        requires
            old(self).wf(),
        ensures
            final(self).wf(),
            cmd is Nothing,
            final(self).entries == old(self).entries,
            final(self).mode == old(self).mode,
            final(self).target == old(self).target,
            final(self).filter_text == old(self).filter_text,
            final(self).rename_text == old(self).rename_text,
            final(self).last_deleted == old(self).last_deleted,
            final(self).today == old(self).today,
            final(self).current_cwd == old(self).current_cwd,
            final(self).rows == old(self).rows,
            key == Key::PageDown ==> final(self).selected == paged(old(self).rows@, old(self).selected, page_len(old(self).visible_rows), true),
            key == Key::PageUp ==> final(self).selected == paged(old(self).rows@, old(self).selected, page_len(old(self).visible_rows), false),
            key == Key::Home ==> final(self).selected == opt_row(first_entry(old(self).rows@)),
            key == Key::End ==> final(self).selected == opt_row(last_entry(old(self).rows@)),
            !is_move(key) ==> final(self).selected == old(self).selected,
            key == Key::Down || key == Key::Up ==> final(self).selected == match old(self).selected {
                Some(i) => Some(
                    (if key == Key::Down {
                        step_down(old(self).rows@, i as int)
                    } else {
                        step_up(old(self).rows@, i as int)
                    }) as usize,
                ),
                None => match (if key == Key::Down {
                    first_entry(old(self).rows@)
                } else {
                    last_entry(old(self).rows@)
                }) {
                    Some(j) => Some(j as usize),
                    None => None,
                },
            },
    {
        match key {
            Key::Down => self.step(true),
            Key::Up => self.step(false),
            Key::PageDown => self.page(true),
            Key::PageUp => self.page(false),
            Key::Home => self.jump(false),
            Key::End => self.jump(true),
            _ => {},
        }
        Command::Nothing
    }

    fn browse_char(&mut self, c: char) -> (cmd: Command)
        requires
            old(self).wf(),
            old(self).mode == Mode::Browsing,
        ensures
            final(self).wf(),
            final(self).entries == old(self).entries,
            final(self).today == old(self).today,
            final(self).current_cwd == old(self).current_cwd,
            c == '/' ==> final(self).mode == Mode::Filtering && final(self).filter_text@.len() == 0 && cmd is Nothing,
            c == 'r' ==> final(self).mode == Mode::Renaming && final(self).rename_text@.len() == 0 && cmd is Nothing,
            c != '/' ==> final(self).selected == old(self).selected && final(self).rows == old(self).rows
                && final(self).filter_text == old(self).filter_text,
            c != 'u' ==> final(self).last_deleted == old(self).last_deleted,
            c == 'd' ==> cmd is Nothing && (match old(self).selected_path_view() {
                Some(p) => final(self).mode == Mode::ConfirmDelete && opt_view(final(self).target) == Some(p),
                None => final(self).mode == Mode::Browsing,
            }),
            c == 'u' ==> final(self).last_deleted is None && final(self).mode == Mode::Browsing && (match old(self).last_deleted {
                Some((o, b)) => (cmd matches Command::Restore { original, backup } && original@ == o@ && backup@ == b@),
                None => cmd is Nothing,
            }),
            !(c == '/' || c == 'r' || c == 'd' || c == 'u') ==> final(self).mode == Mode::Browsing && cmd is Nothing,
    {
        if c == '/' {
            self.mode = Mode::Filtering;
            self.filter_text = Vec::new();
            self.rebuild();
            Command::Nothing
        } else if c == 'r' {
            self.mode = Mode::Renaming;
            self.rename_text = Vec::new();
            Command::Nothing
        } else if c == 'd' {
            if let Some(p) = self.selected_path() {
                self.target = Some(p);
                self.mode = Mode::ConfirmDelete;
            }
            Command::Nothing
        } else if c == 'u' {
            match self.last_deleted.take() {
                Some((o, b)) => Command::Restore { original: o, backup: b },
                None => Command::Nothing,
            }
        } else if c == 'y' {
            if let Some(p) = self.selected_path() {
                self.hint = Some(Hint::PathCopied(p));
            }
            Command::Nothing
        } else if c == 'i' {
            if let Some(i) = self.selected {
                if let Row::Entry(k) = self.rows[i] {
                    self.hint = Some(Hint::ShortIdCopied(self.entries[k].id));
                }
            }
            Command::Nothing
        } else if c == 'c' {
            if let Some(i) = self.selected {
                if let Row::Entry(k) = self.rows[i] {
                    self.hint = Some(Hint::IdCopied(self.entries[k].id));
                }
            }
            Command::Nothing
        } else {
            Command::Nothing
        }
    }

    fn enter_resume(&mut self) -> (cmd: Command)
        requires
            old(self).wf(),
            old(self).mode == Mode::Browsing || old(self).mode == Mode::ConfirmResume,
        ensures
            final(self).wf(),
            final(self).entries == old(self).entries,
            final(self).selected == old(self).selected,
            final(self).rows == old(self).rows,
            final(self).filter_text == old(self).filter_text,
            final(self).rename_text == old(self).rename_text,
            final(self).last_deleted == old(self).last_deleted,
            final(self).today == old(self).today,
            final(self).current_cwd == old(self).current_cwd,
            match old(self).selected_entry() {
                Some(e) => if (old(self).mode == Mode::ConfirmResume && opt_view(old(self).target) == Some(e.path@))
                    || !needs_confirm(e, old(self).current_cwd@) {
                    cmd matches Command::Resume(p) && p@ == e.path@
                } else {
                    cmd is Nothing && final(self).mode == Mode::ConfirmResume && opt_view(final(self).target)
                        == Some(e.path@)
                },
                None => cmd is Nothing,
            },
    {
        let i = match self.selected {
            Some(i) => i,
            None => return Command::Nothing,
        };
        let k = match self.rows[i] {
            Row::Entry(k) => k,
            Row::Header(_) => return Command::Nothing,
        };
        let p = self.entries[k].path.clone();
        let pending = match (&self.mode, &self.target) {
            (Mode::ConfirmResume, Some(t)) => *t == p,
            _ => false,
        };
        let differs = match &self.entries[k].cwd {
            Some(c) => !(*c == self.current_cwd),
            None => false,
        };
        if pending || !differs {
            Command::Resume(p)
        } else {
            self.target = Some(p);
            self.mode = Mode::ConfirmResume;
            Command::Nothing
        }
    }

    /// Reports how appending a name went. On success every entry at `path`
    /// takes `name` as its title and the rows are laid out again; on failure
    /// nothing changes but the hint.
    pub fn finish_rename(&mut self, path: &str, name: &str, ok: bool)
        requires
            old(self).wf(),
        ensures
            final(self).wf(),
            final(self).mode == old(self).mode,
            final(self).last_deleted == old(self).last_deleted,
            ok ==> final(self).entries@.len() == old(self).entries@.len() && forall|i: int|
                0 <= i < old(self).entries@.len() ==> if old(self).entries@[i].path@ == path@ {
                    retitled(old(self).entries@[i], #[trigger] final(self).entries@[i], name@)
                } else {
                    final(self).entries@[i] == old(self).entries@[i]
                },
            !ok ==> final(self).entries == old(self).entries && final(self).hint matches Some(Hint::RenameFailed),
    {
        if !ok {
            self.hint = Some(Hint::RenameFailed);
            return;
        }
        let p = String::from_str(path);
        let ghost before = self.entries@;
        let mut i: usize = 0;
        while i < self.entries.len()
            invariant
                i <= self.entries@.len(),
                self.entries@.len() == before.len(),
                p@ == path@,
                forall|j: int|
                    0 <= j < before.len() ==> if j < i && before[j].path@ == path@ {
                        retitled(before[j], #[trigger] self.entries@[j], name@)
                    } else {
                        self.entries@[j] == before[j]
                    },
                (self.target is Some) == (self.mode == Mode::ConfirmDelete || self.mode == Mode::ConfirmResume),
                self.mode == old(self).mode,
                self.last_deleted == old(self).last_deleted,
            decreases before.len() - i,
        {
            if self.entries[i].path == p {
                let mut e = self.entries.remove(i);
                e.title = String::from_str(name);
                e.name = Some(String::from_str(name));
                self.entries.insert(i, e);
            }
            i = i + 1;
        }
        self.rebuild();
    }

    /// Reports how moving a session file to its backup went. On success the
    /// entries at `path` leave the list and the deletion becomes the one that
    /// can be undone, replacing any earlier one; on failure nothing changes
    /// but the hint.
    pub fn finish_delete(&mut self, path: String, backup: String, ok: bool)
        requires
            old(self).wf(),
        ensures
            final(self).wf(),
            final(self).mode == old(self).mode,
            ok ==> final(self).entries@ == without_path(old(self).entries@, path@) && (final(self).last_deleted matches Some((o, b)) && o@ == path@ && b@ == backup@),
            !ok ==> final(self).entries == old(self).entries && final(self).last_deleted == old(self).last_deleted
                && final(self).hint matches Some(Hint::DeleteFailed),
    {
        if !ok {
            self.hint = Some(Hint::DeleteFailed);
            return;
        }
        let ghost before = self.entries@;
        let mut rest: Vec<SessionEntry> = Vec::new();
        core::mem::swap(&mut rest, &mut self.entries);
        let mut kept: Vec<SessionEntry> = Vec::new();
        let ghost mut i: int = 0;
        assert(before.subrange(0, 0) =~= Seq::<SessionEntry>::empty());
        assert(before.subrange(0, before.len() as int) =~= before);
        while rest.len() > 0
            invariant
                0 <= i <= before.len(),
                rest@ == before.subrange(i, before.len() as int),
                kept@ == without_path(before.subrange(0, i), path@),
            decreases rest@.len(),
        {
            let e = rest.remove(0);
            proof {
                assert(before.subrange(0, i + 1).drop_last() =~= before.subrange(0, i));
                assert(before.subrange(0, i + 1).last() == e);
                i = i + 1;
                assert(rest@ =~= before.subrange(i, before.len() as int));
            }
            if !(e.path == path) {
                kept.push(e);
            }
        }
        assert(before.subrange(0, i) =~= before);
        self.entries = kept;
        self.last_deleted = Some((path, backup));
        self.rebuild();
    }

    /// Reports how an undo went: `restored` is the session read back from its
    /// original path, if that worked. It replaces the entry at its path, or
    /// takes its place in the newest-first order.
    pub fn finish_undo(&mut self, restored_entry: Option<SessionEntry>)
        requires
            old(self).wf(),
        ensures
            final(self).wf(),
            final(self).mode == old(self).mode,
            final(self).last_deleted == old(self).last_deleted,
            match restored_entry {
                Some(e) => final(self).entries@ == restored(old(self).entries@, e)
                    && final(self).hint matches Some(Hint::Restored),
                None => final(self).entries == old(self).entries && final(self).hint matches Some(Hint::UndoFailed),
            },
    {
        let e = match restored_entry {
            Some(e) => e,
            None => {
                self.hint = Some(Hint::UndoFailed);
                return;
            },
        };
        let ghost s = self.entries@;
        let mut i: usize = 0;
        let mut found = false;
        assert(s.subrange(0, s.len() as int) =~= s);
        while i < self.entries.len() && !found
            invariant
                i <= s.len(),
                self.entries@ == s,
                found ==> i < s.len() && path_index(s, e.path@) == Some(i as int),
                !found ==> path_index(s, e.path@) == match path_index(s.subrange(i as int, s.len() as int), e.path@) {
                    Some(k) => Some(k + i),
                    None => None,
                },
            decreases s.len() - i + if found { 0int } else { 1int },
        {
            if self.entries[i].path == e.path {
                found = true;
            } else {
                assert(s.subrange(i as int, s.len() as int).drop_first() =~= s.subrange(i + 1, s.len() as int));
                i = i + 1;
            }
        }
        if found {
            let _ = self.entries.remove(i);
            self.entries.insert(i, e);
            assert(self.entries@ =~= s.update(i as int, e));
        } else {
            let mut j: usize = 0;
            assert(s.subrange(0, s.len() as int) =~= s);
            while j < self.entries.len() && !crate::clock::is_later(e.when, self.entries[j].when)
                invariant
                    j <= s.len(),
                    self.entries@ == s,
                    insert_pos(s, e) == j + insert_pos(s.subrange(j as int, s.len() as int), e),
                decreases s.len() - j,
            {
                assert(s.subrange(j as int, s.len() as int).drop_first() =~= s.subrange(j + 1, s.len() as int));
                j = j + 1;
            }
            self.entries.insert(j, e);
        }
        self.rebuild();
        self.hint = Some(Hint::Restored);
    }

    /// What the footer shows.
    pub open spec fn preview_of(&self) -> Preview {
        if self.mode == Mode::Renaming {
            Preview::RenameHelp
        } else if self.hint is Some {
            Preview::Hint
        } else if self.mode == Mode::Filtering {
            Preview::FilterHelp
        } else if self.mode == Mode::ConfirmDelete {
            Preview::ConfirmDelete
        } else if self.mode == Mode::ConfirmResume {
            Preview::ConfirmResume
        } else {
            match self.selected {
                Some(i) => match self.rows@[i as int] {
                    Row::Entry(k) => Preview::Selected(k),
                    Row::Header(_) => Preview::Keys,
                },
                None => Preview::Keys,
            }
        }
    }

    /// What the footer shows.
    pub fn preview(&self) -> (r: Preview)
        requires
            self.wf(),
        ensures
            r == self.preview_of(),
    {
        if self.mode == Mode::Renaming {
            Preview::RenameHelp
        } else if self.hint.is_some() {
            Preview::Hint
        } else if self.mode == Mode::Filtering {
            Preview::FilterHelp
        } else if self.mode == Mode::ConfirmDelete {
            Preview::ConfirmDelete
        } else if self.mode == Mode::ConfirmResume {
            Preview::ConfirmResume
        } else {
            match self.selected {
                Some(i) => match self.rows[i] {
                    Row::Entry(k) => Preview::Selected(k),
                    Row::Header(_) => Preview::Keys,
                },
                None => Preview::Keys,
            }
        }
    }

    /// The positions of the title in row `row` that match the free-text
    /// part of the filter; nothing for a header, an empty query or a miss.
    /// This only marks text: it never decides which entries are shown.
    pub fn highlight(&self, row: usize) -> (r: Option<Vec<usize>>)
        requires
            self.wf(),
            row < self.rows@.len(),
        ensures
            match self.rows@[row as int] {
                Row::Entry(k) => {
                    let q = free_text(words(self.filter_text@));
                    if q.len() == 0 {
                        r is None
                    } else {
                        match subseq_match(self.entries@[k as int].title@, q, 0) {
                            Some(m) => r matches Some(v) && v@ == m,
                            None => r is None,
                        }
                    }
                },
                Row::Header(_) => r is None,
            },
    {
        match self.rows[row] {
            Row::Entry(k) => {
                let q = free_text_query(&self.filter_text);
                if q.len() == 0 {
                    None
                } else {
                    let t = crate::text::chars_of(self.entries[k].title.as_str());
                    highlight_positions(&t, &q)
                }
            },
            Row::Header(_) => None,
        }
    }
}

proof fn lemma_without_path(s: Seq<SessionEntry>, p: Seq<char>)
    ensures
        forall|k: int|
            0 <= k < without_path(s, p).len() ==> (#[trigger] without_path(s, p)[k]).path@ != p
                && s.contains(without_path(s, p)[k]),
        forall|k: int| 0 <= k < s.len() && (#[trigger] s[k]).path@ != p ==> without_path(s, p).contains(s[k]),
    decreases s.len(),
{
    if s.len() > 0 {
        let d = s.drop_last();
        lemma_without_path(d, p);
        let w = without_path(s, p);
        let wd = without_path(d, p);
        assert forall|k: int| 0 <= k < w.len() implies (#[trigger] w[k]).path@ != p && s.contains(w[k]) by {
            if k < wd.len() {
                assert(w[k] == wd[k]);
                let m = choose|m: int| 0 <= m < d.len() && d[m] == wd[k];
                assert(s[m] == d[m]);
            } else {
                assert(w[k] == s[s.len() - 1]);
            }
        }
        assert forall|k: int| 0 <= k < s.len() && (#[trigger] s[k]).path@ != p implies w.contains(s[k]) by {
            if k < s.len() - 1 {
                assert(d[k] == s[k]);
                let m = choose|m: int| 0 <= m < wd.len() && wd[m] == d[k];
                assert(w[m] == wd[m]);
            } else {
                assert(w[w.len() - 1] == s[k]);
            }
        }
    }
}

proof fn lemma_no_path_index(s: Seq<SessionEntry>, p: Seq<char>)
    requires
        forall|k: int| 0 <= k < s.len() ==> (#[trigger] s[k]).path@ != p,
    ensures
        path_index(s, p) is None,
    decreases s.len(),
{
    if s.len() > 0 {
        let t = s.drop_first();
        assert forall|k: int| 0 <= k < t.len() implies (#[trigger] t[k]).path@ != p by {
            assert(t[k] == s[k + 1]);
        }
        lemma_no_path_index(t, p);
    }
}

/// Deleting a session and undoing it round-trips: once the entries at its
/// path are removed and the entry read back is restored, the list holds that
/// entry again, keeps every other entry it held, and holds nothing else.
pub proof fn lemma_delete_undo_round_trip(s: Seq<SessionEntry>, e: SessionEntry)
    ensures
        restored(without_path(s, e.path@), e).contains(e),
        forall|k: int|
            0 <= k < s.len() && (#[trigger] s[k]).path@ != e.path@ ==> restored(
                without_path(s, e.path@),
                e,
            ).contains(s[k]),
        forall|k: int|
            0 <= k < restored(without_path(s, e.path@), e).len() ==> #[trigger] restored(
                without_path(s, e.path@),
                e,
            )[k] == e || s.contains(restored(without_path(s, e.path@), e)[k]),
{
    let p = e.path@;
    let w = without_path(s, p);
    lemma_without_path(s, p);
    lemma_no_path_index(w, p);
    crate::index::lemma_insert_pos_bounds(w, e);
    let pos = insert_pos(w, e);
    let r = w.insert(pos, e);
    assert(restored(w, e) == r);
    assert(r[pos] == e);
    assert forall|k: int| 0 <= k < s.len() && (#[trigger] s[k]).path@ != p implies r.contains(s[k]) by {
        let m = choose|m: int| 0 <= m < w.len() && w[m] == s[k];
        if m < pos {
            assert(r[m] == w[m]);
        } else {
            assert(r[m + 1] == w[m]);
        }
    }
    assert forall|k: int| 0 <= k < r.len() implies #[trigger] r[k] == e || s.contains(r[k]) by {
        if k < pos {
            assert(r[k] == w[k]);
        } else if k > pos {
            assert(r[k] == w[k - 1]);
        }
    }
}

} // verus!
