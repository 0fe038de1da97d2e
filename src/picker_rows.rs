//! The rows of the resume picker: which entries the filter keeps, the day
//! headers between them, and movement of the selection over the rows.
use crate::clock::format_day;
use crate::hosts::{parse_url_host, url_host};
use crate::index::SessionEntry;
use crate::rollout::{git_view, opt_view};
use crate::text::{chars_of, contains, contains_chars, lower_of, occurs_at, push_all, to_lower, trim};
use vstd::prelude::*;

verus! {

/// The label of a day header.
#[derive(PartialEq, Eq, Structural, Debug, Clone, Copy)]
pub enum DayLabel {
    Today,
    Yesterday,
    /// Another day, by its number (see [`crate::clock`]).
    Date(i32),
}

/// One row of the picker: a day header, which cannot be selected, or the
/// entry at an index of the picker's entry list.
#[derive(PartialEq, Eq, Structural, Debug, Clone, Copy)]
pub enum Row {
    Header(DayLabel),
    Entry(usize),
}

pub open spec fn label_of(day: i32, today: i32) -> DayLabel {
    if day == today {
        DayLabel::Today
    } else if day == today - 1 {
        DayLabel::Yesterday
    } else {
        DayLabel::Date(day)
    }
}

/// The label of the header for `day`, seen on day `today`.
pub fn day_label(day: i32, today: i32) -> (r: DayLabel)
    ensures
        r == label_of(day, today),
{
    if day == today {
        DayLabel::Today
    } else if day as i64 == today as i64 - 1 {
        DayLabel::Yesterday
    } else {
        DayLabel::Date(day)
    }
}

pub open spec fn today_text() -> Seq<char> {
    seq!['T', 'o', 'd', 'a', 'y']
}

pub open spec fn yesterday_text() -> Seq<char> {
    seq!['Y', 'e', 's', 't', 'e', 'r', 'd', 'a', 'y']
}

/// The text of a header: "Today", "Yesterday", or the date as chrono writes it.
pub open spec fn label_text(l: DayLabel) -> Seq<char> {
    match l {
        DayLabel::Today => today_text(),
        DayLabel::Yesterday => yesterday_text(),
        DayLabel::Date(d) => match crate::clock::date_text(d) {
            Some(t) => t,
            None => Seq::empty(),
        },
    }
}

/// The text of the header for `day`, seen on day `today`.
pub fn day_header(day: i32, today: i32) -> (r: String)
    ensures
        r@ == label_text(label_of(day, today)),
{
    day_label_text(day_label(day, today))
}

/// The text of a header label.
pub fn day_label_text(l: DayLabel) -> (r: String)
    ensures
        r@ == label_text(l),
{
    match l {
        DayLabel::Today => crate::text::string_of(vec!['T', 'o', 'd', 'a', 'y'].as_slice()),
        DayLabel::Yesterday => crate::text::string_of(
            vec!['Y', 'e', 's', 't', 'e', 'r', 'd', 'a', 'y'].as_slice(),
        ),
        DayLabel::Date(d) => match format_day(d) {
            Some(t) => t,
            None => String::new(),
        },
    }
}

/// The lowercased branch of an entry, or nothing.
pub open spec fn branch_lower(e: SessionEntry) -> Seq<char> {
    match git_view(e.git) {
        Some(g) => match g.branch {
            Some(b) => lower_of(b),
            None => Seq::empty(),
        },
        None => Seq::empty(),
    }
}

/// The lowercased host of an entry's repository URL, or nothing.
pub open spec fn host_lower(e: SessionEntry) -> Seq<char> {
    match git_view(e.git) {
        Some(g) => match g.repository_url {
            Some(u) => match url_host(u) {
                Some(Some(h)) => lower_of(h),
                _ => Seq::empty(),
            },
            None => Seq::empty(),
        },
        None => Seq::empty(),
    }
}

/// What the filter searches in an entry: its title, branch, repository host
/// and path, lowercased, one per line.
pub open spec fn haystack(e: SessionEntry) -> Seq<char> {
    lower_of(e.title@) + seq!['\n'] + branch_lower(e) + seq!['\n'] + host_lower(e) + seq!['\n']
        + lower_of(e.path@)
}

/// True when the filter text `f` keeps `e`: an empty (or blank) filter keeps
/// everything; otherwise the lowercased, trimmed filter occurs in the haystack.
pub open spec fn keeps(e: SessionEntry, f: Seq<char>) -> bool {
    trim(f).len() == 0 || contains(haystack(e), lower_of(trim(f)))
}

fn push_lower_opt(out: &mut Vec<char>, s: &Option<String>)
    ensures
        final(out)@ == old(out)@ + match opt_view(*s) {
            Some(t) => lower_of(t),
            None => Seq::<char>::empty(),
        },
{
    match s {
        Some(t) => {
            let l = to_lower(t.as_str());
            let cs = chars_of(l.as_str());
            push_all(out, cs.as_slice());
        },
        None => {
            assert(old(out)@ + Seq::<char>::empty() =~= old(out)@);
        },
    }
}

/// The haystack of `e`.
pub fn entry_haystack(e: &SessionEntry) -> (r: Vec<char>)
    ensures
        r@ == haystack(*e),
{
    let mut out: Vec<char> = Vec::new();
    let t = to_lower(e.title.as_str());
    let tc = chars_of(t.as_str());
    push_all(&mut out, tc.as_slice());
    out.push('\n');
    let mut host: Option<String> = None;
    match &e.git {
        Some(g) => {
            push_lower_opt(&mut out, &g.branch);
            if let Some(u) = &g.repository_url {
                if let Some(Some(h)) = parse_url_host(u.as_str()) {
                    host = Some(h);
                }
            }
        },
        None => {},
    }
    out.push('\n');
    push_lower_opt(&mut out, &host);
    out.push('\n');
    let p = to_lower(e.path.as_str());
    let pc = chars_of(p.as_str());
    push_all(&mut out, pc.as_slice());
    assert(out@ =~= haystack(*e));
    out
}

/// Whether `haystack` holds `needle`, the lowercased trimmed filter; an
/// empty needle matches everything.
pub fn haystack_matches(haystack: &Vec<char>, needle: &Vec<char>) -> (r: bool)
    ensures
        r == (needle@.len() == 0 || contains(haystack@, needle@)),
{
    needle.len() == 0 || contains_chars(haystack, needle)
}

/// The positions of the entries that filter `f` keeps, in order.
pub open spec fn kept(entries: Seq<SessionEntry>, f: Seq<char>) -> Seq<usize>
    decreases entries.len(),
{
    if entries.len() == 0 {
        Seq::empty()
    } else if keeps(entries.last(), f) {
        kept(entries.drop_last(), f).push((entries.len() - 1) as usize)
    } else {
        kept(entries.drop_last(), f)
    }
}

/// The rows for the entries at positions `idx`: each entry preceded by a
/// header whenever its day differs from that of the entry before it.
pub open spec fn group_rows(entries: Seq<SessionEntry>, idx: Seq<usize>, today: i32) -> Seq<Row>
    decreases idx.len(),
{
    if idx.len() == 0 {
        Seq::empty()
    } else {
        let prev = group_rows(entries, idx.drop_last(), today);
        let k = idx.last();
        if idx.len() == 1 || entries[idx[idx.len() - 2] as int].day != entries[k as int].day {
            prev.push(Row::Header(label_of(entries[k as int].day, today))).push(Row::Entry(k))
        } else {
            prev.push(Row::Entry(k))
        }
    }
}

/// The rows of the picker for `entries` under the filter text `f`.
pub open spec fn layout(entries: Seq<SessionEntry>, f: Seq<char>, today: i32) -> Seq<Row> {
    group_rows(entries, kept(entries, f), today)
}

proof fn lemma_kept_bounds(entries: Seq<SessionEntry>, f: Seq<char>)
    ensures
        forall|i: int| 0 <= i < kept(entries, f).len() ==> #[trigger] kept(entries, f)[i] < entries.len(),
    decreases entries.len(),
{
    if entries.len() > 0 {
        let d = entries.drop_last();
        lemma_kept_bounds(d, f);
        assert forall|i: int| 0 <= i < kept(entries, f).len() implies #[trigger] kept(entries, f)[i]
            < entries.len() by {
            if i < kept(d, f).len() {
                assert(kept(entries, f)[i] == kept(d, f)[i]);
            }
        }
    }
}

proof fn lemma_rows_bounds(entries: Seq<SessionEntry>, idx: Seq<usize>, today: i32)
    requires
        forall|i: int| 0 <= i < idx.len() ==> #[trigger] idx[i] < entries.len(),
    ensures
        forall|j: int|
            0 <= j < group_rows(entries, idx, today).len() ==> (#[trigger] group_rows(
                entries,
                idx,
                today,
            )[j] matches Row::Entry(k) ==> k < entries.len()),
    decreases idx.len(),
{
    if idx.len() > 0 {
        lemma_rows_bounds(entries, idx.drop_last(), today);
    }
}

/// The rows for `entries` under filter text `filter`, seen on day `today`.
pub fn build_rows(entries: &Vec<SessionEntry>, filter: &Vec<char>, today: i32) -> (r: Vec<Row>)
    ensures
        r@ == layout(entries@, filter@, today),
        forall|j: int| 0 <= j < r@.len() ==> (#[trigger] r@[j] matches Row::Entry(k) ==> k < entries@.len()),
{
    let ft = crate::text::trim_chars(filter);
    let fs = crate::text::string_of(ft.as_slice());
    let nl = to_lower(fs.as_str());
    let needle = chars_of(nl.as_str());
    let mut idx: Vec<usize> = Vec::new();
    let mut i: usize = 0;
    assert(entries@.subrange(0, 0) =~= Seq::<SessionEntry>::empty());
    while i < entries.len()
        invariant
            i <= entries@.len(),
            needle@ == lower_of(trim(filter@)),
            trim(filter@).len() == 0 ==> needle@.len() == 0,
            idx@ == kept(entries@.subrange(0, i as int), filter@),
        decreases entries@.len() - i,
    {
        let hay = entry_haystack(&entries[i]);
        let ghost pre = entries@.subrange(0, i + 1);
        assert(pre.drop_last() =~= entries@.subrange(0, i as int));
        assert(pre.last() == entries@[i as int]);
        if needle.len() == 0 {
            assert(hay@.subrange(0, 0) =~= needle@);
            assert(occurs_at(hay@, needle@, 0));
        }
        if haystack_matches(&hay, &needle) {
            idx.push(i);
        }
        i = i + 1;
    }
    assert(entries@.subrange(0, entries@.len() as int) =~= entries@);
    proof {
        lemma_kept_bounds(entries@, filter@);
        lemma_rows_bounds(entries@, idx@, today);
    }
    let mut rows: Vec<Row> = Vec::new();
    let mut j: usize = 0;
    assert(idx@.subrange(0, 0) =~= Seq::<usize>::empty());
    while j < idx.len()
        invariant
            j <= idx@.len(),
            idx@ == kept(entries@, filter@),
            forall|t: int| 0 <= t < idx@.len() ==> #[trigger] idx@[t] < entries@.len(),
            rows@ == group_rows(entries@, idx@.subrange(0, j as int), today),
        decreases idx@.len() - j,
    {
        let ghost sub = idx@.subrange(0, j + 1);
        assert(sub.drop_last() =~= idx@.subrange(0, j as int));
        let k = idx[j];
        let d = entries[k].day;
        if j == 0 || entries[idx[j - 1]].day != d {
            rows.push(Row::Header(day_label(d, today)));
        }
        rows.push(Row::Entry(k));
        j = j + 1;
    }
    assert(idx@.subrange(0, idx@.len() as int) =~= idx@);
    rows
}

/// True when row `j` can be selected.
pub open spec fn selectable(rows: Seq<Row>, j: int) -> bool {
    0 <= j < rows.len() && rows[j] is Entry
}

/// The first selectable row at distance `t` or more below `i`, wrapping
/// around the end; `i` itself once the distance passes the length.
pub open spec fn scan_down(rows: Seq<Row>, i: int, t: int) -> int
    decreases rows.len() + 1 - t,
{
    if t > rows.len() || rows.len() == 0 {
        i
    } else if selectable(rows, (i + t) % (rows.len() as int)) {
        (i + t) % (rows.len() as int)
    } else {
        scan_down(rows, i, t + 1)
    }
}

/// The first selectable row at distance `t` or more above `i`, wrapping.
pub open spec fn scan_up(rows: Seq<Row>, i: int, t: int) -> int
    decreases rows.len() + 1 - t,
{
    if t > rows.len() || rows.len() == 0 {
        i
    } else if selectable(rows, (i - t + rows.len()) % (rows.len() as int)) {
        (i - t + rows.len()) % (rows.len() as int)
    } else {
        scan_up(rows, i, t + 1)
    }
}

/// Position `x` on a ring of `len` rows.
pub open spec fn wrap_at(len: int, x: int) -> int {
    x % len
}

/// One step down from row `i`: the next selectable row, wrapping past the end.
pub open spec fn step_down(rows: Seq<Row>, i: int) -> int {
    scan_down(rows, i, 1)
}

/// One step up from row `i`: the previous selectable row, wrapping past the start.
pub open spec fn step_up(rows: Seq<Row>, i: int) -> int {
    scan_up(rows, i, 1)
}

pub proof fn lemma_scan_range(rows: Seq<Row>, i: int, t: int)
    requires
        0 <= i < rows.len(),
        t >= 1,
    ensures
        0 <= scan_down(rows, i, t) < rows.len(),
        0 <= scan_up(rows, i, t) < rows.len(),
    decreases rows.len() + 1 - t,
{
    if t <= rows.len() {
        lemma_scan_range(rows, i, t + 1);
    }
}

/// One step down from row `i`.
pub fn move_down(rows: &Vec<Row>, i: usize) -> (r: usize)
    requires
        i < rows@.len(),
    ensures
        r == step_down(rows@, i as int),
{
    let n = rows.len();
    let mut t: usize = 1;
    while t <= n
        invariant
            1 <= t <= n + 1,
            n == rows@.len(),
            i < n,
            step_down(rows@, i as int) == scan_down(rows@, i as int, t as int),
        decreases n + 1 - t,
    {
        let j = ((i as u128 + t as u128) % (n as u128)) as usize;
        assert(j as int == (i + t) % (n as int));
        if let Row::Entry(_) = rows[j] {
            return j;
        }
        if t == n {
            assert(scan_down(rows@, i as int, t + 1) == i as int);
            return i;
        }
        t = t + 1;
    }
    i
}

/// One step up from row `i`.
pub fn move_up(rows: &Vec<Row>, i: usize) -> (r: usize)
    requires
        i < rows@.len(),
    ensures
        r == step_up(rows@, i as int),
{
    let n = rows.len();
    let mut t: usize = 1;
    while t <= n
        invariant
            1 <= t <= n + 1,
            n == rows@.len(),
            i < n,
            step_up(rows@, i as int) == scan_up(rows@, i as int, t as int),
        decreases n + 1 - t,
    {
        let j = ((i as u128 + n as u128 - t as u128) % (n as u128)) as usize;
        assert(j as int == (i - t + n) % (n as int));
        if let Row::Entry(_) = rows[j] {
            return j;
        }
        if t == n {
            assert(scan_up(rows@, i as int, t + 1) == i as int);
            return i;
        }
        t = t + 1;
    }
    i
}

pub proof fn lemma_scan_down(rows: Seq<Row>, i: int, t: int)
    requires
        0 <= i < rows.len(),
        1 <= t,
        selectable(rows, i),
    ensures
        selectable(rows, scan_down(rows, i, t)),
    decreases rows.len() + 1 - t,
{
    if !(t > rows.len()) && !selectable(rows, (i + t) % (rows.len() as int)) {
        lemma_scan_down(rows, i, t + 1);
    }
}

pub proof fn lemma_scan_up(rows: Seq<Row>, i: int, t: int)
    requires
        0 <= i < rows.len(),
        1 <= t,
        selectable(rows, i),
    ensures
        selectable(rows, scan_up(rows, i, t)),
    decreases rows.len() + 1 - t,
{
    if !(t > rows.len()) && !selectable(rows, (i - t + rows.len()) % (rows.len() as int)) {
        lemma_scan_up(rows, i, t + 1);
    }
}

/// `n` steps down from row `i`.
pub open spec fn steps_down(rows: Seq<Row>, i: int, n: nat) -> int
    decreases n,
{
    if n == 0 {
        i
    } else {
        step_down(rows, steps_down(rows, i, (n - 1) as nat))
    }
}

/// `n` steps up from row `i`.
pub open spec fn steps_up(rows: Seq<Row>, i: int, n: nat) -> int
    decreases n,
{
    if n == 0 {
        i
    } else {
        step_up(rows, steps_up(rows, i, (n - 1) as nat))
    }
}

proof fn lemma_scan_down_skips(rows: Seq<Row>, i: int, t: int)
    requires
        0 <= i < rows.len(),
        1 <= t,
        forall|u: int| 1 <= u < t ==> !selectable(rows, #[trigger] wrap_at(rows.len() as int, i + u)),
        exists|u: int| t <= u <= rows.len() && selectable(rows, #[trigger] wrap_at(rows.len() as int, i + u)),
    ensures
        exists|u: int|
            #![trigger wrap_at(rows.len() as int, i + u)]
            t <= u <= rows.len() && scan_down(rows, i, t) == wrap_at(rows.len() as int, i + u)
                && forall|v: int| 1 <= v < u ==> !selectable(rows, #[trigger] wrap_at(rows.len() as int, i + v)),
    decreases rows.len() + 1 - t,
{
    if selectable(rows, wrap_at(rows.len() as int, i + t)) {
    } else {
        let w = choose|u: int| t <= u <= rows.len() && selectable(rows, #[trigger] wrap_at(rows.len() as int, i + u));
        assert(w != t);
        assert forall|u: int| 1 <= u < t + 1 implies !selectable(rows, #[trigger] wrap_at(rows.len() as int, i + u)) by {
            if u == t {
            }
        }
        lemma_scan_down_skips(rows, i, t + 1);
    }
}

/// Moving down the picker from a selectable row never rests on a header:
/// after any number of steps the selection is on a selectable row, and each
/// step passes over headers only, wrapping from the end to the start.
pub proof fn lemma_down_steps_stay_selectable(rows: Seq<Row>, i: int, n: nat)
    requires
        selectable(rows, i),
    ensures
        selectable(rows, steps_down(rows, i, n)),
        exists|u: int|
            #![trigger wrap_at(rows.len() as int, i + u)]
            1 <= u <= rows.len() && step_down(rows, i) == wrap_at(rows.len() as int, i + u)
                && forall|v: int| 1 <= v < u ==> !selectable(rows, #[trigger] wrap_at(rows.len() as int, i + v)),
    decreases n,
{
    if n > 0 {
        lemma_down_steps_stay_selectable(rows, i, (n - 1) as nat);
        let j = steps_down(rows, i, (n - 1) as nat);
        lemma_scan_down(rows, j, 1);
    }
    let len = rows.len() as int;
    assert(wrap_at(len, i + len) == i) by {
        vstd::arithmetic::div_mod::lemma_mod_add_multiples_vanish(i, len);
        vstd::arithmetic::div_mod::lemma_small_mod(i as nat, len as nat);
    }
    lemma_scan_down_skips(rows, i, 1);
}

/// Moving up the picker from a selectable row never rests on a header.
pub proof fn lemma_up_steps_stay_selectable(rows: Seq<Row>, i: int, n: nat)
    requires
        selectable(rows, i),
    ensures
        selectable(rows, steps_up(rows, i, n)),
    decreases n,
{
    if n > 0 {
        lemma_up_steps_stay_selectable(rows, i, (n - 1) as nat);
        let j = steps_up(rows, i, (n - 1) as nat);
        lemma_scan_up(rows, j, 1);
    }
}

proof fn lemma_kept_all(entries: Seq<SessionEntry>, f: Seq<char>)
    requires
        trim(f).len() == 0,
    ensures
        kept(entries, f).len() == entries.len(),
    decreases entries.len(),
{
    if entries.len() > 0 {
        lemma_kept_all(entries.drop_last(), f);
    }
}

/// With no filter, the layout of a non-empty entry list has an entry row:
/// its last row.
pub proof fn lemma_layout_has_entry(entries: Seq<SessionEntry>, f: Seq<char>, today: i32)
    requires
        entries.len() > 0,
        trim(f).len() == 0,
    ensures
        layout(entries, f, today).len() > 0,
        layout(entries, f, today).last() is Entry,
{
    lemma_kept_all(entries, f);
}

/// The first selectable row.
pub open spec fn first_entry(rows: Seq<Row>) -> Option<int>
    decreases rows.len(),
{
    if rows.len() == 0 {
        None
    } else if rows[0] is Entry {
        Some(0)
    } else {
        match first_entry(rows.drop_first()) {
            Some(i) => Some(i + 1),
            None => None,
        }
    }
}

/// The last selectable row.
pub open spec fn last_entry(rows: Seq<Row>) -> Option<int>
    decreases rows.len(),
{
    if rows.len() == 0 {
        None
    } else if rows.last() is Entry {
        Some(rows.len() - 1)
    } else {
        last_entry(rows.drop_last())
    }
}

pub proof fn lemma_first_entry(rows: Seq<Row>)
    ensures
        first_entry(rows) matches Some(i) ==> selectable(rows, i),
    decreases rows.len(),
{
    if rows.len() > 0 && !(rows[0] is Entry) {
        lemma_first_entry(rows.drop_first());
    }
}

pub proof fn lemma_last_entry(rows: Seq<Row>)
    ensures
        last_entry(rows) matches Some(i) ==> selectable(rows, i),
    decreases rows.len(),
{
    if rows.len() > 0 && !(rows.last() is Entry) {
        lemma_last_entry(rows.drop_last());
    }
}

/// The first selectable row of `rows`.
pub fn find_first_entry(rows: &Vec<Row>) -> (r: Option<usize>)
    ensures
        match r {
            Some(i) => first_entry(rows@) == Some(i as int),
            None => first_entry(rows@) is None,
        },
{
    let mut i: usize = 0;
    assert(rows@.subrange(0, rows@.len() as int) =~= rows@);
    while i < rows.len()
        invariant
            i <= rows@.len(),
            first_entry(rows@) == match first_entry(rows@.subrange(i as int, rows@.len() as int)) {
                Some(k) => Some(k + i),
                None => None,
            },
        decreases rows@.len() - i,
    {
        if let Row::Entry(_) = rows[i] {
            return Some(i);
        }
        assert(rows@.subrange(i as int, rows@.len() as int).drop_first() =~= rows@.subrange(
            i + 1,
            rows@.len() as int,
        ));
        i = i + 1;
    }
    None
}

/// The last selectable row of `rows`.
pub fn find_last_entry(rows: &Vec<Row>) -> (r: Option<usize>)
    ensures
        match r {
            Some(i) => last_entry(rows@) == Some(i as int),
            None => last_entry(rows@) is None,
        },
{
    let mut i: usize = rows.len();
    assert(rows@.subrange(0, rows@.len() as int) =~= rows@);
    while i > 0
        invariant
            i <= rows@.len(),
            last_entry(rows@) == last_entry(rows@.subrange(0, i as int)),
        decreases i,
    {
        if let Row::Entry(_) = rows[i - 1] {
            return Some(i - 1);
        }
        assert(rows@.subrange(0, i as int).drop_last() =~= rows@.subrange(0, i - 1));
        i = i - 1;
    }
    None
}

/// Where the selection settles when the rows change under it: on the same
/// row when that can still be selected, else on the next selectable row
/// from there (clamped to the last row), else nowhere.
pub open spec fn settle(rows: Seq<Row>, sel: Option<usize>) -> Option<int> {
    if rows.len() == 0 {
        None
    } else {
        let i = match sel {
            Some(s) => if s < rows.len() { s as int } else { rows.len() - 1 },
            None => 0,
        };
        if selectable(rows, i) {
            Some(i)
        } else if selectable(rows, step_down(rows, i)) {
            Some(step_down(rows, i))
        } else {
            None
        }
    }
}

/// The settled selection over `rows`.
pub fn settle_selection(rows: &Vec<Row>, sel: Option<usize>) -> (r: Option<usize>)
    ensures
        match r {
            Some(i) => settle(rows@, sel) == Some(i as int) && selectable(rows@, i as int),
            None => settle(rows@, sel) is None,
        },
{
    let n = rows.len();
    if n == 0 {
        return None;
    }
    let i: usize = match sel {
        Some(s) => if s < n { s } else { n - 1 },
        None => 0,
    };
    if let Row::Entry(_) = rows[i] {
        return Some(i);
    }
    let j = move_down(rows, i);
    proof {
        lemma_scan_range(rows@, i as int, 1);
    }
    if let Row::Entry(_) = rows[j] {
        Some(j)
    } else {
        None
    }
}

/// The code of `c` with ASCII capitals made small.
pub open spec fn fold_ascii(c: char) -> int {
    if 'A' <= c && c <= 'Z' {
        (c as u32) + 32
    } else {
        c as u32 as int
    }
}

/// The code of `c` with ASCII capitals made small.
pub fn fold_char(c: char) -> (r: u32)
    ensures
        r as int == fold_ascii(c),
{
    if 'A' <= c && c <= 'Z' {
        (c as u32) + 32
    } else {
        c as u32
    }
}

/// The words of `s`: its maximal runs of non-white characters.
pub open spec fn words(s: Seq<char>) -> Seq<Seq<char>>
    decreases s.len(),
{
    if s.len() == 0 {
        Seq::empty()
    } else {
        let w = words(s.drop_last());
        let c = s.last();
        if crate::text::is_white(c) {
            w
        } else if s.len() >= 2 && !crate::text::is_white(s[s.len() - 2]) && w.len() > 0 {
            w.update(w.len() - 1, w.last().push(c))
        } else {
            w.push(seq![c])
        }
    }
}

/// The free-text part of a filter: its words without those that hold a
/// colon (reserved for field filters), joined by single spaces.
pub open spec fn free_text(ws: Seq<Seq<char>>) -> Seq<char>
    decreases ws.len(),
{
    if ws.len() == 0 {
        Seq::empty()
    } else {
        let rest = free_text(ws.drop_last());
        let w = ws.last();
        if crate::text::contains(w, seq![':']) {
            rest
        } else if rest.len() == 0 {
            w
        } else {
            rest.push(' ') + w
        }
    }
}

/// The words of `v`.
pub fn split_words(v: &Vec<char>) -> (r: Vec<Vec<char>>)
    ensures
        r@.map_values(|w: Vec<char>| w@) == words(v@),
{
    let mut out: Vec<Vec<char>> = Vec::new();
    let mut i: usize = 0;
    assert(v@.subrange(0, 0) =~= Seq::<char>::empty());
    while i < v.len()
        invariant
            i <= v@.len(),
            out@.map_values(|w: Vec<char>| w@) == words(v@.subrange(0, i as int)),
        decreases v@.len() - i,
    {
        let ghost pre = v@.subrange(0, i + 1);
        assert(pre.drop_last() =~= v@.subrange(0, i as int));
        let c = v[i];
        if crate::text::white(c) {
        } else if i >= 1 && !crate::text::white(v[i - 1]) && out.len() > 0 {
            let last = out.len() - 1;
            let mut w = out.remove(last);
            w.push(c);
            out.push(w);
            assert(out@.map_values(|w: Vec<char>| w@) =~= words(pre));
        } else {
            let mut nw: Vec<char> = Vec::new();
            nw.push(c);
            assert(nw@ =~= seq![c]);
            out.push(nw);
            assert(pre[pre.len() - 1] == c);
            assert(out@.map_values(|w: Vec<char>| w@) =~= words(pre));
        }
        i = i + 1;
    }
    assert(v@.subrange(0, v@.len() as int) =~= v@);
    out
}

/// The free-text query of the filter `f`.
pub fn free_text_query(f: &Vec<char>) -> (r: Vec<char>)
    ensures
        r@ == free_text(words(f@)),
{
    let ws = split_words(f);
    let ghost wv = ws@.map_values(|w: Vec<char>| w@);
    let colon: Vec<char> = vec![':'];
    assert(colon@ =~= seq![':']);
    let mut out: Vec<char> = Vec::new();
    let mut i: usize = 0;
    assert(wv.subrange(0, 0) =~= Seq::<Seq<char>>::empty());
    while i < ws.len()
        invariant
            i <= ws@.len(),
            wv == ws@.map_values(|w: Vec<char>| w@),
            colon@ == seq![':'],
            out@ == free_text(wv.subrange(0, i as int)),
        decreases ws@.len() - i,
    {
        let ghost pre = wv.subrange(0, i + 1);
        assert(pre.drop_last() =~= wv.subrange(0, i as int));
        assert(pre.last() == ws@[i as int]@);
        if !crate::text::contains_chars(&ws[i], &colon) {
            if out.len() > 0 {
                out.push(' ');
            }
            crate::text::push_all(&mut out, ws[i].as_slice());
        }
        i = i + 1;
    }
    assert(wv.subrange(0, wv.len() as int) =~= wv);
    out
}

/// The greedy leftmost match of the query `q` (its spaces skipped) as a
/// subsequence of `t`, ignoring ASCII case: the positions in `t` that the
/// query's characters take, from position `from` on; nothing when they do
/// not all fit.
pub open spec fn subseq_match(t: Seq<char>, q: Seq<char>, from: int) -> Option<Seq<usize>>
    decreases q.len(), t.len() - from,
{
    if q.len() == 0 {
        Some(Seq::empty())
    } else if q[0] == ' ' {
        subseq_match(t, q.drop_first(), from)
    } else if from >= t.len() || from < 0 {
        None
    } else if fold_ascii(t[from]) == fold_ascii(q[0]) {
        match subseq_match(t, q.drop_first(), from + 1) {
            Some(rest) => Some(seq![from as usize] + rest),
            None => None,
        }
    } else {
        subseq_match(t, q, from + 1)
    }
}

/// The positions of `title` to highlight for the query `q`.
pub fn highlight_positions(title: &Vec<char>, q: &Vec<char>) -> (r: Option<Vec<usize>>)
    ensures
        match r {
            Some(v) => subseq_match(title@, q@, 0) == Some(v@),
            None => subseq_match(title@, q@, 0) is None,
        },
{
    let mut out: Vec<usize> = Vec::new();
    let mut qi: usize = 0;
    let mut ti: usize = 0;
    assert(q@.subrange(0, q@.len() as int) =~= q@);
    assert(out@ + Seq::<usize>::empty() =~= out@);
    while qi < q.len()
        invariant
            qi <= q@.len(),
            ti <= title@.len(),
            subseq_match(title@, q@, 0) == match subseq_match(title@, q@.subrange(qi as int, q@.len() as int), ti as int) {
                Some(rest) => Some(out@ + rest),
                None => None::<Seq<usize>>,
            },
        decreases q@.len() - qi, title@.len() - ti,
    {
        let ghost rq = q@.subrange(qi as int, q@.len() as int);
        assert(rq.drop_first() =~= q@.subrange(qi + 1, q@.len() as int));
        if q[qi] == ' ' {
            qi = qi + 1;
        } else if ti >= title.len() {
            return None;
        } else if fold_char(title[ti]) == fold_char(q[qi]) {
            proof {
                match subseq_match(title@, q@.subrange(qi + 1, q@.len() as int), ti + 1) {
                    Some(r) => {
                        assert(out@.push(ti as usize) + r =~= out@ + (seq![ti as usize] + r));
                    },
                    None => {},
                }
            }
            out.push(ti);
            ti = ti + 1;
            qi = qi + 1;
        } else {
            ti = ti + 1;
        }
    }
    assert(q@.subrange(qi as int, q@.len() as int) =~= Seq::<char>::empty());
    assert(out@ + Seq::<usize>::empty() =~= out@);
    Some(out)
}

proof fn lemma_first_entry_is(rows: Seq<Row>, p: int)
    requires
        selectable(rows, p),
        forall|q: int| 0 <= q < p ==> !selectable(rows, q),
    ensures
        first_entry(rows) == Some(p),
    decreases p,
{
    if p > 0 {
        let t = rows.drop_first();
        assert(!selectable(rows, 0));
        assert forall|q: int| 0 <= q < p - 1 implies !selectable(t, q) by {
            assert(!selectable(rows, q + 1));
            assert(t[q] == rows[q + 1]);
        }
        assert(t[p - 1] == rows[p]);
        lemma_first_entry_is(t, p - 1);
    }
}

/// Moving down from the last selectable row wraps around to the first one.
pub proof fn lemma_down_wraps(rows: Seq<Row>, i: int)
    requires
        selectable(rows, i),
        forall|j: int| i < j < rows.len() ==> !selectable(rows, j),
    ensures
        first_entry(rows) == Some(step_down(rows, i)),
{
    let len = rows.len() as int;
    lemma_down_steps_stay_selectable(rows, i, 0);
    let u = choose|u: int|
        #![trigger wrap_at(rows.len() as int, i + u)]
        1 <= u <= rows.len() && step_down(rows, i) == wrap_at(rows.len() as int, i + u)
            && forall|v: int| 1 <= v < u ==> !selectable(rows, #[trigger] wrap_at(rows.len() as int, i + v));
    lemma_scan_down(rows, i, 1);
    let p = step_down(rows, i);
    if i + u < len {
        assert(wrap_at(len, i + u) == i + u) by {
            vstd::arithmetic::div_mod::lemma_small_mod((i + u) as nat, len as nat);
        }
        assert(false);
    }
    assert(wrap_at(len, i + u) == i + u - len) by {
        vstd::arithmetic::div_mod::lemma_mod_add_multiples_vanish(i + u - len, len);
        vstd::arithmetic::div_mod::lemma_small_mod((i + u - len) as nat, len as nat);
    }
    assert forall|q: int| 0 <= q < p implies !selectable(rows, q) by {
        let v = q + len - i;
        assert(1 <= v < u);
        assert(wrap_at(len, i + v) == q) by {
            vstd::arithmetic::div_mod::lemma_mod_add_multiples_vanish(q, len);
            vstd::arithmetic::div_mod::lemma_small_mod(q as nat, len as nat);
        }
    }
    lemma_first_entry_is(rows, p);
}

} // verus!
