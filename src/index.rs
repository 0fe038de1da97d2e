//! Session discovery: which files are rollouts, what entry each readable one
//! gives, and the newest-first order of the entries.
use crate::clock::{is_later, later, parse_timestamp, rfc3339_instant, Instant};
use crate::rollout::{
    copy_git, fold_name, git_view, opt_view, read_session_header_and_state,
    split_acc, split_lines_and_tail, GitInfo, RolloutLine,
};
use crate::text::{
    blank, chars_of, ends_with, ends_with_chars, is_blank, starts_with, starts_with_chars,
    string_of, trim, trim_chars,
};
use vstd::prelude::*;

verus! {

/// The longest title taken from instructions, in characters.
pub const TITLE_MAX: usize = 80;

/// The title of a session that has neither a name nor instructions.
pub open spec fn no_title() -> Seq<char> {
    seq!['(', 'n', 'o', ' ', 't', 'i', 't', 'l', 'e', ')']
}

/// `s` cut to `max` characters, with an ellipsis appended when it was cut.
pub open spec fn clip(s: Seq<char>, max: nat) -> Seq<char> {
    if s.len() <= max {
        s
    } else {
        s.subrange(0, max as int).push('…')
    }
}

/// The lines of `s` split at line feeds: its complete lines, then the text
/// after the last line feed (empty when `s` ends with one). A carriage return
/// before a line feed stays in its line.
pub open spec fn text_lines(s: Seq<char>) -> Seq<Seq<char>> {
    split_acc(s).0.push(split_acc(s).1)
}

/// The first line of `ls` that is not blank.
pub open spec fn first_nonblank(ls: Seq<Seq<char>>) -> Option<Seq<char>>
    decreases ls.len(),
{
    if ls.len() == 0 {
        None
    } else if !is_blank(ls[0]) {
        Some(ls[0])
    } else {
        first_nonblank(ls.drop_first())
    }
}

/// A session's title: its name when that is not blank; else the first
/// non-blank line of its instructions, trimmed and clipped; else a placeholder.
pub open spec fn title_of(name: Option<Seq<char>>, instructions: Option<Seq<char>>) -> Seq<char> {
    match name {
        Some(n) if !is_blank(n) => n,
        _ => match instructions {
            Some(t) => match first_nonblank(text_lines(t)) {
                Some(l) => clip(trim(l), TITLE_MAX as nat),
                None => no_title(),
            },
            None => no_title(),
        },
    }
}

/// `v` clipped to `max` characters, marked with an ellipsis when cut.
pub fn clip_chars(v: &Vec<char>, max: usize) -> (r: Vec<char>)
    ensures
        r@ == clip(v@, max as nat),
{
    if v.len() <= max {
        crate::text::slice_chars(v, 0, v.len())
    } else {
        let mut r = crate::text::slice_chars(v, 0, max);
        r.push('…');
        r
    }
}

/// The first non-blank line of `text`.
pub fn first_nonblank_line(text: &str) -> (r: Option<Vec<char>>)
    ensures
        match r {
            Some(l) => first_nonblank(text_lines(text@)) == Some(l@),
            None => first_nonblank(text_lines(text@)) is None,
        },
{
    let cs = chars_of(text);
    let (lines, tail) = split_lines_and_tail(&cs);
    let ghost ls = text_lines(text@);
    assert(ls =~= lines@.map_values(|l: String| l@).push(tail@));
    let mut i: usize = 0;
    assert(ls.subrange(0, ls.len() as int) =~= ls);
    while i < lines.len()
        invariant
            i <= lines@.len(),
            ls == text_lines(text@),
            ls == lines@.map_values(|l: String| l@).push(tail@),
            first_nonblank(ls) == first_nonblank(ls.subrange(i as int, ls.len() as int)),
        decreases lines@.len() - i,
    {
        let l = chars_of(lines[i].as_str());
        assert(lines@.map_values(|l: String| l@)[i as int] == lines@[i as int]@);
        assert(ls.subrange(i as int, ls.len() as int)[0] == l@);
        if !blank(&l) {
            assert(first_nonblank(ls.subrange(i as int, ls.len() as int)) == Some(l@));
            return Some(l);
        }
        assert(ls.subrange(i as int, ls.len() as int).drop_first() =~= ls.subrange(
            i + 1,
            ls.len() as int,
        ));
        i = i + 1;
    }
    assert(ls.subrange(i as int, ls.len() as int) =~= seq![tail@]);
    assert(seq![tail@].drop_first() =~= Seq::<Seq<char>>::empty());
    assert(first_nonblank(Seq::<Seq<char>>::empty()) is None);
    if !blank(&tail) {
        assert(first_nonblank(seq![tail@]) == Some(tail@));
        Some(tail)
    } else {
        assert(first_nonblank(seq![tail@]) == first_nonblank(seq![tail@].drop_first()));
        None
    }
}

/// The title of a session with state name `name` and header `instructions`.
pub fn resolve_title(name: &Option<String>, instructions: &Option<String>) -> (r: String)
    ensures
        r@ == title_of(opt_view(*name), opt_view(*instructions)),
{
    if let Some(n) = name {
        let cs = chars_of(n.as_str());
        if !blank(&cs) {
            return n.clone();
        }
    }
    if let Some(t) = instructions {
        if let Some(l) = first_nonblank_line(t.as_str()) {
            let tl = trim_chars(&l);
            let c = clip_chars(&tl, TITLE_MAX);
            return string_of(c.as_slice());
        }
    }
    let p: Vec<char> = vec!['(', 'n', 'o', ' ', 't', 'i', 't', 'l', 'e', ')'];
    string_of(p.as_slice())
}

pub open spec fn rollout_prefix() -> Seq<char> {
    seq!['r', 'o', 'l', 'l', 'o', 'u', 't', '-']
}

pub open spec fn rollout_suffix() -> Seq<char> {
    seq!['.', 'j', 's', 'o', 'n', 'l']
}

/// True of the file name of a rollout: `rollout-*.jsonl`.
pub open spec fn is_rollout_name(n: Seq<char>) -> bool {
    starts_with(n, rollout_prefix()) && ends_with(n, rollout_suffix())
}

/// Whether `name` follows the rollout naming convention.
pub fn is_rollout_file_name(name: &str) -> (r: bool)
    ensures
        r == is_rollout_name(name@),
{
    let cs = chars_of(name);
    let p: Vec<char> = vec!['r', 'o', 'l', 'l', 'o', 'u', 't', '-'];
    let s: Vec<char> = vec!['.', 'j', 's', 'o', 'n', 'l'];
    starts_with_chars(&cs, &p) && ends_with_chars(&cs, &s)
}

/// A file found under the sessions root, as the scan hands it over: where it
/// is, its complete lines decoded, and what the file system says of it.
pub struct ScannedFile {
    pub path: String,
    pub file_name: String,
    pub lines: Vec<RolloutLine>,
    pub size_bytes: u64,
    /// Last modification, in whole seconds since the Unix epoch.
    pub modified_secs: Option<i64>,
}

/// One discovered session.
pub struct SessionEntry {
    pub id: u128,
    pub when: Instant,
    /// The creation instant as the header records it.
    pub timestamp: String,
    /// The folded state's name.
    pub name: Option<String>,
    /// The local calendar day of `when` (see [`crate::clock`]).
    pub day: i32,
    pub title: String,
    pub path: String,
    pub cwd: Option<String>,
    pub git: Option<GitInfo>,
    /// Event records in the log: its lines that are neither header nor state.
    pub approx_turns: usize,
    /// Seconds from creation to the last modification, if that is known.
    pub duration_secs: Option<u64>,
    pub size_bytes: u64,
}

/// The number of opaque event records among `lines`.
pub open spec fn count_opaque(lines: Seq<RolloutLine>) -> nat
    decreases lines.len(),
{
    if lines.len() == 0 {
        0
    } else {
        count_opaque(lines.drop_last()) + if lines.last() is Opaque {
            1nat
        } else {
            0nat
        }
    }
}

/// Whole seconds from `when` to the modification second `modified`, never negative.
pub open spec fn duration_of(modified: Option<i64>, when: Instant) -> Option<u64> {
    match modified {
        Some(m) => {
            let d = m - when.secs - if when.nanos > 0 {
                1int
            } else {
                0int
            };
            Some(
                if d > 0 {
                    d as u64
                } else {
                    0u64
                },
            )
        },
        None => None,
    }
}

/// True when the first line of `f` is a header whose timestamp parses.
pub open spec fn readable(f: ScannedFile) -> bool {
    f.lines@.len() > 0 && (f.lines@[0] matches RolloutLine::Header(h) && rfc3339_instant(
        h.timestamp@,
    ) is Some)
}

/// True when `e` is the entry that the rollout `f` gives, its local day aside.
pub open spec fn describes(e: SessionEntry, f: ScannedFile) -> bool {
    f.lines@.len() > 0 && (f.lines@[0] matches RolloutLine::Header(h) && rfc3339_instant(
        h.timestamp@,
    ) == Some((e.when.secs, e.when.nanos)) && e.timestamp@ == h.timestamp@ && opt_view(e.name)
        == fold_name(f.lines@) && e.id == h.id && e.title@ == title_of(
        fold_name(f.lines@),
        opt_view(h.instructions),
    ) && e.path@ == f.path@ && opt_view(e.cwd) == Some(h.cwd@) && git_view(e.git) == git_view(
        h.git,
    ) && e.approx_turns == count_opaque(f.lines@) && e.duration_secs == duration_of(
        f.modified_secs,
        e.when,
    ) && e.size_bytes == f.size_bytes)
}

/// The number of opaque event records among `lines`.
pub fn count_event_lines(lines: &Vec<RolloutLine>) -> (r: usize)
    ensures
        r == count_opaque(lines@),
{
    let mut n: usize = 0;
    let mut i: usize = 0;
    assert(lines@.subrange(0, 0) =~= Seq::<RolloutLine>::empty());
    while i < lines.len()
        invariant
            i <= lines@.len(),
            n == count_opaque(lines@.subrange(0, i as int)),
            n <= i,
        decreases lines@.len() - i,
    {
        assert(lines@.subrange(0, i + 1).drop_last() == lines@.subrange(0, i as int));
        if let RolloutLine::Opaque = &lines[i] {
            n = n + 1;
        }
        i = i + 1;
    }
    assert(lines@.subrange(0, lines@.len() as int) == lines@);
    n
}

/// Whole seconds from `when` to `modified`, never negative.
pub fn elapsed_secs(modified: Option<i64>, when: Instant) -> (r: Option<u64>)
    ensures
        r == duration_of(modified, when),
{
    match modified {
        Some(m) => {
            let adj: i128 = if when.nanos > 0 {
                1
            } else {
                0
            };
            let d: i128 = m as i128 - when.secs as i128 - adj;
            if d > 0 {
                Some(d as u64)
            } else {
                Some(0)
            }
        },
        None => None,
    }
}

/// The entry of a rollout file, or nothing when its first line is not a
/// header or the header's timestamp does not parse.
pub fn read_entry(file: &ScannedFile) -> (r: Option<SessionEntry>)
    ensures
        r is Some <==> readable(*file),
        r matches Some(e) ==> describes(e, *file),
{
    let (meta, state) = match read_session_header_and_state(&file.lines) {
        Ok(p) => p,
        Err(_) => return None,
    };
    let (when, day) = match parse_timestamp(meta.timestamp.as_str()) {
        Some(p) => p,
        None => return None,
    };
    let title = resolve_title(&state.name, &meta.instructions);
    let approx_turns = count_event_lines(&file.lines);
    let duration_secs = elapsed_secs(file.modified_secs, when);
    Some(
        SessionEntry {
            id: meta.id,
            when,
            timestamp: meta.timestamp,
            name: state.name,
            day,
            title,
            path: file.path.clone(),
            cwd: Some(meta.cwd),
            git: copy_git(&meta.git),
            approx_turns,
            duration_secs,
            size_bytes: file.size_bytes,
        },
    )
}

/// Where `e` goes among `sorted`, newest first: before the first entry that
/// it is strictly later than, so that entries of equal instants keep their order.
pub open spec fn insert_pos(sorted: Seq<SessionEntry>, e: SessionEntry) -> int
    decreases sorted.len(),
{
    if sorted.len() == 0 {
        0
    } else if later(e.when, sorted[0].when) {
        0
    } else {
        1 + insert_pos(sorted.drop_first(), e)
    }
}

/// `s` ordered newest first by creation instant; entries of equal instants
/// keep the order they had (a stable sort).
pub open spec fn sort_newest_first(s: Seq<SessionEntry>) -> Seq<SessionEntry>
    decreases s.len(),
{
    if s.len() == 0 {
        s
    } else {
        let t = sort_newest_first(s.drop_last());
        t.insert(insert_pos(t, s.last()), s.last())
    }
}

pub proof fn lemma_insert_pos_bounds(s: Seq<SessionEntry>, e: SessionEntry)
    ensures
        0 <= insert_pos(s, e) <= s.len(),
        forall|i: int| 0 <= i < insert_pos(s, e) ==> !later(e.when, #[trigger] s[i].when),
        insert_pos(s, e) < s.len() ==> later(e.when, s[insert_pos(s, e)].when),
    decreases s.len(),
{
    if s.len() > 0 && !later(e.when, s[0].when) {
        lemma_insert_pos_bounds(s.drop_first(), e);
        assert forall|i: int| 0 <= i < insert_pos(s, e) implies !later(
            e.when,
            #[trigger] s[i].when,
        ) by {
            if i > 0 {
                assert(s[i] == s.drop_first()[i - 1]);
            }
        }
    }
}

/// True when no entry of `s` is strictly later than one before it.
pub open spec fn newest_first(s: Seq<SessionEntry>) -> bool {
    forall|i: int, j: int| 0 <= i < j < s.len() ==> !later(#[trigger] s[j].when, #[trigger] s[i].when)
}

proof fn lemma_sort_props(s: Seq<SessionEntry>)
    ensures
        sort_newest_first(s).len() == s.len(),
        newest_first(sort_newest_first(s)),
        forall|i: int|
            0 <= i < s.len() ==> exists|k: int|
                0 <= k < s.len() && #[trigger] sort_newest_first(s)[i] == s[k],
    decreases s.len(),
{
    if s.len() > 0 {
        let t = sort_newest_first(s.drop_last());
        let e = s.last();
        lemma_sort_props(s.drop_last());
        lemma_insert_pos_bounds(t, e);
        let p = insert_pos(t, e);
        let r = t.insert(p, e);
        assert forall|i: int, j: int| 0 <= i < j < r.len() implies !later(
            #[trigger] r[j].when,
            #[trigger] r[i].when,
        ) by {
            if j < p {
                assert(r[i] == t[i] && r[j] == t[j]);
            } else if j == p {
                assert(r[i] == t[i]);
                assert(!later(e.when, t[i].when));
            } else if i == p {
                assert(r[j] == t[j - 1]);
                assert(later(e.when, t[p].when));
                if j - 1 > p {
                    assert(!later(t[j - 1].when, t[p].when));
                }
            } else if i < p {
                assert(r[i] == t[i] && r[j] == t[j - 1]);
            } else {
                assert(r[i] == t[i - 1] && r[j] == t[j - 1]);
            }
        }
        assert forall|i: int| 0 <= i < s.len() implies exists|k: int|
            0 <= k < s.len() && #[trigger] r[i] == s[k] by {
            if i == p {
                assert(r[i] == s[s.len() - 1]);
            } else {
                let ti = if i < p {
                    i
                } else {
                    i - 1
                };
                assert(r[i] == t[ti]);
                let k = choose|k: int|
                    0 <= k < s.drop_last().len() && #[trigger] t[ti] == s.drop_last()[k];
                assert(r[i] == s[k]);
            }
        }
    }
}

/// True when the entries of `s` have pairwise different creation instants.
pub open spec fn distinct_instants(s: Seq<SessionEntry>) -> bool {
    forall|i: int, j: int| 0 <= i < j < s.len() ==> #[trigger] s[i].when != #[trigger] s[j].when
}

proof fn lemma_sort_keeps_distinct(s: Seq<SessionEntry>)
    requires
        distinct_instants(s),
    ensures
        distinct_instants(sort_newest_first(s)),
    decreases s.len(),
{
    if s.len() > 0 {
        let d = s.drop_last();
        assert(distinct_instants(d)) by {
            assert forall|i: int, j: int| 0 <= i < j < d.len() implies #[trigger] d[i].when
                != #[trigger] d[j].when by {
                assert(d[i] == s[i] && d[j] == s[j]);
            }
        }
        lemma_sort_keeps_distinct(d);
        lemma_sort_props(d);
        let t = sort_newest_first(d);
        let e = s.last();
        let p = insert_pos(t, e);
        lemma_insert_pos_bounds(t, e);
        let r = t.insert(p, e);
        assert forall|i: int| 0 <= i < t.len() implies #[trigger] t[i].when != e.when by {
            let k = choose|k: int| 0 <= k < d.len() && #[trigger] t[i] == d[k];
            assert(d[k] == s[k]);
            assert(s[k].when != s[s.len() - 1].when);
        }
        assert forall|i: int, j: int| 0 <= i < j < r.len() implies #[trigger] r[i].when
            != #[trigger] r[j].when by {
            if j < p {
                assert(r[i] == t[i] && r[j] == t[j]);
            } else if j == p {
                assert(r[i] == t[i]);
            } else if i == p {
                assert(r[j] == t[j - 1]);
            } else if i < p {
                assert(r[i] == t[i] && r[j] == t[j - 1]);
            } else {
                assert(r[i] == t[i - 1] && r[j] == t[j - 1]);
            }
        }
    }
}

/// For entries with pairwise different instants, the newest-first order is
/// strictly descending by instant, and holds each of them.
pub proof fn lemma_newest_first_strict(s: Seq<SessionEntry>)
    requires
        distinct_instants(s),
    ensures
        sort_newest_first(s).len() == s.len(),
        forall|i: int, j: int|
            0 <= i < j < s.len() ==> later(
                #[trigger] sort_newest_first(s)[i].when,
                #[trigger] sort_newest_first(s)[j].when,
            ),
        forall|i: int|
            0 <= i < s.len() ==> exists|k: int|
                0 <= k < s.len() && #[trigger] sort_newest_first(s)[i] == s[k],
{
    lemma_sort_props(s);
    lemma_sort_keeps_distinct(s);
    let r = sort_newest_first(s);
    assert forall|i: int, j: int| 0 <= i < j < s.len() implies later(
        #[trigger] r[i].when,
        #[trigger] r[j].when,
    ) by {
        assert(!later(r[j].when, r[i].when));
        assert(r[i].when != r[j].when);
    }
}

/// `entries` ordered newest first, stably.
pub fn sort_entries_newest_first(entries: Vec<SessionEntry>) -> (r: Vec<SessionEntry>)
    ensures
        r@ == sort_newest_first(entries@),
{
    let ghost orig = entries@;
    let mut rest = entries;
    let mut out: Vec<SessionEntry> = Vec::new();
    let ghost mut i: int = 0;
    assert(orig.subrange(0, 0) =~= Seq::<SessionEntry>::empty());
    assert(orig.subrange(0, orig.len() as int) =~= orig);
    while rest.len() > 0
        invariant
            0 <= i <= orig.len(),
            rest@ == orig.subrange(i, orig.len() as int),
            out@ == sort_newest_first(orig.subrange(0, i)),
        decreases rest@.len(),
    {
        let e = rest.remove(0);
        let mut j: usize = 0;
        proof {
            assert(out@.subrange(0, out@.len() as int) =~= out@);
        }
        while j < out.len() && !is_later(e.when, out[j].when)
            invariant
                j <= out@.len(),
                insert_pos(out@, e) == j + insert_pos(out@.subrange(j as int, out@.len() as int), e),
            decreases out@.len() - j,
        {
            assert(out@.subrange(j as int, out@.len() as int).drop_first() =~= out@.subrange(
                j + 1,
                out@.len() as int,
            ));
            j = j + 1;
        }
        proof {
            assert(orig.subrange(0, i + 1).drop_last() =~= orig.subrange(0, i));
            assert(orig.subrange(0, i + 1).last() == e);
            i = i + 1;
            assert(rest@ =~= orig.subrange(i, orig.len() as int));
        }
        out.insert(j, e);
    }
    assert(orig.subrange(0, i) =~= orig);
    out
}

/// The positions of the files that discovery reads: those with a rollout's
/// name whose first line is a header with a parseable timestamp, in order.
pub open spec fn readable_rollouts(files: Seq<ScannedFile>) -> Seq<int>
    decreases files.len(),
{
    if files.len() == 0 {
        Seq::empty()
    } else if is_rollout_name(files.last().file_name@) && readable(files.last()) {
        readable_rollouts(files.drop_last()).push(files.len() - 1)
    } else {
        readable_rollouts(files.drop_last())
    }
}

/// True when `found` holds, in order, the entry of each file that discovery
/// reads among `files`.
pub open spec fn entries_of(found: Seq<SessionEntry>, files: Seq<ScannedFile>) -> bool {
    found.len() == readable_rollouts(files).len() && forall|j: int|
        0 <= j < found.len() ==> describes(#[trigger] found[j], files[readable_rollouts(files)[j]])
}

/// True when `r` is what discovery returns for `files`: the entries of the
/// readable rollouts, newest first (stably), at most `limit` of them.
pub open spec fn discovered(r: Seq<SessionEntry>, files: Seq<ScannedFile>, limit: usize) -> bool {
    exists|found: Seq<SessionEntry>|
        #[trigger] entries_of(found, files) && r == sort_newest_first(found).take(
            if limit < found.len() { limit as int } else { found.len() as int },
        )
}

/// True when `e` is the entry of one of `files` that has a rollout's name.
pub open spec fn comes_from(e: SessionEntry, files: Seq<ScannedFile>) -> bool {
    exists|k: int|
        0 <= k < files.len() && is_rollout_name(files[k].file_name@) && readable(files[k])
            && #[trigger] describes(e, files[k])
}

/// The sessions among `files`, newest first, at most `limit` of them. A file
/// appears only when its name follows the rollout convention and its first
/// line is a header with a parseable timestamp; files that fail are dropped.
pub fn discover(files: &Vec<ScannedFile>, limit: usize) -> (r: Vec<SessionEntry>)
    ensures
        discovered(r@, files@, limit),
        r@.len() <= limit,
        newest_first(r@),
        forall|i: int| 0 <= i < r@.len() ==> comes_from(#[trigger] r@[i], files@),
{
    let mut found: Vec<SessionEntry> = Vec::new();
    let ghost mut src: Seq<int> = Seq::empty();
    let mut k: usize = 0;
    assert(files@.subrange(0, 0) =~= Seq::<ScannedFile>::empty());
    while k < files.len()
        invariant
            k <= files@.len(),
            src == readable_rollouts(files@.subrange(0, k as int)),
            src.len() == found@.len(),
            forall|i: int|
                #![trigger src[i]]
                0 <= i < src.len() ==> 0 <= src[i] < k && is_rollout_name(
                    files@[src[i]].file_name@,
                ) && readable(files@[src[i]]) && describes(found@[i], files@[src[i]]),
        decreases files@.len() - k,
    {
        let ghost pre = files@.subrange(0, k + 1);
        assert(pre.drop_last() =~= files@.subrange(0, k as int));
        assert(pre.last() == files@[k as int]);
        let f = &files[k];
        if is_rollout_file_name(f.file_name.as_str()) {
            if let Some(e) = read_entry(f) {
                found.push(e);
                proof {
                    src = src.push(k as int);
                }
            }
        }
        k = k + 1;
    }
    assert(files@.subrange(0, files@.len() as int) =~= files@);
    assert(entries_of(found@, files@));
    let ghost found_v = found@;
    let mut sorted = sort_entries_newest_first(found);
    let ghost full = sorted@;
    sorted.truncate(limit);
    proof {
        let n = if limit < found_v.len() { limit as int } else { found_v.len() as int };
        lemma_sort_props(found_v);
        assert(sorted@ =~= sort_newest_first(found_v).take(n));
        assert(discovered(sorted@, files@, limit));
        lemma_sort_props(found_v);
        assert(forall|i: int| 0 <= i < sorted@.len() ==> sorted@[i] == full[i]);
        assert forall|i: int| 0 <= i < sorted@.len() implies comes_from(#[trigger] sorted@[i], files@) by {
            let q = choose|q: int| 0 <= q < found_v.len() && #[trigger] sort_newest_first(found_v)[i] == found_v[q];
            assert(sorted@[i] == found_v[q]);
            assert(describes(found_v[q], files@[src[q]]));
        }
        assert forall|i: int, j: int| 0 <= i < j < sorted@.len() implies !later(
            #[trigger] sorted@[j].when,
            #[trigger] sorted@[i].when,
        ) by {
            assert(sorted@[i] == full[i] && sorted@[j] == full[j]);
        }
    }
    sorted
}

/// A log with no state records is titled from its instructions, or with the
/// placeholder.
pub proof fn lemma_stateless_title(lines: Seq<RolloutLine>, instructions: Option<Seq<char>>)
    requires
        forall|i: int| 0 <= i < lines.len() ==> !(#[trigger] lines[i] is State),
    ensures
        fold_name(lines) is None,
        title_of(fold_name(lines), instructions) == title_of(None, instructions),
    decreases lines.len(),
{
    if lines.len() > 0 {
        let d = lines.drop_last();
        assert forall|i: int| 0 <= i < d.len() implies !(#[trigger] d[i] is State) by {
            assert(d[i] == lines[i]);
        }
        assert(!(lines[lines.len() - 1] is State));
        lemma_stateless_title(d, instructions);
    }
}

/// The newest-first order is a reordering: it holds each entry as often as `s` does.
pub proof fn lemma_sort_permutes(s: Seq<SessionEntry>)
    ensures
        sort_newest_first(s).to_multiset() == s.to_multiset(),
    decreases s.len(),
{
    if s.len() > 0 {
        let d = s.drop_last();
        let e = s.last();
        lemma_sort_permutes(d);
        let t = sort_newest_first(d);
        lemma_insert_pos_bounds(t, e);
        vstd::seq_lib::to_multiset_insert(t, insert_pos(t, e), e);
        vstd::seq_lib::to_multiset_build(d, e);
        assert(d.push(e) =~= s);
    }
}

proof fn lemma_readable_rollouts(files: Seq<ScannedFile>, k: int)
    requires
        0 <= k < files.len(),
        is_rollout_name(files[k].file_name@),
        readable(files[k]),
    ensures
        readable_rollouts(files).len() <= files.len(),
        exists|j: int| 0 <= j < readable_rollouts(files).len() && #[trigger] readable_rollouts(files)[j] == k,
    decreases files.len(),
{
    let d = files.drop_last();
    if k < files.len() - 1 {
        assert(d[k] == files[k]);
        lemma_readable_rollouts(d, k);
        let j = choose|j: int| 0 <= j < readable_rollouts(d).len() && #[trigger] readable_rollouts(d)[j] == k;
        assert(readable_rollouts(files)[j] == k);
    } else {
        lemma_rollouts_len(d);
        assert(readable_rollouts(files)[readable_rollouts(files).len() - 1] == k);
    }
}

proof fn lemma_rollouts_len(files: Seq<ScannedFile>)
    ensures
        readable_rollouts(files).len() <= files.len(),
    decreases files.len(),
{
    if files.len() > 0 {
        lemma_rollouts_len(files.drop_last());
    }
}

/// A file with a rollout's name whose first line is a header with a
/// parseable timestamp appears in discovery when the limit leaves room for
/// every file.
pub proof fn lemma_readable_rollout_appears(r: Seq<SessionEntry>, files: Seq<ScannedFile>, limit: usize, k: int)
    requires
        discovered(r, files, limit),
        limit >= files.len(),
        0 <= k < files.len(),
        is_rollout_name(files[k].file_name@),
        readable(files[k]),
    ensures
        exists|i: int| 0 <= i < r.len() && #[trigger] describes(r[i], files[k]),
{
    let found = choose|found: Seq<SessionEntry>|
        #[trigger] entries_of(found, files) && r == sort_newest_first(found).take(
            if limit < found.len() { limit as int } else { found.len() as int },
        );
    lemma_readable_rollouts(files, k);
    let j = choose|j: int| 0 <= j < readable_rollouts(files).len() && #[trigger] readable_rollouts(files)[j] == k;
    assert(describes(found[j], files[k]));
    lemma_sort_props(found);
    lemma_sort_permutes(found);
    let sorted = sort_newest_first(found);
    assert(r =~= sorted);
    assert(found.contains(found[j]));
    vstd::seq_lib::to_multiset_contains(found, found[j]);
    vstd::seq_lib::to_multiset_contains(sorted, found[j]);
    let i = choose|i: int| 0 <= i < sorted.len() && sorted[i] == found[j];
    assert(describes(r[i], files[k]));
}

/// The instant that the header of `f` records, when it parses.
pub open spec fn header_instant(f: ScannedFile) -> Option<(i64, u32)> {
    match f.lines@[0] {
        RolloutLine::Header(h) => rfc3339_instant(h.timestamp@),
        _ => None,
    }
}

proof fn lemma_rollouts_increasing(files: Seq<ScannedFile>)
    ensures
        forall|a: int, b: int|
            0 <= a < b < readable_rollouts(files).len() ==> #[trigger] readable_rollouts(files)[a]
                < #[trigger] readable_rollouts(files)[b],
        forall|a: int|
            0 <= a < readable_rollouts(files).len() ==> 0 <= #[trigger] readable_rollouts(files)[a]
                < files.len(),
    decreases files.len(),
{
    if files.len() > 0 {
        let d = files.drop_last();
        lemma_rollouts_increasing(d);
        let rd = readable_rollouts(d);
        let rf = readable_rollouts(files);
        assert forall|a: int| 0 <= a < rf.len() implies 0 <= #[trigger] rf[a] < files.len() by {
            if a < rd.len() {
                assert(rf[a] == rd[a]);
            }
        }
        assert forall|a: int, b: int| 0 <= a < b < rf.len() implies #[trigger] rf[a] < #[trigger] rf[b] by {
            assert(rf[a] == rd[a]);
            if b < rd.len() {
                assert(rf[b] == rd[b]);
            } else {
                assert(rd[a] < d.len());
            }
        }
    }
}

/// When the readable rollouts record pairwise different instants, discovery
/// lists them strictly newest first.
pub proof fn lemma_discovery_strictly_newest_first(r: Seq<SessionEntry>, files: Seq<ScannedFile>, limit: usize)
    requires
        discovered(r, files, limit),
        forall|a: int, b: int|
            0 <= a < b < files.len() && readable(files[a]) && readable(files[b]) ==> #[trigger] header_instant(files[a])
                != #[trigger] header_instant(files[b]),
    ensures
        forall|i: int, j: int| 0 <= i < j < r.len() ==> later(#[trigger] r[i].when, #[trigger] r[j].when),
{
    let found = choose|found: Seq<SessionEntry>|
        #[trigger] entries_of(found, files) && r == sort_newest_first(found).take(
            if limit < found.len() { limit as int } else { found.len() as int },
        );
    let rr = readable_rollouts(files);
    lemma_rollouts_increasing(files);
    assert(distinct_instants(found)) by {
        assert forall|a: int, b: int| 0 <= a < b < found.len() implies #[trigger] found[a].when
            != #[trigger] found[b].when by {
            assert(describes(found[a], files[rr[a]]));
            assert(describes(found[b], files[rr[b]]));
            assert(rr[a] < rr[b]);
            assert(header_instant(files[rr[a]]) == Some((found[a].when.secs, found[a].when.nanos)));
            assert(header_instant(files[rr[b]]) == Some((found[b].when.secs, found[b].when.nanos)));
        }
    }
    lemma_newest_first_strict(found);
    let sorted = sort_newest_first(found);
    assert forall|i: int, j: int| 0 <= i < j < r.len() implies later(#[trigger] r[i].when, #[trigger] r[j].when) by {
        assert(r[i] == sorted[i] && r[j] == sorted[j]);
    }
}

/// A discovered session carries the name of the last state record that sets
/// one, and is titled by it when that name is not blank.
pub proof fn lemma_entry_takes_last_name(e: SessionEntry, f: ScannedFile, k: int)
    requires
        describes(e, f),
        0 <= k < f.lines@.len(),
        crate::rollout::sets_name(f.lines@[k]),
        forall|j: int| k < j < f.lines@.len() ==> !crate::rollout::sets_name(#[trigger] f.lines@[j]),
    ensures
        f.lines@[k] matches RolloutLine::State(st) && opt_view(e.name) == st@ && (!is_blank(
            st@.unwrap(),
        ) ==> e.title@ == st@.unwrap()),
{
    crate::rollout::lemma_fold_takes_last_name(f.lines@, k);
}

/// Other records interleaved after the header change nothing that discovery
/// reads from a log but its event count: the entries of a log and of the same
/// log with one more non-state line agree on id, instant, timestamp, state
/// name, title, path, working directory and repository.
pub proof fn lemma_entry_ignores_other_lines(
    f: ScannedFile,
    g: ScannedFile,
    i: int,
    x: RolloutLine,
    e1: SessionEntry,
    e2: SessionEntry,
)
    requires
        1 <= i <= f.lines@.len(),
        !(x is State),
        g.lines@ == f.lines@.insert(i, x),
        describes(e1, f),
        describes(e2, g),
    ensures
        readable(f) == readable(g),
        e1.id == e2.id,
        e1.when == e2.when,
        e1.timestamp@ == e2.timestamp@,
        opt_view(e1.name) == opt_view(e2.name),
        e1.title@ == e2.title@,
        e1.path@ == f.path@ && e2.path@ == g.path@,
        opt_view(e1.cwd) == opt_view(e2.cwd),
        git_view(e1.git) == git_view(e2.git),
{
    crate::rollout::lemma_fold_ignores_other_lines(f.lines@, i, x);
    assert(g.lines@[0] == f.lines@[0]);
}

} // verus!
