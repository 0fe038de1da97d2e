//! The append-only rollout log of one session: a header line, then opaque
//! event lines and state lines. Readers take the complete lines of the file,
//! each decoded once into a [`RolloutLine`], and fold the state lines in order.
use crate::text::{push_all, string_of};
use vstd::prelude::*;

verus! {

pub open spec fn opt_view(o: Option<String>) -> Option<Seq<char>> {
    match o {
        Some(s) => Some(s@),
        None => None,
    }
}

/// A copy of `o` with the same text.
pub fn clone_opt(o: &Option<String>) -> (r: Option<String>)
    ensures
        opt_view(r) == opt_view(*o),
{
    match o {
        Some(s) => Some(s.clone()),
        None => None,
    }
}

/// Repository details recorded when the session began.
pub struct GitInfo {
    pub branch: Option<String>,
    pub commit_hash: Option<String>,
    pub repository_url: Option<String>,
}

pub ghost struct GitInfoView {
    pub branch: Option<Seq<char>>,
    pub commit_hash: Option<Seq<char>>,
    pub repository_url: Option<Seq<char>>,
}

impl View for GitInfo {
    type V = GitInfoView;

    open spec fn view(&self) -> GitInfoView {
        GitInfoView {
            branch: opt_view(self.branch),
            commit_hash: opt_view(self.commit_hash),
            repository_url: opt_view(self.repository_url),
        }
    }
}

impl GitInfo {
    pub fn copy(&self) -> (r: GitInfo)
        ensures
            r@ == self@,
    {
        GitInfo {
            branch: clone_opt(&self.branch),
            commit_hash: clone_opt(&self.commit_hash),
            repository_url: clone_opt(&self.repository_url),
        }
    }
}

pub open spec fn git_view(g: Option<GitInfo>) -> Option<GitInfoView> {
    match g {
        Some(g) => Some(g@),
        None => None,
    }
}

pub fn copy_git(g: &Option<GitInfo>) -> (r: Option<GitInfo>)
    ensures
        git_view(r) == git_view(*g),
{
    match g {
        Some(g) => Some(g.copy()),
        None => None,
    }
}

/// The header of a rollout: written once, when the session is created.
pub struct SessionMeta {
    /// The session's UUID as a 128-bit number.
    pub id: u128,
    /// The creation instant as RFC 3339 text.
    pub timestamp: String,
    /// The working directory at session start.
    pub cwd: String,
    pub instructions: Option<String>,
    pub git: Option<GitInfo>,
}

pub ghost struct SessionMetaView {
    pub id: u128,
    pub timestamp: Seq<char>,
    pub cwd: Seq<char>,
    pub instructions: Option<Seq<char>>,
    pub git: Option<GitInfoView>,
}

impl View for SessionMeta {
    type V = SessionMetaView;

    open spec fn view(&self) -> SessionMetaView {
        SessionMetaView {
            id: self.id,
            timestamp: self.timestamp@,
            cwd: self.cwd@,
            instructions: opt_view(self.instructions),
            git: git_view(self.git),
        }
    }
}

impl SessionMeta {
    pub fn copy(&self) -> (r: SessionMeta)
        ensures
            r@ == self@,
    {
        SessionMeta {
            id: self.id,
            timestamp: self.timestamp.clone(),
            cwd: self.cwd.clone(),
            instructions: clone_opt(&self.instructions),
            git: copy_git(&self.git),
        }
    }
}

/// The mutable overlay of a session: one state record, or the fold of many.
pub struct SessionStateSnapshot {
    pub name: Option<String>,
}

impl View for SessionStateSnapshot {
    type V = Option<Seq<char>>;

    open spec fn view(&self) -> Option<Seq<char>> {
        opt_view(self.name)
    }
}

/// One line of a rollout, decoded once: the header shape, a state record,
/// any other JSON record, or text that is not a record at all (such as a
/// line cut short by a concurrent writer).
pub enum RolloutLine {
    Header(SessionMeta),
    State(SessionStateSnapshot),
    Opaque,
    Malformed,
}

/// Folds state records in order: a record that sets `name` shadows earlier
/// ones; a record without it, and every other line, leaves it as it was.
pub open spec fn fold_name(lines: Seq<RolloutLine>) -> Option<Seq<char>>
    decreases lines.len(),
{
    if lines.len() == 0 {
        None
    } else {
        match lines.last() {
            RolloutLine::State(st) if st.name is Some => st@,
            _ => fold_name(lines.drop_last()),
        }
    }
}

/// The folded state of `lines[from..]`.
pub fn fold_state(lines: &Vec<RolloutLine>, from: usize) -> (r: SessionStateSnapshot)
    requires
        from <= lines@.len(),
    ensures
        r@ == fold_name(lines@.subrange(from as int, lines@.len() as int)),
{
    let mut name: Option<String> = None;
    let mut i: usize = from;
    assert(lines@.subrange(from as int, from as int) =~= Seq::<RolloutLine>::empty());
    while i < lines.len()
        invariant
            from <= i <= lines@.len(),
            opt_view(name) == fold_name(lines@.subrange(from as int, i as int)),
        decreases lines@.len() - i,
    {
        assert(lines@.subrange(from as int, i + 1).drop_last() == lines@.subrange(
            from as int,
            i as int,
        ));
        match &lines[i] {
            RolloutLine::State(st) => {
                if st.name.is_some() {
                    name = clone_opt(&st.name);
                }
            },
            _ => {},
        }
        i = i + 1;
    }
    SessionStateSnapshot { name }
}

/// Why a rollout's header could not be read.
#[derive(PartialEq, Eq, Structural, Debug, Clone, Copy)]
pub enum ReadError {
    /// The log holds no complete line.
    Empty,
    /// The first line is not a header record.
    NotAHeader,
}

/// The header of a decoded rollout and the fold of all its state records.
/// Fails only when the first line is absent or is not a header.
pub fn read_session_header_and_state(lines: &Vec<RolloutLine>) -> (r: Result<
    (SessionMeta, SessionStateSnapshot),
    ReadError,
>)
    ensures
        lines@.len() == 0 ==> r == Err::<(SessionMeta, SessionStateSnapshot), ReadError>(
            ReadError::Empty,
        ),
        lines@.len() > 0 && !(lines@[0] is Header) ==> r == Err::<
            (SessionMeta, SessionStateSnapshot),
            ReadError,
        >(ReadError::NotAHeader),
        lines@.len() > 0 && lines@[0] is Header ==> r is Ok,
        r matches Ok((m, st)) ==> lines@[0] matches RolloutLine::Header(h) && m@ == h@ && st@
            == fold_name(lines@),
{
    if lines.len() == 0 {
        return Err(ReadError::Empty);
    }
    match &lines[0] {
        RolloutLine::Header(h) => {
            let meta = h.copy();
            let st = fold_state(lines, 0);
            assert(lines@.subrange(0, lines@.len() as int) == lines@);
            Ok((meta, st))
        },
        _ => Err(ReadError::NotAHeader),
    }
}

/// Splits `s` at line feeds: the complete lines so far, and the unterminated
/// text after the last line feed.
pub open spec fn split_acc(s: Seq<char>) -> (Seq<Seq<char>>, Seq<char>)
    decreases s.len(),
{
    if s.len() == 0 {
        (Seq::empty(), Seq::empty())
    } else {
        let (done, cur) = split_acc(s.drop_last());
        if s.last() == '\n' {
            (done.push(cur), Seq::empty())
        } else {
            (done, cur.push(s.last()))
        }
    }
}

/// The line-feed-terminated lines of `s`, without their terminators. Text
/// after the last line feed is a line still being written and is left out.
pub open spec fn complete_lines(s: Seq<char>) -> Seq<Seq<char>> {
    split_acc(s).0
}

/// The complete lines of `text`, in order, and the unterminated text after them.
pub fn split_lines_and_tail(text: &Vec<char>) -> (r: (Vec<String>, Vec<char>))
    ensures
        (r.0@.map_values(|l: String| l@), r.1@) == split_acc(text@),
{
    let mut out: Vec<String> = Vec::new();
    let mut cur: Vec<char> = Vec::new();
    let mut i: usize = 0;
    assert(text@.subrange(0, 0) =~= Seq::<char>::empty());
    while i < text.len()
        invariant
            i <= text@.len(),
            (out@.map_values(|l: String| l@), cur@) == split_acc(text@.subrange(0, i as int)),
        decreases text@.len() - i,
    {
        assert(text@.subrange(0, i + 1).drop_last() == text@.subrange(0, i as int));
        let c = text[i];
        if c == '\n' {
            let line = string_of(cur.as_slice());
            out.push(line);
            cur = Vec::new();
            assert(out@.map_values(|l: String| l@) =~= split_acc(text@.subrange(0, i + 1)).0);
        } else {
            cur.push(c);
        }
        i = i + 1;
    }
    assert(text@.subrange(0, text@.len() as int) == text@);
    (out, cur)
}

/// The complete lines of `text`, in order.
pub fn split_complete_lines(text: &Vec<char>) -> (r: Vec<String>)
    ensures
        r@.map_values(|l: String| l@) == complete_lines(text@),
{
    let (lines, _tail) = split_lines_and_tail(text);
    lines
}

/// The complete lines of the text of a log, in order.
pub fn complete_lines_of(text: &str) -> (r: Vec<String>)
    ensures
        r@.map_values(|l: String| l@) == complete_lines(text@),
{
    let cs = crate::text::chars_of(text);
    split_complete_lines(&cs)
}

pub open spec fn hex_digit(d: nat) -> char {
    if d < 10 {
        crate::text::digit_char(d)
    } else if d == 10 {
        'a'
    } else if d == 11 {
        'b'
    } else if d == 12 {
        'c'
    } else if d == 13 {
        'd'
    } else if d == 14 {
        'e'
    } else {
        'f'
    }
}

/// How one character stands inside a JSON string literal as `serde_json`
/// writes it: quote and backslash escaped, the five short control escapes,
/// other control characters as `\u00XX`, everything else as it is.
pub open spec fn json_escape_char(c: char) -> Seq<char> {
    if c == '"' {
        seq!['\\', '"']
    } else if c == '\\' {
        seq!['\\', '\\']
    } else if c == '\u{08}' {
        seq!['\\', 'b']
    } else if c == '\t' {
        seq!['\\', 't']
    } else if c == '\n' {
        seq!['\\', 'n']
    } else if c == '\u{0C}' {
        seq!['\\', 'f']
    } else if c == '\r' {
        seq!['\\', 'r']
    } else if (c as u32) < 0x20 {
        seq!['\\', 'u', '0', '0', hex_digit((c as u32 / 16) as nat), hex_digit((c as u32 % 16) as nat)]
    } else {
        seq![c]
    }
}

pub open spec fn json_escape(s: Seq<char>) -> Seq<char>
    decreases s.len(),
{
    if s.len() == 0 {
        Seq::empty()
    } else {
        json_escape(s.drop_last()) + json_escape_char(s.last())
    }
}

/// The JSON string literal of `s`.
pub open spec fn json_string(s: Seq<char>) -> Seq<char> {
    seq!['"'] + json_escape(s) + seq!['"']
}

/// Relies on `serde_json::to_string` of a `str`, which cannot fail: the
/// quoted literal, escaped character by character.
#[verifier::external_body]
fn json_quote(s: &str) -> (r: String)
    ensures
        r@ == json_string(s@),
{
    serde_json::to_string(s).unwrap_or_default()
}

pub open spec fn state_prefix() -> Seq<char> {
    seq!['{', '"', 'r', 'e', 'c', 'o', 'r', 'd', '_', 't', 'y', 'p', 'e', '"', ':', '"', 's', 't', 'a', 't', 'e', '"']
}

pub open spec fn name_key() -> Seq<char> {
    seq![',', '"', 'n', 'a', 'm', 'e', '"', ':']
}

/// The JSON object of a state record, without a line terminator.
pub open spec fn state_record_text(name: Option<Seq<char>>) -> Seq<char> {
    match name {
        Some(n) => state_prefix() + name_key() + json_string(n) + seq!['}'],
        None => state_prefix() + seq!['}'],
    }
}

/// The line that appending `name` writes to a rollout: the record and a line feed.
pub open spec fn state_line_text(name: Option<Seq<char>>) -> Seq<char> {
    state_record_text(name).push('\n')
}

fn lit(v: &mut Vec<char>, s: &str)
    ensures
        final(v)@ == old(v)@ + s@,
{
    let cs = crate::text::chars_of(s);
    push_all(v, cs.as_slice());
}

/// The text to append for one state record: a JSON object tagged as a state
/// record, then a line feed, written as one piece.
pub fn encode_state_line(state: &SessionStateSnapshot) -> (r: String)
    ensures
        r@ == state_line_text(state@),
{
    let mut out: Vec<char> = Vec::new();
    let prefix: Vec<char> = vec!['{', '"', 'r', 'e', 'c', 'o', 'r', 'd', '_', 't', 'y', 'p', 'e', '"', ':', '"', 's', 't', 'a', 't', 'e', '"'];
    push_all(&mut out, prefix.as_slice());
    match &state.name {
        Some(n) => {
            let key: Vec<char> = vec![',', '"', 'n', 'a', 'm', 'e', '"', ':'];
            push_all(&mut out, key.as_slice());
            let q = json_quote(n.as_str());
            lit(&mut out, q.as_str());
        },
        None => {},
    }
    out.push('}');
    out.push('\n');
    assert(out@ == state_line_text(state@));
    string_of(out.as_slice())
}

/// True of a state record that sets a name.
pub open spec fn sets_name(l: RolloutLine) -> bool {
    l matches RolloutLine::State(st) && st.name is Some
}

/// Folding state records yields the name of the last record that sets one.
pub proof fn lemma_fold_takes_last_name(lines: Seq<RolloutLine>, k: int)
    requires
        0 <= k < lines.len(),
        sets_name(lines[k]),
        forall|j: int| k < j < lines.len() ==> !sets_name(#[trigger] lines[j]),
    ensures
        lines[k] matches RolloutLine::State(st) && fold_name(lines) == st@,
    decreases lines.len(),
{
    if k < lines.len() - 1 {
        assert(!sets_name(lines[lines.len() - 1]));
        lemma_fold_takes_last_name(lines.drop_last(), k);
        assert(lines.drop_last()[k] == lines[k]);
    }
}

/// A line that is not a state record changes nothing in the fold, wherever
/// it is inserted among the others.
pub proof fn lemma_fold_ignores_other_lines(lines: Seq<RolloutLine>, i: int, x: RolloutLine)
    requires
        0 <= i <= lines.len(),
        !(x is State),
    ensures
        fold_name(lines.insert(i, x)) == fold_name(lines),
    decreases lines.len(),
{
    let ins = lines.insert(i, x);
    if i == lines.len() {
        assert(ins.drop_last() =~= lines);
    } else {
        lemma_fold_ignores_other_lines(lines.drop_last(), i, x);
        assert(ins.drop_last() =~= lines.drop_last().insert(i, x));
        assert(ins.last() == lines.last());
    }
}

proof fn lemma_no_feed_split(t: Seq<char>)
    requires
        forall|i: int| 0 <= i < t.len() ==> t[i] != '\n',
    ensures
        split_acc(t).0 =~= Seq::<Seq<char>>::empty(),
        split_acc(t).1 =~= t,
    decreases t.len(),
{
    if t.len() > 0 {
        lemma_no_feed_split(t.drop_last());
    }
}

proof fn lemma_split_concat(a: Seq<char>, b: Seq<char>)
    requires
        split_acc(a).1.len() == 0,
    ensures
        split_acc(a + b).0 =~= split_acc(a).0 + split_acc(b).0,
        split_acc(a + b).1 =~= split_acc(b).1,
    decreases b.len(),
{
    if b.len() == 0 {
        assert(a + b =~= a);
    } else {
        lemma_split_concat(a, b.drop_last());
        assert((a + b).drop_last() =~= a + b.drop_last());
        assert((a + b).last() == b.last());
    }
}

proof fn lemma_escape_no_feed(s: Seq<char>)
    ensures
        forall|i: int| 0 <= i < json_escape(s).len() ==> json_escape(s)[i] != '\n',
    decreases s.len(),
{
    if s.len() > 0 {
        lemma_escape_no_feed(s.drop_last());
        let c = s.last();
        let e = json_escape_char(c);
        let d1 = (c as u32 / 16) as nat;
        let d2 = (c as u32 % 16) as nat;
        assert(hex_digit(d1) != '\n');
        assert(hex_digit(d2) != '\n');
        assert(c != '\n' ==> e =~= seq![c] || e.len() >= 2);
        assert forall|i: int| 0 <= i < e.len() implies e[i] != '\n' by {}
        let p = json_escape(s.drop_last());
        assert forall|i: int| 0 <= i < (p + e).len() implies (p + e)[i] != '\n' by {
            if i >= p.len() {
                assert((p + e)[i] == e[i - p.len()]);
            }
        }
    }
}

proof fn lemma_record_no_feed(name: Option<Seq<char>>)
    ensures
        forall|i: int|
            0 <= i < state_record_text(name).len() ==> state_record_text(name)[i] != '\n',
{
    match name {
        Some(n) => {
            lemma_escape_no_feed(n);
            let parts = state_prefix() + name_key() + json_string(n) + seq!['}'];
            assert forall|i: int| 0 <= i < parts.len() implies parts[i] != '\n' by {
                let a = state_prefix();
                let b = name_key();
                let q = json_escape(n);
                if i >= a.len() + b.len() + 1 && i < a.len() + b.len() + 1 + q.len() {
                    assert(parts[i] == q[i - a.len() - b.len() - 1]);
                }
            }
        },
        None => {},
    }
}

/// The text of a log after the state records `names` were appended to `content`, in order.
pub open spec fn append_states(content: Seq<char>, names: Seq<Option<Seq<char>>>) -> Seq<char>
    decreases names.len(),
{
    if names.len() == 0 {
        content
    } else {
        append_states(content, names.drop_last()) + state_line_text(names.last())
    }
}

/// Appending is append-only: for a log whose text ends at a line feed, K
/// appends keep the old text as a prefix, keep every old line (the header
/// first among them), and add exactly K complete lines, the records in order.
pub proof fn lemma_append_only(content: Seq<char>, names: Seq<Option<Seq<char>>>)
    requires
        split_acc(content).1.len() == 0,
    ensures
        content.len() <= append_states(content, names).len(),
        append_states(content, names).subrange(0, content.len() as int) == content,
        complete_lines(append_states(content, names)) == complete_lines(content)
            + names.map_values(|n: Option<Seq<char>>| state_record_text(n)),
        complete_lines(append_states(content, names)).len() == complete_lines(content).len()
            + names.len(),
        complete_lines(content).len() > 0 ==> complete_lines(append_states(content, names))[0]
            == complete_lines(content)[0],
        split_acc(append_states(content, names)).1.len() == 0,
    decreases names.len(),
{
    let out = append_states(content, names);
    if names.len() == 0 {
        assert(names.map_values(|n: Option<Seq<char>>| state_record_text(n)) =~= Seq::<
            Seq<char>,
        >::empty());
        assert(complete_lines(content) + Seq::<Seq<char>>::empty() =~= complete_lines(content));
        assert(content.subrange(0, content.len() as int) =~= content);
    } else {
        let before = append_states(content, names.drop_last());
        lemma_append_only(content, names.drop_last());
        let rec = state_record_text(names.last());
        lemma_record_no_feed(names.last());
        lemma_no_feed_split(rec);
        assert(rec.push('\n').drop_last() =~= rec);
        assert(split_acc(rec.push('\n')).0 =~= seq![rec]);
        lemma_split_concat(before, rec.push('\n'));
        assert(out.subrange(0, content.len() as int) =~= before.subrange(0, content.len() as int));
        assert(names.map_values(|n: Option<Seq<char>>| state_record_text(n)) =~= names.drop_last().map_values(
            |n: Option<Seq<char>>| state_record_text(n),
        ).push(rec));
    }
}

/// A final line that was cut short (no line feed yet) is not a line of the
/// log: what the complete lines say, and so the folded state, is unchanged.
pub proof fn lemma_torn_tail_ignored(content: Seq<char>, tail: Seq<char>)
    requires
        split_acc(content).1.len() == 0,
        forall|i: int| 0 <= i < tail.len() ==> tail[i] != '\n',
    ensures
        complete_lines(content + tail) == complete_lines(content),
{
    lemma_no_feed_split(tail);
    lemma_split_concat(content, tail);
    assert(complete_lines(content) + Seq::<Seq<char>>::empty() =~= complete_lines(content));
}

} // verus!
