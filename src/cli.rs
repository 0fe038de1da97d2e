//! The `sessions` command: its arguments, finding a session by id prefix,
//! and the compact texts that its listing prints.
use crate::index::{clip, SessionEntry};
use crate::rollout::hex_digit;
use crate::text::{
    chars_of, decimal, decimal_text, push_all, slice_chars, starts_with, starts_with_chars,
    string_of, trim, trim_chars,
};
use vstd::prelude::*;

verus! {

/// The `sessions` command line.
pub struct SessionsCli {
    pub cmd: SessionsSubcommand,
}

/// What the `sessions` command does.
pub enum SessionsSubcommand {
    /// List recent sessions, newest first.
    List { limit: Option<usize>, json: bool },
    /// Assign or update the name of a session, given by id prefix or path.
    Name { id_or_path: String, name: String },
}

/// How many sessions a listing shows when no limit is given.
pub const DEFAULT_LIMIT: usize = 10;

/// The limit a listing uses.
pub fn effective_limit(limit: Option<usize>) -> (r: usize)
    ensures
        r == match limit {
            Some(n) => n,
            None => DEFAULT_LIMIT,
        },
{
    match limit {
        Some(n) => n,
        None => DEFAULT_LIMIT,
    }
}

/// The last `count` hexadecimal digits of `n`, lowercase, most significant first.
pub open spec fn hex_digits(n: nat, count: nat) -> Seq<char>
    decreases count,
{
    if count == 0 {
        Seq::empty()
    } else {
        hex_digits(n / 16, (count - 1) as nat).push(hex_digit(n % 16))
    }
}

/// The simple text form of a UUID: 32 lowercase hexadecimal digits.
pub open spec fn uuid_simple(id: u128) -> Seq<char> {
    hex_digits(id as nat, 32)
}

/// Relies on `uuid::Uuid::from_u128` (big-endian) and the `Display` of
/// `Uuid::simple`: the 32 lowercase hexadecimal digits of the number.
#[verifier::external_body]
pub(crate) fn uuid_text(id: u128) -> (r: String)
    ensures
        r@ == uuid_simple(id),
{
    uuid::Uuid::from_u128(id).simple().to_string()
}

/// The short form of a session id: the first eight digits of its simple text.
pub fn id8(id: u128) -> (r: String)
    ensures
        r@ == uuid_simple(id).subrange(0, 8),
{
    let t = uuid_text(id);
    let c = chars_of(t.as_str());
    proof {
        lemma_hex_len(id as nat, 32);
    }
    let h = slice_chars(&c, 0, 8);
    string_of(h.as_slice())
}

pub proof fn lemma_hex_len(n: nat, count: nat)
    ensures
        hex_digits(n, count).len() == count,
    decreases count,
{
    if count > 0 {
        lemma_hex_len(n / 16, (count - 1) as nat);
    }
}

/// Why a session could not be found by id prefix.
#[derive(PartialEq, Eq, Structural, Debug, Clone, Copy)]
pub enum ResolveError {
    /// No session's id starts with the prefix.
    NoMatch,
    /// More than one session's id starts with the prefix.
    Ambiguous,
}

/// The positions of the entries whose id starts with `q`.
pub open spec fn id_matches(entries: Seq<SessionEntry>, q: Seq<char>) -> Seq<int>
    decreases entries.len(),
{
    if entries.len() == 0 {
        Seq::empty()
    } else if starts_with(uuid_simple(entries.last().id), q) {
        id_matches(entries.drop_last(), q).push(entries.len() - 1)
    } else {
        id_matches(entries.drop_last(), q)
    }
}

proof fn lemma_id_matches_bounds(entries: Seq<SessionEntry>, q: Seq<char>)
    ensures
        forall|i: int|
            0 <= i < id_matches(entries, q).len() ==> 0 <= #[trigger] id_matches(entries, q)[i]
                < entries.len(),
    decreases entries.len(),
{
    if entries.len() > 0 {
        let d = entries.drop_last();
        lemma_id_matches_bounds(d, q);
        assert forall|i: int| 0 <= i < id_matches(entries, q).len() implies 0
            <= #[trigger] id_matches(entries, q)[i] < entries.len() by {
            if i < id_matches(d, q).len() {
                assert(id_matches(entries, q)[i] == id_matches(d, q)[i]);
            }
        }
    }
}

/// The session file that `id_or_path` names. A path that exists names
/// itself; otherwise the text is an id prefix, which must match exactly one
/// of `sessions`.
pub fn resolve_session_path(id_or_path: &str, path_exists: bool, sessions: &Vec<SessionEntry>) -> (r: Result<String, ResolveError>)
    ensures
        path_exists ==> (r matches Ok(p) && p@ == id_or_path@),
        !path_exists ==> match r {
            Ok(p) => id_matches(sessions@, id_or_path@).len() == 1 && p@ == sessions@[id_matches(
                sessions@,
                id_or_path@,
            )[0]].path@,
            Err(ResolveError::NoMatch) => id_matches(sessions@, id_or_path@).len() == 0,
            Err(ResolveError::Ambiguous) => id_matches(sessions@, id_or_path@).len() > 1,
        },
{
    if path_exists {
        return Ok(String::from_str(id_or_path));
    }
    let q = chars_of(id_or_path);
    let mut count: usize = 0;
    let mut first: usize = 0;
    let mut i: usize = 0;
    proof {
        lemma_id_matches_bounds(sessions@, q@);
    }
    assert(sessions@.subrange(0, 0) =~= Seq::<SessionEntry>::empty());
    while i < sessions.len()
        invariant
            i <= sessions@.len(),
            q@ == id_or_path@,
            count == id_matches(sessions@.subrange(0, i as int), q@).len(),
            count > 0 ==> first == id_matches(sessions@.subrange(0, i as int), q@)[0],
            count <= i,
        decreases sessions@.len() - i,
    {
        let ghost sub = sessions@.subrange(0, i + 1);
        assert(sub.drop_last() =~= sessions@.subrange(0, i as int));
        let id = uuid_text(sessions[i].id);
        let ic = chars_of(id.as_str());
        if starts_with_chars(&ic, &q) {
            if count == 0 {
                first = i;
            }
            count = count + 1;
        }
        i = i + 1;
    }
    assert(sessions@.subrange(0, sessions@.len() as int) =~= sessions@);
    if count == 0 {
        Err(ResolveError::NoMatch)
    } else if count == 1 {
        Ok(sessions[first].path.clone())
    } else {
        Err(ResolveError::Ambiguous)
    }
}

/// `s` with each `T` made a space and each `Z` dropped.
pub open spec fn untag(s: Seq<char>) -> Seq<char>
    decreases s.len(),
{
    if s.len() == 0 {
        s
    } else {
        let c = s.last();
        let rest = untag(s.drop_last());
        if c == 'T' {
            rest.push(' ')
        } else if c == 'Z' {
            rest
        } else {
            rest.push(c)
        }
    }
}

/// The position of the first `c` in `s`.
pub open spec fn first_of(s: Seq<char>, c: char) -> Option<int> {
    crate::hosts::first_index(s, c)
}

/// `s` up to its last `:`, or all of it when it has none.
pub open spec fn cut_last_colon(s: Seq<char>) -> Seq<char> {
    match crate::hosts::last_index(s, ':') {
        Some(i) => s.subrange(0, i),
        None => s,
    }
}

/// An RFC 3339 timestamp shortened to minutes: `T` made a space, `Z`
/// dropped, fractional seconds dropped, then the seconds dropped.
pub open spec fn compact(s: Seq<char>) -> Seq<char> {
    let t = untag(s);
    match first_of(t, '.') {
        Some(d) => cut_last_colon(t.subrange(0, d)),
        None => cut_last_colon(t),
    }
}

/// The timestamp `iso_ts` shortened to minutes, such as `2025-08-28 17:59`.
pub fn compact_time(iso_ts: &str) -> (r: String)
    ensures
        r@ == compact(iso_ts@),
{
    let cs = chars_of(iso_ts);
    let mut t: Vec<char> = Vec::new();
    let mut i: usize = 0;
    assert(cs@.subrange(0, 0) =~= Seq::<char>::empty());
    while i < cs.len()
        invariant
            i <= cs@.len(),
            t@ == untag(cs@.subrange(0, i as int)),
        decreases cs@.len() - i,
    {
        assert(cs@.subrange(0, i + 1).drop_last() =~= cs@.subrange(0, i as int));
        let c = cs[i];
        if c == 'T' {
            t.push(' ');
        } else if c != 'Z' {
            t.push(c);
        }
        i = i + 1;
    }
    assert(cs@.subrange(0, cs@.len() as int) =~= cs@);
    let head = match crate::hosts::find_first(&t, '.') {
        Some(d) => {
            proof {
                crate::hosts::lemma_first_index_in(t@, '.');
            }
            slice_chars(&t, 0, d)
        },
        None => slice_chars(&t, 0, t.len()),
    };
    assert(t@.subrange(0, t@.len() as int) =~= t@);
    match crate::hosts::find_last(&head, ':') {
        Some(c) => {
            proof {
                crate::hosts::lemma_last_index_in(head@, ':');
            }
            let h = slice_chars(&head, 0, c);
            string_of(h.as_slice())
        },
        None => string_of(head.as_slice()),
    }
}

/// `n` followed by the one-character unit `u`.
pub open spec fn amount(n: nat, u: char) -> Seq<char> {
    decimal(n).push(u)
}

/// A duration in seconds, in its largest fitting unit: seconds below 90,
/// minutes below 90 minutes, hours below 48 hours, else days.
pub open spec fn duration_text(s: u64) -> Seq<char> {
    if s < 90 {
        amount(s as nat, 's')
    } else if s < 90 * 60 {
        amount((s / 60) as nat, 'm')
    } else if s < 48 * 3600 {
        amount((s / 3600) as nat, 'h')
    } else {
        amount((s / 86_400) as nat, 'd')
    }
}

/// `secs` in its largest fitting unit, such as `45s`, `2m`, `5h` or `3d`.
pub fn human_duration(secs: u64) -> (r: String)
    ensures
        r@ == duration_text(secs),
{
    let (n, u) = if secs < 90 {
        (secs, 's')
    } else if secs < 90 * 60 {
        (secs / 60, 'm')
    } else if secs < 48 * 3600 {
        (secs / 3600, 'h')
    } else {
        (secs / 86_400, 'd')
    };
    let d = decimal_text(n);
    let mut v = chars_of(d.as_str());
    v.push(u);
    string_of(v.as_slice())
}

pub open spec fn ago_suffix() -> Seq<char> {
    seq![' ', 'a', 'g', 'o']
}

/// How long ago something happened, such as `5m ago`.
pub fn human_ago(secs: u64) -> (r: String)
    ensures
        r@ == duration_text(secs) + ago_suffix(),
{
    let d = human_duration(secs);
    let mut v = chars_of(d.as_str());
    let s: Vec<char> = vec![' ', 'a', 'g', 'o'];
    push_all(&mut v, s.as_slice());
    string_of(v.as_slice())
}

pub open spec fn dim_on() -> Seq<char> {
    seq!['\u{1b}', '[', '2', 'm']
}

pub open spec fn dim_off() -> Seq<char> {
    seq!['\u{1b}', '[', '0', 'm']
}

/// `s` wrapped in the terminal's dim style and a reset.
pub fn dim(s: &str) -> (r: String)
    ensures
        r@ == dim_on() + s@ + dim_off(),
{
    let mut v: Vec<char> = vec!['\u{1b}', '[', '2', 'm'];
    let cs = chars_of(s);
    push_all(&mut v, cs.as_slice());
    let off: Vec<char> = vec!['\u{1b}', '[', '0', 'm'];
    push_all(&mut v, off.as_slice());
    string_of(v.as_slice())
}

/// `p` with the home directory `home` at its start written as `~`.
pub open spec fn shortened(p: Seq<char>, home: Option<Seq<char>>) -> Seq<char> {
    match home {
        Some(h) if starts_with(p, h) => {
            let rest = p.subrange(h.len() as int, p.len() as int);
            let rest = if rest.len() > 0 && rest[0] == '/' {
                rest.drop_first()
            } else {
                rest
            };
            seq!['~', '/'] + rest
        },
        _ => p,
    }
}

/// `p` with the home directory written as `~`.
pub fn shorten_path(p: &str, home: &Option<String>) -> (r: String)
    ensures
        r@ == shortened(p@, crate::rollout::opt_view(*home)),
{
    let pc = chars_of(p);
    if let Some(h) = home {
        let hc = chars_of(h.as_str());
        if starts_with_chars(&pc, &hc) {
            let mut start = hc.len();
            if start < pc.len() && pc[start] == '/' {
                start = start + 1;
            }
            let rest = slice_chars(&pc, start, pc.len());
            let ghost r0 = pc@.subrange(hc@.len() as int, pc@.len() as int);
            assert(r0.len() > 0 && r0[0] == '/' ==> r0.drop_first() =~= rest@);
            assert(!(r0.len() > 0 && r0[0] == '/') ==> r0 =~= rest@);
            let mut v: Vec<char> = vec!['~', '/'];
            push_all(&mut v, rest.as_slice());
            return string_of(v.as_slice());
        }
    }
    String::from_str(p)
}

/// The longest snippet shown, in characters.
pub const SNIPPET_MAX: usize = 60;

/// A message snippet: trimmed, and cut to fit with an ellipsis.
pub open spec fn snippet(s: Seq<char>) -> Seq<char> {
    let t = trim(s);
    if t.len() <= SNIPPET_MAX {
        t
    } else {
        clip(t, (SNIPPET_MAX - 1) as nat)
    }
}

/// The snippet of `s`.
pub fn truncate_snippet(s: &str) -> (r: String)
    ensures
        r@ == snippet(s@),
{
    let cs = chars_of(s);
    let t = trim_chars(&cs);
    if t.len() <= SNIPPET_MAX {
        string_of(t.as_slice())
    } else {
        let c = crate::index::clip_chars(&t, SNIPPET_MAX - 1);
        string_of(c.as_slice())
    }
}

pub open spec fn user_role() -> Seq<char> {
    seq!['u', 's', 'e', 'r']
}

pub open spec fn assistant_role() -> Seq<char> {
    seq!['a', 's', 's', 'i', 's', 't', 'a', 'n', 't']
}

/// The text of the first message of `msgs` (role, text) with role `role`.
pub open spec fn first_with_role(msgs: Seq<(String, String)>, role: Seq<char>) -> Option<Seq<char>>
    decreases msgs.len(),
{
    if msgs.len() == 0 {
        None
    } else if msgs[0].0@ == role {
        Some(msgs[0].1@)
    } else {
        first_with_role(msgs.drop_first(), role)
    }
}

/// The text of the last message of `msgs` (role, text) with role `role`.
pub open spec fn last_with_role(msgs: Seq<(String, String)>, role: Seq<char>) -> Option<Seq<char>>
    decreases msgs.len(),
{
    if msgs.len() == 0 {
        None
    } else if msgs.last().0@ == role {
        Some(msgs.last().1@)
    } else {
        last_with_role(msgs.drop_last(), role)
    }
}

/// The snippet of a message text, or nothing when there is no such message.
pub open spec fn snippet_of(t: Option<Seq<char>>) -> Seq<char> {
    match t {
        Some(t) => snippet(t),
        None => Seq::empty(),
    }
}

fn same_text(a: &str, b: &Vec<char>) -> (r: bool)
    ensures
        r == (a@ == b@),
{
    let ac = chars_of(a);
    if ac.len() != b.len() {
        return false;
    }
    let r = starts_with_chars(&ac, b);
    assert(ac@.subrange(0, b@.len() as int) =~= ac@);
    r
}

/// The two snippets shown for a session's messages (role, text), in order:
/// the first user message and the last assistant message, each empty when
/// there is none.
pub fn pick_snippets(msgs: &Vec<(String, String)>) -> (r: (String, String))
    ensures
        r.0@ == snippet_of(first_with_role(msgs@, user_role())),
        r.1@ == snippet_of(last_with_role(msgs@, assistant_role())),
{
    let user: Vec<char> = vec!['u', 's', 'e', 'r'];
    let assistant: Vec<char> = vec!['a', 's', 's', 'i', 's', 't', 'a', 'n', 't'];
    assert(user@ =~= user_role());
    assert(assistant@ =~= assistant_role());
    let mut first = String::new();
    let mut i: usize = 0;
    let mut found = false;
    assert(msgs@.subrange(0, msgs@.len() as int) =~= msgs@);
    while i < msgs.len() && !found
        invariant
            i <= msgs@.len(),
            user@ == user_role(),
            found ==> first@ == snippet_of(first_with_role(msgs@, user_role())),
            !found ==> first@ == Seq::<char>::empty(),
            !found ==> first_with_role(msgs@, user_role()) == first_with_role(
                msgs@.subrange(i as int, msgs@.len() as int),
                user_role(),
            ),
        decreases msgs@.len() - i + if found { 0int } else { 1int },
    {
        let ghost sub = msgs@.subrange(i as int, msgs@.len() as int);
        assert(sub.drop_first() =~= msgs@.subrange(i + 1, msgs@.len() as int));
        assert(sub[0] == msgs@[i as int]);
        if same_text(msgs[i].0.as_str(), &user) {
            first = truncate_snippet(msgs[i].1.as_str());
            found = true;
        } else {
            i = i + 1;
        }
    }
    if !found {
        assert(msgs@.subrange(i as int, msgs@.len() as int) =~= Seq::<(String, String)>::empty());
        assert(first_with_role(Seq::<(String, String)>::empty(), user_role()) is None);
        assert(first@ =~= Seq::<char>::empty());
    }
    let ghost first_v = first@;
    assert(first_v == snippet_of(first_with_role(msgs@, user_role())));
    let mut last = String::new();
    let mut j: usize = msgs.len();
    let mut got = false;
    while j > 0 && !got
        invariant
            j <= msgs@.len(),
            assistant@ == assistant_role(),
            first@ == first_v,
            got ==> last@ == snippet_of(last_with_role(msgs@, assistant_role())),
            !got ==> last@ == Seq::<char>::empty(),
            !got ==> last_with_role(msgs@, assistant_role()) == last_with_role(
                msgs@.subrange(0, j as int),
                assistant_role(),
            ),
        decreases j + if got { 0int } else { 1int },
    {
        let ghost sub = msgs@.subrange(0, j as int);
        assert(sub.drop_last() =~= msgs@.subrange(0, j - 1));
        assert(sub.last() == msgs@[j - 1]);
        if same_text(msgs[j - 1].0.as_str(), &assistant) {
            last = truncate_snippet(msgs[j - 1].1.as_str());
            got = true;
        } else {
            j = j - 1;
        }
    }
    if !got {
        assert(msgs@.subrange(0, 0) =~= Seq::<(String, String)>::empty());
        assert(last_with_role(Seq::<(String, String)>::empty(), assistant_role()) is None);
        assert(last@ =~= Seq::<char>::empty());
    }
    (first, last)
}

} // verus!
