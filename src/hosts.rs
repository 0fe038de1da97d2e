//! Repository hosts: the host of a remote URL, in URL or SSH form, and the
//! host of the remote that a git configuration names.
use crate::index::text_lines;
use crate::text::{
    chars_of, contains, contains_chars, slice_chars, starts_with, starts_with_chars, string_of,
    trim, trim_chars,
};
use vstd::prelude::*;

verus! {

/// What `url::Url::parse` makes of a text: nothing when it is not a URL,
/// else the URL's host as `host_str` gives it (nothing for a URL without one).
pub uninterp spec fn url_host(u: Seq<char>) -> Option<Option<Seq<char>>>;

/// Relies on `url::Url::parse` and `url::Url::host_str`.
#[verifier::external_body]
pub(crate) fn parse_url_host(u: &str) -> (r: Option<Option<String>>)
    ensures
        match r {
            None => url_host(u@) is None,
            Some(None) => url_host(u@) == Some(None::<Seq<char>>),
            Some(Some(h)) => url_host(u@) == Some(Some(h@)),
        },
{
    url::Url::parse(u).ok().map(|p| p.host_str().map(|h| h.to_string()))
}

/// The position of the first `c` in `s`.
pub open spec fn first_index(s: Seq<char>, c: char) -> Option<int>
    decreases s.len(),
{
    if s.len() == 0 {
        None
    } else if s[0] == c {
        Some(0)
    } else {
        match first_index(s.drop_first(), c) {
            Some(i) => Some(i + 1),
            None => None,
        }
    }
}

/// The position of the last `c` in `s`.
pub open spec fn last_index(s: Seq<char>, c: char) -> Option<int>
    decreases s.len(),
{
    if s.len() == 0 {
        None
    } else if s.last() == c {
        Some(s.len() - 1)
    } else {
        last_index(s.drop_last(), c)
    }
}

/// The host of an SSH-style remote such as `git@github.com:org/repo.git`:
/// what stands between the last `@` and the first `:`.
pub open spec fn ssh_host(u: Seq<char>) -> Option<Seq<char>> {
    match first_index(u, ':') {
        Some(p) => {
            let left = u.subrange(0, p);
            match last_index(left, '@') {
                Some(a) => Some(left.subrange(a + 1, left.len() as int)),
                None => None,
            }
        },
        None => None,
    }
}

/// The host of a repository remote: the URL's host when the text is a URL,
/// else the host of its SSH form.
pub open spec fn repo_host(u: Seq<char>) -> Option<Seq<char>> {
    match url_host(u) {
        Some(h) => h,
        None => ssh_host(u),
    }
}

proof fn lemma_first_index_bounds(s: Seq<char>, c: char)
    ensures
        first_index(s, c) matches Some(i) ==> 0 <= i < s.len() && s[i] == c,
        forall|j: int|
            0 <= j < s.len() && (first_index(s, c) matches Some(i) ==> j < i) ==> s[j] != c,
    decreases s.len(),
{
    if s.len() > 0 && s[0] != c {
        lemma_first_index_bounds(s.drop_first(), c);
        assert forall|j: int|
            0 <= j < s.len() && (first_index(s, c) matches Some(i) ==> j < i) implies s[j] != c by {
            if j > 0 {
                assert(s[j] == s.drop_first()[j - 1]);
            }
        }
    }
}

/// The position of the first `c` in `v`.
pub fn find_first(v: &Vec<char>, c: char) -> (r: Option<usize>)
    ensures
        r matches Some(i) ==> first_index(v@, c) == Some(i as int),
        r is None ==> first_index(v@, c) is None,
{
    let mut i: usize = 0;
    assert(v@.subrange(0, v@.len() as int) =~= v@);
    while i < v.len()
        invariant
            i <= v@.len(),
            first_index(v@, c) == match first_index(v@.subrange(i as int, v@.len() as int), c) {
                Some(k) => Some(k + i),
                None => None,
            },
        decreases v@.len() - i,
    {
        if v[i] == c {
            return Some(i);
        }
        assert(v@.subrange(i as int, v@.len() as int).drop_first() =~= v@.subrange(
            i + 1,
            v@.len() as int,
        ));
        i = i + 1;
    }
    None
}

/// The position of the last `c` in `v`.
pub fn find_last(v: &Vec<char>, c: char) -> (r: Option<usize>)
    ensures
        r matches Some(i) ==> last_index(v@, c) == Some(i as int),
        r is None ==> last_index(v@, c) is None,
{
    let mut i: usize = v.len();
    assert(v@.subrange(0, v@.len() as int) =~= v@);
    while i > 0
        invariant
            i <= v@.len(),
            last_index(v@, c) == last_index(v@.subrange(0, i as int), c),
        decreases i,
    {
        if v[i - 1] == c {
            return Some(i - 1);
        }
        assert(v@.subrange(0, i as int).drop_last() =~= v@.subrange(0, i - 1));
        i = i - 1;
    }
    None
}

/// The host of the SSH form of a remote.
pub fn ssh_host_of(u: &Vec<char>) -> (r: Option<String>)
    ensures
        match r {
            Some(h) => ssh_host(u@) == Some(h@),
            None => ssh_host(u@) is None,
        },
{
    proof {
        lemma_first_index_bounds(u@, ':');
    }
    match find_first(u, ':') {
        Some(p) => {
            let left = slice_chars(u, 0, p);
            match find_last(&left, '@') {
                Some(a) => {
                    proof {
                        assert(last_index(left@, '@') == Some(a as int));
                        lemma_last_index_bounds(left@, '@');
                    }
                    let h = slice_chars(&left, a + 1, left.len());
                    Some(string_of(h.as_slice()))
                },
                None => None,
            }
        },
        None => None,
    }
}

proof fn lemma_last_index_bounds(s: Seq<char>, c: char)
    ensures
        last_index(s, c) matches Some(i) ==> 0 <= i < s.len(),
    decreases s.len(),
{
    if s.len() > 0 && s.last() != c {
        lemma_last_index_bounds(s.drop_last(), c);
    }
}

pub proof fn lemma_first_index_in(s: Seq<char>, c: char)
    ensures
        first_index(s, c) matches Some(i) ==> 0 <= i < s.len(),
{
    lemma_first_index_bounds(s, c);
}

pub proof fn lemma_last_index_in(s: Seq<char>, c: char)
    ensures
        last_index(s, c) matches Some(i) ==> 0 <= i < s.len(),
{
    lemma_last_index_bounds(s, c);
}

/// The host of a repository remote in URL or SSH form.
pub fn repo_host_from_url(u: &str) -> (r: Option<String>)
    ensures
        match r {
            Some(h) => repo_host(u@) == Some(h@),
            None => repo_host(u@) is None,
        },
{
    match parse_url_host(u) {
        Some(h) => h,
        None => {
            let cs = chars_of(u);
            ssh_host_of(&cs)
        },
    }
}

pub open spec fn origin_marker() -> Seq<char> {
    seq!['r', 'e', 'm', 'o', 't', 'e', ' ', '"', 'o', 'r', 'i', 'g', 'i', 'n', '"']
}

pub open spec fn url_key() -> Seq<char> {
    seq!['u', 'r', 'l', ' ', '=']
}

/// Scans git configuration lines: a section header says whether the lines
/// after it belong to the `origin` remote; the first `url =` line there gives
/// the answer at once; otherwise the first remote URL that has a host is kept.
pub open spec fn config_scan(lines: Seq<Seq<char>>, in_origin: bool, best: Option<Seq<char>>) -> Option<Seq<char>>
    decreases lines.len(),
{
    if lines.len() == 0 {
        best
    } else {
        let l = trim(lines[0]);
        if starts_with(l, seq!['[']) {
            config_scan(lines.drop_first(), contains(l, origin_marker()), best)
        } else if starts_with(l, url_key()) {
            let h = repo_host(trim(l.subrange(url_key().len() as int, l.len() as int)));
            if in_origin {
                h
            } else {
                config_scan(lines.drop_first(), in_origin, if best is None { h } else { best })
            }
        } else {
            config_scan(lines.drop_first(), in_origin, best)
        }
    }
}

/// The repository host that a git configuration text names: that of the
/// `origin` remote, else that of the first remote with a host.
pub open spec fn config_host(text: Seq<char>) -> Option<Seq<char>> {
    config_scan(text_lines(text), false, None)
}

/// One line of the configuration scan: either the answer, or the scan's
/// state for the lines after it.
fn config_step(
    raw: &Vec<char>,
    in_origin: &mut bool,
    best: &mut Option<String>,
    Ghost(ls): Ghost<Seq<Seq<char>>>,
) -> (r: Option<Option<String>>)
    requires
        ls.len() > 0,
        ls[0] == raw@,
    ensures
        match r {
            Some(h) => config_scan(ls, *old(in_origin), crate::rollout::opt_view(*old(best)))
                == crate::rollout::opt_view(h),
            None => config_scan(ls, *old(in_origin), crate::rollout::opt_view(*old(best)))
                == config_scan(ls.drop_first(), *final(in_origin), crate::rollout::opt_view(*final(best))),
        },
{
    let open_b: Vec<char> = vec!['['];
    let marker: Vec<char> = vec!['r', 'e', 'm', 'o', 't', 'e', ' ', '"', 'o', 'r', 'i', 'g', 'i', 'n', '"'];
    let key: Vec<char> = vec!['u', 'r', 'l', ' ', '='];
    assert(open_b@ =~= seq!['[']);
    assert(marker@ =~= origin_marker());
    assert(key@ =~= url_key());
    let l = trim_chars(raw);
    if starts_with_chars(&l, &open_b) {
        *in_origin = contains_chars(&l, &marker);
        None
    } else if starts_with_chars(&l, &key) {
        let rest = slice_chars(&l, 5, l.len());
        let url = trim_chars(&rest);
        let us = string_of(url.as_slice());
        let h = repo_host_from_url(us.as_str());
        if *in_origin {
            return Some(h);
        }
        if best.is_none() {
            *best = h;
        }
        None
    } else {
        None
    }
}

/// The repository host named by the git configuration `text`.
pub fn host_from_git_config(text: &str) -> (r: Option<String>)
    ensures
        match r {
            Some(h) => config_host(text@) == Some(h@),
            None => config_host(text@) is None,
        },
{
    let cs = chars_of(text);
    let (lines, tail) = crate::rollout::split_lines_and_tail(&cs);
    let ghost ls = text_lines(text@);
    assert(ls =~= lines@.map_values(|l: String| l@).push(tail@));
    let mut in_origin = false;
    let mut best: Option<String> = None;
    let n = lines.len();
    let mut i: usize = 0;
    assert(ls.subrange(0, ls.len() as int) =~= ls);
    while i < n
        invariant
            n == lines@.len(),
            i <= n,
            ls == text_lines(text@),
            ls == lines@.map_values(|l: String| l@).push(tail@),
            config_host(text@) == config_scan(
                ls.subrange(i as int, ls.len() as int),
                in_origin,
                crate::rollout::opt_view(best),
            ),
        decreases n - i,
    {
        assert(lines@.map_values(|l: String| l@)[i as int] == lines@[i as int]@);
        let raw = chars_of(lines[i].as_str());
        let ghost sub = ls.subrange(i as int, ls.len() as int);
        assert(sub.drop_first() =~= ls.subrange(i + 1, ls.len() as int));
        if let Some(h) = config_step(&raw, &mut in_origin, &mut best, Ghost(sub)) {
            return h;
        }
        i = i + 1;
    }
    let ghost sub = ls.subrange(i as int, ls.len() as int);
    assert(sub =~= seq![tail@]);
    assert(sub.drop_first() =~= Seq::<Seq<char>>::empty());
    if let Some(h) = config_step(&tail, &mut in_origin, &mut best, Ghost(sub)) {
        return h;
    }
    best
}

} // verus!
