//! The two lines that show one session in the picker: time, short id, title
//! and badges; then repository host, short commit and path.
use crate::cli::{amount, shortened, uuid_simple, shorten_path};
use crate::clock::Instant;
use crate::hosts::{parse_url_host, url_host};
use crate::index::SessionEntry;
use crate::rollout::{git_view, opt_view};
use crate::text::{chars_of, decimal, decimal_text, is_blank, push_all, string_of};
use vstd::prelude::*;

verus! {

/// What chrono writes for an instant in UTC with `%Y-%m-%d %H:%M`, or
/// nothing for an instant outside its range.
pub uninterp spec fn utc_minute_text(secs: i64, nanos: u32) -> Option<Seq<char>>;

/// Relies on `chrono::DateTime::from_timestamp` and `format("%Y-%m-%d %H:%M")`.
#[verifier::external_body]
pub(crate) fn minute_text(t: Instant) -> (r: Option<String>)
    ensures
        match r {
            Some(s) => utc_minute_text(t.secs, t.nanos) == Some(s@),
            None => utc_minute_text(t.secs, t.nanos) is None,
        },
{
    chrono::DateTime::from_timestamp(t.secs, t.nanos).map(|d| d.format("%Y-%m-%d %H:%M").to_string())
}

/// A session's length in its largest unit up to hours.
pub open spec fn short_duration(s: u64) -> Seq<char> {
    if s < 90 {
        amount(s as nat, 's')
    } else if s < 90 * 60 {
        amount((s / 60) as nat, 'm')
    } else {
        amount((s / 3600) as nat, 'h')
    }
}

/// The turn badge: ` #N` when there were turns.
pub open spec fn turns_badge(n: usize) -> Seq<char> {
    if n > 0 {
        seq![' ', '#'] + decimal(n as nat)
    } else {
        Seq::empty()
    }
}

/// The badges after a title: branch in brackets, turns, and length.
pub open spec fn badge(e: SessionEntry) -> Seq<char> {
    let turns = turns_badge(e.approx_turns);
    let dur = match e.duration_secs {
        Some(s) => short_duration(s),
        None => Seq::empty(),
    };
    let branch = match git_view(e.git) {
        Some(g) => g.branch,
        None => None,
    };
    match branch {
        Some(b) => if dur.len() > 0 {
            seq![' ', '['] + b + seq![']'] + turns + seq![' ', ' '] + dur
        } else {
            seq![' ', '['] + b + seq![']'] + turns
        },
        None => if dur.len() > 0 {
            turns + seq![' ', ' '] + dur
        } else {
            turns
        },
    }
}

/// The first line of a row: time, the first eight digits of the id, the
/// title, and the badges when there are any.
pub open spec fn primary_line(e: SessionEntry) -> Seq<char> {
    let time = match utc_minute_text(e.when.secs, e.when.nanos) {
        Some(t) => t,
        None => Seq::empty(),
    };
    let head = time + seq![' ', ' '] + uuid_simple(e.id).subrange(0, 8) + seq![' ', ' '] + e.title@;
    if is_blank(badge(e)) {
        head
    } else {
        head + seq![' ', ' '] + badge(e)
    }
}

/// The second line of a row: repository host, the first seven characters
/// of the commit, and the path with the home directory shortened.
pub open spec fn secondary_line(e: SessionEntry, home: Option<Seq<char>>) -> Seq<char> {
    let host = match git_view(e.git) {
        Some(g) => match g.repository_url {
            Some(u) => match url_host(u) {
                Some(Some(h)) => h,
                _ => Seq::empty(),
            },
            None => Seq::empty(),
        },
        None => Seq::empty(),
    };
    let sha = match git_view(e.git) {
        Some(g) => match g.commit_hash {
            Some(c) => if c.len() <= 7 { c } else { c.subrange(0, 7) },
            None => Seq::empty(),
        },
        None => Seq::empty(),
    };
    let a = if sha.len() > 0 {
        if host.len() > 0 {
            host + seq![' '] + sha
        } else {
            sha
        }
    } else {
        host
    };
    let b = if a.len() > 0 {
        a.push(' ')
    } else {
        a
    };
    b + shortened(e.path@, home)
}

fn push_text(v: &mut Vec<char>, s: &str)
    ensures
        final(v)@ == old(v)@ + s@,
{
    let cs = chars_of(s);
    push_all(v, cs.as_slice());
}

fn badge_text(e: &SessionEntry) -> (r: Vec<char>)
    ensures
        r@ == badge(*e),
{
    let mut turns: Vec<char> = Vec::new();
    if e.approx_turns > 0 {
        turns.push(' ');
        turns.push('#');
        let d = decimal_text(e.approx_turns as u64);
        push_text(&mut turns, d.as_str());
    }
    let mut dur: Vec<char> = Vec::new();
    if let Some(s) = e.duration_secs {
        let (n, u) = if s < 90 {
            (s, 's')
        } else if s < 90 * 60 {
            (s / 60, 'm')
        } else {
            (s / 3600, 'h')
        };
        let d = decimal_text(n);
        push_text(&mut dur, d.as_str());
        dur.push(u);
    }
    let mut out: Vec<char> = Vec::new();
    let branch: Option<&String> = match &e.git {
        Some(g) => match &g.branch {
            Some(b) => Some(b),
            None => None,
        },
        None => None,
    };
    if let Some(b) = branch {
        out.push(' ');
        out.push('[');
        push_text(&mut out, b.as_str());
        out.push(']');
    }
    push_all(&mut out, turns.as_slice());
    if dur.len() > 0 {
        out.push(' ');
        out.push(' ');
        push_all(&mut out, dur.as_slice());
    }
    assert(out@ =~= badge(*e));
    out
}

/// The two lines of the picker row for `e`, with `home` as the home directory.
pub fn build_row_text(e: &SessionEntry, home: &Option<String>) -> (r: (String, String))
    ensures
        r.0@ == primary_line(*e),
        r.1@ == secondary_line(*e, opt_view(*home)),
{
    let mut p: Vec<char> = Vec::new();
    if let Some(t) = minute_text(e.when) {
        push_text(&mut p, t.as_str());
    }
    p.push(' ');
    p.push(' ');
    let short = crate::cli::id8(e.id);
    push_text(&mut p, short.as_str());
    p.push(' ');
    p.push(' ');
    push_text(&mut p, e.title.as_str());
    let b = badge_text(e);
    if !crate::text::blank(&b) {
        p.push(' ');
        p.push(' ');
        push_all(&mut p, b.as_slice());
    }
    let mut host: Vec<char> = Vec::new();
    let mut sha: Vec<char> = Vec::new();
    if let Some(g) = &e.git {
        if let Some(u) = &g.repository_url {
            if let Some(Some(h)) = parse_url_host(u.as_str()) {
                push_text(&mut host, h.as_str());
            }
        }
        if let Some(c) = &g.commit_hash {
            let cc = chars_of(c.as_str());
            let k = if cc.len() <= 7 {
                cc.len()
            } else {
                7
            };
            sha = crate::text::slice_chars(&cc, 0, k);
            assert(cc@.len() <= 7 ==> cc@.subrange(0, k as int) =~= cc@);
        }
    }
    let mut s: Vec<char> = Vec::new();
    push_all(&mut s, host.as_slice());
    if sha.len() > 0 {
        if s.len() > 0 {
            s.push(' ');
        }
        push_all(&mut s, sha.as_slice());
    }
    if s.len() > 0 {
        s.push(' ');
    }
    let sp = shorten_path(e.path.as_str(), home);
    push_text(&mut s, sp.as_str());
    assert(p@ =~= primary_line(*e));
    assert(s@ =~= secondary_line(*e, opt_view(*home)));
    (string_of(p.as_slice()), string_of(s.as_slice()))
}

} // verus!
