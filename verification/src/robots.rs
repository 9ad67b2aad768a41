//! Scanning `robots.txt` for `Sitemap:` directives.  A line whose
//! first eight characters spell `sitemap:` regardless of ASCII case
//! contributes everything after that first colon, trimmed; every other
//! line is ignored.

use vstd::prelude::*;

use crate::bridge::chars_to_string;
use crate::bridge::str_to_chars;
use crate::chars::has_at_ci;
use crate::chars::is_space_char;
use crate::chars::spec_has_at_ci;
use crate::chars::spec_trim;
use crate::chars::trim_vec;

verus! {

/// Line splitting as `str::lines` does it: lines end at `\n`, a
/// carriage return directly before the `\n` is dropped, and a final
/// line ending is optional.  One character per step; `cur` is the line
/// being collected.
pub open spec fn lines_from(s: Seq<char>, i: int, cur: Seq<char>, acc: Seq<Seq<char>>) -> Seq<
    Seq<char>,
>
    decreases s.len() - i,
{
    if i < 0 || i >= s.len() {
        if cur.len() > 0 {
            acc.push(cur)
        } else {
            acc
        }
    } else if s[i] == '\n' {
        let line = if cur.len() > 0 && cur.last() == '\r' {
            cur.drop_last()
        } else {
            cur
        };
        lines_from(s, i + 1, Seq::empty(), acc.push(line))
    } else {
        lines_from(s, i + 1, cur.push(s[i]), acc)
    }
}

pub open spec fn spec_lines(s: Seq<char>) -> Seq<Seq<char>> {
    lines_from(s, 0, Seq::empty(), Seq::empty())
}

/// The prefix a sitemap directive starts with.
pub open spec fn sitemap_prefix() -> Seq<char> {
    seq!['s', 'i', 't', 'e', 'm', 'a', 'p', ':']
}

/// Whether a line is a sitemap directive: it begins, up to ASCII case,
/// with `sitemap:`.
pub open spec fn is_sitemap_line(line: Seq<char>) -> bool {
    spec_has_at_ci(line, 0, sitemap_prefix())
}

/// The URL a directive line carries: what follows the colon, trimmed.
pub open spec fn sitemap_value(line: Seq<char>) -> Seq<char> {
    spec_trim(line.subrange(8, line.len() as int))
}

/// The directive values of a line sequence, in order.
pub open spec fn sitemap_values_from(ls: Seq<Seq<char>>, i: int, acc: Seq<Seq<char>>) -> Seq<
    Seq<char>,
>
    decreases ls.len() - i,
{
    if i < 0 || i >= ls.len() {
        acc
    } else if is_sitemap_line(ls[i]) {
        sitemap_values_from(ls, i + 1, acc.push(sitemap_value(ls[i])))
    } else {
        sitemap_values_from(ls, i + 1, acc)
    }
}

/// Every sitemap URL a `robots.txt` text announces, in line order.
pub open spec fn spec_robots_sitemaps(s: Seq<char>) -> Seq<Seq<char>> {
    sitemap_values_from(spec_lines(s), 0, Seq::empty())
}

/// Split a character vector into lines, mirroring `spec_lines`.
fn split_lines(v: &Vec<char>) -> (r: Vec<Vec<char>>)
    ensures
        r.deep_view() == spec_lines(v@),
{
    let n = v.len();
    let mut i: usize = 0;
    let mut cur: Vec<char> = Vec::new();
    let mut acc: Vec<Vec<char>> = Vec::new();
    proof {
        assert(cur@ =~= Seq::<char>::empty());
        assert(acc.deep_view() =~~= Seq::<Seq<char>>::empty());
    }
    while i < n
        invariant
            i <= n,
            n == v@.len(),
            spec_lines(v@) == lines_from(v@, i as int, cur@, acc.deep_view()),
        decreases n - i,
    {
        let c = v[i];
        let ghost cur0 = cur@;
        let ghost acc0 = acc.deep_view();
        if c == '\n' {
            if cur.len() > 0 && cur[cur.len() - 1] == '\r' {
                cur.pop();
            }
            let ghost curv = cur@;
            acc.push(cur);
            cur = Vec::new();
            proof {
                assert(curv == (if cur0.len() > 0 && cur0.last() == '\r' {
                    cur0.drop_last()
                } else {
                    cur0
                }));
                assert(acc.deep_view() =~~= acc0.push(curv));
                assert(cur@ =~= Seq::<char>::empty());
                assert(lines_from(v@, i as int, cur0, acc0) == lines_from(
                    v@,
                    i + 1,
                    Seq::empty(),
                    acc0.push(curv),
                ));
            }
        } else {
            cur.push(c);
            proof {
                assert(lines_from(v@, i as int, cur0, acc0) == lines_from(
                    v@,
                    i + 1,
                    cur0.push(c),
                    acc0,
                ));
            }
        }
        i = i + 1;
    }
    if cur.len() > 0 {
        let ghost accd = acc.deep_view();
        let ghost curv = cur@;
        acc.push(cur);
        proof {
            assert(acc.deep_view() =~~= accd.push(curv));
        }
    }
    acc
}

/// Parse a `robots.txt` body: the sitemap URLs its directive lines
/// announce, in order of appearance.
pub fn robots_sitemap_urls(text: &str) -> (r: Vec<String>)
    ensures
        r.deep_view() == spec_robots_sitemaps(text@),
{
    let chars = str_to_chars(text);
    let ls = split_lines(&chars);
    let pat: Vec<char> = vec!['s', 'i', 't', 'e', 'm', 'a', 'p', ':'];
    proof {
        assert(pat@ =~= sitemap_prefix());
    }
    let n = ls.len();
    let mut out: Vec<String> = Vec::new();
    let mut i: usize = 0;
    proof {
        assert(out.deep_view() =~~= Seq::<Seq<char>>::empty());
    }
    while i < n
        invariant
            i <= n,
            n == ls@.len(),
            pat@ == sitemap_prefix(),
            spec_robots_sitemaps(text@) == sitemap_values_from(
                ls.deep_view(),
                i as int,
                out.deep_view(),
            ),
        decreases n - i,
    {
        let line = &ls[i];
        proof {
            assert(ls.deep_view()[i as int] =~= line@);
        }
        if has_at_ci(line, 0, &pat) {
            let m = line.len();
            let mut tail: Vec<char> = Vec::new();
            let mut k: usize = 8;
            while k < m
                invariant
                    8 <= k <= m,
                    m == line@.len(),
                    m >= 8,
                    tail@ =~= line@.subrange(8, k as int),
                decreases m - k,
            {
                tail.push(line[k]);
                k = k + 1;
            }
            proof {
                assert(tail@ =~= line@.subrange(8, m as int));
            }
            let val = trim_vec(&tail);
            let s = chars_to_string(&val);
            let ghost outd = out.deep_view();
            out.push(s);
            proof {
                assert(val@ == sitemap_value(line@));
                assert(out.deep_view() =~~= outd.push(sitemap_value(ls.deep_view()[i as int])));
            }
        }
        i = i + 1;
    }
    out
}

} // verus!
