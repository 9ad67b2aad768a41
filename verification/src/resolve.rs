//! The sitemap resolution pipeline, as a step machine.  The resolver
//! names the URL it wants fetched next; the caller performs the fetch
//! and hands the body (or the failure) back.  Probing walks a fixed
//! list of well-known paths plus `robots.txt`; every candidate sitemap
//! is then parsed, a location that itself looks like a sitemap is
//! expanded one extra level, and everything else is collected in
//! first-seen order without duplicates.

use vstd::prelude::*;

use crate::bridge::join_url;
use crate::bridge::json_array_of;
use crate::bridge::json_pretty;
use crate::bridge::str_to_chars;
use crate::bridge::url_join_of;
use crate::chars::contains_sub;
use crate::chars::ends_with;
use crate::chars::spec_contains_sub;
use crate::chars::spec_ends_with;
use crate::robots::robots_sitemap_urls;
use crate::robots::spec_robots_sitemaps;
use crate::xml::parse_sitemap_locations;
use crate::xml::spec_sitemap_locations;

verus! {

/// The base URL could not be parsed, or a probe path could not be
/// resolved against it.
#[derive(Debug)]
pub struct UrlError;

/// No duplicate entries.
pub open spec fn no_dups(s: Seq<Seq<char>>) -> bool {
    forall|a: int, b: int| 0 <= a < b < s.len() ==> s[a] != s[b]
}

/// Append a value unless it is already present.
pub open spec fn spec_push_unique(acc: Seq<Seq<char>>, x: Seq<char>) -> Seq<Seq<char>> {
    if acc.contains(x) {
        acc
    } else {
        acc.push(x)
    }
}

/// Append each value of `locs` from position `i` on, skipping those
/// already present.
pub open spec fn spec_push_all(acc: Seq<Seq<char>>, locs: Seq<Seq<char>>, i: int) -> Seq<
    Seq<char>,
>
    decreases locs.len() - i,
{
    if i < 0 || i >= locs.len() {
        acc
    } else {
        spec_push_all(spec_push_unique(acc, locs[i]), locs, i + 1)
    }
}

/// Deduplication in first-seen order.
pub open spec fn spec_dedup(locs: Seq<Seq<char>>) -> Seq<Seq<char>> {
    spec_push_all(Seq::empty(), locs, 0)
}

/// A location that itself references a sitemap: it mentions `sitemap`
/// and ends in `.xml`.
pub open spec fn is_nested_ref(loc: Seq<char>) -> bool {
    spec_contains_sub(loc, seq!['s', 'i', 't', 'e', 'm', 'a', 'p']) && spec_ends_with(
        loc,
        seq!['.', 'x', 'm', 'l'],
    )
}

/// Fold the locations of one parsed document into the collection,
/// starting at position `j`: plain locations are appended uniquely;
/// the fold stops at the first nested sitemap reference.  Yields the
/// new collection and the stop position (the document's length when no
/// reference was hit).
pub open spec fn spec_drain(acc: Seq<Seq<char>>, rest: Seq<Seq<char>>, j: int) -> (
    Seq<Seq<char>>,
    int,
)
    decreases rest.len() - j,
{
    if j < 0 || j >= rest.len() {
        (acc, rest.len() as int)
    } else if is_nested_ref(rest[j]) {
        (acc, j)
    } else {
        spec_drain(spec_push_unique(acc, rest[j]), rest, j + 1)
    }
}

/// The four paths probed on the base host, in probe order.
pub open spec fn probe_paths() -> Seq<Seq<char>> {
    seq![
        seq!['/', 's', 'i', 't', 'e', 'm', 'a', 'p', '.', 'x', 'm', 'l'],
        seq!['/', 's', 'i', 't', 'e', 'm', 'a', 'p', '_', 'i', 'n', 'd', 'e', 'x', '.', 'x', 'm', 'l'],
        seq!['/', 's', 'i', 't', 'e', 'm', 'a', 'p', '-', 'i', 'n', 'd', 'e', 'x', '.', 'x', 'm', 'l'],
        seq!['/', 'r', 'o', 'b', 'o', 't', 's', '.', 't', 'x', 't'],
    ]
}

/// What one answered probe adds to the candidate list: nothing on a
/// failed fetch, the parsed `Sitemap:` directives for `robots.txt`,
/// and the probe's own URL otherwise.
pub open spec fn probe_candidates(
    cands: Seq<Seq<char>>,
    url: Seq<char>,
    is_robots: bool,
    body: Option<Seq<char>>,
) -> Seq<Seq<char>> {
    match body {
        None => cands,
        Some(b) => if is_robots {
            cands + spec_robots_sitemaps(b)
        } else {
            cands.push(url)
        },
    }
}

/// Which fetch the resolver is waiting on.
#[derive(PartialEq, Eq, Structural, Clone, Copy, Debug)]
pub enum Phase {
    /// Fetching one of the four probe URLs.
    Probing,
    /// Fetching a candidate sitemap document.
    AwaitCandidate,
    /// Fetching a nested sitemap referenced from a candidate.
    AwaitNested,
    /// Resolution complete.
    Done,
}

/// The resolution pipeline's state between fetches.  The caller
/// alternates `pending_fetch` and `supply` until the phase is `Done`,
/// then reads `locations` or `result_json`.
pub struct Resolver {
    /// The four probe URLs, resolved against the base.
    pub probes: Vec<String>,
    /// The probe currently being fetched.
    pub pi: usize,
    /// Candidate sitemap URLs gathered by the probes.
    pub candidates: Vec<String>,
    /// The candidate currently being processed.
    pub ci: usize,
    /// The locations of the candidate document being walked.
    pub rest: Vec<String>,
    /// The position in `rest` of the nested reference being fetched.
    pub ri: usize,
    /// The collected content locations, first-seen order, no duplicates.
    pub locations: Vec<String>,
    pub phase: Phase,
}

pub open spec fn opt_str_view(o: Option<&str>) -> Option<Seq<char>> {
    match o {
        Some(b) => Some(b@),
        None => None,
    }
}

impl Resolver {
    /// The state invariant: indices in range, no duplicate locations.
    pub open spec fn wf(self) -> bool {
        &&& self.probes.len() == 4
        &&& (self.phase == Phase::Probing ==> self.pi < 4)
        &&& (self.phase == Phase::AwaitCandidate ==> self.ci < self.candidates.len())
        &&& (self.phase == Phase::AwaitNested ==> self.ri < self.rest.len() && self.ci
            < self.candidates.len())
        &&& no_dups(self.locations.deep_view())
    }

    /// The URL the resolver is waiting to see fetched, if any.
    pub open spec fn target_of(self) -> Option<Seq<char>> {
        match self.phase {
            Phase::Probing => Some(self.probes.deep_view()[self.pi as int]),
            Phase::AwaitCandidate => Some(self.candidates.deep_view()[self.ci as int]),
            Phase::AwaitNested => Some(self.rest.deep_view()[self.ri as int]),
            Phase::Done => None,
        }
    }

    /// Advance past the current candidate: the next one awaits its
    /// fetch, or the resolution is complete.
    pub open spec fn next_candidate(s0: Resolver, s1: Resolver) -> bool {
        if s0.ci + 1 < s0.candidates.len() {
            s1.phase == Phase::AwaitCandidate && s1.ci == s0.ci + 1
        } else {
            s1.phase == Phase::Done
        }
    }

    /// How one `supply` call moves the state: the full transition
    /// relation, matched on the phase the fetch was answering.
    pub open spec fn supply_rel(s0: Resolver, body: Option<Seq<char>>, s1: Resolver) -> bool {
        match s0.phase {
            Phase::Probing => {
                let cands1 = probe_candidates(
                    s0.candidates.deep_view(),
                    s0.probes.deep_view()[s0.pi as int],
                    s0.pi == 3,
                    body,
                );
                &&& s1.candidates.deep_view() == cands1
                &&& s1.locations.deep_view() == s0.locations.deep_view()
                &&& (if s0.pi + 1 < 4 {
                    s1.phase == Phase::Probing && s1.pi == s0.pi + 1
                } else if cands1.len() > 0 {
                    s1.phase == Phase::AwaitCandidate && s1.ci == 0
                } else {
                    s1.phase == Phase::Done
                })
            },
            Phase::AwaitCandidate => {
                let parsed = match body {
                    Some(b) => spec_sitemap_locations(b),
                    None => None,
                };
                match parsed {
                    Some(locs) => {
                        let d = spec_drain(s0.locations.deep_view(), locs, 0);
                        &&& s1.locations.deep_view() == d.0
                        &&& s1.candidates.deep_view() == s0.candidates.deep_view()
                        &&& (if d.1 < locs.len() {
                            s1.phase == Phase::AwaitNested && s1.rest.deep_view() == locs
                                && s1.ri == d.1 && s1.ci == s0.ci
                        } else {
                            Self::next_candidate(s0, s1)
                        })
                    },
                    None => {
                        &&& s1.locations.deep_view() == s0.locations.deep_view()
                        &&& s1.candidates.deep_view() == s0.candidates.deep_view()
                        &&& Self::next_candidate(s0, s1)
                    },
                }
            },
            Phase::AwaitNested => {
                let locs1 = match body {
                    Some(b) => match spec_sitemap_locations(b) {
                        Some(sub) => spec_push_all(s0.locations.deep_view(), sub, 0),
                        None => s0.locations.deep_view(),
                    },
                    None => s0.locations.deep_view(),
                };
                let d = spec_drain(locs1, s0.rest.deep_view(), s0.ri + 1);
                &&& s1.locations.deep_view() == d.0
                &&& s1.candidates.deep_view() == s0.candidates.deep_view()
                &&& (if d.1 < s0.rest.len() {
                    s1.phase == Phase::AwaitNested && s1.rest.deep_view() == s0.rest.deep_view()
                        && s1.ri == d.1 && s1.ci == s0.ci
                } else {
                    Self::next_candidate(s0, s1)
                })
            },
            Phase::Done => false,
        }
    }

    /// Start a resolution: the four probe paths are resolved against
    /// the base URL; a base they cannot be resolved against is an
    /// error.
    pub fn new(base: &str) -> (r: Result<Resolver, UrlError>)
        ensures
            match r {
                Ok(res) => {
                    &&& res.wf()
                    &&& res.phase == Phase::Probing
                    &&& res.pi == 0
                    &&& res.candidates.len() == 0
                    &&& res.locations.len() == 0
                    &&& forall|p: int|
                        0 <= p < 4 ==> (url_join_of(base@, #[trigger] probe_paths()[p]) matches Some(u)
                            && res.probes.deep_view()[p] == u)
                },
                Err(_) => exists|p: int|
                    0 <= p < 4 && url_join_of(base@, #[trigger] probe_paths()[p]) is None,
            },
    {
        proof {
            reveal_strlit("/sitemap.xml");
            reveal_strlit("/sitemap_index.xml");
            reveal_strlit("/sitemap-index.xml");
            reveal_strlit("/robots.txt");
            assert("/sitemap.xml"@ =~= probe_paths()[0]);
            assert("/sitemap_index.xml"@ =~= probe_paths()[1]);
            assert("/sitemap-index.xml"@ =~= probe_paths()[2]);
            assert("/robots.txt"@ =~= probe_paths()[3]);
        }
        let mut probes: Vec<String> = Vec::new();
        match join_url(base, "/sitemap.xml") {
            Some(u) => probes.push(u),
            None => {
                return Err(UrlError);
            },
        }
        match join_url(base, "/sitemap_index.xml") {
            Some(u) => probes.push(u),
            None => {
                return Err(UrlError);
            },
        }
        match join_url(base, "/sitemap-index.xml") {
            Some(u) => probes.push(u),
            None => {
                return Err(UrlError);
            },
        }
        match join_url(base, "/robots.txt") {
            Some(u) => probes.push(u),
            None => {
                return Err(UrlError);
            },
        }
        let res = Resolver {
            probes,
            pi: 0,
            candidates: Vec::new(),
            ci: 0,
            rest: Vec::new(),
            ri: 0,
            locations: Vec::new(),
            phase: Phase::Probing,
        };
        Ok(res)
    }

    /// The next URL to fetch, or `None` when the resolution is done.
    pub fn pending_fetch(&self) -> (r: Option<String>)
        requires
            self.wf(),
        ensures
            match r {
                Some(u) => self.target_of() == Some(u@),
                None => self.target_of() is None,
            },
    {
        match self.phase {
            Phase::Probing => {
                let u = self.probes[self.pi].clone();
                proof {
                    assert(self.probes.deep_view()[self.pi as int] =~= u@);
                }
                Some(u)
            },
            Phase::AwaitCandidate => {
                let u = self.candidates[self.ci].clone();
                proof {
                    assert(self.candidates.deep_view()[self.ci as int] =~= u@);
                }
                Some(u)
            },
            Phase::AwaitNested => {
                let u = self.rest[self.ri].clone();
                proof {
                    assert(self.rest.deep_view()[self.ri as int] =~= u@);
                }
                Some(u)
            },
            Phase::Done => None,
        }
    }

    /// Hand the resolver the outcome of the fetch it asked for:
    /// `None` for a failed fetch, the body otherwise.
    pub fn supply(&mut self, body: Option<&str>)
        requires
            old(self).wf(),
            old(self).phase != Phase::Done,
        ensures
            final(self).wf(),
            Self::supply_rel(*old(self), opt_str_view(body), *final(self)),
            final(self).probes.deep_view() == old(self).probes.deep_view(),
    {
        let ghost s0 = *self;
        match self.phase {
            Phase::Probing => {
                match body {
                    None => {},
                    Some(b) => {
                        if self.pi == 3 {
                            let mut found = robots_sitemap_urls(b);
                            let ghost cands0 = self.candidates.deep_view();
                            let ghost foundd = found.deep_view();
                            self.candidates.append(&mut found);
                            proof {
                                assert(self.candidates.deep_view() =~~= cands0 + foundd);
                            }
                        } else {
                            let u = self.probes[self.pi].clone();
                            let ghost cands0 = self.candidates.deep_view();
                            let ghost uv = u@;
                            self.candidates.push(u);
                            proof {
                                assert(self.candidates.deep_view() =~~= cands0.push(uv));
                                assert(uv =~= s0.probes.deep_view()[s0.pi as int]);
                            }
                        }
                    },
                }
                if self.pi + 1 < 4 {
                    self.pi = self.pi + 1;
                } else if self.candidates.len() > 0 {
                    self.phase = Phase::AwaitCandidate;
                    self.ci = 0;
                } else {
                    self.phase = Phase::Done;
                }
            },
            Phase::AwaitCandidate => {
                let parsed: Option<Vec<String>> = match body {
                    Some(b) => match parse_sitemap_locations(b) {
                        Ok(l) => Some(l),
                        Err(_) => None,
                    },
                    None => None,
                };
                match parsed {
                    Some(locs) => {
                        proof {
                            lemma_drain_no_dups(self.locations.deep_view(), locs.deep_view(), 0);
                        }
                        let r = drain_into(&mut self.locations, &locs, 0);
                        if r < locs.len() {
                            self.rest = locs;
                            self.ri = r;
                            self.phase = Phase::AwaitNested;
                        } else {
                            self.advance_candidate();
                        }
                    },
                    None => {
                        self.advance_candidate();
                    },
                }
            },
            Phase::AwaitNested => {
                match body {
                    Some(b) => {
                        match parse_sitemap_locations(b) {
                            Ok(sub) => {
                                proof {
                                    lemma_push_all_no_dups(
                                        self.locations.deep_view(),
                                        sub.deep_view(),
                                        0,
                                    );
                                }
                                push_all_into(&mut self.locations, &sub);
                            },
                            Err(_) => {},
                        }
                    },
                    None => {},
                }
                let start = self.ri + 1;
                proof {
                    lemma_drain_no_dups(self.locations.deep_view(), self.rest.deep_view(), start as int);
                }
                let r = drain_into(&mut self.locations, &self.rest, start);
                if r < self.rest.len() {
                    self.ri = r;
                } else {
                    self.advance_candidate();
                }
            },
            Phase::Done => {},
        }
    }

    /// Step to the next candidate, or finish when none is left.
    fn advance_candidate(&mut self)
        ensures
            Self::next_candidate(*old(self), *final(self)),
            final(self).probes == old(self).probes,
            final(self).candidates == old(self).candidates,
            final(self).locations == old(self).locations,
            final(self).rest == old(self).rest,
            final(self).ri == old(self).ri,
            final(self).pi == old(self).pi,
            final(self).phase == Phase::AwaitCandidate || final(self).phase == Phase::Done,
            final(self).phase == Phase::AwaitCandidate ==> final(self).ci
                < final(self).candidates.len(),
    {
        if self.ci < self.candidates.len() && self.candidates.len() - self.ci > 1 {
            self.ci = self.ci + 1;
            self.phase = Phase::AwaitCandidate;
        } else {
            self.phase = Phase::Done;
        }
    }

    /// The collected locations, encoded as a pretty-printed JSON array
    /// of strings.  An empty collection yields the empty array, not an
    /// error.
    pub fn result_json(&self) -> (r: String)
        ensures
            r@ == json_array_of(self.locations.deep_view()),
    {
        json_pretty(&self.locations)
    }
}

/// Whether a location string references a sitemap document.
pub fn is_nested_loc(s: &String) -> (r: bool)
    ensures
        r == is_nested_ref(s@),
{
    let v = str_to_chars(s.as_str());
    let smp: Vec<char> = vec!['s', 'i', 't', 'e', 'm', 'a', 'p'];
    let xp: Vec<char> = vec!['.', 'x', 'm', 'l'];
    proof {
        assert(smp@ =~= seq!['s', 'i', 't', 'e', 'm', 'a', 'p']);
        assert(xp@ =~= seq!['.', 'x', 'm', 'l']);
    }
    let a = contains_sub(&v, &smp);
    let b = ends_with(&v, &xp);
    a && b
}

/// Whether the collection already holds this string.
fn vec_contains_string(v: &Vec<String>, s: &String) -> (r: bool)
    ensures
        r == v.deep_view().contains(s@),
{
    let n = v.len();
    let mut i: usize = 0;
    while i < n
        invariant
            i <= n,
            n == v@.len(),
            forall|k: int| 0 <= k < i ==> v.deep_view()[k] != s@,
        decreases n - i,
    {
        if v[i].eq(s) {
            proof {
                assert(v.deep_view()[i as int] =~= s@);
                assert(v.deep_view().contains(s@));
            }
            return true;
        }
        i = i + 1;
    }
    proof {
        assert(!v.deep_view().contains(s@));
    }
    false
}

/// Append a location unless it is already present.
pub fn push_unique(v: &mut Vec<String>, s: String)
    ensures
        final(v).deep_view() == spec_push_unique(old(v).deep_view(), s@),
{
    if !vec_contains_string(v, &s) {
        let ghost d = v.deep_view();
        let ghost sv = s@;
        v.push(s);
        proof {
            assert(v.deep_view() =~~= d.push(sv));
        }
    }
}

/// Append every location of `locs`, skipping those already present.
fn push_all_into(acc: &mut Vec<String>, locs: &Vec<String>)
    ensures
        final(acc).deep_view() == spec_push_all(old(acc).deep_view(), locs.deep_view(), 0),
{
    let n = locs.len();
    let mut i: usize = 0;
    while i < n
        invariant
            i <= n,
            n == locs@.len(),
            spec_push_all(old(acc).deep_view(), locs.deep_view(), 0) == spec_push_all(
                acc.deep_view(),
                locs.deep_view(),
                i as int,
            ),
        decreases n - i,
    {
        let x = locs[i].clone();
        proof {
            assert(x@ =~= locs.deep_view()[i as int]);
        }
        push_unique(acc, x);
        i = i + 1;
    }
}

/// Fold one parsed document into the collection from position `start`,
/// stopping at the first nested sitemap reference; yields the stop
/// position.
fn drain_into(acc: &mut Vec<String>, rest: &Vec<String>, start: usize) -> (r: usize)
    requires
        start <= rest.len(),
    ensures
        start <= r <= rest@.len(),
        final(acc).deep_view() == spec_drain(old(acc).deep_view(), rest.deep_view(), start as int).0,
        r as int == spec_drain(old(acc).deep_view(), rest.deep_view(), start as int).1,
        r < rest@.len() ==> is_nested_ref(rest.deep_view()[r as int]),
{
    let n = rest.len();
    let mut j = start;
    while j < n
        invariant
            start <= j <= n,
            n == rest@.len(),
            spec_drain(old(acc).deep_view(), rest.deep_view(), start as int) == spec_drain(
                acc.deep_view(),
                rest.deep_view(),
                j as int,
            ),
        decreases n - j,
    {
        let cur = &rest[j];
        proof {
            assert(cur@ =~= rest.deep_view()[j as int]);
        }
        if is_nested_loc(cur) {
            proof {
                assert(spec_drain(acc.deep_view(), rest.deep_view(), j as int) == (
                    acc.deep_view(),
                    j as int,
                ));
            }
            return j;
        }
        let x = rest[j].clone();
        proof {
            assert(x@ =~= rest.deep_view()[j as int]);
        }
        push_unique(acc, x);
        j = j + 1;
    }
    proof {
        assert(spec_drain(acc.deep_view(), rest.deep_view(), n as int) == (
            acc.deep_view(),
            n as int,
        ));
    }
    n
}

/// Appending uniquely keeps the collection free of duplicates.
pub proof fn lemma_push_unique_no_dups(acc: Seq<Seq<char>>, x: Seq<char>)
    requires
        no_dups(acc),
    ensures
        no_dups(spec_push_unique(acc, x)),
{
    if !acc.contains(x) {
        assert forall|a: int, b: int|
            0 <= a < b < acc.push(x).len() implies acc.push(x)[a] != acc.push(x)[b] by {
            if b == acc.len() {
                assert(acc[a] == acc.push(x)[a]);
                assert(!acc.contains(x));
                assert(acc[a] != x);
            }
        }
    }
}

pub proof fn lemma_push_all_no_dups(acc: Seq<Seq<char>>, locs: Seq<Seq<char>>, i: int)
    requires
        no_dups(acc),
    ensures
        no_dups(spec_push_all(acc, locs, i)),
    decreases locs.len() - i,
{
    if 0 <= i < locs.len() {
        lemma_push_unique_no_dups(acc, locs[i]);
        lemma_push_all_no_dups(spec_push_unique(acc, locs[i]), locs, i + 1);
    }
}

pub proof fn lemma_drain_no_dups(acc: Seq<Seq<char>>, rest: Seq<Seq<char>>, j: int)
    requires
        no_dups(acc),
    ensures
        no_dups(spec_drain(acc, rest, j).0),
    decreases rest.len() - j,
{
    if 0 <= j < rest.len() && !is_nested_ref(rest[j]) {
        lemma_push_unique_no_dups(acc, rest[j]);
        lemma_drain_no_dups(spec_push_unique(acc, rest[j]), rest, j + 1);
    }
}

proof fn lemma_push_unique_keeps(acc: Seq<Seq<char>>, x: Seq<char>, y: Seq<char>)
    requires
        acc.contains(y),
    ensures
        spec_push_unique(acc, x).contains(y),
{
    if !acc.contains(x) {
        let w = choose|w: int| 0 <= w < acc.len() && acc[w] == y;
        assert(acc.push(x)[w] == y);
    }
}

proof fn lemma_push_unique_adds(acc: Seq<Seq<char>>, x: Seq<char>)
    ensures
        spec_push_unique(acc, x).contains(x),
{
    if !acc.contains(x) {
        assert(acc.push(x)[acc.len() as int] == x);
    }
}

proof fn lemma_drain_keeps(acc: Seq<Seq<char>>, rest: Seq<Seq<char>>, j: int, y: Seq<char>)
    requires
        acc.contains(y),
    ensures
        spec_drain(acc, rest, j).0.contains(y),
    decreases rest.len() - j,
{
    if 0 <= j < rest.len() && !is_nested_ref(rest[j]) {
        lemma_push_unique_keeps(acc, rest[j], y);
        lemma_drain_keeps(spec_push_unique(acc, rest[j]), rest, j + 1, y);
    }
}

proof fn lemma_push_all_keeps(acc: Seq<Seq<char>>, locs: Seq<Seq<char>>, i: int, y: Seq<char>)
    requires
        acc.contains(y),
    ensures
        spec_push_all(acc, locs, i).contains(y),
    decreases locs.len() - i,
{
    if 0 <= i < locs.len() {
        lemma_push_unique_keeps(acc, locs[i], y);
        lemma_push_all_keeps(spec_push_unique(acc, locs[i]), locs, i + 1, y);
    }
}

proof fn lemma_push_all_adds(acc: Seq<Seq<char>>, locs: Seq<Seq<char>>, i: int, k: int)
    requires
        0 <= i <= k < locs.len(),
    ensures
        spec_push_all(acc, locs, i).contains(locs[k]),
    decreases k - i,
{
    if i == k {
        lemma_push_unique_adds(acc, locs[i]);
        lemma_push_all_keeps(spec_push_unique(acc, locs[i]), locs, i + 1, locs[i]);
    } else {
        lemma_push_all_adds(spec_push_unique(acc, locs[i]), locs, i + 1, k);
    }
}

/// Folding a document in adds only its own plain locations: a value
/// new to the collection came from the document and does not reference
/// a sitemap.
proof fn lemma_drain_only_plain(acc: Seq<Seq<char>>, rest: Seq<Seq<char>>, j: int, x: Seq<char>)
    requires
        spec_drain(acc, rest, j).0.contains(x),
        !acc.contains(x),
    ensures
        !is_nested_ref(x),
        exists|w: int| j <= w < rest.len() && rest[w] == x,
    decreases rest.len() - j,
{
    if j < 0 || j >= rest.len() {
        assert(false);
    } else if is_nested_ref(rest[j]) {
        assert(false);
    } else {
        let acc2 = spec_push_unique(acc, rest[j]);
        if acc2.contains(x) {
            let w = choose|w: int| 0 <= w < acc2.len() && acc2[w] == x;
            if w < acc.len() {
                assert(acc[w] == x);
                assert(false);
            }
            assert(x == rest[j]);
            assert(j <= j < rest.len() && rest[j] == x);
        } else {
            lemma_drain_only_plain(acc2, rest, j + 1, x);
            let w = choose|w: int| j + 1 <= w < rest.len() && rest[w] == x;
            assert(j <= w < rest.len() && rest[w] == x);
        }
    }
}

/// Appending a document's locations adds only values the document
/// holds.
proof fn lemma_push_all_only_from(
    acc: Seq<Seq<char>>,
    locs: Seq<Seq<char>>,
    i: int,
    x: Seq<char>,
)
    requires
        spec_push_all(acc, locs, i).contains(x),
        !acc.contains(x),
    ensures
        exists|w: int| i <= w < locs.len() && locs[w] == x,
    decreases locs.len() - i,
{
    if i < 0 || i >= locs.len() {
        assert(false);
    } else {
        let acc2 = spec_push_unique(acc, locs[i]);
        if acc2.contains(x) {
            let w = choose|w: int| 0 <= w < acc2.len() && acc2[w] == x;
            if w < acc.len() {
                assert(acc[w] == x);
                assert(false);
            }
            assert(x == locs[i]);
            assert(i <= i < locs.len() && locs[i] == x);
        } else {
            lemma_push_all_only_from(acc2, locs, i + 1, x);
            let w = choose|w: int| i + 1 <= w < locs.len() && locs[w] == x;
            assert(i <= w < locs.len() && locs[w] == x);
        }
    }
}

/// Failed probes are not fatal.  From a fresh resolver, when the three
/// well-known sitemap probes come back failed but `robots.txt`
/// announces at least one sitemap, and the first candidate's document
/// parses and opens with an ordinary location, that location stands in
/// the collection after those five steps: the robots-provided sitemap
/// alone feeds a non-empty result.
pub proof fn lemma_probe_failures_nonfatal(
    s0: Resolver,
    s1: Resolver,
    s2: Resolver,
    s3: Resolver,
    s4: Resolver,
    s5: Resolver,
    rb: Seq<char>,
    xb: Seq<char>,
    first: Seq<char>,
)
    requires
        s0.phase == Phase::Probing,
        s0.pi == 0,
        s0.candidates@.len() == 0,
        s0.locations@.len() == 0,
        Resolver::supply_rel(s0, None, s1),
        Resolver::supply_rel(s1, None, s2),
        Resolver::supply_rel(s2, None, s3),
        Resolver::supply_rel(s3, Some(rb), s4),
        spec_robots_sitemaps(rb).len() > 0,
        Resolver::supply_rel(s4, Some(xb), s5),
        (spec_sitemap_locations(xb) matches Some(locs) && locs.len() > 0 && locs[0] == first),
        !is_nested_ref(first),
    ensures
        s5.locations.deep_view().contains(first),
        s5.locations.deep_view().len() > 0,
{
    assert(s0.candidates.deep_view().len() == 0);
    assert(s0.locations.deep_view().len() == 0);
    assert(s1.phase == Phase::Probing && s1.pi == 1);
    assert(s1.candidates.deep_view().len() == 0 && s1.locations.deep_view().len() == 0);
    assert(s2.phase == Phase::Probing && s2.pi == 2);
    assert(s2.candidates.deep_view().len() == 0 && s2.locations.deep_view().len() == 0);
    assert(s3.phase == Phase::Probing && s3.pi == 3);
    assert(s3.candidates.deep_view().len() == 0 && s3.locations.deep_view().len() == 0);
    let cands = s3.candidates.deep_view() + spec_robots_sitemaps(rb);
    assert(cands.len() > 0);
    assert(s4.phase == Phase::AwaitCandidate);
    assert(s4.locations.deep_view().len() == 0);
    let locs = choose|locs: Seq<Seq<char>>| spec_sitemap_locations(xb) == Some(locs);
    let acc = s4.locations.deep_view();
    let acc2 = spec_push_unique(acc, first);
    assert(spec_drain(acc, locs, 0) == spec_drain(acc2, locs, 1));
    lemma_push_unique_adds(acc, first);
    lemma_drain_keeps(acc2, locs, 1, first);
    assert(s5.locations.deep_view() == spec_drain(acc, locs, 0).0);
    let w = choose|w: int|
        0 <= w < s5.locations.deep_view().len() && s5.locations.deep_view()[w] == first;
    assert(s5.locations.deep_view().len() > 0);
}

/// One extra hop.  From a resolver awaiting a candidate, when the
/// candidate's document opens with a location that itself references a
/// sitemap, that reference is fetched rather than kept: after the two
/// steps the collection holds every location of the referenced
/// document, and the reference itself is absent (it was in neither
/// document's plain locations nor the collection before).
pub proof fn lemma_nested_expansion(
    s0: Resolver,
    s1: Resolver,
    s2: Resolver,
    xb: Seq<char>,
    sb: Seq<char>,
    refu: Seq<char>,
    page: Seq<char>,
)
    requires
        s0.phase == Phase::AwaitCandidate,
        Resolver::supply_rel(s0, Some(xb), s1),
        (spec_sitemap_locations(xb) matches Some(locs) && locs.len() > 0 && locs[0] == refu),
        is_nested_ref(refu),
        Resolver::supply_rel(s1, Some(sb), s2),
        (spec_sitemap_locations(sb) matches Some(sub) && sub.contains(page) && !sub.contains(
            refu,
        )),
        !s0.locations.deep_view().contains(refu),
    ensures
        s2.locations.deep_view().contains(page),
        !s2.locations.deep_view().contains(refu),
{
    let locs = choose|locs: Seq<Seq<char>>| spec_sitemap_locations(xb) == Some(locs);
    let sub = choose|sub: Seq<Seq<char>>| spec_sitemap_locations(sb) == Some(sub);
    let d = spec_drain(s0.locations.deep_view(), locs, 0);
    assert(d == (s0.locations.deep_view(), 0int));
    assert(s1.phase == Phase::AwaitNested);
    assert(s1.rest.deep_view() == locs && s1.ri == 0);
    assert(s1.locations.deep_view() == s0.locations.deep_view());
    let locs1 = spec_push_all(s1.locations.deep_view(), sub, 0);
    let d2 = spec_drain(locs1, s1.rest.deep_view(), s1.ri + 1);
    assert(s2.locations.deep_view() == d2.0);
    let k = choose|k: int| 0 <= k < sub.len() && sub[k] == page;
    lemma_push_all_adds(s1.locations.deep_view(), sub, 0, k);
    lemma_drain_keeps(locs1, locs, 1, page);
    if s2.locations.deep_view().contains(refu) {
        if locs1.contains(refu) {
            lemma_push_all_only_from(s1.locations.deep_view(), sub, 0, refu);
            let w = choose|w: int| 0 <= w < sub.len() && sub[w] == refu;
            assert(sub.contains(refu));
        } else {
            lemma_drain_only_plain(locs1, locs, 1, refu);
        }
        assert(false);
    }
}

/// The position of a value's first occurrence.
pub open spec fn first_pos(s: Seq<Seq<char>>, x: Seq<char>) -> int
    decreases s.len(),
{
    if s.len() == 0 {
        0
    } else if s.first() == x {
        0
    } else {
        1 + first_pos(s.drop_first(), x)
    }
}

/// A value that occurs does so at its first position, and nowhere
/// earlier.
pub proof fn lemma_first_pos(s: Seq<Seq<char>>, x: Seq<char>)
    requires
        s.contains(x),
    ensures
        0 <= first_pos(s, x) < s.len(),
        s[first_pos(s, x)] == x,
        forall|k: int| 0 <= k < first_pos(s, x) ==> s[k] != x,
    decreases s.len(),
{
    if s.len() > 0 && s.first() != x {
        assert(s.drop_first().contains(x)) by {
            let w = choose|w: int| 0 <= w < s.len() && s[w] == x;
            assert(s.drop_first()[w - 1] == x);
        }
        lemma_first_pos(s.drop_first(), x);
        assert forall|k: int| 0 <= k < first_pos(s, x) implies s[k] != x by {
            if k > 0 {
                assert(s.drop_first()[k - 1] == s[k]);
            }
        }
    }
}

/// When a value first appears at `i`, its first position is `i`.
proof fn lemma_first_pos_at(s: Seq<Seq<char>>, x: Seq<char>, i: int)
    requires
        0 <= i < s.len(),
        s[i] == x,
        forall|k: int| 0 <= k < i ==> s[k] != x,
    ensures
        first_pos(s, x) == i,
    decreases i,
{
    if i > 0 {
        lemma_first_pos_at(s.drop_first(), x, i - 1);
    }
}

proof fn lemma_push_all_first_seen(acc: Seq<Seq<char>>, locs: Seq<Seq<char>>, i: int)
    requires
        0 <= i <= locs.len(),
        no_dups(acc),
        forall|x: Seq<char>|
            (#[trigger] acc.contains(x) <==> exists|k: int| 0 <= k < i && locs[k] == x),
        forall|a: int, b: int|
            0 <= a < b < acc.len() ==> first_pos(locs, acc[a]) < first_pos(locs, acc[b]),
        forall|a: int|
            0 <= a < acc.len() ==> 0 <= #[trigger] first_pos(locs, acc[a]) < i && locs[first_pos(
                locs,
                acc[a],
            )] == acc[a],
    ensures
        ({
            let d = spec_push_all(acc, locs, i);
            &&& no_dups(d)
            &&& forall|x: Seq<char>|
                (#[trigger] d.contains(x) <==> exists|k: int| 0 <= k < locs.len() && locs[k] == x)
            &&& forall|a: int, b: int|
                0 <= a < b < d.len() ==> first_pos(locs, d[a]) < first_pos(locs, d[b])
            &&& forall|a: int|
                0 <= a < d.len() ==> 0 <= #[trigger] first_pos(locs, d[a]) < locs.len() && locs[
                    first_pos(locs, d[a])] == d[a]
        }),
    decreases locs.len() - i,
{
    if i == locs.len() {
    } else {
        let x = locs[i];
        let acc2 = spec_push_unique(acc, x);
        if acc.contains(x) {
            assert(acc2 == acc);
            assert forall|y: Seq<char>| #[trigger]
                acc2.contains(y) implies (exists|k: int| 0 <= k < i + 1 && locs[k] == y) by {
                let k = choose|k: int| 0 <= k < i && locs[k] == y;
                assert(0 <= k < i + 1 && locs[k] == y);
            }
            assert forall|y: Seq<char>| (exists|k: int|
                0 <= k < i + 1 && locs[k] == y) implies #[trigger] acc2.contains(y) by {
                let k = choose|k: int| 0 <= k < i + 1 && locs[k] == y;
                if k == i {
                    assert(acc.contains(x));
                }
            }
            lemma_push_all_first_seen(acc2, locs, i + 1);
        } else {
            assert(acc2 == acc.push(x));
            assert(forall|k: int| 0 <= k < i ==> locs[k] != x) by {
                assert forall|k: int| 0 <= k < i implies locs[k] != x by {
                    if locs[k] == x {
                        assert(acc.contains(x));
                    }
                }
            }
            lemma_first_pos_at(locs, x, i);
            lemma_push_unique_no_dups(acc, x);
            assert forall|y: Seq<char>| #[trigger]
                acc2.contains(y) implies (exists|k: int| 0 <= k < i + 1 && locs[k] == y) by {
                let w = choose|w: int| 0 <= w < acc2.len() && acc2[w] == y;
                if w < acc.len() {
                    assert(acc.contains(y));
                    let k = choose|k: int| 0 <= k < i && locs[k] == y;
                    assert(0 <= k < i + 1 && locs[k] == y);
                } else {
                    assert(y == x);
                    assert(locs[i as int] == y);
                }
            }
            assert forall|y: Seq<char>| (exists|k: int|
                0 <= k < i + 1 && locs[k] == y) implies #[trigger] acc2.contains(y) by {
                let k = choose|k: int| 0 <= k < i + 1 && locs[k] == y;
                if k == i {
                    assert(acc2[acc.len() as int] == x);
                } else {
                    assert(acc.contains(y));
                    let w = choose|w: int| 0 <= w < acc.len() && acc[w] == y;
                    assert(acc2[w] == y);
                }
            }
            assert forall|a: int, b: int|
                0 <= a < b < acc2.len() implies first_pos(locs, acc2[a]) < first_pos(
                locs,
                acc2[b],
            ) by {
                if b == acc.len() {
                    assert(acc2[b] == x);
                    assert(acc2[a] == acc[a]);
                    assert(first_pos(locs, acc[a]) < i);
                }
            }
            assert forall|a: int|
                0 <= a < acc2.len() implies 0 <= #[trigger] first_pos(locs, acc2[a]) < i + 1
                && locs[first_pos(locs, acc2[a])] == acc2[a] by {
                if a == acc.len() {
                    assert(acc2[a] == x);
                } else {
                    assert(acc2[a] == acc[a]);
                }
            }
            lemma_push_all_first_seen(acc2, locs, i + 1);
        }
    }
}

/// Deduplication is idempotent in the strong sense: whatever sequence
/// of locations is folded in, each distinct value appears exactly once
/// (there are no duplicates, and every value of the input appears),
/// and entries stand in first-seen order: each at the position of its
/// first occurrence in the input, earlier first occurrences first.
pub proof fn lemma_dedup_first_seen(locs: Seq<Seq<char>>)
    ensures
        no_dups(spec_dedup(locs)),
        forall|x: Seq<char>| (#[trigger] spec_dedup(locs).contains(x) <==> locs.contains(x)),
        forall|a: int, b: int|
            0 <= a < b < spec_dedup(locs).len() ==> first_pos(locs, spec_dedup(locs)[a])
                < first_pos(locs, spec_dedup(locs)[b]),
        forall|a: int|
            0 <= a < spec_dedup(locs).len() ==> locs[#[trigger] first_pos(
                locs,
                spec_dedup(locs)[a],
            )] == spec_dedup(locs)[a],
{
    let e = Seq::<Seq<char>>::empty();
    assert(forall|x: Seq<char>| !(#[trigger] e.contains(x)));
    lemma_push_all_first_seen(e, locs, 0);
    assert forall|x: Seq<char>| #[trigger]
        spec_dedup(locs).contains(x) implies locs.contains(x) by {
        let k = choose|k: int| 0 <= k < locs.len() && locs[k] == x;
        assert(locs[k] == x);
    }
    assert forall|x: Seq<char>| locs.contains(x) implies #[trigger]
        spec_dedup(locs).contains(x) by {
        let k = choose|k: int| 0 <= k < locs.len() && locs[k] == x;
        assert(exists|k2: int| 0 <= k2 < locs.len() && locs[k2] == x);
    }
}

} // verus!
