//! HTML text extraction: the page title and the readable body text,
//! joined into one string.  A lenient character-at-a-time scan
//! tokenises the markup: `title`, `script` and `style` are raw-text
//! elements whose content runs to their matching end tag; other tags
//! toggle or delimit the body.  Body text nodes are collected in
//! document order; each `script`/`style` text is remembered, and a
//! body text node whose literal content equals one of them is dropped
//! (the exclusion works by exact text equality, not by structure).
//! The kept fragments are trimmed and joined by single spaces; a
//! non-empty title is prefixed with a blank line in between.

use vstd::prelude::*;

use crate::bridge::chars_to_string;
use crate::bridge::str_to_chars;
use crate::chars::chars_eq;
use crate::chars::chars_eq_ci;
use crate::chars::lower;
use crate::chars::spec_eq_ci;
use crate::chars::spec_lower;
use crate::chars::spec_trim;
use crate::chars::trim_vec;
use crate::entity::spec_unescape_lenient;
use crate::entity::unescape_lenient;

verus! {

/// One thing the scan found inside a `body` element: an ordinary text
/// run, the raw text of a `script` or `style` element, or the end of
/// one body region.
pub enum HItem<T> {
    Txt(T),
    Raw(T),
    Seg,
}

pub open spec fn item_view(it: HItem<Vec<char>>) -> HItem<Seq<char>> {
    match it {
        HItem::Txt(v) => HItem::Txt(v@),
        HItem::Raw(v) => HItem::Raw(v@),
        HItem::Seg => HItem::Seg,
    }
}

pub open spec fn items_view(items: Seq<HItem<Vec<char>>>) -> Seq<HItem<Seq<char>>> {
    Seq::new(items.len(), |i: int| item_view(items[i]))
}

/// The three raw-text elements the scan distinguishes.
#[derive(PartialEq, Eq, Structural, Clone, Copy, Debug)]
pub enum RawKind {
    Title,
    Script,
    Style,
}

pub open spec fn kind_name(kind: RawKind) -> Seq<char> {
    match kind {
        RawKind::Title => seq!['t', 'i', 't', 'l', 'e'],
        RawKind::Script => seq!['s', 'c', 'r', 'i', 'p', 't'],
        RawKind::Style => seq!['s', 't', 'y', 'l', 'e'],
    }
}

pub open spec fn body_name() -> Seq<char> {
    seq!['b', 'o', 'd', 'y']
}

/// Where the scanner stands inside the markup.
#[derive(PartialEq, Eq, Structural, Clone, Copy, Debug)]
pub enum HMode {
    /// In character data.
    Text,
    /// Just behind a `<`.
    SeenLt,
    /// Behind `<!`.
    Bang,
    /// Behind `<!-`.
    BangDash,
    /// Inside `<!--`, waiting for `-->`.
    Comment,
    /// Inside other `<!` or `<?` constructs, waiting for `>`.
    Skip,
    /// Collecting an end tag's name.
    EndName,
    /// Behind an end tag's name, waiting for `>`.
    EndWs,
    /// Collecting a start tag's name.
    StartName,
    /// Skipping a start tag's attributes, quote-aware.
    Attrs,
    /// Behind a `/` inside a start tag.
    AttrSlash,
    /// Inside a raw-text element's content.
    Raw,
    /// Behind a `<` inside raw text.
    RawLt,
    /// Behind `</` inside raw text, matching the element's name.
    RawSlash,
    /// Behind the matched end-tag name, waiting for `>`.
    RawEndWs,
}

/// The scanner's full state between characters.
pub struct HSt {
    pub mode: HMode,
    /// The text run collected since the last tag.
    pub buf: Seq<char>,
    /// The tag name collected so far.
    pub name: Seq<char>,
    /// Trailing `-` count inside a comment.
    pub run: nat,
    /// The quote character an attribute value was opened with.
    pub quote: Option<char>,
    /// Which raw-text element is open.
    pub kind: RawKind,
    /// How many characters of the closing name have matched.
    pub k: nat,
    /// The raw element's content collected so far.
    pub raw_buf: Seq<char>,
    /// The characters consumed by a tentative closing tag.
    pub raw_seen: Seq<char>,
    pub in_body: bool,
    /// The first title's decoded text, once seen.
    pub title: Option<Seq<char>>,
    pub items: Seq<HItem<Seq<char>>>,
}

#[verifier::inline]
pub open spec fn hst_of(
    mode: HMode,
    buf: Seq<char>,
    name: Seq<char>,
    run: nat,
    quote: Option<char>,
    kind: RawKind,
    k: nat,
    raw_buf: Seq<char>,
    raw_seen: Seq<char>,
    in_body: bool,
    title: Option<Seq<char>>,
    items: Seq<HItem<Seq<char>>>,
) -> HSt {
    HSt { mode, buf, name, run, quote, kind, k, raw_buf, raw_seen, in_body, title, items }
}

pub open spec fn h_init() -> HSt {
    hst_of(
        HMode::Text,
        Seq::empty(),
        Seq::empty(),
        0,
        None,
        RawKind::Title,
        0,
        Seq::empty(),
        Seq::empty(),
        false,
        None,
        Seq::empty(),
    )
}

/// Close a text run: inside the body, a non-empty run is decoded
/// leniently and recorded; elsewhere it is dropped.
pub open spec fn h_flush(in_body: bool, buf: Seq<char>, items: Seq<HItem<Seq<char>>>) -> Seq<
    HItem<Seq<char>>,
> {
    if in_body && buf.len() > 0 {
        items.push(HItem::Txt(spec_unescape_lenient(buf)))
    } else {
        items
    }
}

/// A start tag is complete: raw-text elements open their content,
/// `body` opens a body region, everything else is skipped.
pub open spec fn h_start(st: HSt) -> HSt {
    if spec_eq_ci(st.name, kind_name(RawKind::Title)) {
        HSt {
            mode: HMode::Raw,
            name: Seq::empty(),
            quote: None,
            kind: RawKind::Title,
            raw_buf: Seq::empty(),
            raw_seen: Seq::empty(),
            ..st
        }
    } else if spec_eq_ci(st.name, kind_name(RawKind::Script)) {
        HSt {
            mode: HMode::Raw,
            name: Seq::empty(),
            quote: None,
            kind: RawKind::Script,
            raw_buf: Seq::empty(),
            raw_seen: Seq::empty(),
            ..st
        }
    } else if spec_eq_ci(st.name, kind_name(RawKind::Style)) {
        HSt {
            mode: HMode::Raw,
            name: Seq::empty(),
            quote: None,
            kind: RawKind::Style,
            raw_buf: Seq::empty(),
            raw_seen: Seq::empty(),
            ..st
        }
    } else if spec_eq_ci(st.name, body_name()) {
        HSt { mode: HMode::Text, name: Seq::empty(), quote: None, in_body: true, ..st }
    } else {
        HSt { mode: HMode::Text, name: Seq::empty(), quote: None, ..st }
    }
}

/// An end tag is complete: `</body>` closes the body region and marks
/// a segment end; other end tags are skipped.
pub open spec fn h_end(st: HSt) -> HSt {
    if spec_eq_ci(st.name, body_name()) && st.in_body {
        HSt {
            mode: HMode::Text,
            name: Seq::empty(),
            in_body: false,
            items: st.items.push(HItem::Seg),
            ..st
        }
    } else {
        HSt { mode: HMode::Text, name: Seq::empty(), ..st }
    }
}

/// A raw-text element is closed: the first title keeps its decoded
/// content; script and style content inside the body is recorded raw.
pub open spec fn h_raw_end(st: HSt) -> HSt {
    match st.kind {
        RawKind::Title => HSt {
            mode: HMode::Text,
            raw_buf: Seq::empty(),
            raw_seen: Seq::empty(),
            title: if st.title is None {
                Some(spec_unescape_lenient(st.raw_buf))
            } else {
                st.title
            },
            ..st
        },
        _ => HSt {
            mode: HMode::Text,
            raw_buf: Seq::empty(),
            raw_seen: Seq::empty(),
            items: if st.in_body {
                st.items.push(HItem::Raw(st.raw_buf))
            } else {
                st.items
            },
            ..st
        },
    }
}

pub open spec fn html_ws(c: char) -> bool {
    c == ' ' || c == '\t' || c == '\n' || c == '\r' || c == '\x0C'
}

/// One character of input moves the scanner one step.  The scan is
/// total: malformed markup degrades, it never fails.
pub open spec fn h_step(c: char, st: HSt) -> HSt {
    match st.mode {
        HMode::Text => {
            if c == '<' {
                HSt {
                    mode: HMode::SeenLt,
                    buf: Seq::empty(),
                    items: h_flush(st.in_body, st.buf, st.items),
                    ..st
                }
            } else {
                HSt { buf: st.buf.push(c), ..st }
            }
        },
        HMode::SeenLt => {
            if c == '!' {
                HSt { mode: HMode::Bang, ..st }
            } else if c == '/' {
                HSt { mode: HMode::EndName, name: Seq::empty(), ..st }
            } else if c == '?' {
                HSt { mode: HMode::Skip, ..st }
            } else if c == '>' {
                HSt { mode: HMode::Text, ..st }
            } else if html_ws(c) {
                HSt { mode: HMode::Attrs, name: Seq::empty(), quote: None, ..st }
            } else {
                HSt { mode: HMode::StartName, name: seq![c], ..st }
            }
        },
        HMode::Bang => {
            if c == '-' {
                HSt { mode: HMode::BangDash, ..st }
            } else if c == '>' {
                HSt { mode: HMode::Text, ..st }
            } else {
                HSt { mode: HMode::Skip, ..st }
            }
        },
        HMode::BangDash => {
            if c == '-' {
                HSt { mode: HMode::Comment, run: 0, ..st }
            } else if c == '>' {
                HSt { mode: HMode::Text, ..st }
            } else {
                HSt { mode: HMode::Skip, ..st }
            }
        },
        HMode::Comment => {
            if c == '-' {
                HSt {
                    run: if st.run < 2 {
                        st.run + 1
                    } else {
                        2
                    },
                    ..st
                }
            } else if c == '>' && st.run >= 2 {
                HSt { mode: HMode::Text, run: 0, ..st }
            } else {
                HSt { run: 0, ..st }
            }
        },
        HMode::Skip => {
            if c == '>' {
                HSt { mode: HMode::Text, ..st }
            } else {
                st
            }
        },
        HMode::EndName => {
            if c == '>' {
                h_end(st)
            } else if html_ws(c) {
                HSt { mode: HMode::EndWs, ..st }
            } else {
                HSt { name: st.name.push(c), ..st }
            }
        },
        HMode::EndWs => {
            if c == '>' {
                h_end(st)
            } else {
                st
            }
        },
        HMode::StartName => {
            if c == '>' {
                h_start(st)
            } else if c == '/' {
                HSt { mode: HMode::AttrSlash, ..st }
            } else if html_ws(c) {
                HSt { mode: HMode::Attrs, quote: None, ..st }
            } else {
                HSt { name: st.name.push(c), ..st }
            }
        },
        HMode::Attrs => {
            match st.quote {
                Some(q) => {
                    if c == q {
                        HSt { quote: None, ..st }
                    } else {
                        st
                    }
                },
                None => {
                    if c == '>' {
                        h_start(st)
                    } else if c == '/' {
                        HSt { mode: HMode::AttrSlash, ..st }
                    } else if c == '"' || c == '\'' {
                        HSt { quote: Some(c), ..st }
                    } else {
                        st
                    }
                },
            }
        },
        HMode::AttrSlash => {
            if c == '>' {
                HSt { mode: HMode::Text, name: Seq::empty(), quote: None, ..st }
            } else if c == '/' {
                st
            } else if c == '"' || c == '\'' {
                HSt { mode: HMode::Attrs, quote: Some(c), ..st }
            } else {
                HSt { mode: HMode::Attrs, ..st }
            }
        },
        HMode::Raw => {
            if c == '<' {
                HSt { mode: HMode::RawLt, raw_seen: seq!['<'], ..st }
            } else {
                HSt { raw_buf: st.raw_buf.push(c), ..st }
            }
        },
        HMode::RawLt => {
            if c == '/' {
                HSt { mode: HMode::RawSlash, k: 0, raw_seen: st.raw_seen.push(c), ..st }
            } else if c == '<' {
                HSt { raw_buf: st.raw_buf + st.raw_seen, raw_seen: seq!['<'], ..st }
            } else {
                HSt {
                    mode: HMode::Raw,
                    raw_buf: st.raw_buf + st.raw_seen + seq![c],
                    raw_seen: Seq::empty(),
                    ..st
                }
            }
        },
        HMode::RawSlash => {
            let target = kind_name(st.kind);
            if st.k < target.len() {
                if spec_lower(c) == spec_lower(target[st.k as int]) {
                    HSt { k: st.k + 1, raw_seen: st.raw_seen.push(c), ..st }
                } else if c == '<' {
                    HSt { mode: HMode::RawLt, raw_buf: st.raw_buf + st.raw_seen, raw_seen: seq!['<'], ..st }
                } else {
                    HSt {
                        mode: HMode::Raw,
                        raw_buf: st.raw_buf + st.raw_seen + seq![c],
                        raw_seen: Seq::empty(),
                        ..st
                    }
                }
            } else {
                if c == '>' {
                    h_raw_end(st)
                } else if html_ws(c) || c == '/' {
                    HSt { mode: HMode::RawEndWs, raw_seen: st.raw_seen.push(c), ..st }
                } else if c == '<' {
                    HSt { mode: HMode::RawLt, raw_buf: st.raw_buf + st.raw_seen, raw_seen: seq!['<'], ..st }
                } else {
                    HSt {
                        mode: HMode::Raw,
                        raw_buf: st.raw_buf + st.raw_seen + seq![c],
                        raw_seen: Seq::empty(),
                        ..st
                    }
                }
            }
        },
        HMode::RawEndWs => {
            if c == '>' {
                h_raw_end(st)
            } else {
                HSt { raw_seen: st.raw_seen.push(c), ..st }
            }
        },
    }
}

/// The end of the input: a pending text run or raw element is closed,
/// and an open body region ends its segment.
pub open spec fn h_finish(st: HSt) -> (Option<Seq<char>>, Seq<HItem<Seq<char>>>) {
    let st1 = match st.mode {
        HMode::Text => HSt { items: h_flush(st.in_body, st.buf, st.items), ..st },
        HMode::Raw | HMode::RawLt | HMode::RawSlash | HMode::RawEndWs => h_raw_end(
            HSt { raw_buf: st.raw_buf + st.raw_seen, ..st },
        ),
        _ => st,
    };
    let items2 = if st1.in_body {
        st1.items.push(HItem::Seg)
    } else {
        st1.items
    };
    (st1.title, items2)
}

/// The whole scan: first title and body items.
pub open spec fn h_scan(s: Seq<char>, i: int, st: HSt) -> (Option<Seq<char>>, Seq<
    HItem<Seq<char>>,
>)
    decreases s.len() - i,
{
    if i < 0 || i >= s.len() {
        h_finish(st)
    } else {
        h_scan(s, i + 1, h_step(s[i], st))
    }
}

/// The raw (script/style) contents of one body segment, from `i` on.
pub open spec fn raws_from(seg: Seq<HItem<Seq<char>>>, i: int) -> Seq<Seq<char>>
    decreases seg.len() - i,
{
    if i < 0 || i >= seg.len() {
        Seq::empty()
    } else {
        match seg[i] {
            HItem::Raw(t) => seq![t] + raws_from(seg, i + 1),
            _ => raws_from(seg, i + 1),
        }
    }
}

pub open spec fn raws_of(seg: Seq<HItem<Seq<char>>>) -> Seq<Seq<char>> {
    raws_from(seg, 0)
}

/// The fragments one body segment keeps: each text node whose literal
/// content matches none of the excluded raw texts is trimmed, and kept
/// when something remains.
pub open spec fn kept_from(
    seg: Seq<HItem<Seq<char>>>,
    raws: Seq<Seq<char>>,
    i: int,
    acc: Seq<Seq<char>>,
) -> Seq<Seq<char>>
    decreases seg.len() - i,
{
    if i < 0 || i >= seg.len() {
        acc
    } else {
        let acc2 = match seg[i] {
            HItem::Txt(t) => if !raws.contains(t) && spec_trim(t).len() > 0 {
                acc.push(spec_trim(t))
            } else {
                acc
            },
            HItem::Raw(t) => if !raws.contains(t) && spec_trim(t).len() > 0 {
                acc.push(spec_trim(t))
            } else {
                acc
            },
            HItem::Seg => acc,
        };
        kept_from(seg, raws, i + 1, acc2)
    }
}

pub open spec fn seg_frags(seg: Seq<HItem<Seq<char>>>) -> Seq<Seq<char>> {
    kept_from(seg, raws_of(seg), 0, Seq::empty())
}

/// Walk the item stream, cutting it into body segments and collecting
/// each segment's kept fragments.
pub open spec fn assemble_from(
    items: Seq<HItem<Seq<char>>>,
    i: int,
    cur: Seq<HItem<Seq<char>>>,
    frags: Seq<Seq<char>>,
) -> Seq<Seq<char>>
    decreases items.len() - i,
{
    if i < 0 || i >= items.len() {
        if cur.len() > 0 {
            frags + seg_frags(cur)
        } else {
            frags
        }
    } else {
        match items[i] {
            HItem::Seg => assemble_from(items, i + 1, Seq::empty(), frags + seg_frags(cur)),
            it => assemble_from(items, i + 1, cur.push(it), frags),
        }
    }
}

/// Join fragments with single spaces, exactly as the body string is
/// accumulated: a space before every fragment but the first.
pub open spec fn join_from(frags: Seq<Seq<char>>, i: int, acc: Seq<char>) -> Seq<char>
    decreases frags.len() - i,
{
    if i < 0 || i >= frags.len() {
        acc
    } else if acc.len() > 0 {
        join_from(frags, i + 1, acc + seq![' '] + frags[i])
    } else {
        join_from(frags, i + 1, frags[i])
    }
}

/// What extraction yields: the trimmed title and the joined body
/// fragments, separated by a blank line when the title is non-empty.
pub open spec fn spec_extract(s: Seq<char>) -> Seq<char> {
    let r = h_scan(s, 0, h_init());
    let t = match r.0 {
        Some(tt) => spec_trim(tt),
        None => Seq::empty(),
    };
    let b = join_from(assemble_from(r.1, 0, Seq::empty(), Seq::empty()), 0, Seq::empty());
    if t.len() == 0 {
        b
    } else {
        t + seq!['\n', '\n'] + b
    }
}

pub open spec fn opt_title_view(o: Option<Vec<char>>) -> Option<Seq<char>> {
    match o {
        Some(v) => Some(v@),
        None => None,
    }
}

/// Scan the whole document, mirroring `h_scan` step for step.
fn h_scan_exec(v: &Vec<char>) -> (r: (Option<Vec<char>>, Vec<HItem<Vec<char>>>))
    ensures
        h_scan(v@, 0, h_init()) == (opt_title_view(r.0), items_view(r.1@)),
{
    let n = v.len();
    let tpat: Vec<char> = vec!['t', 'i', 't', 'l', 'e'];
    let spat: Vec<char> = vec!['s', 'c', 'r', 'i', 'p', 't'];
    let ypat: Vec<char> = vec!['s', 't', 'y', 'l', 'e'];
    let bpat: Vec<char> = vec!['b', 'o', 'd', 'y'];
    proof {
        assert(tpat@ =~= kind_name(RawKind::Title));
        assert(spat@ =~= kind_name(RawKind::Script));
        assert(ypat@ =~= kind_name(RawKind::Style));
        assert(bpat@ =~= body_name());
    }
    let mut mode = HMode::Text;
    let mut buf: Vec<char> = Vec::new();
    let mut name: Vec<char> = Vec::new();
    let mut run: usize = 0;
    let mut quote: Option<char> = None;
    let mut kind = RawKind::Title;
    let mut k: usize = 0;
    let mut raw_buf: Vec<char> = Vec::new();
    let mut raw_seen: Vec<char> = Vec::new();
    let mut in_body: bool = false;
    let mut title: Option<Vec<char>> = None;
    let mut items: Vec<HItem<Vec<char>>> = Vec::new();
    let mut i: usize = 0;
    proof {
        assert(buf@ =~= Seq::<char>::empty());
        assert(name@ =~= Seq::<char>::empty());
        assert(raw_buf@ =~= Seq::<char>::empty());
        assert(raw_seen@ =~= Seq::<char>::empty());
        assert(items_view(items@) =~= Seq::<HItem<Seq<char>>>::empty());
    }
    while i < n
        invariant
            i <= n,
            n == v@.len(),
            tpat@ == kind_name(RawKind::Title),
            spat@ == kind_name(RawKind::Script),
            ypat@ == kind_name(RawKind::Style),
            bpat@ == body_name(),
            run <= 2,
            mode == HMode::RawSlash ==> k <= kind_name(kind).len(),
            h_scan(v@, 0, h_init()) == h_scan(
                v@,
                i as int,
                hst_of(
                    mode,
                    buf@,
                    name@,
                    run as nat,
                    quote,
                    kind,
                    k as nat,
                    raw_buf@,
                    raw_seen@,
                    in_body,
                    opt_title_view(title),
                    items_view(items@),
                ),
            ),
        decreases n - i,
    {
        let ghost st0 = hst_of(
            mode,
            buf@,
            name@,
            run as nat,
            quote,
            kind,
            k as nat,
            raw_buf@,
            raw_seen@,
            in_body,
            opt_title_view(title),
            items_view(items@),
        );
        let c = v[i];
        match mode {
            HMode::Text => {
                if c == '<' {
                    if in_body && buf.len() > 0 {
                        let u = unescape_lenient(&buf);
                        let ghost iv = items_view(items@);
                        items.push(HItem::Txt(u));
                        proof {
                            assert(items_view(items@) =~= iv.push(
                                HItem::Txt(spec_unescape_lenient(st0.buf)),
                            ));
                        }
                    }
                    buf = Vec::new();
                    mode = HMode::SeenLt;
                    proof {
                        assert(buf@ =~= Seq::<char>::empty());
                    }
                } else {
                    buf.push(c);
                }
            },
            HMode::SeenLt => {
                if c == '!' {
                    mode = HMode::Bang;
                } else if c == '/' {
                    mode = HMode::EndName;
                    name = Vec::new();
                    proof {
                        assert(name@ =~= Seq::<char>::empty());
                    }
                } else if c == '?' {
                    mode = HMode::Skip;
                } else if c == '>' {
                    mode = HMode::Text;
                } else if c == ' ' || c == '\t' || c == '\n' || c == '\r' || c == '\x0C' {
                    mode = HMode::Attrs;
                    name = Vec::new();
                    quote = None;
                    proof {
                        assert(name@ =~= Seq::<char>::empty());
                    }
                } else {
                    mode = HMode::StartName;
                    name = Vec::new();
                    name.push(c);
                    proof {
                        assert(name@ =~= seq![c]);
                    }
                }
            },
            HMode::Bang => {
                if c == '-' {
                    mode = HMode::BangDash;
                } else if c == '>' {
                    mode = HMode::Text;
                } else {
                    mode = HMode::Skip;
                }
            },
            HMode::BangDash => {
                if c == '-' {
                    mode = HMode::Comment;
                    run = 0;
                } else if c == '>' {
                    mode = HMode::Text;
                } else {
                    mode = HMode::Skip;
                }
            },
            HMode::Comment => {
                if c == '-' {
                    if run < 2 {
                        run = run + 1;
                    }
                } else if c == '>' && run >= 2 {
                    mode = HMode::Text;
                    run = 0;
                } else {
                    run = 0;
                }
            },
            HMode::Skip => {
                if c == '>' {
                    mode = HMode::Text;
                }
            },
            HMode::EndName => {
                if c == '>' {
                    if chars_eq_ci(&name, &bpat) && in_body {
                        let ghost iv = items_view(items@);
                        items.push(HItem::Seg);
                        in_body = false;
                        proof {
                            assert(items_view(items@) =~= iv.push(HItem::Seg));
                        }
                    }
                    name = Vec::new();
                    mode = HMode::Text;
                    proof {
                        assert(name@ =~= Seq::<char>::empty());
                    }
                } else if c == ' ' || c == '\t' || c == '\n' || c == '\r' || c == '\x0C' {
                    mode = HMode::EndWs;
                } else {
                    name.push(c);
                }
            },
            HMode::EndWs => {
                if c == '>' {
                    if chars_eq_ci(&name, &bpat) && in_body {
                        let ghost iv = items_view(items@);
                        items.push(HItem::Seg);
                        in_body = false;
                        proof {
                            assert(items_view(items@) =~= iv.push(HItem::Seg));
                        }
                    }
                    name = Vec::new();
                    mode = HMode::Text;
                    proof {
                        assert(name@ =~= Seq::<char>::empty());
                    }
                }
            },
            HMode::StartName => {
                if c == '>' {
                    start_tag_exec(
                        &mut mode,
                        &mut name,
                        &mut quote,
                        &mut kind,
                        &mut raw_buf,
                        &mut raw_seen,
                        &mut in_body,
                        &tpat,
                        &spat,
                        &ypat,
                        &bpat,
                    );
                } else if c == '/' {
                    mode = HMode::AttrSlash;
                } else if c == ' ' || c == '\t' || c == '\n' || c == '\r' || c == '\x0C' {
                    mode = HMode::Attrs;
                    quote = None;
                } else {
                    name.push(c);
                }
            },
            HMode::Attrs => {
                match quote {
                    Some(q) => {
                        if c == q {
                            quote = None;
                        }
                    },
                    None => {
                        if c == '>' {
                            start_tag_exec(
                                &mut mode,
                                &mut name,
                                &mut quote,
                                &mut kind,
                                &mut raw_buf,
                                &mut raw_seen,
                                &mut in_body,
                                &tpat,
                                &spat,
                                &ypat,
                                &bpat,
                            );
                        } else if c == '/' {
                            mode = HMode::AttrSlash;
                        } else if c == '"' || c == '\'' {
                            quote = Some(c);
                        }
                    },
                }
            },
            HMode::AttrSlash => {
                if c == '>' {
                    mode = HMode::Text;
                    name = Vec::new();
                    quote = None;
                    proof {
                        assert(name@ =~= Seq::<char>::empty());
                    }
                } else if c == '/' {
                } else if c == '"' || c == '\'' {
                    mode = HMode::Attrs;
                    quote = Some(c);
                } else {
                    mode = HMode::Attrs;
                }
            },
            HMode::Raw => {
                if c == '<' {
                    mode = HMode::RawLt;
                    raw_seen = Vec::new();
                    raw_seen.push('<');
                    proof {
                        assert(raw_seen@ =~= seq!['<']);
                    }
                } else {
                    raw_buf.push(c);
                }
            },
            HMode::RawLt => {
                if c == '/' {
                    mode = HMode::RawSlash;
                    k = 0;
                    raw_seen.push(c);
                } else if c == '<' {
                    let ghost rb = raw_buf@;
                    let ghost rs = raw_seen@;
                    raw_buf.append(&mut raw_seen);
                    raw_seen = Vec::new();
                    raw_seen.push('<');
                    proof {
                        assert(raw_buf@ =~= rb + rs);
                        assert(raw_seen@ =~= seq!['<']);
                    }
                } else {
                    let ghost rb = raw_buf@;
                    let ghost rs = raw_seen@;
                    raw_buf.append(&mut raw_seen);
                    raw_buf.push(c);
                    raw_seen = Vec::new();
                    mode = HMode::Raw;
                    proof {
                        assert(raw_buf@ =~= rb + rs + seq![c]);
                        assert(raw_seen@ =~= Seq::<char>::empty());
                    }
                }
            },
            HMode::RawSlash => {
                let target = match kind {
                    RawKind::Title => &tpat,
                    RawKind::Script => &spat,
                    RawKind::Style => &ypat,
                };
                if k < target.len() {
                    if lower(c) == lower(target[k]) {
                        k = k + 1;
                        raw_seen.push(c);
                    } else if c == '<' {
                        let ghost rb = raw_buf@;
                        let ghost rs = raw_seen@;
                        mode = HMode::RawLt;
                        raw_buf.append(&mut raw_seen);
                        raw_seen = Vec::new();
                        raw_seen.push('<');
                        proof {
                            assert(raw_buf@ =~= rb + rs);
                            assert(raw_seen@ =~= seq!['<']);
                        }
                    } else {
                        let ghost rb = raw_buf@;
                        let ghost rs = raw_seen@;
                        mode = HMode::Raw;
                        raw_buf.append(&mut raw_seen);
                        raw_buf.push(c);
                        raw_seen = Vec::new();
                        proof {
                            assert(raw_buf@ =~= rb + rs + seq![c]);
                            assert(raw_seen@ =~= Seq::<char>::empty());
                        }
                    }
                } else {
                    if c == '>' {
                        raw_end_exec(
                            &mut mode,
                            &mut kind,
                            &mut raw_buf,
                            &mut raw_seen,
                            &mut title,
                            &mut items,
                            in_body,
                        );
                    } else if c == ' ' || c == '\t' || c == '\n' || c == '\r' || c == '\x0C'
                        || c == '/' {
                        mode = HMode::RawEndWs;
                        raw_seen.push(c);
                    } else if c == '<' {
                        let ghost rb = raw_buf@;
                        let ghost rs = raw_seen@;
                        mode = HMode::RawLt;
                        raw_buf.append(&mut raw_seen);
                        raw_seen = Vec::new();
                        raw_seen.push('<');
                        proof {
                            assert(raw_buf@ =~= rb + rs);
                            assert(raw_seen@ =~= seq!['<']);
                        }
                    } else {
                        let ghost rb = raw_buf@;
                        let ghost rs = raw_seen@;
                        mode = HMode::Raw;
                        raw_buf.append(&mut raw_seen);
                        raw_buf.push(c);
                        raw_seen = Vec::new();
                        proof {
                            assert(raw_buf@ =~= rb + rs + seq![c]);
                            assert(raw_seen@ =~= Seq::<char>::empty());
                        }
                    }
                }
            },
            HMode::RawEndWs => {
                if c == '>' {
                    raw_end_exec(
                        &mut mode,
                        &mut kind,
                        &mut raw_buf,
                        &mut raw_seen,
                        &mut title,
                        &mut items,
                        in_body,
                    );
                } else {
                    raw_seen.push(c);
                }
            },
        }
        proof {
            let st1 = hst_of(
                mode,
                buf@,
                name@,
                run as nat,
                quote,
                kind,
                k as nat,
                raw_buf@,
                raw_seen@,
                in_body,
                opt_title_view(title),
                items_view(items@),
            );
            assert(h_step(c, st0) == st1);
        }
        i = i + 1;
    }
    let ghost stf = hst_of(
        mode,
        buf@,
        name@,
        run as nat,
        quote,
        kind,
        k as nat,
        raw_buf@,
        raw_seen@,
        in_body,
        opt_title_view(title),
        items_view(items@),
    );
    match mode {
        HMode::Text => {
            if in_body && buf.len() > 0 {
                let u = unescape_lenient(&buf);
                let ghost iv = items_view(items@);
                items.push(HItem::Txt(u));
                proof {
                    assert(items_view(items@) =~= iv.push(
                        HItem::Txt(spec_unescape_lenient(stf.buf)),
                    ));
                }
            }
        },
        HMode::Raw | HMode::RawLt | HMode::RawSlash | HMode::RawEndWs => {
            let ghost rb = raw_buf@;
            let ghost rs = raw_seen@;
            raw_buf.append(&mut raw_seen);
            proof {
                assert(raw_buf@ =~= rb + rs);
            }
            raw_end_exec(
                &mut mode,
                &mut kind,
                &mut raw_buf,
                &mut raw_seen,
                &mut title,
                &mut items,
                in_body,
            );
        },
        _ => {},
    }
    if in_body {
        let ghost iv = items_view(items@);
        items.push(HItem::Seg);
        proof {
            assert(items_view(items@) =~= iv.push(HItem::Seg));
        }
    }
    (title, items)
}

/// Apply a completed start tag to the scanner's variables, mirroring
/// `h_start`.
fn start_tag_exec(
    mode: &mut HMode,
    name: &mut Vec<char>,
    quote: &mut Option<char>,
    kind: &mut RawKind,
    raw_buf: &mut Vec<char>,
    raw_seen: &mut Vec<char>,
    in_body: &mut bool,
    tpat: &Vec<char>,
    spat: &Vec<char>,
    ypat: &Vec<char>,
    bpat: &Vec<char>,
)
    requires
        tpat@ == kind_name(RawKind::Title),
        spat@ == kind_name(RawKind::Script),
        ypat@ == kind_name(RawKind::Style),
        bpat@ == body_name(),
    ensures
        ({
            let st0 = HSt {
                mode: *old(mode),
                buf: Seq::empty(),
                name: old(name)@,
                run: 0,
                quote: *old(quote),
                kind: *old(kind),
                k: 0,
                raw_buf: old(raw_buf)@,
                raw_seen: old(raw_seen)@,
                in_body: *old(in_body),
                title: None,
                items: Seq::empty(),
            };
            let st1 = h_start(st0);
            &&& *final(mode) == st1.mode
            &&& final(name)@ == st1.name
            &&& *final(quote) == st1.quote
            &&& *final(kind) == st1.kind
            &&& final(raw_buf)@ == st1.raw_buf
            &&& final(raw_seen)@ == st1.raw_seen
            &&& *final(in_body) == st1.in_body
        }),
{
    if chars_eq_ci(name, tpat) {
        *mode = HMode::Raw;
        *kind = RawKind::Title;
        *name = Vec::new();
        *quote = None;
        *raw_buf = Vec::new();
        *raw_seen = Vec::new();
        proof {
            assert(raw_buf@ =~= Seq::<char>::empty());
            assert(raw_seen@ =~= Seq::<char>::empty());
        }
    } else if chars_eq_ci(name, spat) {
        *mode = HMode::Raw;
        *kind = RawKind::Script;
        *name = Vec::new();
        *quote = None;
        *raw_buf = Vec::new();
        *raw_seen = Vec::new();
        proof {
            assert(raw_buf@ =~= Seq::<char>::empty());
            assert(raw_seen@ =~= Seq::<char>::empty());
        }
    } else if chars_eq_ci(name, ypat) {
        *mode = HMode::Raw;
        *kind = RawKind::Style;
        *name = Vec::new();
        *quote = None;
        *raw_buf = Vec::new();
        *raw_seen = Vec::new();
        proof {
            assert(raw_buf@ =~= Seq::<char>::empty());
            assert(raw_seen@ =~= Seq::<char>::empty());
        }
    } else if chars_eq_ci(name, bpat) {
        *mode = HMode::Text;
        *name = Vec::new();
        *quote = None;
        *in_body = true;
    } else {
        *mode = HMode::Text;
        *name = Vec::new();
        *quote = None;
    }
    proof {
        assert(name@ =~= Seq::<char>::empty());
    }
}

/// Apply a completed raw-text element to the scanner's variables,
/// mirroring `h_raw_end`.
fn raw_end_exec(
    mode: &mut HMode,
    kind: &mut RawKind,
    raw_buf: &mut Vec<char>,
    raw_seen: &mut Vec<char>,
    title: &mut Option<Vec<char>>,
    items: &mut Vec<HItem<Vec<char>>>,
    in_body: bool,
)
    ensures
        ({
            let st0 = HSt {
                mode: HMode::Raw,
                buf: Seq::empty(),
                name: Seq::empty(),
                run: 0,
                quote: None,
                kind: *old(kind),
                k: 0,
                raw_buf: old(raw_buf)@,
                raw_seen: old(raw_seen)@,
                in_body,
                title: opt_title_view(*old(title)),
                items: items_view(old(items)@),
            };
            let st1 = h_raw_end(st0);
            &&& *final(mode) == st1.mode
            &&& *final(kind) == st1.kind
            &&& final(raw_buf)@ == st1.raw_buf
            &&& final(raw_seen)@ == st1.raw_seen
            &&& opt_title_view(*final(title)) == st1.title
            &&& items_view(final(items)@) == st1.items
        }),
{
    let is_title = match kind {
        RawKind::Title => true,
        _ => false,
    };
    if is_title {
        let present = title.is_some();
        if !present {
            let u = unescape_lenient(raw_buf);
            *title = Some(u);
        }
    } else {
        if in_body {
            let ghost iv = items_view(items@);
            let mut content: Vec<char> = Vec::new();
            core::mem::swap(&mut content, raw_buf);
            items.push(HItem::Raw(content));
            proof {
                assert(items_view(items@) =~= iv.push(HItem::Raw(old(raw_buf)@)));
            }
        }
    }
    *mode = HMode::Text;
    *raw_buf = Vec::new();
    *raw_seen = Vec::new();
    proof {
        assert(raw_buf@ =~= Seq::<char>::empty());
        assert(raw_seen@ =~= Seq::<char>::empty());
    }
}

/// Whether this item is a raw text carrying exactly this content.
pub open spec fn is_raw_with(it: HItem<Seq<char>>, t: Seq<char>) -> bool {
    match it {
        HItem::Raw(c) => c == t,
        _ => false,
    }
}

/// Whether some raw item in `seg[s..e]` carries exactly this content.
fn range_has_raw(items: &Vec<HItem<Vec<char>>>, s: usize, e: usize, t: &Vec<char>) -> (r: bool)
    requires
        s <= e <= items@.len(),
    ensures
        r == raws_of(items_view(items@).subrange(s as int, e as int)).contains(t@),
{
    let ghost seg = items_view(items@).subrange(s as int, e as int);
    proof {
        lemma_raws_from(seg, 0);
    }
    let mut j = s;
    while j < e
        invariant
            s <= j <= e <= items@.len(),
            seg == items_view(items@).subrange(s as int, e as int),
            forall|w: int| 0 <= w < j - s ==> !is_raw_with(#[trigger] seg[w], t@),
        decreases e - j,
    {
        let hit = match &items[j] {
            HItem::Raw(c) => chars_eq(c, t),
            _ => false,
        };
        proof {
            assert(seg[j - s] == item_view(items@[j as int]));
        }
        if hit {
            proof {
                assert(is_raw_with(seg[j - s], t@));
                lemma_raws_from_witness(seg, 0, j - s, t@);
            }
            return true;
        }
        j = j + 1;
    }
    proof {
        assert(forall|w: int| 0 <= w < seg.len() ==> !is_raw_with(#[trigger] seg[w], t@));
    }
    false
}

/// A raw item's content is among the segment's raw contents.
proof fn lemma_raws_from_witness(seg: Seq<HItem<Seq<char>>>, i: int, w: int, t: Seq<char>)
    requires
        0 <= i <= w < seg.len(),
        is_raw_with(seg[w], t),
    ensures
        raws_from(seg, i).contains(t),
    decreases w - i,
{
    if i == w {
        match seg[i] {
            HItem::Raw(c0) => {
                let whole = seq![c0] + raws_from(seg, i + 1);
                assert(whole[0] == t);
                assert(whole.contains(t));
            },
            _ => {},
        }
    } else {
        lemma_raws_from_witness(seg, i + 1, w, t);
        match seg[i] {
            HItem::Raw(c0) => {
                let whole = seq![c0] + raws_from(seg, i + 1);
                let w2 = choose|w2: int|
                    0 <= w2 < raws_from(seg, i + 1).len() && (#[trigger] raws_from(seg, i + 1)[w2])
                        == t;
                assert(whole[w2 + 1] == t);
                assert(whole.contains(t));
            },
            _ => {},
        }
    }
}

/// A value is among a segment's raw contents exactly when some raw
/// item carries it.
proof fn lemma_raws_from(seg: Seq<HItem<Seq<char>>>, i: int)
    requires
        0 <= i <= seg.len(),
    ensures
        forall|t: Seq<char>|
            (#[trigger] raws_from(seg, i).contains(t) <==> exists|w: int|
                i <= w < seg.len() && is_raw_with(#[trigger] seg[w], t)),
    decreases seg.len() - i,
{
    if i < seg.len() {
        lemma_raws_from(seg, i + 1);
        assert forall|t: Seq<char>| #[trigger]
            raws_from(seg, i).contains(t) implies exists|w: int|
            i <= w < seg.len() && is_raw_with(#[trigger] seg[w], t) by {
            match seg[i] {
                HItem::Raw(c0) => {
                    let whole = seq![c0] + raws_from(seg, i + 1);
                    let w0 = choose|w0: int| 0 <= w0 < whole.len() && (#[trigger] whole[w0]) == t;
                    if w0 == 0 {
                        assert(is_raw_with(seg[i], t));
                    } else {
                        assert(raws_from(seg, i + 1)[w0 - 1] == t);
                        assert(raws_from(seg, i + 1).contains(t));
                        let w = choose|w: int|
                            i + 1 <= w < seg.len() && is_raw_with(#[trigger] seg[w], t);
                        assert(is_raw_with(seg[w], t));
                    }
                },
                _ => {
                    let w = choose|w: int|
                        i + 1 <= w < seg.len() && is_raw_with(#[trigger] seg[w], t);
                    assert(is_raw_with(seg[w], t));
                },
            }
        }
        assert forall|t: Seq<char>|
            (exists|w: int|
                i <= w < seg.len() && is_raw_with(#[trigger] seg[w], t)) implies #[trigger]
            raws_from(seg, i).contains(t) by {
            let w = choose|w: int| i <= w < seg.len() && is_raw_with(#[trigger] seg[w], t);
            if w == i {
                match seg[i] {
                    HItem::Raw(c0) => {
                        let whole = seq![c0] + raws_from(seg, i + 1);
                        assert(whole[0] == t);
                        assert(whole.contains(t));
                    },
                    _ => {},
                }
            } else {
                assert(is_raw_with(seg[w], t));
                assert(raws_from(seg, i + 1).contains(t));
                match seg[i] {
                    HItem::Raw(c0) => {
                        let whole = seq![c0] + raws_from(seg, i + 1);
                        let w2 = choose|w2: int|
                            0 <= w2 < raws_from(seg, i + 1).len() && (#[trigger] raws_from(
                                seg,
                                i + 1,
                            )[w2]) == t;
                        assert(whole[w2 + 1] == t);
                        assert(whole.contains(t));
                    },
                    _ => {},
                }
            }
        }
    }
}

/// Whether this item is an ordinary text node that the segment keeps
/// as the fragment `f`.
pub open spec fn is_kept_txt(it: HItem<Seq<char>>, raws: Seq<Seq<char>>, f: Seq<char>) -> bool {
    match it {
        HItem::Txt(t) => !raws.contains(t) && spec_trim(t) == f && spec_trim(t).len() > 0,
        _ => false,
    }
}

proof fn lemma_kept_sources(
    seg: Seq<HItem<Seq<char>>>,
    raws: Seq<Seq<char>>,
    i: int,
    acc: Seq<Seq<char>>,
)
    requires
        0 <= i <= seg.len(),
        raws == raws_of(seg),
        forall|f: Seq<char>| #[trigger]
            acc.contains(f) ==> exists|j: int|
                0 <= j < seg.len() && is_kept_txt(#[trigger] seg[j], raws, f),
    ensures
        forall|f: Seq<char>| #[trigger]
            kept_from(seg, raws, i, acc).contains(f) ==> exists|j: int|
                0 <= j < seg.len() && is_kept_txt(#[trigger] seg[j], raws, f),
    decreases seg.len() - i,
{
    if i < seg.len() {
        let acc2 = match seg[i] {
            HItem::Txt(t) => if !raws.contains(t) && spec_trim(t).len() > 0 {
                acc.push(spec_trim(t))
            } else {
                acc
            },
            HItem::Raw(t) => if !raws.contains(t) && spec_trim(t).len() > 0 {
                acc.push(spec_trim(t))
            } else {
                acc
            },
            HItem::Seg => acc,
        };
        match seg[i] {
            HItem::Txt(t) => {
                if !raws.contains(t) && spec_trim(t).len() > 0 {
                    assert forall|f: Seq<char>| #[trigger]
                        acc2.contains(f) implies exists|j: int|
                        0 <= j < seg.len() && is_kept_txt(#[trigger] seg[j], raws, f) by {
                        let w = choose|w: int| 0 <= w < acc2.len() && acc2[w] == f;
                        if w < acc.len() {
                            assert(acc.contains(f));
                        } else {
                            assert(f == spec_trim(t));
                            assert(is_kept_txt(seg[i], raws, f));
                        }
                    }
                }
            },
            HItem::Raw(t) => {
                if !raws.contains(t) {
                    lemma_raws_from_witness(seg, 0, i, t);
                    assert(false);
                }
            },
            HItem::Seg => {},
        }
        assert(kept_from(seg, raws, i, acc) == kept_from(seg, raws, i + 1, acc2));
        lemma_kept_sources(seg, raws, i + 1, acc2);
    }
}

/// A `script` or `style` element's literal text never reaches the
/// extracted body: every fragment a segment keeps is the trimmed text
/// of an ordinary text node whose untrimmed content equals none of the
/// segment's script/style texts.  In particular no raw text item
/// contributes a fragment of its own.
pub proof fn lemma_script_text_excluded(seg: Seq<HItem<Seq<char>>>)
    ensures
        forall|f: Seq<char>| #[trigger]
            seg_frags(seg).contains(f) ==> exists|j: int|
                0 <= j < seg.len() && is_kept_txt(#[trigger] seg[j], raws_of(seg), f),
{
    let e = Seq::<Seq<char>>::empty();
    assert(forall|f: Seq<char>| !(#[trigger] e.contains(f)));
    lemma_kept_sources(seg, raws_of(seg), 0, e);
}

/// The kept fragments of the segment `items[s..e]`.
fn seg_frags_exec(items: &Vec<HItem<Vec<char>>>, s: usize, e: usize) -> (r: Vec<Vec<char>>)
    requires
        s <= e <= items@.len(),
    ensures
        r.deep_view() == seg_frags(items_view(items@).subrange(s as int, e as int)),
{
    let ghost seg = items_view(items@).subrange(s as int, e as int);
    let mut out: Vec<Vec<char>> = Vec::new();
    proof {
        assert(out.deep_view() =~~= Seq::<Seq<char>>::empty());
    }
    let mut j = s;
    while j < e
        invariant
            s <= j <= e <= items@.len(),
            seg == items_view(items@).subrange(s as int, e as int),
            seg_frags(seg) == kept_from(seg, raws_of(seg), j - s, out.deep_view()),
        decreases e - j,
    {
        proof {
            assert(seg[j - s] == item_view(items@[j as int]));
        }
        let content: Option<&Vec<char>> = match &items[j] {
            HItem::Txt(t) => Some(t),
            HItem::Raw(t) => Some(t),
            HItem::Seg => None,
        };
        match content {
            Some(t) => {
                let excluded = range_has_raw(items, s, e, t);
                if !excluded {
                    let tr = trim_vec(t);
                    if tr.len() > 0 {
                        let ghost od = out.deep_view();
                        let ghost trv = tr@;
                        out.push(tr);
                        proof {
                            assert(out.deep_view() =~~= od.push(trv));
                        }
                    }
                }
            },
            None => {},
        }
        j = j + 1;
    }
    out
}

/// Collect the kept fragments of every body segment, in order.
fn assemble_exec(items: &Vec<HItem<Vec<char>>>) -> (r: Vec<Vec<char>>)
    ensures
        r.deep_view() == assemble_from(items_view(items@), 0, Seq::empty(), Seq::empty()),
{
    let n = items.len();
    let ghost iv = items_view(items@);
    let mut frags: Vec<Vec<char>> = Vec::new();
    let mut seg_start: usize = 0;
    let mut i: usize = 0;
    proof {
        assert(frags.deep_view() =~~= Seq::<Seq<char>>::empty());
        assert(iv.subrange(0, 0) =~= Seq::<HItem<Seq<char>>>::empty());
    }
    while i < n
        invariant
            seg_start <= i <= n,
            n == items@.len(),
            iv == items_view(items@),
            assemble_from(iv, 0, Seq::empty(), Seq::empty()) == assemble_from(
                iv,
                i as int,
                iv.subrange(seg_start as int, i as int),
                frags.deep_view(),
            ),
        decreases n - i,
    {
        let is_seg = match &items[i] {
            HItem::Seg => true,
            _ => false,
        };
        proof {
            assert(iv[i as int] == item_view(items@[i as int]));
        }
        if is_seg {
            let mut add = seg_frags_exec(items, seg_start, i);
            let ghost fd = frags.deep_view();
            let ghost ad = add.deep_view();
            frags.append(&mut add);
            seg_start = i + 1;
            proof {
                assert(frags.deep_view() =~~= fd + ad);
                assert(iv.subrange(seg_start as int, i + 1) =~= Seq::<HItem<Seq<char>>>::empty());
            }
        } else {
            proof {
                assert(iv.subrange(seg_start as int, i + 1) =~= iv.subrange(
                    seg_start as int,
                    i as int,
                ).push(iv[i as int]));
            }
        }
        i = i + 1;
    }
    if seg_start < n {
        let mut add = seg_frags_exec(items, seg_start, n);
        let ghost fd = frags.deep_view();
        let ghost ad = add.deep_view();
        frags.append(&mut add);
        proof {
            assert(frags.deep_view() =~~= fd + ad);
            assert(iv.subrange(seg_start as int, n as int).len() > 0);
        }
    } else {
        proof {
            assert(iv.subrange(seg_start as int, n as int).len() == 0);
        }
    }
    frags
}

/// Join fragments with single spaces.
fn join_exec(frags: &Vec<Vec<char>>) -> (r: Vec<char>)
    ensures
        r@ == join_from(frags.deep_view(), 0, Seq::empty()),
{
    let n = frags.len();
    let mut out: Vec<char> = Vec::new();
    let mut i: usize = 0;
    proof {
        assert(out@ =~= Seq::<char>::empty());
    }
    while i < n
        invariant
            i <= n,
            n == frags@.len(),
            join_from(frags.deep_view(), 0, Seq::empty()) == join_from(
                frags.deep_view(),
                i as int,
                out@,
            ),
        decreases n - i,
    {
        let ghost o0 = out@;
        if out.len() > 0 {
            out.push(' ');
        }
        let f = &frags[i];
        proof {
            assert(f@ =~= frags.deep_view()[i as int]);
        }
        let m = f.len();
        let mut j: usize = 0;
        let ghost o1 = out@;
        while j < m
            invariant
                j <= m,
                m == f@.len(),
                out@ =~= o1 + f@.subrange(0, j as int),
            decreases m - j,
        {
            out.push(f[j]);
            j = j + 1;
        }
        proof {
            assert(f@.subrange(0, m as int) =~= f@);
            if o0.len() > 0 {
                assert(out@ =~= o0 + seq![' '] + frags.deep_view()[i as int]);
            } else {
                assert(out@ =~= frags.deep_view()[i as int]);
            }
        }
        i = i + 1;
    }
    out
}

/// Extract the readable text of an HTML page: the first title's
/// trimmed text and the body's kept fragments joined by single spaces,
/// with a blank line after a non-empty title.
pub fn extract_text_from_html(html: &str) -> (r: String)
    ensures
        r@ == spec_extract(html@),
{
    let v = str_to_chars(html);
    let scanned = h_scan_exec(&v);
    let title = scanned.0;
    let items = scanned.1;
    let frags = assemble_exec(&items);
    let body = join_exec(&frags);
    let t: Vec<char> = match &title {
        Some(tv) => trim_vec(tv),
        None => Vec::new(),
    };
    proof {
        assert(t@ == (match opt_title_view(title) {
            Some(tt) => spec_trim(tt),
            None => Seq::<char>::empty(),
        })) by {
            if title is None {
                assert(t@ =~= Seq::<char>::empty());
            }
        }
    }
    if t.len() == 0 {
        chars_to_string(&body)
    } else {
        let mut outv = t;
        let ghost tv0 = outv@;
        outv.push('\n');
        outv.push('\n');
        let mut b = body;
        let ghost bv = b@;
        outv.append(&mut b);
        proof {
            assert(outv@ =~= tv0 + seq!['\n', '\n'] + bv);
        }
        chars_to_string(&outv)
    }
}

} // verus!
