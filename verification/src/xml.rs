//! A streaming scan of sitemap XML that collects the text of every
//! `<loc>` element, in document order.  The scanner walks the input one
//! character at a time through a small mode machine: tags, comments,
//! CDATA sections, processing instructions and doctype declarations are
//! recognised and skipped; text inside a `loc` element is trimmed,
//! entity references are decoded strictly, and the result is appended.
//! Open element names are kept on a stack: an end tag that does not
//! match the innermost open element, or one with nothing open, is a
//! parse error, as are a bare `<`, a `<!` that introduces neither a
//! comment nor a CDATA section nor a doctype, an invalid reference
//! inside a `loc`, and a construct cut off by the end of the input.
//! Elements still open when the input ends are tolerated.

use vstd::prelude::*;

use crate::bridge::chars_to_string;
use crate::bridge::str_to_chars;
use crate::chars::chars_eq;
use crate::chars::spec_trim;
use crate::chars::trim_vec;
use crate::entity::spec_unescape_strict;
use crate::entity::unescape_strict;

verus! {

/// Malformed sitemap XML.
#[derive(Debug)]
pub struct ParseError;

/// Where the scanner stands inside the document grammar.
#[derive(PartialEq, Eq, Structural, Clone, Copy, Debug)]
pub enum ScanMode {
    /// In character data, collecting a text run.
    Text,
    /// Just behind a `<`.
    SeenLt,
    /// Behind `<!`.
    Bang,
    /// Behind `<!-`.
    BangDash,
    /// Inside `<!--`, waiting for `-->`.
    Comment,
    /// Behind `<![`, matching the letters of `CDATA[`.
    Cdata,
    /// Inside a CDATA section, waiting for `]]>`.
    CdataBody,
    /// Inside a doctype declaration, waiting for `>`.
    Doctype,
    /// Inside `<?`-instructions, waiting for `>`.
    Pi,
    /// Collecting an end tag's name.
    EndName,
    /// Behind an end tag's name, waiting for `>`.
    EndWs,
    /// Collecting a start tag's name.
    StartName,
    /// Skipping a start tag's attributes, quote-aware.
    Attrs,
    /// Behind a `/` inside a start tag.
    AttrSlash,
}

/// The scanner's full state between characters.
pub struct ScanSt {
    pub mode: ScanMode,
    /// The text run collected since the last tag.
    pub buf: Seq<char>,
    /// The tag name collected so far.
    pub name: Seq<char>,
    /// The names of the elements currently open, outermost first.
    pub stack: Seq<Seq<char>>,
    /// Progress through the letters of `CDATA[`.
    pub k: nat,
    /// Trailing `-` count in a comment, or `]` count in CDATA.
    pub run: nat,
    /// The quote character an attribute value was opened with.
    pub quote: Option<char>,
    /// Whether the scan stands inside a `loc` element.
    pub in_loc: bool,
    /// The locations collected so far.
    pub acc: Seq<Seq<char>>,
}

pub open spec fn st_of(
    mode: ScanMode,
    buf: Seq<char>,
    name: Seq<char>,
    stack: Seq<Seq<char>>,
    k: nat,
    run: nat,
    quote: Option<char>,
    in_loc: bool,
    acc: Seq<Seq<char>>,
) -> ScanSt {
    ScanSt { mode, buf, name, stack, k, run, quote, in_loc, acc }
}

pub open spec fn init_st() -> ScanSt {
    st_of(
        ScanMode::Text,
        Seq::empty(),
        Seq::empty(),
        Seq::empty(),
        0,
        0,
        None,
        false,
        Seq::empty(),
    )
}

/// XML whitespace, which ends a tag name.
pub open spec fn xml_ws(c: char) -> bool {
    c == ' ' || c == '\t' || c == '\n' || c == '\r'
}

pub open spec fn loc_name() -> Seq<char> {
    seq!['l', 'o', 'c']
}

pub open spec fn cdata_pat() -> Seq<char> {
    seq!['C', 'D', 'A', 'T', 'A', '[']
}

/// Close a text run: inside a `loc`, a run that is not all whitespace
/// is trimmed, strictly decoded and appended; elsewhere it is dropped.
/// `None` is a decoding error.
pub open spec fn flush_loc(in_loc: bool, buf: Seq<char>, acc: Seq<Seq<char>>) -> Option<
    Seq<Seq<char>>,
> {
    if in_loc && spec_trim(buf).len() > 0 {
        match spec_unescape_strict(spec_trim(buf)) {
            Some(u) => Some(acc.push(u)),
            None => None,
        }
    } else {
        Some(acc)
    }
}

/// A start tag is complete: its name joins the open-element stack, and
/// entering a `loc` element sets the flag.
pub open spec fn start_tag(st: ScanSt) -> ScanSt {
    ScanSt {
        mode: ScanMode::Text,
        name: Seq::empty(),
        stack: st.stack.push(st.name),
        quote: None,
        in_loc: if st.name == loc_name() {
            true
        } else {
            st.in_loc
        },
        ..st
    }
}

/// An end tag is complete: it must close the innermost open element,
/// else the document is malformed; leaving a `loc` element clears the
/// flag.
pub open spec fn end_tag(st: ScanSt) -> Option<ScanSt> {
    if st.stack.len() > 0 && st.stack.last() == st.name {
        Some(
            ScanSt {
                mode: ScanMode::Text,
                name: Seq::empty(),
                stack: st.stack.drop_last(),
                in_loc: if st.name == loc_name() {
                    false
                } else {
                    st.in_loc
                },
                ..st
            },
        )
    } else {
        None
    }
}

/// One character of input moves the scanner one step; `None` is a
/// parse error.
pub open spec fn xml_step(c: char, st: ScanSt) -> Option<ScanSt> {
    match st.mode {
        ScanMode::Text => {
            if c == '<' {
                match flush_loc(st.in_loc, st.buf, st.acc) {
                    Some(acc2) => Some(
                        ScanSt { mode: ScanMode::SeenLt, buf: Seq::empty(), acc: acc2, ..st },
                    ),
                    None => None,
                }
            } else {
                Some(ScanSt { buf: st.buf.push(c), ..st })
            }
        },
        ScanMode::SeenLt => {
            if c == '!' {
                Some(ScanSt { mode: ScanMode::Bang, ..st })
            } else if c == '/' {
                Some(ScanSt { mode: ScanMode::EndName, name: Seq::empty(), ..st })
            } else if c == '?' {
                Some(ScanSt { mode: ScanMode::Pi, ..st })
            } else if c == '>' || xml_ws(c) {
                None
            } else {
                Some(ScanSt { mode: ScanMode::StartName, name: seq![c], ..st })
            }
        },
        ScanMode::Bang => {
            if c == '-' {
                Some(ScanSt { mode: ScanMode::BangDash, ..st })
            } else if c == '[' {
                Some(ScanSt { mode: ScanMode::Cdata, k: 0, ..st })
            } else if c == 'D' || c == 'd' {
                Some(ScanSt { mode: ScanMode::Doctype, ..st })
            } else {
                None
            }
        },
        ScanMode::BangDash => {
            if c == '-' {
                Some(ScanSt { mode: ScanMode::Comment, run: 0, ..st })
            } else {
                None
            }
        },
        ScanMode::Comment => {
            if c == '-' {
                Some(
                    ScanSt {
                        run: if st.run < 2 {
                            st.run + 1
                        } else {
                            2
                        },
                        ..st
                    },
                )
            } else if c == '>' && st.run >= 2 {
                Some(ScanSt { mode: ScanMode::Text, run: 0, ..st })
            } else {
                Some(ScanSt { run: 0, ..st })
            }
        },
        ScanMode::Cdata => {
            if st.k < 6 && c == cdata_pat()[st.k as int] {
                if st.k == 5 {
                    Some(ScanSt { mode: ScanMode::CdataBody, k: 0, run: 0, ..st })
                } else {
                    Some(ScanSt { k: st.k + 1, ..st })
                }
            } else {
                None
            }
        },
        ScanMode::CdataBody => {
            if c == ']' {
                Some(
                    ScanSt {
                        run: if st.run < 2 {
                            st.run + 1
                        } else {
                            2
                        },
                        ..st
                    },
                )
            } else if c == '>' && st.run >= 2 {
                Some(ScanSt { mode: ScanMode::Text, run: 0, ..st })
            } else {
                Some(ScanSt { run: 0, ..st })
            }
        },
        ScanMode::Doctype => {
            if c == '>' {
                Some(ScanSt { mode: ScanMode::Text, ..st })
            } else {
                Some(st)
            }
        },
        ScanMode::Pi => {
            if c == '>' {
                Some(ScanSt { mode: ScanMode::Text, ..st })
            } else {
                Some(st)
            }
        },
        ScanMode::EndName => {
            if c == '>' {
                end_tag(st)
            } else if xml_ws(c) {
                Some(ScanSt { mode: ScanMode::EndWs, ..st })
            } else {
                Some(ScanSt { name: st.name.push(c), ..st })
            }
        },
        ScanMode::EndWs => {
            if c == '>' {
                end_tag(st)
            } else {
                Some(st)
            }
        },
        ScanMode::StartName => {
            if c == '>' {
                Some(start_tag(st))
            } else if c == '/' {
                Some(ScanSt { mode: ScanMode::AttrSlash, ..st })
            } else if xml_ws(c) {
                Some(ScanSt { mode: ScanMode::Attrs, quote: None, ..st })
            } else {
                Some(ScanSt { name: st.name.push(c), ..st })
            }
        },
        ScanMode::Attrs => {
            match st.quote {
                Some(q) => {
                    if c == q {
                        Some(ScanSt { quote: None, ..st })
                    } else {
                        Some(st)
                    }
                },
                None => {
                    if c == '>' {
                        Some(start_tag(st))
                    } else if c == '/' {
                        Some(ScanSt { mode: ScanMode::AttrSlash, ..st })
                    } else if c == '"' || c == '\'' {
                        Some(ScanSt { quote: Some(c), ..st })
                    } else {
                        Some(st)
                    }
                },
            }
        },
        ScanMode::AttrSlash => {
            if c == '>' {
                Some(ScanSt { mode: ScanMode::Text, name: Seq::empty(), quote: None, ..st })
            } else if c == '/' {
                Some(st)
            } else if c == '"' || c == '\'' {
                Some(ScanSt { mode: ScanMode::Attrs, quote: Some(c), ..st })
            } else {
                Some(ScanSt { mode: ScanMode::Attrs, ..st })
            }
        },
    }
}

/// The scan from position `i` in state `st` to the end of the input:
/// the collected locations, or `None` on malformed input.  At the end
/// of input any construct cut off mid-way is an error; a final text
/// run is closed like any other, and elements left open are tolerated.
pub open spec fn xml_scan(s: Seq<char>, i: int, st: ScanSt) -> Option<Seq<Seq<char>>>
    decreases s.len() - i,
{
    if i < 0 || i >= s.len() {
        if st.mode == ScanMode::Text {
            flush_loc(st.in_loc, st.buf, st.acc)
        } else {
            None
        }
    } else {
        match xml_step(s[i], st) {
            Some(st2) => xml_scan(s, i + 1, st2),
            None => None,
        }
    }
}

/// What parsing a sitemap document yields: the `<loc>` texts in
/// document order, or `None` when the document is malformed.
pub open spec fn spec_sitemap_locations(s: Seq<char>) -> Option<Seq<Seq<char>>> {
    xml_scan(s, 0, init_st())
}

/// Parse sitemap XML, extracting the ordered `<loc>` texts.
pub fn parse_sitemap_locations(xml: &str) -> (r: Result<Vec<String>, ParseError>)
    ensures
        match r {
            Ok(locs) => spec_sitemap_locations(xml@) == Some(locs.deep_view()),
            Err(_) => spec_sitemap_locations(xml@) is None,
        },
{
    let v = str_to_chars(xml);
    let n = v.len();
    let cpat: Vec<char> = vec!['C', 'D', 'A', 'T', 'A', '['];
    let lpat: Vec<char> = vec!['l', 'o', 'c'];
    proof {
        assert(cpat@ =~= cdata_pat());
        assert(lpat@ =~= loc_name());
    }
    let mut mode = ScanMode::Text;
    let mut buf: Vec<char> = Vec::new();
    let mut name: Vec<char> = Vec::new();
    let mut stack: Vec<Vec<char>> = Vec::new();
    let mut k: usize = 0;
    let mut run: usize = 0;
    let mut quote: Option<char> = None;
    let mut in_loc: bool = false;
    let mut out: Vec<String> = Vec::new();
    let mut i: usize = 0;
    proof {
        assert(buf@ =~= Seq::<char>::empty());
        assert(name@ =~= Seq::<char>::empty());
        assert(stack.deep_view() =~~= Seq::<Seq<char>>::empty());
        assert(out.deep_view() =~~= Seq::<Seq<char>>::empty());
    }
    while i < n
        invariant
            i <= n,
            n == v@.len(),
            v@ == xml@,
            cpat@ == cdata_pat(),
            lpat@ == loc_name(),
            run <= 2,
            k <= 5,
            spec_sitemap_locations(xml@) == xml_scan(
                v@,
                i as int,
                st_of(
                    mode,
                    buf@,
                    name@,
                    stack.deep_view(),
                    k as nat,
                    run as nat,
                    quote,
                    in_loc,
                    out.deep_view(),
                ),
            ),
        decreases n - i,
    {
        let ghost st0 = st_of(
            mode,
            buf@,
            name@,
            stack.deep_view(),
            k as nat,
            run as nat,
            quote,
            in_loc,
            out.deep_view(),
        );
        let c = v[i];
        match mode {
            ScanMode::Text => {
                if c == '<' {
                    let t = trim_vec(&buf);
                    if in_loc && t.len() > 0 {
                        match unescape_strict(&t) {
                            Some(u) => {
                                let s = chars_to_string(&u);
                                let ghost outd = out.deep_view();
                                out.push(s);
                                proof {
                                    assert(out.deep_view() =~~= outd.push(u@));
                                }
                            },
                            None => {
                                proof {
                                    assert(xml_step(c, st0) is None);
                                }
                                return Err(ParseError);
                            },
                        }
                    }
                    buf = Vec::new();
                    mode = ScanMode::SeenLt;
                    proof {
                        assert(buf@ =~= Seq::<char>::empty());
                    }
                } else {
                    buf.push(c);
                }
            },
            ScanMode::SeenLt => {
                if c == '!' {
                    mode = ScanMode::Bang;
                } else if c == '/' {
                    mode = ScanMode::EndName;
                    name = Vec::new();
                    proof {
                        assert(name@ =~= Seq::<char>::empty());
                    }
                } else if c == '?' {
                    mode = ScanMode::Pi;
                } else if c == '>' || c == ' ' || c == '\t' || c == '\n' || c == '\r' {
                    proof {
                        assert(xml_step(c, st0) is None);
                    }
                    return Err(ParseError);
                } else {
                    mode = ScanMode::StartName;
                    name = Vec::new();
                    name.push(c);
                    proof {
                        assert(name@ =~= seq![c]);
                    }
                }
            },
            ScanMode::Bang => {
                if c == '-' {
                    mode = ScanMode::BangDash;
                } else if c == '[' {
                    mode = ScanMode::Cdata;
                    k = 0;
                } else if c == 'D' || c == 'd' {
                    mode = ScanMode::Doctype;
                } else {
                    proof {
                        assert(xml_step(c, st0) is None);
                    }
                    return Err(ParseError);
                }
            },
            ScanMode::BangDash => {
                if c == '-' {
                    mode = ScanMode::Comment;
                    run = 0;
                } else {
                    proof {
                        assert(xml_step(c, st0) is None);
                    }
                    return Err(ParseError);
                }
            },
            ScanMode::Comment => {
                if c == '-' {
                    if run < 2 {
                        run = run + 1;
                    }
                } else if c == '>' && run >= 2 {
                    mode = ScanMode::Text;
                    run = 0;
                } else {
                    run = 0;
                }
            },
            ScanMode::Cdata => {
                if k < 6 && c == cpat[k] {
                    if k == 5 {
                        mode = ScanMode::CdataBody;
                        k = 0;
                        run = 0;
                    } else {
                        k = k + 1;
                    }
                } else {
                    proof {
                        assert(xml_step(c, st0) is None);
                    }
                    return Err(ParseError);
                }
            },
            ScanMode::CdataBody => {
                if c == ']' {
                    if run < 2 {
                        run = run + 1;
                    }
                } else if c == '>' && run >= 2 {
                    mode = ScanMode::Text;
                    run = 0;
                } else {
                    run = 0;
                }
            },
            ScanMode::Doctype => {
                if c == '>' {
                    mode = ScanMode::Text;
                }
            },
            ScanMode::Pi => {
                if c == '>' {
                    mode = ScanMode::Text;
                }
            },
            ScanMode::EndName | ScanMode::EndWs => {
                let in_name = match mode {
                    ScanMode::EndName => true,
                    _ => false,
                };
                if c == '>' {
                    if stack.len() == 0 {
                        proof {
                            assert(xml_step(c, st0) is None);
                        }
                        return Err(ParseError);
                    }
                    let top = stack.pop().unwrap();
                    proof {
                        assert(st0.stack.last() =~= top@);
                    }
                    if !chars_eq(&top, &name) {
                        proof {
                            assert(st0.stack.last() != st0.name);
                            assert(xml_step(c, st0) is None);
                        }
                        return Err(ParseError);
                    }
                    if chars_eq(&name, &lpat) {
                        in_loc = false;
                    }
                    name = Vec::new();
                    mode = ScanMode::Text;
                    proof {
                        assert(name@ =~= Seq::<char>::empty());
                        assert(st0.stack.last() == st0.name);
                        assert(stack.deep_view() =~~= st0.stack.drop_last());
                    }
                } else if in_name {
                    if c == ' ' || c == '\t' || c == '\n' || c == '\r' {
                        mode = ScanMode::EndWs;
                    } else {
                        name.push(c);
                    }
                }
            },
            ScanMode::StartName => {
                if c == '>' {
                    if chars_eq(&name, &lpat) {
                        in_loc = true;
                    }
                    let ghost std0 = stack.deep_view();
                    let ghost namev = name@;
                    stack.push(name);
                    name = Vec::new();
                    quote = None;
                    mode = ScanMode::Text;
                    proof {
                        assert(name@ =~= Seq::<char>::empty());
                        assert(stack.deep_view() =~~= std0.push(namev));
                    }
                } else if c == '/' {
                    mode = ScanMode::AttrSlash;
                } else if c == ' ' || c == '\t' || c == '\n' || c == '\r' {
                    mode = ScanMode::Attrs;
                    quote = None;
                } else {
                    name.push(c);
                }
            },
            ScanMode::Attrs => {
                match quote {
                    Some(q) => {
                        if c == q {
                            quote = None;
                        }
                    },
                    None => {
                        if c == '>' {
                            if chars_eq(&name, &lpat) {
                                in_loc = true;
                            }
                            let ghost std0 = stack.deep_view();
                            let ghost namev = name@;
                            stack.push(name);
                            name = Vec::new();
                            quote = None;
                            mode = ScanMode::Text;
                            proof {
                                assert(name@ =~= Seq::<char>::empty());
                                assert(stack.deep_view() =~~= std0.push(namev));
                            }
                        } else if c == '/' {
                            mode = ScanMode::AttrSlash;
                        } else if c == '"' || c == '\'' {
                            quote = Some(c);
                        }
                    },
                }
            },
            ScanMode::AttrSlash => {
                if c == '>' {
                    mode = ScanMode::Text;
                    name = Vec::new();
                    quote = None;
                    proof {
                        assert(name@ =~= Seq::<char>::empty());
                    }
                } else if c == '/' {
                } else if c == '"' || c == '\'' {
                    mode = ScanMode::Attrs;
                    quote = Some(c);
                } else {
                    mode = ScanMode::Attrs;
                }
            },
        }
        proof {
            let st1 = st_of(
                mode,
                buf@,
                name@,
                stack.deep_view(),
                k as nat,
                run as nat,
                quote,
                in_loc,
                out.deep_view(),
            );
            assert(xml_step(c, st0) == Some(st1));
        }
        i = i + 1;
    }
    let ghost stf = st_of(
        mode,
        buf@,
        name@,
        stack.deep_view(),
        k as nat,
        run as nat,
        quote,
        in_loc,
        out.deep_view(),
    );
    match mode {
        ScanMode::Text => {
            let t = trim_vec(&buf);
            if in_loc && t.len() > 0 {
                match unescape_strict(&t) {
                    Some(u) => {
                        let s = chars_to_string(&u);
                        let ghost outd = out.deep_view();
                        out.push(s);
                        proof {
                            assert(out.deep_view() =~~= outd.push(u@));
                            assert(flush_loc(stf.in_loc, stf.buf, stf.acc) == Some(
                                out.deep_view(),
                            ));
                        }
                        Ok(out)
                    },
                    None => Err(ParseError),
                }
            } else {
                Ok(out)
            }
        },
        _ => Err(ParseError),
    }
}

} // verus!
