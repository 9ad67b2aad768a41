//! Character-reference decoding for the XML and HTML scanners: the
//! five predefined named entities plus decimal and hexadecimal numeric
//! references.  The sitemap parser decodes strictly (an invalid or
//! unterminated reference is an error); the HTML extractor decodes
//! leniently (what does not decode stays literal).

use vstd::prelude::*;

use crate::bridge::char_from_u32;
use crate::bridge::is_scalar_value;
use crate::chars::chars_eq;

verus! {

pub open spec fn is_dec_digit(c: char) -> bool {
    0x30 <= c as u32 && c as u32 <= 0x39
}

pub open spec fn is_hex_digit(c: char) -> bool {
    is_dec_digit(c) || (0x41 <= c as u32 && c as u32 <= 0x46) || (0x61 <= c as u32 && c as u32
        <= 0x66)
}

pub open spec fn digit_val(c: char) -> nat {
    if is_dec_digit(c) {
        (c as u32 - 0x30) as nat
    } else if 0x41 <= c as u32 && c as u32 <= 0x46 {
        (c as u32 - 0x41 + 10) as nat
    } else {
        (c as u32 - 0x61 + 10) as nat
    }
}

pub open spec fn all_digits(ds: Seq<char>, hex: bool) -> bool {
    forall|k: int| 0 <= k < ds.len() ==> (if hex {
        is_hex_digit(ds[k])
    } else {
        is_dec_digit(ds[k])
    })
}

/// The number the digit string denotes, in base 10 or 16.
pub open spec fn digits_val(ds: Seq<char>, hex: bool) -> nat
    decreases ds.len(),
{
    if ds.len() == 0 {
        0
    } else {
        digits_val(ds.drop_last(), hex) * (if hex {
            16nat
        } else {
            10nat
        }) + digit_val(ds.last())
    }
}

/// The character a reference body denotes, if any: `amp`, `lt`, `gt`,
/// `quot`, `apos`, or `#` followed by digits denoting a scalar value.
pub open spec fn decode_entity_spec(name: Seq<char>) -> Option<char> {
    if name == seq!['a', 'm', 'p'] {
        Some('&')
    } else if name == seq!['l', 't'] {
        Some('<')
    } else if name == seq!['g', 't'] {
        Some('>')
    } else if name == seq!['q', 'u', 'o', 't'] {
        Some('"')
    } else if name == seq!['a', 'p', 'o', 's'] {
        Some('\'')
    } else if name.len() >= 2 && name[0] == '#' && (name[1] == 'x' || name[1] == 'X') {
        let ds = name.subrange(2, name.len() as int);
        if ds.len() > 0 && all_digits(ds, true) && digits_val(ds, true) <= 0x10FFFF
            && is_scalar_value(digits_val(ds, true) as u32) {
            Some((digits_val(ds, true) as u32) as char)
        } else {
            None
        }
    } else if name.len() >= 1 && name[0] == '#' {
        let ds = name.subrange(1, name.len() as int);
        if ds.len() > 0 && all_digits(ds, false) && digits_val(ds, false) <= 0x10FFFF
            && is_scalar_value(digits_val(ds, false) as u32) {
            Some((digits_val(ds, false) as u32) as char)
        } else {
            None
        }
    } else {
        None
    }
}

fn is_digit(c: char, hex: bool) -> (r: bool)
    ensures
        r == (if hex {
            is_hex_digit(c)
        } else {
            is_dec_digit(c)
        }),
{
    let u = c as u32;
    if 0x30 <= u && u <= 0x39 {
        true
    } else if hex {
        (0x41 <= u && u <= 0x46) || (0x61 <= u && u <= 0x66)
    } else {
        false
    }
}

proof fn lemma_digits_val_big(ds: Seq<char>, hex: bool)
    requires
        ds.len() > 0,
        digits_val(ds.drop_last(), hex) > 0x10FFFF,
    ensures
        digits_val(ds, hex) > 0x10FFFF,
{
    let b: nat = if hex {
        16nat
    } else {
        10nat
    };
    let v = digits_val(ds.drop_last(), hex);
    assert(v * b >= v * 1) by (nonlinear_arith)
        requires
            b >= 1,
            v >= 0,
    ;
}

/// The numeric value of a digit string, when every character is a
/// digit and the value is no more than the largest code point.
fn digits_value(ds: &Vec<char>, hex: bool) -> (r: Option<u32>)
    ensures
        r == (if ds@.len() > 0 && all_digits(ds@, hex) && digits_val(ds@, hex) <= 0x10FFFF {
            Some(digits_val(ds@, hex) as u32)
        } else {
            None::<u32>
        }),
{
    if ds.len() == 0 {
        return None;
    }
    let base: u64 = if hex {
        16
    } else {
        10
    };
    let n = ds.len();
    let mut acc: u32 = 0;
    let mut big: bool = false;
    let mut i: usize = 0;
    while i < n
        invariant
            i <= n,
            n == ds@.len(),
            all_digits(ds@.subrange(0, i as int), hex),
            big == (digits_val(ds@.subrange(0, i as int), hex) > 0x10FFFF),
            !big ==> acc == digits_val(ds@.subrange(0, i as int), hex),
            base == (if hex {
                16u64
            } else {
                10u64
            }),
        decreases n - i,
    {
        let c = ds[i];
        if !is_digit(c, hex) {
            return None;
        }
        let d: u32 = if 0x30 <= c as u32 && c as u32 <= 0x39 {
            c as u32 - 0x30
        } else if 0x41 <= c as u32 && c as u32 <= 0x46 {
            c as u32 - 0x41 + 10
        } else {
            c as u32 - 0x61 + 10
        };
        proof {
            assert(ds@.subrange(0, i + 1).drop_last() =~= ds@.subrange(0, i as int));
            assert(ds@.subrange(0, i + 1).last() == ds@[i as int]);
        }
        if big {
            proof {
                lemma_digits_val_big(ds@.subrange(0, i + 1), hex);
            }
        } else {
            let t: u64 = acc as u64 * base + d as u64;
            if t > 0x10FFFF {
                big = true;
            } else {
                acc = t as u32;
            }
        }
        i = i + 1;
    }
    proof {
        assert(ds@.subrange(0, n as int) =~= ds@);
    }
    if big {
        None
    } else {
        Some(acc)
    }
}

/// Decode one reference body, mirroring `decode_entity_spec`.
pub fn decode_entity(name: &Vec<char>) -> (r: Option<char>)
    ensures
        r == decode_entity_spec(name@),
{
    let amp: Vec<char> = vec!['a', 'm', 'p'];
    let lt: Vec<char> = vec!['l', 't'];
    let gt: Vec<char> = vec!['g', 't'];
    let quot: Vec<char> = vec!['q', 'u', 'o', 't'];
    let apos: Vec<char> = vec!['a', 'p', 'o', 's'];
    if chars_eq(name, &amp) {
        return Some('&');
    }
    if chars_eq(name, &lt) {
        return Some('<');
    }
    if chars_eq(name, &gt) {
        return Some('>');
    }
    if chars_eq(name, &quot) {
        return Some('"');
    }
    if chars_eq(name, &apos) {
        return Some('\'');
    }
    if name.len() >= 2 && name[0] == '#' && (name[1] == 'x' || name[1] == 'X') {
        let mut ds: Vec<char> = Vec::new();
        let mut k: usize = 2;
        while k < name.len()
            invariant
                2 <= k <= name@.len(),
                ds@ =~= name@.subrange(2, k as int),
            decreases name@.len() - k,
        {
            ds.push(name[k]);
            k = k + 1;
        }
        proof {
            assert(ds@ =~= name@.subrange(2, name@.len() as int));
        }
        match digits_value(&ds, true) {
            Some(v) => char_from_u32(v),
            None => None,
        }
    } else if name.len() >= 1 && name[0] == '#' {
        let mut ds: Vec<char> = Vec::new();
        let mut k: usize = 1;
        while k < name.len()
            invariant
                1 <= k <= name@.len(),
                ds@ =~= name@.subrange(1, k as int),
            decreases name@.len() - k,
        {
            ds.push(name[k]);
            k = k + 1;
        }
        proof {
            assert(ds@ =~= name@.subrange(1, name@.len() as int));
        }
        match digits_value(&ds, false) {
            Some(v) => char_from_u32(v),
            None => None,
        }
    } else {
        None
    }
}

/// The reference body being collected, as a sequence, for stating the
/// scanners' loop invariants.
pub open spec fn opt_chars_view(o: Option<Vec<char>>) -> Option<Seq<char>> {
    match o {
        Some(e) => Some(e@),
        None => None,
    }
}

/// Strict decoding of a text run: every reference from `&` to `;` must
/// be valid; anything else is an error.  One character is consumed per
/// step; `ent` is `Some` while a reference body is being collected.
pub open spec fn unescape_strict_from(
    s: Seq<char>,
    i: int,
    ent: Option<Seq<char>>,
    acc: Seq<char>,
) -> Option<Seq<char>>
    decreases s.len() - i,
{
    if i < 0 || i >= s.len() {
        match ent {
            None => Some(acc),
            Some(_) => None,
        }
    } else {
        match ent {
            None => {
                if s[i] == '&' {
                    unescape_strict_from(s, i + 1, Some(Seq::empty()), acc)
                } else {
                    unescape_strict_from(s, i + 1, None, acc.push(s[i]))
                }
            },
            Some(name) => {
                if s[i] == ';' {
                    match decode_entity_spec(name) {
                        Some(c) => unescape_strict_from(s, i + 1, None, acc.push(c)),
                        None => None,
                    }
                } else {
                    unescape_strict_from(s, i + 1, Some(name.push(s[i])), acc)
                }
            },
        }
    }
}

/// What strict decoding of the whole run yields, or `None` on an
/// invalid reference.
pub open spec fn spec_unescape_strict(s: Seq<char>) -> Option<Seq<char>> {
    unescape_strict_from(s, 0, None, Seq::empty())
}

/// Lenient decoding: an invalid or unterminated reference is kept
/// literally, character for character.
pub open spec fn unescape_lenient_from(
    s: Seq<char>,
    i: int,
    ent: Option<Seq<char>>,
    acc: Seq<char>,
) -> Seq<char>
    decreases s.len() - i,
{
    if i < 0 || i >= s.len() {
        match ent {
            None => acc,
            Some(name) => acc + seq!['&'] + name,
        }
    } else {
        match ent {
            None => {
                if s[i] == '&' {
                    unescape_lenient_from(s, i + 1, Some(Seq::empty()), acc)
                } else {
                    unescape_lenient_from(s, i + 1, None, acc.push(s[i]))
                }
            },
            Some(name) => {
                if s[i] == ';' {
                    match decode_entity_spec(name) {
                        Some(c) => unescape_lenient_from(s, i + 1, None, acc.push(c)),
                        None => unescape_lenient_from(
                            s,
                            i + 1,
                            None,
                            acc + seq!['&'] + name + seq![';'],
                        ),
                    }
                } else {
                    unescape_lenient_from(s, i + 1, Some(name.push(s[i])), acc)
                }
            },
        }
    }
}

pub open spec fn spec_unescape_lenient(s: Seq<char>) -> Seq<char> {
    unescape_lenient_from(s, 0, None, Seq::empty())
}

/// Strict decoding of a collected text run.
pub fn unescape_strict(v: &Vec<char>) -> (r: Option<Vec<char>>)
    ensures
        match r {
            Some(out) => spec_unescape_strict(v@) == Some(out@),
            None => spec_unescape_strict(v@) is None,
        },
{
    let n = v.len();
    let mut i: usize = 0;
    let mut ent: Option<Vec<char>> = None;
    let mut acc: Vec<char> = Vec::new();
    while i < n
        invariant
            i <= n,
            n == v@.len(),
            spec_unescape_strict(v@) == unescape_strict_from(
                v@,
                i as int,
                opt_chars_view(ent),
                acc@,
            ),
        decreases n - i,
    {
        let c = v[i];
        let in_ent = ent.is_some();
        if !in_ent {
            if c == '&' {
                let e: Vec<char> = Vec::new();
                proof {
                    assert(e@ =~= Seq::<char>::empty());
                }
                ent = Some(e);
            } else {
                acc.push(c);
            }
        } else {
            let mut name = ent.take().unwrap();
            if c == ';' {
                match decode_entity(&name) {
                    Some(d) => {
                        acc.push(d);
                        ent = None;
                    },
                    None => {
                        return None;
                    },
                }
            } else {
                name.push(c);
                ent = Some(name);
            }
        }
        i = i + 1;
    }
    match ent {
        Some(_) => None,
        None => Some(acc),
    }
}

/// Lenient decoding of a collected text run.
pub fn unescape_lenient(v: &Vec<char>) -> (r: Vec<char>)
    ensures
        r@ == spec_unescape_lenient(v@),
{
    let n = v.len();
    let mut i: usize = 0;
    let mut ent: Option<Vec<char>> = None;
    let mut acc: Vec<char> = Vec::new();
    while i < n
        invariant
            i <= n,
            n == v@.len(),
            spec_unescape_lenient(v@) == unescape_lenient_from(
                v@,
                i as int,
                opt_chars_view(ent),
                acc@,
            ),
        decreases n - i,
    {
        let c = v[i];
        let in_ent = ent.is_some();
        if !in_ent {
            if c == '&' {
                let e: Vec<char> = Vec::new();
                proof {
                    assert(e@ =~= Seq::<char>::empty());
                }
                ent = Some(e);
            } else {
                acc.push(c);
            }
        } else {
            let mut name = ent.take().unwrap();
            if c == ';' {
                match decode_entity(&name) {
                    Some(d) => {
                        acc.push(d);
                        ent = None;
                    },
                    None => {
                        let ghost accb = acc@;
                        acc.push('&');
                        let mut k: usize = 0;
                        let ghost acc0 = acc@;
                        while k < name.len()
                            invariant
                                k <= name@.len(),
                                acc0 == accb.push('&'),
                                acc@ =~= acc0 + name@.subrange(0, k as int),
                            decreases name@.len() - k,
                        {
                            acc.push(name[k]);
                            k = k + 1;
                        }
                        acc.push(';');
                        proof {
                            assert(name@.subrange(0, name@.len() as int) =~= name@);
                            assert(acc@ =~= accb + seq!['&'] + name@ + seq![';']);
                        }
                        ent = None;
                    },
                }
            } else {
                name.push(c);
                ent = Some(name);
            }
        }
        i = i + 1;
    }
    match ent {
        Some(name) => {
            let ghost accb = acc@;
            acc.push('&');
            let mut k: usize = 0;
            let ghost acc0 = acc@;
            while k < name.len()
                invariant
                    k <= name@.len(),
                    acc0 == accb.push('&'),
                    acc@ =~= acc0 + name@.subrange(0, k as int),
                decreases name@.len() - k,
            {
                acc.push(name[k]);
                k = k + 1;
            }
            proof {
                assert(name@.subrange(0, name@.len() as int) =~= name@);
                assert(acc@ =~= accb + seq!['&'] + name@);
            }
            acc
        },
        None => acc,
    }
}

} // verus!
