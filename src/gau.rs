//! Picking the relevant lines out of a Gaussian log and reading their fields.
use vstd::prelude::*;
use crate::number::{Fixed, number_in, number_units};
use crate::text::{
    ascii,
    contains,
    find_either,
    find_either_in,
    find_space,
    find_space_in,
    has_prefix,
    has_substring,
    is_space_byte,
    lemma_find_either_bounds,
    starts_with,
    trim,
    trim_bounds,
    trim_start,
};

verus! {

broadcast use vstd::string::is_ascii_spec_bytes;

/// The UTF-8 bytes of a text.
pub open spec fn text_bytes(s: Seq<char>) -> Seq<u8> {
    vstd::utf8::encode_utf8(s)
}

/// The bytes of a line, as the log holds them.
pub open spec fn line_bytes(l: String) -> Seq<u8> {
    text_bytes(l@)
}

pub open spec fn entvj_marker() -> Seq<u8> {
    ascii("ENTVJ="@)
}

pub open spec fn scf_marker() -> Seq<u8> {
    ascii("SCF Done:"@)
}

pub open spec fn alpha_beta_marker() -> Seq<u8> {
    ascii("alpha-beta"@)
}

pub open spec fn alpha_alpha_marker() -> Seq<u8> {
    ascii("alpha-alpha"@)
}

pub open spec fn beta_beta_marker() -> Seq<u8> {
    ascii("beta-beta"@)
}

pub open spec fn solvent_marker() -> Seq<u8> {
    ascii("Erf(P)="@)
}

pub open spec fn scf_prefix() -> Seq<u8> {
    ascii(" SCF Done:"@)
}

pub open spec fn alpha_prefix() -> Seq<u8> {
    ascii("     alpha-"@)
}

pub open spec fn beta_prefix() -> Seq<u8> {
    ascii("     beta-"@)
}

pub open spec fn solvent_prefix() -> Seq<u8> {
    ascii(" Erf(P)= "@)
}

pub fn entvj_marker_bytes() -> (r: &'static [u8])
    ensures
        r@ == entvj_marker(),
{
    proof {
        reveal_strlit("ENTVJ=");
        assert(vstd::string::is_ascii("ENTVJ="));
    }
    "ENTVJ=".as_bytes()
}

pub fn scf_marker_bytes() -> (r: &'static [u8])
    ensures
        r@ == scf_marker(),
{
    proof {
        reveal_strlit("SCF Done:");
        assert(vstd::string::is_ascii("SCF Done:"));
    }
    "SCF Done:".as_bytes()
}

pub fn alpha_beta_marker_bytes() -> (r: &'static [u8])
    ensures
        r@ == alpha_beta_marker(),
{
    proof {
        reveal_strlit("alpha-beta");
        assert(vstd::string::is_ascii("alpha-beta"));
    }
    "alpha-beta".as_bytes()
}

pub fn alpha_alpha_marker_bytes() -> (r: &'static [u8])
    ensures
        r@ == alpha_alpha_marker(),
{
    proof {
        reveal_strlit("alpha-alpha");
        assert(vstd::string::is_ascii("alpha-alpha"));
    }
    "alpha-alpha".as_bytes()
}

pub fn beta_beta_marker_bytes() -> (r: &'static [u8])
    ensures
        r@ == beta_beta_marker(),
{
    proof {
        reveal_strlit("beta-beta");
        assert(vstd::string::is_ascii("beta-beta"));
    }
    "beta-beta".as_bytes()
}

pub fn solvent_marker_bytes() -> (r: &'static [u8])
    ensures
        r@ == solvent_marker(),
{
    proof {
        reveal_strlit("Erf(P)=");
        assert(vstd::string::is_ascii("Erf(P)="));
    }
    "Erf(P)=".as_bytes()
}

fn scf_prefix_bytes() -> (r: &'static [u8])
    ensures
        r@ == scf_prefix(),
{
    proof {
        reveal_strlit(" SCF Done:");
        assert(vstd::string::is_ascii(" SCF Done:"));
    }
    " SCF Done:".as_bytes()
}

pub fn alpha_prefix_bytes() -> (r: &'static [u8])
    ensures
        r@ == alpha_prefix(),
{
    proof {
        reveal_strlit("     alpha-");
        assert(vstd::string::is_ascii("     alpha-"));
    }
    "     alpha-".as_bytes()
}

pub fn beta_prefix_bytes() -> (r: &'static [u8])
    ensures
        r@ == beta_prefix(),
{
    proof {
        reveal_strlit("     beta-");
        assert(vstd::string::is_ascii("     beta-"));
    }
    "     beta-".as_bytes()
}

pub fn solvent_prefix_bytes() -> (r: &'static [u8])
    ensures
        r@ == solvent_prefix(),
        r@.len() == 9,
{
    proof {
        reveal_strlit(" Erf(P)= ");
        assert(vstd::string::is_ascii(" Erf(P)= "));
    }
    " Erf(P)= ".as_bytes()
}

/// A line worth keeping: it holds one of the six markers.
pub open spec fn is_relevant(b: Seq<u8>) -> bool {
    contains(b, entvj_marker()) || contains(b, scf_marker()) || contains(b, alpha_beta_marker())
        || contains(b, alpha_alpha_marker()) || contains(b, beta_beta_marker()) || contains(
        b,
        solvent_marker(),
    )
}

/// The relevant lines of `ls`, in their order.
pub open spec fn relevant_lines(ls: Seq<String>) -> Seq<String>
    decreases ls.len(),
{
    if ls.len() == 0 {
        Seq::empty()
    } else {
        let r = relevant_lines(ls.drop_last());
        if is_relevant(line_bytes(ls.last())) {
            r.push(ls.last())
        } else {
            r
        }
    }
}

/// The bytes of a line.
pub fn bytes_of(l: &String) -> (r: &[u8])
    ensures
        r@ == line_bytes(*l),
{
    l.as_str().as_bytes()
}

/// Whether a line holds one of the six markers.
pub fn is_relevant_line(b: &[u8]) -> (r: bool)
    ensures
        r == is_relevant(b@),
{
    has_substring(b, entvj_marker_bytes()) || has_substring(b, scf_marker_bytes())
        || has_substring(b, alpha_beta_marker_bytes()) || has_substring(
        b,
        alpha_alpha_marker_bytes(),
    ) || has_substring(b, beta_beta_marker_bytes()) || has_substring(b, solvent_marker_bytes())
}

/// Keeps the lines that hold one of the markers `ENTVJ=`, `SCF Done:`,
/// `alpha-beta`, `alpha-alpha`, `beta-beta` and `Erf(P)=`, in their order.
pub fn extract_relevant_lines_from(lines: &Vec<String>) -> (r: Vec<String>)
    ensures
        r@ == relevant_lines(lines@),
{
    let mut r: Vec<String> = Vec::new();
    let mut i: usize = 0;
    while i < lines.len()
        invariant
            i <= lines.len(),
            r@ == relevant_lines(lines@.subrange(0, i as int)),
        decreases lines.len() - i,
    {
        proof {
            assert(lines@.subrange(0, i + 1).drop_last() =~= lines@.subrange(0, i as int));
        }
        if is_relevant_line(bytes_of(&lines[i])) {
            r.push(lines[i].clone());
        }
        i += 1;
    }
    assert(lines@.subrange(0, lines.len() as int) =~= lines@);
    r
}

/// The field of an `SCF Done:` line: columns 24 to 44, or to the end of a
/// shorter line.
pub open spec fn scf_done_units(b: Seq<u8>) -> Option<int> {
    if starts_with(b, scf_prefix()) && 24 <= b.len() {
        let hi = if b.len() < 44 {
            b.len() as int
        } else {
            44
        };
        number_units(trim(b.subrange(24, hi)))
    } else {
        None
    }
}

/// Reads the energy of a line `" SCF Done:  E(UB3LYP) =  -150.367567881 ..."`.
pub fn parse_scf_done(line: &str) -> (r: Option<Fixed>)
    ensures
        match r {
            Some(v) => scf_done_units(text_bytes(line@)) == Some(v.units as int),
            None => scf_done_units(text_bytes(line@)) is None,
        },
{
    let b = line.as_bytes();
    if !has_prefix(b, scf_prefix_bytes()) || b.len() < 24 {
        return None;
    }
    let hi = if b.len() < 44 {
        b.len()
    } else {
        44
    };
    let (lo, hi2) = trim_bounds(b, 24, hi);
    number_in(b, lo, hi2)
}

/// The pair-energy value of an `alpha-`/`beta-` line: from column 49 to the
/// end, with the exponent letter `D` read as `E`.
pub open spec fn os_ss_units(b: Seq<u8>) -> Option<int> {
    if (starts_with(b, alpha_prefix()) || starts_with(b, beta_prefix())) && 49 <= b.len() {
        number_units(trim(d_to_e(b.subrange(49, b.len() as int))))
    } else {
        None
    }
}

/// `s` with every `D` turned into `E`.
pub open spec fn d_to_e(s: Seq<u8>) -> Seq<u8> {
    s.map_values(|c: u8| if c == 68 { 69u8 } else { c })
}

/// Reads the `E2=` value of a line such as
/// `"     alpha-beta  T2 =       0.1397256845D+00 E2=     -0.3642781731D+00"`.
pub fn parse_os_ss(line: &str) -> (r: Option<Fixed>)
    ensures
        match r {
            Some(v) => os_ss_units(text_bytes(line@)) == Some(v.units as int),
            None => os_ss_units(text_bytes(line@)) is None,
        },
{
    let b = line.as_bytes();
    if !(has_prefix(b, alpha_prefix_bytes()) || has_prefix(b, beta_prefix_bytes())) || b.len()
        < 49 {
        return None;
    }
    let mut tail: Vec<u8> = Vec::new();
    let mut i: usize = 49;
    while i < b.len()
        invariant
            49 <= i <= b.len(),
            tail@ == d_to_e(b@.subrange(49, i as int)),
        decreases b.len() - i,
    {
        let c = if b[i] == 68 {
            69u8
        } else {
            b[i]
        };
        tail.push(c);
        proof {
            assert(d_to_e(b@.subrange(49, i + 1)) =~= d_to_e(b@.subrange(49, i as int)).push(c));
        }
        i += 1;
    }
    let (lo, hi) = trim_bounds(tail.as_slice(), 0, tail.len());
    proof {
        assert(tail@.subrange(0, tail@.len() as int) =~= tail@);
    }
    number_in(tail.as_slice(), lo, hi)
}

/// The value of an `Erf(P)=` line: from column 9 to the end.
pub open spec fn solvent_units(b: Seq<u8>) -> Option<int> {
    if starts_with(b, solvent_prefix()) {
        number_units(trim(b.subrange(9, b.len() as int)))
    } else {
        None
    }
}

/// Reads the value of a line `" Erf(P)=          -0.000578845929"`.
pub fn parse_solvent(line: &str) -> (r: Option<Fixed>)
    ensures
        match r {
            Some(v) => solvent_units(text_bytes(line@)) == Some(v.units as int),
            None => solvent_units(text_bytes(line@)) is None,
        },
{
    let b = line.as_bytes();
    if !has_prefix(b, solvent_prefix_bytes()) {
        return None;
    }
    let (lo, hi) = trim_bounds(b, 9, b.len());
    number_in(b, lo, hi)
}

/// The first white-space-delimited token of `s`.
pub open spec fn first_token(s: Seq<u8>) -> Seq<u8> {
    let t = trim_start(s);
    t.subrange(0, find_space(t))
}

/// The numbers that follow the `=` signs of `s`, in their order: after each
/// `=`, the first token up to the next `=`, where it reads as a number.
pub open spec fn assigned_values(s: Seq<u8>) -> Seq<int>
    decreases s.len(),
    via assigned_values_decreases
{
    let i = find_either(s, 61, 61);
    if i >= s.len() {
        Seq::empty()
    } else {
        let rest = s.subrange(i + 1, s.len() as int);
        let seg = rest.subrange(0, find_either(rest, 61, 61));
        match number_units(first_token(seg)) {
            Some(v) => seq![v] + assigned_values(rest),
            None => assigned_values(rest),
        }
    }
}

#[via_fn]
proof fn assigned_values_decreases(s: Seq<u8>) {
    lemma_find_either_bounds(s, 61, 61);
    let i = find_either(s, 61, 61);
    if i < s.len() {
        lemma_find_either_bounds(s.subrange(i + 1, s.len() as int), 61, 61);
    }
}

/// The first four fields of an ENTVJ line, which must hold exactly five
/// numeric assignments (`ENTVJ=`, `Ex=`, `Ec=`, `ETotM2e=`, `ETot=`).
pub open spec fn entvj_fields(b: Seq<u8>) -> Option<Seq<int>> {
    let v = assigned_values(b);
    if v.len() == 5 {
        Some(v.take(4))
    } else {
        None
    }
}

pub open spec fn quad_units(q: [Fixed; 4]) -> Seq<int> {
    q@.map_values(|f: Fixed| f.units as int)
}

pub open spec fn fixed_units(v: Seq<Fixed>) -> Seq<int> {
    v.map_values(|f: Fixed| f.units as int)
}

/// Where the first token of `s[from..to]` lies.
fn first_token_in(s: &[u8], from: usize, to: usize) -> (r: (usize, usize))
    requires
        from <= to <= s.len(),
    ensures
        from <= r.0 <= r.1 <= to,
        s@.subrange(r.0 as int, r.1 as int) == first_token(s@.subrange(from as int, to as int)),
{
    let mut lo: usize = from;
    while lo < to && is_space_byte(s[lo])
        invariant
            from <= lo <= to <= s.len(),
            trim_start(s@.subrange(from as int, to as int)) == trim_start(
                s@.subrange(lo as int, to as int),
            ),
        decreases to - lo,
    {
        assert(s@.subrange(lo as int, to as int).drop_first() =~= s@.subrange(lo + 1, to as int));
        lo += 1;
    }
    proof {
        let t = s@.subrange(lo as int, to as int);
        if t.len() > 0 {
            assert(t[0] == s@[lo as int]);
        }
        assert(trim_start(t) == t);
    }
    let hi = find_space_in(s, lo, to);
    assert(s@.subrange(lo as int, to as int).subrange(0, hi - lo) =~= s@.subrange(
        lo as int,
        hi as int,
    ));
    (lo, hi)
}

/// The numbers that follow the `=` signs of a line.
fn assigned_values_of(s: &[u8]) -> (r: Vec<Fixed>)
    ensures
        fixed_units(r@) == assigned_values(s@),
{
    let mut r: Vec<Fixed> = Vec::new();
    let mut pos: usize = 0;
    assert(s@.subrange(0, s@.len() as int) =~= s@);
    loop
        invariant
            pos <= s.len(),
            fixed_units(r@) + assigned_values(s@.subrange(pos as int, s.len() as int))
                == assigned_values(s@),
        decreases s.len() - pos,
    {
        let ghost t = s@.subrange(pos as int, s.len() as int);
        let i = find_either_in(s, pos, s.len(), 61, 61);
        if i == s.len() {
            assert(assigned_values(t) == Seq::<int>::empty());
            assert(fixed_units(r@) + Seq::<int>::empty() =~= fixed_units(r@));
            return r;
        }
        let ghost rest = t.subrange(i - pos + 1, t.len() as int);
        assert(rest =~= s@.subrange(i + 1, s.len() as int));
        let e = find_either_in(s, i + 1, s.len(), 61, 61);
        assert(rest.subrange(0, e - i - 1) =~= s@.subrange(i + 1, e as int));
        let (lo, hi) = first_token_in(s, i + 1, e);
        let v = number_in(s, lo, hi);
        match v {
            Some(x) => {
                proof {
                    assert(fixed_units(r@.push(x)) =~= fixed_units(r@) + seq![x.units as int]);
                    assert(fixed_units(r@) + (seq![x.units as int] + assigned_values(rest)) =~= (
                    fixed_units(r@) + seq![x.units as int]) + assigned_values(rest));
                }
                r.push(x);
            },
            None => {},
        }
        pos = i + 1;
    }
}

/// Reads the first four fields of a line such as
/// `" ENTVJ= -133.281125 Ex=  -16.365355 Ec=    0.000000 ETotM2e= -234.7283473371  ETot= -149.6464806455"`;
/// none unless exactly five of its assignments read as numbers.
pub fn parse_entvj(line: &str) -> (r: Option<[Fixed; 4]>)
    ensures
        match r {
            Some(q) => entvj_fields(text_bytes(line@)) == Some(quad_units(q)),
            None => entvj_fields(text_bytes(line@)) is None,
        },
{
    let v = assigned_values_of(line.as_bytes());
    if v.len() != 5 {
        return None;
    }
    let q = [v[0], v[1], v[2], v[3]];
    assert(quad_units(q) =~= fixed_units(v@).take(4));
    Some(q)
}

/// The first position of `c` in `s`; the length of `s` if it is not there.
pub open spec fn find_char(s: Seq<char>, c: char) -> int
    decreases s.len(),
{
    if s.len() == 0 || s[0] == c {
        0
    } else {
        1 + find_char(s.drop_first(), c)
    }
}

proof fn lemma_find_char_bounds(s: Seq<char>, c: char)
    ensures
        0 <= find_char(s, c) <= s.len(),
    decreases s.len(),
{
    if s.len() > 0 && s[0] != c {
        lemma_find_char_bounds(s.drop_first(), c);
    }
}

/// A line without the carriage return that ended it.
pub open spec fn strip_cr(l: Seq<char>) -> Seq<char> {
    if l.len() > 0 && l.last() == '\r' {
        l.drop_last()
    } else {
        l
    }
}

/// The lines of a text: split at each new line, a carriage return before
/// it dropped, with no empty line after a final new line.
pub open spec fn text_lines(s: Seq<char>) -> Seq<Seq<char>>
    decreases s.len(),
    via text_lines_decreases
{
    if s.len() == 0 {
        Seq::empty()
    } else {
        let i = find_char(s, '\n');
        if i >= s.len() {
            seq![s]
        } else {
            seq![strip_cr(s.take(i))] + text_lines(s.skip(i + 1))
        }
    }
}

#[via_fn]
proof fn text_lines_decreases(s: Seq<char>) {
    lemma_find_char_bounds(s, '\n');
}

/// Relies on `str::lines`: the text is split at each `\n`, a `\r` right
/// before it is dropped, and a final `\n` adds no empty line.
#[verifier::external_body]
pub(crate) fn split_lines(s: &str) -> (r: Vec<String>)
    ensures
        r@.map_values(|l: String| l@) == text_lines(s@),
{
    s.lines().map(String::from).collect()
}

/// The relevant lines among the texts `ls`, in their order.
pub open spec fn relevant_texts(ls: Seq<Seq<char>>) -> Seq<Seq<char>>
    decreases ls.len(),
{
    if ls.len() == 0 {
        Seq::empty()
    } else {
        let r = relevant_texts(ls.drop_last());
        if is_relevant(text_bytes(ls.last())) {
            r.push(ls.last())
        } else {
            r
        }
    }
}

proof fn lemma_relevant_views(ls: Seq<String>)
    ensures
        relevant_lines(ls).map_values(|l: String| l@) == relevant_texts(
            ls.map_values(|l: String| l@),
        ),
    decreases ls.len(),
{
    if ls.len() > 0 {
        lemma_relevant_views(ls.drop_last());
        assert(ls.drop_last().map_values(|l: String| l@) =~= ls.map_values(|l: String| l@).drop_last());
        let r = relevant_lines(ls.drop_last());
        assert(r.push(ls.last()).map_values(|l: String| l@) =~= r.map_values(|l: String| l@).push(
            ls.last()@,
        ));
    } else {
        assert(relevant_lines(ls).map_values(|l: String| l@) =~= Seq::<Seq<char>>::empty());
    }
}

/// Keeps the lines of a whole text that hold one of the markers, in their
/// order.
pub fn extract_relevant_lines(text: &str) -> (r: Vec<String>)
    ensures
        r@.map_values(|l: String| l@) == relevant_texts(text_lines(text@)),
{
    let lines = split_lines(text);
    let r = extract_relevant_lines_from(&lines);
    proof {
        lemma_relevant_views(lines@);
    }
    r
}

} // verus!
