//! Rewriting a Gaussian input so that it computes what an xDH energy needs:
//! the route section asks for B3LYP with extra output and overlays, the
//! final section gets the overlay data, and `@file` paths become absolute.
use vstd::prelude::*;
use vstd::string::StrSliceExecFns;
use vstd::string::StringExecFns;
use crate::gau::{split_lines, text_bytes, text_lines};
use crate::text::{
    contains,
    has_substring,
    replace_str,
    replaced,
    trim_end_chars,
    trim_end_str,
    trim_start_chars,
    trim_start_str,
};

verus! {

/// Why an input could not be rewritten.
#[derive(Clone, Copy, Debug, PartialEq, Eq, Structural)]
pub enum GjfError {
    /// The route section does not start with `#`.
    InvalidRoute,
    /// The route section does not name XYG3.
    NotXyg3,
    /// XYG3 is followed by a core option other than `(FULL)` or `(FC)`.
    InvalidSyntax,
    /// The input has fewer than three sections.
    InvalidInput,
}

/// The route with its leading `#`, `#N`, `#P` or `#T` (any case, after white
/// space) replaced by `#p`, as the pattern `^(?i)\s*#[NPT]{0,1}` gives it.
pub uninterp spec fn route_marked(s: Seq<char>) -> Seq<char>;

/// The route with its first `XYG3` (any case), and a `(word)` right after it,
/// replaced by `B3LYP`.
pub uninterp spec fn xyg3_renamed(s: Seq<char>) -> Seq<char>;

/// Where the route names XYG3 (any case): the `(word)` that follows it, if any.
pub uninterp spec fn xyg3_core(s: Seq<char>) -> Option<Option<Seq<char>>>;

/// The text in lower case, as `str::to_lowercase` gives it.
pub uninterp spec fn lower_of(s: Seq<char>) -> Seq<char>;

/// The text in upper case, as `str::to_uppercase` gives it.
pub uninterp spec fn upper_of(s: Seq<char>) -> Seq<char>;

/// The path of an `@file` line, as the pattern `^\s*@(\S+)` captures it.
pub uninterp spec fn at_file_path(line: Seq<char>) -> Option<Seq<char>>;

/// The parent directory of a path, as `Path::parent` gives it.
pub uninterp spec fn path_parent(p: Seq<char>) -> Option<Seq<char>>;

/// A path joined onto a directory, as `Path::join` gives it.
pub uninterp spec fn path_join(dir: Seq<char>, p: Seq<char>) -> Seq<char>;

/// The sections of an input, split at blank lines by the pattern `\n\s*\n`.
pub uninterp spec fn input_sections(s: Seq<char>) -> Seq<Seq<char>>;

/// Relies on `regex::Regex::replace` with the pattern `^(?i)\s*#[NPT]{0,1}`.
#[verifier::external_body]
fn mark_route(s: &str) -> (r: String)
    ensures
        r@ == route_marked(s@),
{
    let re = regex::Regex::new(r"^(?i)\s*#[NPT]{0,1}").unwrap();
    re.replace(s, "#p").into_owned()
}

/// Relies on `regex::Regex::replace` with the pattern `(?i)XYG3(\(\w+\)){0,1}`.
#[verifier::external_body]
fn rename_xyg3(s: &str) -> (r: String)
    ensures
        r@ == xyg3_renamed(s@),
{
    let re = regex::Regex::new(r"(?i)XYG3(?P<core>\(\w+\)){0,1}").unwrap();
    re.replace(s, "B3LYP").into_owned()
}

/// Relies on `regex::Regex::captures` with the pattern `(?i)XYG3(\(\w+\)){0,1}`.
#[verifier::external_body]
fn xyg3_core_of(s: &str) -> (r: Option<Option<String>>)
    ensures
        match r {
            None => xyg3_core(s@) is None,
            Some(None) => xyg3_core(s@) == Some(None::<Seq<char>>),
            Some(Some(c)) => xyg3_core(s@) == Some(Some(c@)),
        },
{
    let re = regex::Regex::new(r"(?i)XYG3(?P<core>\(\w+\)){0,1}").unwrap();
    match re.captures(s) {
        Some(caps) => Some(caps.name("core").map(|m| m.as_str().to_string())),
        None => None,
    }
}

/// Relies on `str::to_lowercase`.
#[verifier::external_body]
fn lowercase(s: &str) -> (r: String)
    ensures
        r@ == lower_of(s@),
{
    s.to_lowercase()
}

/// Relies on `str::to_uppercase`.
#[verifier::external_body]
fn uppercase(s: &str) -> (r: String)
    ensures
        r@ == upper_of(s@),
{
    s.to_uppercase()
}

/// Relies on `regex::Regex::captures` with the pattern `^\s*@(\S+)`; the
/// captured path is not empty.
#[verifier::external_body]
fn at_path_of(line: &str) -> (r: Option<String>)
    ensures
        match r {
            Some(p) => at_file_path(line@) == Some(p@) && p@.len() > 0,
            None => at_file_path(line@) is None,
        },
{
    let re = regex::Regex::new(r"^\s*@(?P<path>\S+)").unwrap();
    match re.captures(line) {
        Some(caps) => caps.name("path").map(|m| m.as_str().to_string()),
        None => None,
    }
}

/// Relies on `std::path::Path::parent`.
#[verifier::external_body]
fn parent_of(p: &str) -> (r: Option<String>)
    ensures
        match r {
            Some(d) => path_parent(p@) == Some(d@),
            None => path_parent(p@) is None,
        },
{
    match std::path::Path::new(p).parent() {
        Some(d) => Some(d.to_string_lossy().into_owned()),
        None => None,
    }
}

/// Relies on `std::path::Path::join`.
#[verifier::external_body]
fn join_path(dir: &str, p: &str) -> (r: String)
    ensures
        r@ == path_join(dir@, p@),
{
    std::path::Path::new(dir).join(p).to_string_lossy().into_owned()
}

/// Relies on `regex::Regex::split` with the pattern `\n\s*\n`.
#[verifier::external_body]
fn split_sections(s: &str) -> (r: Vec<String>)
    ensures
        r@.map_values(|x: String| x@) == input_sections(s@),
{
    let re = regex::Regex::new(r"\n\s*\n").unwrap();
    re.split(s).map(String::from).collect()
}

/// `r` with `opt` appended (after a space) unless it already holds it.
pub open spec fn with_option(r: Seq<char>, opt: Seq<char>) -> Seq<char> {
    if contains(text_bytes(r), text_bytes(opt)) {
        r
    } else {
        r + " "@ + opt
    }
}

/// Whether the route asks for frozen core, or `None` for a core option
/// other than `(FULL)` and `(FC)`.
pub open spec fn frozen_core(core: Option<Seq<char>>) -> Option<bool> {
    match core {
        None => Some(false),
        Some(c) => frozen_of_upper(upper_of(c)),
    }
}

/// Whether an upper-case core option asks for frozen core: `(FULL)` does
/// not, `(FC)` does, and any other is `None`.
pub open spec fn frozen_of_upper(u: Seq<char>) -> Option<bool> {
    if u == "(FULL)"@ {
        Some(false)
    } else if u == "(FC)"@ {
        Some(true)
    } else {
        None
    }
}

/// Whether an upper-case core option asks for frozen core.
pub fn frozen_core_of_upper(u: &str) -> (r: Option<bool>)
    ensures
        r == frozen_of_upper(u@),
{
    let u = String::from_str(u);
    if u == String::from_str("(FULL)") {
        Some(false)
    } else if u == String::from_str("(FC)") {
        Some(true)
    } else {
        None
    }
}

/// The route after the functional is renamed and lowered: the options for
/// extra output and overlays added where missing, then the overlay lines.
pub open spec fn route_finished(r: Seq<char>, frozen: bool) -> Seq<char> {
    with_option(with_option(with_option(r, "iop(5/33=1)"@), "nosymm"@), "extraoverlay"@)
        + overlays(frozen)
}

/// Adds the options and the overlay lines to a renamed, lowered route.
pub fn finish_route(renamed: &str, frozen: bool) -> (r: String)
    ensures
        r@ == route_finished(renamed@, frozen),
{
    let mut r = String::from_str(renamed);
    append_option(&mut r, "iop(5/33=1)");
    append_option(&mut r, "nosymm");
    append_option(&mut r, "extraoverlay");
    let ghost opts = r@;
    r.append("\n\n");
    if frozen {
        r.append("8/7=1,10=4/1;\n");
    } else {
        r.append("8/7=1,10=90/1;\n");
    }
    r.append("9/16=-3/6;\n");
    r.append("6//8;\n");
    assert(r@ =~= opts + overlays(frozen));
    r
}

/// The overlay lines for an all-electron or a frozen-core calculation.
pub open spec fn overlays(frozen: bool) -> Seq<char> {
    "\n\n"@ + (if frozen {
        "8/7=1,10=4/1;\n"@
    } else {
        "8/7=1,10=90/1;\n"@
    }) + "9/16=-3/6;\n"@ + "6//8;\n"@
}

/// The route section rewritten for an xDH calculation.
pub open spec fn route_rewritten(s: Seq<char>) -> Result<Seq<char>, GjfError> {
    let t = trim_start_chars(s);
    if !(t.len() > 0 && t[0] == '#') {
        Err(GjfError::InvalidRoute)
    } else {
        match xyg3_core(s) {
            None => Err(GjfError::NotXyg3),
            Some(core) => match frozen_core(core) {
                None => Err(GjfError::InvalidSyntax),
                Some(frozen) => Ok(
                    route_finished(lower_of(xyg3_renamed(trim_end_chars(route_marked(s)))), frozen),
                ),
            },
        }
    }
}

fn append_option(r: &mut String, opt: &str)
    ensures
        final(r)@ == with_option(old(r)@, opt@),
{
    if !has_substring(r.as_str().as_bytes(), opt.as_bytes()) {
        r.append(" ");
        r.append(opt);
    }
}

/// Rewrites the route section for an xDH calculation: B3LYP in place of
/// XYG3, extra output, and the overlays that the energy terms need.
pub fn rewrite_route_section(s: &str) -> (r: Result<String, GjfError>)
    ensures
        match r {
            Ok(x) => route_rewritten(s@) == Ok::<Seq<char>, GjfError>(x@),
            Err(e) => route_rewritten(s@) == Err::<Seq<char>, GjfError>(e),
        },
{
    let t = trim_start_str(s);
    if t.unicode_len() == 0 || t.get_char(0) != '#' {
        return Err(GjfError::InvalidRoute);
    }
    let core = xyg3_core_of(s);
    let frozen = match core {
        None => {
            return Err(GjfError::NotXyg3);
        },
        Some(None) => false,
        Some(Some(c)) => {
            let u = uppercase(c.as_str());
            match frozen_core_of_upper(u.as_str()) {
                Some(f) => f,
                None => {
                    return Err(GjfError::InvalidSyntax);
                },
            }
        },
    };
    assert(xyg3_core(s@) matches Some(c) && frozen_core(c) == Some(frozen));
    let marked = mark_route(s);
    let renamed = rename_xyg3(trim_end_str(marked.as_str()));
    let r = lowercase(renamed.as_str());
    Ok(finish_route(r.as_str(), frozen))
}

/// The last section of an input, with the overlay data appended.
pub fn rewrite_final_section(s: &str) -> (r: String)
    ensures
        r@ == trim_end_chars(s@) + "\n\n100\n205\n402\n"@,
{
    let mut r = String::from_str(trim_end_str(s));
    r.append("\n\n100\n205\n402\n");
    r
}

/// An `@file` line with its path made relative to the directory of the input
/// file `relative`, so that it still holds when the working directory
/// changes; lines that name an environment variable (`@GAUSS_EXEDIR:mm2.prm`)
/// stay as they are.
pub fn absolute_at_file_path(line: &str, relative: &str) -> (r: Option<String>)
    ensures
        match r {
            Some(x) => if line@.contains(':') {
                x@ == line@
            } else {
                at_file_path(line@) matches Some(p) && path_parent(relative@) matches Some(d)
                    && p.len() > 0 && x@ == replaced(line@, p, path_join(d, p))
            },
            None => !line@.contains(':') && (at_file_path(line@) is None || path_parent(
                relative@,
            ) is None),
        },
{
    let n = line.unicode_len();
    let mut i: usize = 0;
    while i < n
        invariant
            i <= n == line@.len(),
            forall|k: int| 0 <= k < i ==> line@[k] != ':',
        decreases n - i,
    {
        if line.get_char(i) == ':' {
            return Some(String::from_str(line));
        }
        i += 1;
    }
    let p = match at_path_of(line) {
        Some(p) => p,
        None => {
            return None;
        },
    };
    let d = match parent_of(relative) {
        Some(d) => d,
        None => {
            return None;
        },
    };
    let abs = join_path(d.as_str(), p.as_str());
    Some(replace_str(line, p.as_str(), abs.as_str()))
}

/// The lines `ls`, each ended by a new line.
pub open spec fn joined_lines(ls: Seq<Seq<char>>) -> Seq<char>
    decreases ls.len(),
{
    if ls.len() == 0 {
        Seq::empty()
    } else {
        joined_lines(ls.drop_last()) + ls.last() + "\n"@
    }
}

/// The text of an input read line by line: each line ended by a new line.
pub fn read_gaussian_input_from(lines: &Vec<String>) -> (r: String)
    ensures
        r@ == joined_lines(lines@.map_values(|l: String| l@)),
{
    let mut r = String::new();
    let mut i: usize = 0;
    while i < lines.len()
        invariant
            i <= lines.len(),
            r@ == joined_lines(lines@.map_values(|l: String| l@).take(i as int)),
        decreases lines.len() - i,
    {
        assert(lines@.map_values(|l: String| l@).take(i + 1).drop_last() =~= lines@.map_values(
            |l: String| l@,
        ).take(i as int));
        r.append(lines[i].as_str());
        r.append("\n");
        i += 1;
    }
    assert(lines@.map_values(|l: String| l@).take(lines.len() as int) =~= lines@.map_values(
        |l: String| l@,
    ));
    r
}

/// The Link 0 lines (those starting with `%`) and the route lines of the
/// first section, each ended by a new line.
pub open spec fn split_link0(ls: Seq<Seq<char>>) -> (Seq<char>, Seq<char>)
    decreases ls.len(),
{
    if ls.len() == 0 {
        (Seq::empty(), Seq::empty())
    } else {
        let (a, b) = split_link0(ls.drop_last());
        let l = ls.last();
        if l.len() > 0 && l[0] == '%' {
            (a + l + "\n"@, b)
        } else {
            (a, b + l + "\n"@)
        }
    }
}

/// The sections `ss` joined by blank lines.
pub open spec fn joined_sections(ss: Seq<Seq<char>>) -> Seq<char>
    decreases ss.len(),
{
    if ss.len() == 0 {
        Seq::empty()
    } else if ss.len() == 1 {
        ss[0]
    } else {
        joined_sections(ss.drop_last()) + "\n\n"@ + ss.last()
    }
}

/// An input rewritten for an xDH calculation.
pub open spec fn input_rewritten(s: Seq<char>) -> Result<Seq<char>, GjfError> {
    let secs = input_sections(trim_end_chars(trim_start_chars(s)));
    let n = secs.len();
    if n < 3 {
        Err(GjfError::InvalidInput)
    } else {
        let (link0, route) = split_link0(text_lines(secs[0]));
        match route_rewritten(route) {
            Err(e) => Err(e),
            Ok(r) => Ok(
                link0 + r + "\n"@ + joined_sections(secs.subrange(1, n - 1)) + "\n\n"@
                    + trim_end_chars(secs[n - 1]) + "\n\n100\n205\n402\n"@,
            ),
        }
    }
}

/// Rewrites the text of a Gaussian input for an xDH calculation.
pub fn rewrite_gaussian_input_from(text: &str) -> (r: Result<String, GjfError>)
    ensures
        match r {
            Ok(x) => input_rewritten(text@) == Ok::<Seq<char>, GjfError>(x@),
            Err(e) => input_rewritten(text@) == Err::<Seq<char>, GjfError>(e),
        },
{
    let t = trim_end_str(trim_start_str(text));
    let secs = split_sections(t);
    let ghost sv = secs@.map_values(|x: String| x@);
    let n = secs.len();
    if n < 3 {
        return Err(GjfError::InvalidInput);
    }
    assert(sv[0] == secs@[0]@);
    let lines = split_lines(secs[0].as_str());
    let ghost lv = lines@.map_values(|l: String| l@);
    let mut link0 = String::new();
    let mut route = String::new();
    let mut i: usize = 0;
    while i < lines.len()
        invariant
            i <= lines.len(),
            lv == lines@.map_values(|l: String| l@),
            (link0@, route@) == split_link0(lv.take(i as int)),
        decreases lines.len() - i,
    {
        assert(lv.take(i + 1).drop_last() =~= lv.take(i as int));
        assert(lv[i as int] == lines@[i as int]@);
        let l = lines[i].as_str();
        if l.unicode_len() > 0 && l.get_char(0) == '%' {
            link0.append(l);
            link0.append("\n");
        } else {
            route.append(l);
            route.append("\n");
        }
        i += 1;
    }
    assert(lv.take(lines.len() as int) =~= lv);
    let r = match rewrite_route_section(route.as_str()) {
        Ok(r) => r,
        Err(e) => {
            return Err(e);
        },
    };
    let mut other = String::new();
    let mut j: usize = 1;
    while j < n - 1
        invariant
            n == secs.len(),
            3 <= n,
            1 <= j <= n - 1,
            sv == secs@.map_values(|x: String| x@),
            other@ == joined_sections(sv.subrange(1, j as int)),
        decreases n - 1 - j,
    {
        assert(sv.subrange(1, j + 1).drop_last() =~= sv.subrange(1, j as int));
        assert(sv[j as int] == secs@[j as int]@);
        if j > 1 {
            other.append("\n\n");
        } else {
            assert(sv.subrange(1, 2) =~= seq![sv[1]]);
        }
        other.append(secs[j].as_str());
        j += 1;
    }
    let gen = rewrite_final_section(secs[n - 1].as_str());
    assert(sv[n - 1] == secs@[n - 1]@);
    assert(sv == input_sections(trim_end_chars(trim_start_chars(text@))));
    assert(lv == text_lines(sv[0]));
    assert(split_link0(text_lines(sv[0])) == (link0@, route@));
    assert(route_rewritten(route@) == Ok::<Seq<char>, GjfError>(r@));
    let ghost l0 = link0@;
    let mut out = link0;
    out.append(r.as_str());
    out.append("\n");
    out.append(other.as_str());
    out.append("\n\n");
    out.append(gen.as_str());
    assert(out@ =~= l0 + r@ + "\n"@ + other@ + "\n\n"@ + gen@);
    assert(out@ =~= l0 + r@ + "\n"@ + joined_sections(sv.subrange(1, n - 1)) + "\n\n"@
        + trim_end_chars(sv[n - 1]) + "\n\n100\n205\n402\n"@);
    Ok(out)
}

impl crate::xdh::xDH {
    /// Rewrites a Gaussian input, given line by line, for an xDH calculation.
    pub fn rewrite_gaussian_input(lines: &Vec<String>) -> (r: Result<String, GjfError>)
        ensures
            match r {
                Ok(x) => input_rewritten(joined_lines(lines@.map_values(|l: String| l@)))
                    == Ok::<Seq<char>, GjfError>(x@),
                Err(e) => input_rewritten(joined_lines(lines@.map_values(|l: String| l@)))
                    == Err::<Seq<char>, GjfError>(e),
            },
    {
        let text = read_gaussian_input_from(lines);
        rewrite_gaussian_input_from(text.as_str())
    }
}

} // verus!
