//! The text that running Gaussian needs: the executable's name, the input with
//! fixed line endings, and the script that sets up the environment.
use vstd::prelude::*;
use vstd::string::StrSliceExecFns;
use vstd::string::StringExecFns;
use crate::text::{replace_str, replaced};

verus! {

/// The final component of a path, as `Path::file_name` gives it.
pub uninterp spec fn path_file_name(p: Seq<char>) -> Option<Seq<char>>;

/// Whether the file name of a path has an extension, as `Path::extension` tells.
pub uninterp spec fn path_has_extension(p: Seq<char>) -> bool;

/// Relies on `std::path::Path::file_name`: the final component of the path,
/// which depends on the path's text alone.
#[verifier::external_body]
fn file_name_of(p: &str) -> (r: Option<String>)
    ensures
        match r {
            Some(n) => path_file_name(p@) == Some(n@),
            None => path_file_name(p@) is None,
        },
{
    match std::path::Path::new(p).file_name() {
        Some(n) => n.to_str().map(String::from),
        None => None,
    }
}

/// Relies on `std::path::Path::extension`: whether the file name has an
/// extension, which depends on the path's text alone.
#[verifier::external_body]
fn has_extension(p: &str) -> (r: bool)
    ensures
        r == path_has_extension(p@),
{
    std::path::Path::new(p).extension().is_some()
}

/// `s` up to its first `.`.
pub open spec fn before_first_dot(s: Seq<char>) -> Seq<char>
    decreases s.len(),
{
    if s.len() == 0 || s[0] == '.' {
        Seq::empty()
    } else {
        seq![s[0]] + before_first_dot(s.drop_first())
    }
}

/// The executable's name that a file name of an rc file gives: the part
/// before its first dot (`g09.E01.rc` gives `g09`).
pub fn exe_name_of(file_name: &str) -> (r: String)
    ensures
        r@ == before_first_dot(file_name@),
{
    let n = file_name.unicode_len();
    let mut i: usize = 0;
    assert(file_name@.subrange(0, 0) + file_name@.subrange(0, n as int) =~= file_name@);
    assert(file_name@.subrange(0, n as int) =~= file_name@);
    while i < n && file_name.get_char(i) != '.'
        invariant
            i <= n == file_name@.len(),
            before_first_dot(file_name@) == file_name@.subrange(0, i as int) + before_first_dot(
                file_name@.subrange(i as int, n as int),
            ),
        decreases n - i,
    {
        let ghost t = file_name@.subrange(i as int, n as int);
        assert(t.drop_first() =~= file_name@.subrange(i + 1, n as int));
        assert(file_name@.subrange(0, i + 1) =~= file_name@.subrange(0, i as int) + seq![t[0]]);
        i += 1;
    }
    let ghost t = file_name@.subrange(i as int, n as int);
    assert(before_first_dot(t) == Seq::<char>::empty());
    assert(file_name@.subrange(0, i as int) + Seq::<char>::empty() =~= file_name@.subrange(
        0,
        i as int,
    ));
    String::from_str(file_name.substring_char(0, i))
}

/// The executable's name that a path to an rc file gives, where the file has
/// an extension: `/share/apps/gaussian/bin/g09.E01.rc` gives `g09`.
pub fn get_gaussian_exe_from_path(rcfile: &str) -> (r: Option<String>)
    ensures
        match r {
            Some(s) => path_has_extension(rcfile@) && (path_file_name(rcfile@) matches Some(n)
                && s@ == before_first_dot(n)),
            None => !path_has_extension(rcfile@) || path_file_name(rcfile@) is None,
        },
{
    if !has_extension(rcfile) {
        return None;
    }
    match file_name_of(rcfile) {
        Some(n) => Some(exe_name_of(n.as_str())),
        None => None,
    }
}

/// Converts Windows line endings to Unix ones and appends a final new line,
/// which Gaussian needs.
pub fn fix_line_endings_issue(txt: &str) -> (r: String)
    ensures
        r@ == replaced(txt@, "\r"@, ""@) + "\n"@,
{
    proof {
        reveal_strlit("\r");
    }
    let mut r = replace_str(txt, "\r", "");
    r.append("\n");
    r
}

/// The script that sources the rc file and the profile of executable `gxx`,
/// then runs it.
pub fn gaussian_script(rcfile: &str, gxx: &str) -> (r: String)
    ensures
        r@ == "#! /usr/bin/env bash\n\nsource \""@ + rcfile@ + "\"\nsource \"$"@ + gxx@ + "root/"@
            + gxx@ + "/bsd/"@ + gxx@ + ".profile\"\n\"$"@ + gxx@ + "root/"@ + gxx@ + "/"@ + gxx@
            + "\"\n\n"@,
{
    let mut r = String::from_str("#! /usr/bin/env bash\n\nsource \"");
    r.append(rcfile);
    r.append("\"\nsource \"$");
    r.append(gxx);
    r.append("root/");
    r.append(gxx);
    r.append("/bsd/");
    r.append(gxx);
    r.append(".profile\"\n\"$");
    r.append(gxx);
    r.append("root/");
    r.append(gxx);
    r.append("/");
    r.append(gxx);
    r.append("\"\n\n");
    r
}

} // verus!
