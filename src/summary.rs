//! Picking the essential lines of a Gaussian log for a reader: which lines to
//! show, at which verbosity, and where to draw separating banners.
use vstd::prelude::*;
use vstd::string::StringExecFns;
use crate::gau::{bytes_of, line_bytes, text_bytes};
use crate::text::{contains, has_prefix, has_substring, starts_with};

verus! {

/// The verbosity at which a note is shown; `Plain` is always shown.
#[derive(Clone, Copy, Debug, PartialEq, Eq, Structural)]
pub enum Level {
    Trace,
    Debug,
    Info,
    Warn,
    Plain,
}

/// One line of the summary.
#[derive(Clone, Debug)]
pub struct Note {
    pub level: Level,
    pub text: String,
}

/// What a line of the log asks for.
#[derive(Clone, Copy, Debug, PartialEq, Eq, Structural)]
pub enum Rule {
    /// Show the line at this level.
    Show(Level),
    /// Show the line, then a banner.
    ShowThenBanner,
    /// Warn with the line, show the next line, then a banner.
    ScfDone,
    /// Show the line and the next one.
    ShowWithNext,
    /// Show the line; skip the lines of the same kind that follow, and the
    /// line after them.
    Eigenvalues,
    /// A banner, the line, up to seven more lines, a banner.
    Converged,
    /// Show the line only the first time such a line comes.
    Frequencies,
    /// Show the line, and a banner when it speaks of free energies.
    ThermalSum,
    /// Nothing to show.
    Skip,
}

pub open spec fn has(l: String, lit: &str) -> bool {
    contains(line_bytes(l), text_bytes(lit@))
}

pub open spec fn begins(l: String, lit: &str) -> bool {
    starts_with(line_bytes(l), text_bytes(lit@))
}

/// The first rule that a line meets.
#[verifier::opaque]
pub open spec fn rule(l: String) -> Rule {
    if has(l, "Revision") {
        Rule::Show(Level::Debug)
    } else if begins(l, " Stoichiometry") {
        Rule::Show(Level::Debug)
    } else if begins(l, " Standard basis:") {
        Rule::Show(Level::Debug)
    } else if begins(l, " General basis") {
        Rule::Show(Level::Debug)
    } else if begins(l, " Framework group") {
        Rule::Show(Level::Debug)
    } else if begins(l, " Deg. of freedom") {
        Rule::ShowThenBanner
    } else if has(l, "Standard basis") {
        Rule::Show(Level::Debug)
    } else if has(l, "basis functions") {
        Rule::Show(Level::Debug)
    } else if has(l, "(Enter ") {
        Rule::Show(Level::Debug)
    } else if has(l, "Leave Link ") {
        Rule::Show(Level::Debug)
    } else if has(l, "Number of steps in this run=") {
        Rule::Show(Level::Info)
    } else if begins(l, " SCF Done: ") {
        Rule::ScfDone
    } else if has(l, "Step number") {
        Rule::Show(Level::Info)
    } else if has(l, "exceeded") {
        Rule::Show(Level::Info)
    } else if has(l, "energy=") {
        Rule::Show(Level::Debug)
    } else if has(l, "Counterpoise:") {
        Rule::Show(Level::Info)
    } else if begins(l, " Energy=") {
        Rule::Show(Level::Info)
    } else if begins(l, " Cycle ") {
        Rule::Show(Level::Trace)
    } else if begins(l, " E=") {
        Rule::Show(Level::Trace)
    } else if has(l, "ONIOM: generating point") {
        Rule::Show(Level::Info)
    } else if has(l, "ONIOM: extrapolated energy") {
        Rule::Show(Level::Info)
    } else if has(l, "ONIOM: Dipole moment") {
        Rule::ShowWithNext
    } else if has(l, "Eigenvalues ---") {
        Rule::Eigenvalues
    } else if has(l, "Converged?") {
        Rule::Converged
    } else if has(l, "WARNING") {
        Rule::Show(Level::Warn)
    } else if has(l, "Warning") {
        Rule::Show(Level::Warn)
    } else if has(l, "Frequencies --") {
        Rule::Frequencies
    } else if has(l, "Zero-point correction=") {
        Rule::Show(Level::Info)
    } else if has(l, "Thermal correction to") {
        Rule::Show(Level::Info)
    } else if has(l, "Sum of electronic and") {
        Rule::ThermalSum
    } else if has(l, "termination") {
        Rule::Show(Level::Info)
    } else if has(l, "Job cpu time:") {
        Rule::Show(Level::Info)
    } else {
        Rule::Skip
    }
}

/// The banner text: a space and 72 dashes.
pub open spec fn banner() -> Seq<char> {
    " ------------------------------------------------------------------------"@
}

/// How many lines at the start of `ls` are eigenvalue lines.
pub open spec fn eigen_run(ls: Seq<String>) -> nat
    decreases ls.len(),
{
    if ls.len() > 0 && has(ls[0], "Eigenvalues ---") {
        1 + eigen_run(ls.drop_first())
    } else {
        0
    }
}

pub open spec fn min_nat(a: nat, b: nat) -> nat {
    if a < b {
        a
    } else {
        b
    }
}

/// The lines of `ls` shown as plain notes.
pub open spec fn plain_lines(ls: Seq<String>) -> Seq<(Level, Seq<char>)> {
    ls.map_values(|l: String| (Level::Plain, l@))
}

/// What the first line of `ls` adds to the summary: the notes, how many
/// lines it takes, and whether no frequency line has come yet after it.
pub open spec fn step(ls: Seq<String>, first: bool) -> (Seq<(Level, Seq<char>)>, nat, bool) {
    let l = ls[0];
    let rest = ls.drop_first();
    match rule(l) {
        Rule::Show(level) => (seq![(level, l@)], 1, first),
        Rule::ShowThenBanner => (seq![(Level::Info, l@), (Level::Plain, banner())], 1, first),
        Rule::ScfDone => if rest.len() == 0 {
            (seq![(Level::Warn, l@)], 1, first)
        } else {
            (seq![(Level::Warn, l@), (Level::Plain, rest[0]@), (Level::Plain, banner())], 2, first)
        },
        Rule::ShowWithNext => if rest.len() == 0 {
            (seq![(Level::Info, l@)], 1, first)
        } else {
            (seq![(Level::Info, l@), (Level::Plain, rest[0]@)], 2, first)
        },
        Rule::Eigenvalues => {
            let k = eigen_run(rest);
            let skip = if k < rest.len() {
                k + 1
            } else {
                k
            };
            (seq![(Level::Info, l@)], 1 + skip, first)
        },
        Rule::Converged => {
            let k = min_nat(7, rest.len());
            (
                seq![(Level::Plain, banner()), (Level::Info, l@)] + plain_lines(rest.take(k as int))
                    + seq![(Level::Plain, banner())],
                1 + k,
                first,
            )
        },
        Rule::Frequencies => if first {
            (seq![(Level::Info, l@)], 1, false)
        } else {
            (Seq::empty(), 1, false)
        },
        Rule::ThermalSum => if has(l, "thermal Free Energies") {
            (seq![(Level::Info, l@), (Level::Plain, banner())], 1, first)
        } else {
            (seq![(Level::Info, l@)], 1, first)
        },
        Rule::Skip => (Seq::empty(), 1, first),
    }
}

/// The summary of the lines `ls`, where `first` tells whether no
/// frequency line has come yet.
pub open spec fn summary(ls: Seq<String>, first: bool) -> Seq<(Level, Seq<char>)>
    decreases ls.len(),
    via summary_decreases
{
    if ls.len() == 0 {
        Seq::empty()
    } else {
        let (notes, k, f) = step(ls, first);
        notes + summary(ls.skip(k as int), f)
    }
}

pub proof fn lemma_eigen_run_bound(ls: Seq<String>)
    ensures
        eigen_run(ls) <= ls.len(),
    decreases ls.len(),
{
    if ls.len() > 0 && has(ls[0], "Eigenvalues ---") {
        lemma_eigen_run_bound(ls.drop_first());
    }
}

pub proof fn lemma_step_takes_lines(ls: Seq<String>, first: bool)
    requires
        ls.len() > 0,
    ensures
        1 <= step(ls, first).1 <= ls.len(),
{
    lemma_eigen_run_bound(ls.drop_first());
}

#[via_fn]
proof fn summary_decreases(ls: Seq<String>, first: bool) {
    if ls.len() > 0 {
        lemma_step_takes_lines(ls, first);
    }
}

pub open spec fn note_view(n: Note) -> (Level, Seq<char>) {
    (n.level, n.text@)
}

pub open spec fn notes_view(ns: Seq<Note>) -> Seq<(Level, Seq<char>)> {
    ns.map_values(|n: Note| note_view(n))
}

fn line_has(l: &String, lit: &str) -> (r: bool)
    ensures
        r == has(*l, lit),
{
    has_substring(bytes_of(l), lit.as_bytes())
}

fn line_begins(l: &String, lit: &str) -> (r: bool)
    ensures
        r == begins(*l, lit),
{
    has_prefix(bytes_of(l), lit.as_bytes())
}

/// The first rule that a line meets.
pub fn rule_of(l: &String) -> (r: Rule)
    ensures
        r == rule(*l),
{
    proof {
        reveal(rule);
    }
    if line_has(l, "Revision") {
        Rule::Show(Level::Debug)
    } else if line_begins(l, " Stoichiometry") {
        Rule::Show(Level::Debug)
    } else if line_begins(l, " Standard basis:") {
        Rule::Show(Level::Debug)
    } else if line_begins(l, " General basis") {
        Rule::Show(Level::Debug)
    } else if line_begins(l, " Framework group") {
        Rule::Show(Level::Debug)
    } else if line_begins(l, " Deg. of freedom") {
        Rule::ShowThenBanner
    } else if line_has(l, "Standard basis") {
        Rule::Show(Level::Debug)
    } else if line_has(l, "basis functions") {
        Rule::Show(Level::Debug)
    } else if line_has(l, "(Enter ") {
        Rule::Show(Level::Debug)
    } else if line_has(l, "Leave Link ") {
        Rule::Show(Level::Debug)
    } else if line_has(l, "Number of steps in this run=") {
        Rule::Show(Level::Info)
    } else if line_begins(l, " SCF Done: ") {
        Rule::ScfDone
    } else if line_has(l, "Step number") {
        Rule::Show(Level::Info)
    } else if line_has(l, "exceeded") {
        Rule::Show(Level::Info)
    } else if line_has(l, "energy=") {
        Rule::Show(Level::Debug)
    } else if line_has(l, "Counterpoise:") {
        Rule::Show(Level::Info)
    } else if line_begins(l, " Energy=") {
        Rule::Show(Level::Info)
    } else if line_begins(l, " Cycle ") {
        Rule::Show(Level::Trace)
    } else if line_begins(l, " E=") {
        Rule::Show(Level::Trace)
    } else if line_has(l, "ONIOM: generating point") {
        Rule::Show(Level::Info)
    } else if line_has(l, "ONIOM: extrapolated energy") {
        Rule::Show(Level::Info)
    } else if line_has(l, "ONIOM: Dipole moment") {
        Rule::ShowWithNext
    } else if line_has(l, "Eigenvalues ---") {
        Rule::Eigenvalues
    } else if line_has(l, "Converged?") {
        Rule::Converged
    } else if line_has(l, "WARNING") {
        Rule::Show(Level::Warn)
    } else if line_has(l, "Warning") {
        Rule::Show(Level::Warn)
    } else if line_has(l, "Frequencies --") {
        Rule::Frequencies
    } else if line_has(l, "Zero-point correction=") {
        Rule::Show(Level::Info)
    } else if line_has(l, "Thermal correction to") {
        Rule::Show(Level::Info)
    } else if line_has(l, "Sum of electronic and") {
        Rule::ThermalSum
    } else if line_has(l, "termination") {
        Rule::Show(Level::Info)
    } else if line_has(l, "Job cpu time:") {
        Rule::Show(Level::Info)
    } else {
        Rule::Skip
    }
}

fn push_note(out: &mut Vec<Note>, level: Level, text: String)
    ensures
        notes_view(final(out)@) == notes_view(old(out)@).push((level, text@)),
{
    out.push(Note { level, text });
    assert(notes_view(final(out)@) =~= notes_view(old(out)@).push((level, text@)));
}

fn push_banner(out: &mut Vec<Note>)
    ensures
        notes_view(final(out)@) == notes_view(old(out)@).push((Level::Plain, banner())),
{
    push_note(
        out,
        Level::Plain,
        String::from_str(" ------------------------------------------------------------------------"),
    );
}

/// Shows line `i` and the eigenvalue lines that follow it; skips the line
/// after them.
fn eigenvalues_step(lines: &Vec<String>, i: usize, out: &mut Vec<Note>) -> (r: usize)
    requires
        i < lines.len(),
    ensures
        notes_view(final(out)@) == notes_view(old(out)@).push((Level::Info, lines@[i as int]@)),
        ({
            let rest = lines@.skip(i + 1);
            let k = eigen_run(rest);
            r == i + 1 + if k < rest.len() {
                k + 1
            } else {
                k
            }
        }),
{
    let n = lines.len();
    push_note(out, Level::Info, lines[i].clone());
    let mut j: usize = i + 1;
    while j < n && line_has(&lines[j], "Eigenvalues ---")
        invariant
            n == lines.len(),
            i < j <= n,
            eigen_run(lines@.skip(i + 1)) == (j - i - 1) + eigen_run(lines@.skip(j as int)),
        decreases n - j,
    {
        assert(lines@.skip(j as int)[0] == lines@[j as int]);
        assert(lines@.skip(j as int).drop_first() =~= lines@.skip(j + 1));
        j += 1;
    }
    proof {
        if j < n {
            assert(lines@.skip(j as int)[0] == lines@[j as int]);
        }
        assert(eigen_run(lines@.skip(j as int)) == 0);
    }
    if j < n {
        j + 1
    } else {
        j
    }
}

/// A banner, line `i`, up to seven more lines, and a banner.
fn converged_step(lines: &Vec<String>, i: usize, out: &mut Vec<Note>) -> (r: usize)
    requires
        i < lines.len(),
    ensures
        ({
            let rest = lines@.skip(i + 1);
            let k = min_nat(7, rest.len());
            &&& notes_view(final(out)@) == notes_view(old(out)@) + (seq![
                (Level::Plain, banner()),
                (Level::Info, lines@[i as int]@),
            ] + plain_lines(rest.take(k as int)) + seq![(Level::Plain, banner())])
            &&& r == i + 1 + k
        }),
{
    let n = lines.len();
    let ghost rest = lines@.skip(i + 1);
    let ghost start = notes_view(out@);
    push_banner(out);
    push_note(out, Level::Info, lines[i].clone());
    let k: usize = if n - i - 1 < 7 {
        n - i - 1
    } else {
        7
    };
    let ghost head = notes_view(out@);
    let mut t: usize = 0;
    assert(plain_lines(rest.take(0)) =~= Seq::<(Level, Seq<char>)>::empty());
    assert(head + plain_lines(rest.take(0)) =~= head);
    while t < k
        invariant
            n == lines.len(),
            i + 1 + k <= n,
            t <= k,
            rest == lines@.skip(i + 1),
            notes_view(out@) == head + plain_lines(rest.take(t as int)),
        decreases k - t,
    {
        assert(rest[t as int] == lines@[i + 1 + t]);
        push_note(out, Level::Plain, lines[i + 1 + t].clone());
        assert(plain_lines(rest.take(t + 1)) =~= plain_lines(rest.take(t as int)).push(
            (Level::Plain, rest[t as int]@),
        ));
        assert(head + plain_lines(rest.take(t + 1)) =~= (head + plain_lines(
            rest.take(t as int),
        )).push((Level::Plain, rest[t as int]@)));
        t += 1;
    }
    push_banner(out);
    assert(notes_view(out@) =~= start + (seq![
        (Level::Plain, banner()),
        (Level::Info, lines@[i as int]@),
    ] + plain_lines(rest.take(k as int)) + seq![(Level::Plain, banner())]));
    i + 1 + k
}

/// Adds what line `i` asks for; returns where the next step starts and
/// whether no frequency line has come yet.
#[verifier::rlimit(40)]
fn summary_step(lines: &Vec<String>, i: usize, first: bool, out: &mut Vec<Note>) -> (r: (
    usize,
    bool,
))
    requires
        i < lines.len(),
    ensures
        notes_view(final(out)@) == notes_view(old(out)@) + step(lines@.skip(i as int), first).0,
        r.0 == i + step(lines@.skip(i as int), first).1,
        r.1 == step(lines@.skip(i as int), first).2,
{
    let n = lines.len();
    let ghost ls = lines@.skip(i as int);
    let ghost rest = ls.drop_first();
    let ghost prev = notes_view(out@);
    assert(ls[0] == lines@[i as int]);
    assert(rest =~= lines@.skip(i + 1));
    if i + 1 < n {
        assert(rest[0] == lines@[i + 1]);
    }
    let l = &lines[i];
    match rule_of(l) {
        Rule::Show(level) => {
            push_note(out, level, l.clone());
            assert(notes_view(out@) =~= prev + seq![(level, l@)]);
            (i + 1, first)
        },
        Rule::ShowThenBanner => {
            push_note(out, Level::Info, l.clone());
            push_banner(out);
            assert(notes_view(out@) =~= prev + seq![(Level::Info, l@), (Level::Plain, banner())]);
            (i + 1, first)
        },
        Rule::ScfDone => {
            push_note(out, Level::Warn, l.clone());
            if i + 1 == n {
                assert(notes_view(out@) =~= prev + seq![(Level::Warn, l@)]);
                return (i + 1, first);
            }
            push_note(out, Level::Plain, lines[i + 1].clone());
            push_banner(out);
            assert(notes_view(out@) =~= prev + seq![
                (Level::Warn, l@),
                (Level::Plain, rest[0]@),
                (Level::Plain, banner()),
            ]);
            (i + 2, first)
        },
        Rule::ShowWithNext => {
            push_note(out, Level::Info, l.clone());
            if i + 1 == n {
                assert(notes_view(out@) =~= prev + seq![(Level::Info, l@)]);
                return (i + 1, first);
            }
            push_note(out, Level::Plain, lines[i + 1].clone());
            assert(notes_view(out@) =~= prev + seq![(Level::Info, l@), (Level::Plain, rest[0]@)]);
            (i + 2, first)
        },
        Rule::Eigenvalues => {
            let next = eigenvalues_step(lines, i, out);
            assert(notes_view(out@) =~= prev + seq![(Level::Info, l@)]);
            (next, first)
        },
        Rule::Converged => {
            let next = converged_step(lines, i, out);
            (next, first)
        },
        Rule::Frequencies => {
            if first {
                push_note(out, Level::Info, l.clone());
                assert(notes_view(out@) =~= prev + seq![(Level::Info, l@)]);
            } else {
                assert(notes_view(out@) =~= prev + Seq::<(Level, Seq<char>)>::empty());
            }
            (i + 1, false)
        },
        Rule::ThermalSum => {
            push_note(out, Level::Info, l.clone());
            if line_has(l, "thermal Free Energies") {
                push_banner(out);
                assert(notes_view(out@) =~= prev + seq![
                    (Level::Info, l@),
                    (Level::Plain, banner()),
                ]);
            } else {
                assert(notes_view(out@) =~= prev + seq![(Level::Info, l@)]);
            }
            (i + 1, first)
        },
        Rule::Skip => {
            assert(notes_view(out@) =~= prev + Seq::<(Level, Seq<char>)>::empty());
            (i + 1, first)
        },
    }
}

/// Walks the lines of a log and picks the essential ones: each note is a line
/// to show at a verbosity, or a banner.
pub fn summarize_gauss_log(lines: &Vec<String>) -> (r: Vec<Note>)
    ensures
        notes_view(r@) == summary(lines@, true),
{
    let n = lines.len();
    let mut out: Vec<Note> = Vec::new();
    let mut first = true;
    let mut i: usize = 0;
    assert(lines@.skip(0) =~= lines@);
    assert(notes_view(out@) + summary(lines@, true) =~= summary(lines@, true));
    while i < n
        invariant
            n == lines.len(),
            i <= n,
            notes_view(out@) + summary(lines@.skip(i as int), first) == summary(lines@, true),
        decreases n - i,
    {
        let ghost ls = lines@.skip(i as int);
        let ghost prev = notes_view(out@);
        let ghost first0 = first;
        proof {
            lemma_step_takes_lines(ls, first);
        }
        let (next, f) = summary_step(lines, i, first, &mut out);
        assert(ls.skip(step(ls, first0).1 as int) =~= lines@.skip(next as int));
        assert(notes_view(out@) + summary(lines@.skip(next as int), f) =~= prev + summary(
            ls,
            first0,
        ));
        i = next;
        first = f;
    }
    assert(lines@.skip(n as int) =~= Seq::<String>::empty());
    assert(notes_view(out@) + Seq::<(Level, Seq<char>)>::empty() =~= notes_view(out@));
    out
}

} // verus!
