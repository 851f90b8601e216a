//! Restarting a geometry optimization: the last good coordinates of a
//! Gaussian log, and an input with its coordinates replaced.
use vstd::prelude::*;
use vstd::string::StringExecFns;
use crate::gau::{bytes_of, line_bytes};
use crate::number::{
    Fixed,
    all_digits,
    all_digits_in,
    digits_value,
    number_in,
    number_units,
};
use crate::text::{
    ascii,
    find_either,
    find_either_in,
    contains,
    find_space,
    find_space_in,
    has_prefix,
    has_substring,
    is_space,
    is_space_byte,
    lemma_find_space_bounds,
    replace_str,
    replaced,
    starts_with,
    trim_start,
};

verus! {

/// Why coordinates could not be read, or put into an input.
#[derive(Clone, Copy, Debug, PartialEq, Eq, Structural)]
pub enum RestartError {
    /// The `NAtoms=` line does not give a count.
    BadAtomCount,
    /// The log has no `NAtoms=` line.
    NoAtomCount,
    /// The log has no ` orientation:` line.
    NoOrientation,
    /// A coordinate line does not hold three readable coordinates; its index.
    BadCoordinate(usize),
    /// The log ends before all atoms of the record.
    IncompleteRecord,
    /// No coordinates were given.
    NoCoordinates,
    /// The input has more coordinate lines than coordinates were given.
    TooFewCoordinates,
    /// The input has fewer coordinate lines than coordinates were given.
    TooManyCoordinates,
}

/// The white-space-delimited tokens of `s`.
pub open spec fn tokens(s: Seq<u8>) -> Seq<Seq<u8>>
    decreases s.len(),
    via tokens_decreases
{
    let t = trim_start(s);
    if t.len() == 0 {
        Seq::empty()
    } else {
        let k = find_space(t);
        seq![t.subrange(0, k)] + tokens(t.subrange(k, t.len() as int))
    }
}

proof fn lemma_trim_start_shorter(s: Seq<u8>)
    ensures
        trim_start(s).len() <= s.len(),
    decreases s.len(),
{
    if s.len() > 0 && is_space(s[0]) {
        lemma_trim_start_shorter(s.drop_first());
    }
}

proof fn lemma_find_space_positive(t: Seq<u8>)
    requires
        t.len() > 0,
        !is_space(t[0]),
    ensures
        find_space(t) >= 1,
{
    lemma_find_space_bounds(t.drop_first());
}

proof fn lemma_trim_start_first(s: Seq<u8>)
    ensures
        trim_start(s).len() > 0 ==> !is_space(trim_start(s)[0]),
    decreases s.len(),
{
    if s.len() > 0 && is_space(s[0]) {
        lemma_trim_start_first(s.drop_first());
    }
}

#[via_fn]
proof fn tokens_decreases(s: Seq<u8>) {
    lemma_trim_start_shorter(s);
    lemma_trim_start_first(s);
    let t = trim_start(s);
    if t.len() > 0 {
        lemma_find_space_positive(t);
        lemma_find_space_bounds(t);
    }
}

/// A count: an optional `+` and digits, as `usize` reads it.
pub open spec fn count_value(s: Seq<u8>) -> Option<nat> {
    let d = if s.len() > 0 && s[0] == 43 {
        s.drop_first()
    } else {
        s
    };
    if d.len() > 0 && all_digits(d) && digits_value(d) <= usize::MAX {
        Some(digits_value(d))
    } else {
        None
    }
}

pub open spec fn natoms_prefix() -> Seq<u8> {
    ascii(" NAtoms="@)
}

pub open spec fn orientation_marker() -> Seq<u8> {
    ascii(" orientation:"@)
}

proof fn lemma_natoms_prefix_len()
    ensures
        natoms_prefix().len() == 8,
{
    reveal_strlit(" NAtoms=");
}

fn natoms_prefix_bytes() -> (r: &'static [u8])
    ensures
        r@ == natoms_prefix(),
{
    proof {
        reveal_strlit(" NAtoms=");
        broadcast use vstd::string::is_ascii_spec_bytes;
        assert(vstd::string::is_ascii(" NAtoms="));
    }
    " NAtoms=".as_bytes()
}

fn orientation_marker_bytes() -> (r: &'static [u8])
    ensures
        r@ == orientation_marker(),
{
    proof {
        reveal_strlit(" orientation:");
        broadcast use vstd::string::is_ascii_spec_bytes;
        assert(vstd::string::is_ascii(" orientation:"));
    }
    " orientation:".as_bytes()
}

/// The count of an ` NAtoms=` line: the text after the marker, without
/// leading white space, up to the first space.
pub open spec fn natoms_of(b: Seq<u8>) -> Option<nat> {
    let t = trim_start(b.subrange(natoms_prefix().len() as int, b.len() as int));
    count_value(t.subrange(0, find_either(t, 32, 32)))
}

/// The count of the first ` NAtoms=` line of `ls`: `None` without such a
/// line, `Some(None)` where it gives no count.
pub open spec fn first_natoms(ls: Seq<String>) -> Option<Option<nat>>
    decreases ls.len(),
{
    if ls.len() == 0 {
        None
    } else if starts_with(line_bytes(ls[0]), natoms_prefix()) {
        Some(natoms_of(line_bytes(ls[0])))
    } else {
        first_natoms(ls.drop_first())
    }
}

/// The indices of the lines of `ls` that hold ` orientation:`.
pub open spec fn orientation_lines(ls: Seq<String>) -> Seq<int>
    decreases ls.len(),
{
    if ls.len() == 0 {
        Seq::empty()
    } else if contains(line_bytes(ls.last()), orientation_marker()) {
        orientation_lines(ls.drop_last()).push(ls.len() - 1)
    } else {
        orientation_lines(ls.drop_last())
    }
}

/// The line where the chosen record of coordinates starts: of several, the
/// last one unless `natoms` lines after it still lie in the log, in which
/// case the one before it.
pub open spec fn record_start(marks: Seq<int>, natoms: nat, nlines: nat) -> int {
    if marks.len() == 1 {
        marks[0]
    } else {
        let x = marks.last();
        if natoms + x < nlines {
            marks[marks.len() - 2]
        } else {
            x
        }
    }
}

/// The three coordinates of a line of a record: its fourth to sixth tokens.
pub open spec fn coordinates_of(b: Seq<u8>) -> Option<Seq<int>> {
    let t = tokens(b);
    if t.len() >= 6 && number_units(t[3]) is Some && number_units(t[4]) is Some && number_units(
        t[5],
    ) is Some {
        Some(seq![number_units(t[3]).unwrap(), number_units(t[4]).unwrap(), number_units(t[5]).unwrap()])
    } else {
        None
    }
}

/// The coordinates of the `k` lines of `ls` from line `first`, or the index
/// (from `first`) of the first line that holds none.
pub open spec fn record_from(ls: Seq<String>, first: int, k: nat) -> Result<Seq<Seq<int>>, int>
    decreases k,
{
    if k == 0 {
        Ok(Seq::empty())
    } else {
        match record_from(ls, first, (k - 1) as nat) {
            Err(i) => Err(i),
            Ok(cs) => match coordinates_of(line_bytes(ls[first + k - 1])) {
                None => Err(k - 1),
                Some(c) => Ok(cs.push(c)),
            },
        }
    }
}

/// The coordinates of the chosen record, in units of 10^-24 angstrom.
pub open spec fn log_coordinates(ls: Seq<String>) -> Result<Seq<Seq<int>>, RestartError> {
    match first_natoms(ls) {
        Some(None) => Err(RestartError::BadAtomCount),
        _ => if orientation_lines(ls).len() == 0 {
            Err(RestartError::NoOrientation)
        } else {
            match first_natoms(ls) {
                None => Err(RestartError::NoAtomCount),
                Some(None) => Err(RestartError::BadAtomCount),
                Some(Some(natoms)) => {
                    let start = record_start(orientation_lines(ls), natoms, ls.len());
                    let first = start + 5;
                    let avail = if first < ls.len() {
                        ls.len() - first
                    } else {
                        0
                    };
                    let k = if avail < natoms {
                        avail
                    } else {
                        natoms as int
                    };
                    match record_from(ls, first, k as nat) {
                        Err(i) => Err(RestartError::BadCoordinate(i as usize)),
                        Ok(cs) => if k < natoms {
                            Err(RestartError::IncompleteRecord)
                        } else {
                            Ok(cs)
                        },
                    }
                },
            }
        },
    }
}

pub open spec fn spans(s: Seq<u8>, v: Seq<(usize, usize)>) -> Seq<Seq<u8>> {
    v.map_values(|p: (usize, usize)| s.subrange(p.0 as int, p.1 as int))
}

/// Where the tokens of `s` lie.
fn token_spans(s: &[u8]) -> (r: Vec<(usize, usize)>)
    ensures
        spans(s@, r@) == tokens(s@),
        forall|i: int| 0 <= i < r@.len() ==> #[trigger] r@[i].0 <= r@[i].1 <= s.len(),
{
    let mut r: Vec<(usize, usize)> = Vec::new();
    let mut pos: usize = 0;
    assert(s@.subrange(0, s.len() as int) =~= s@);
    assert(spans(s@, r@) + tokens(s@) =~= tokens(s@));
    loop
        invariant
            pos <= s.len(),
            spans(s@, r@) + tokens(s@.subrange(pos as int, s.len() as int)) == tokens(s@),
            forall|i: int| 0 <= i < r@.len() ==> #[trigger] r@[i].0 <= r@[i].1 <= s.len(),
        decreases s.len() - pos,
    {
        let ghost rest = s@.subrange(pos as int, s.len() as int);
        let mut lo: usize = pos;
        while lo < s.len() && is_space_byte(s[lo])
            invariant
                pos <= lo <= s.len(),
                rest == s@.subrange(pos as int, s.len() as int),
                trim_start(rest) == trim_start(s@.subrange(lo as int, s.len() as int)),
            decreases s.len() - lo,
        {
            assert(s@.subrange(lo as int, s.len() as int).drop_first() =~= s@.subrange(
                lo + 1,
                s.len() as int,
            ));
            lo += 1;
        }
        let ghost t = s@.subrange(lo as int, s.len() as int);
        proof {
            if t.len() > 0 {
                assert(t[0] == s@[lo as int]);
            }
            assert(trim_start(t) == t);
        }
        if lo == s.len() {
            assert(tokens(rest) == Seq::<Seq<u8>>::empty());
            assert(spans(s@, r@) + Seq::<Seq<u8>>::empty() =~= spans(s@, r@));
            return r;
        }
        let hi = find_space_in(s, lo, s.len());
        proof {
            assert(t[0] == s@[lo as int]);
            lemma_find_space_positive(t);
            assert(t.subrange(0, hi - lo) =~= s@.subrange(lo as int, hi as int));
            assert(t.subrange(hi - lo, t.len() as int) =~= s@.subrange(hi as int, s.len() as int));
            assert(tokens(rest) == seq![s@.subrange(lo as int, hi as int)] + tokens(
                s@.subrange(hi as int, s.len() as int),
            ));
        }
        let ghost before = spans(s@, r@);
        r.push((lo, hi));
        assert(spans(s@, r@) =~= before.push(s@.subrange(lo as int, hi as int)));
        assert(spans(s@, r@) + tokens(s@.subrange(hi as int, s.len() as int)) =~= before + (seq![
            s@.subrange(lo as int, hi as int),
        ] + tokens(s@.subrange(hi as int, s.len() as int))));
        pos = hi;
    }
}

/// The count that `s[lo..hi]` writes, as `usize` reads it.
fn count_in(s: &[u8], lo: usize, hi: usize) -> (r: Option<usize>)
    requires
        lo <= hi <= s.len(),
    ensures
        match r {
            Some(n) => count_value(s@.subrange(lo as int, hi as int)) == Some(n as nat),
            None => count_value(s@.subrange(lo as int, hi as int)) is None,
        },
{
    let ghost t = s@.subrange(lo as int, hi as int);
    let d0 = if lo < hi && s[lo] == 43 {
        lo + 1
    } else {
        lo
    };
    proof {
        if lo < hi {
            assert(t[0] == s@[lo as int]);
        }
        assert(s@.subrange(d0 as int, hi as int) =~= if t.len() > 0 && t[0] == 43 {
            t.drop_first()
        } else {
            t
        });
    }
    if d0 == hi || !all_digits_in(s, d0, hi) {
        return None;
    }
    let mut acc: u128 = 0;
    let mut over = false;
    let mut i: usize = d0;
    while i < hi
        invariant
            d0 <= i <= hi <= s.len(),
            all_digits(s@.subrange(d0 as int, hi as int)),
            !over ==> acc == digits_value(s@.subrange(d0 as int, i as int)) && acc <= usize::MAX,
            over ==> digits_value(s@.subrange(d0 as int, i as int)) > usize::MAX,
        decreases hi - i,
    {
        let ghost next = s@.subrange(d0 as int, i + 1);
        assert(next.drop_last() =~= s@.subrange(d0 as int, i as int));
        assert(s@.subrange(d0 as int, hi as int)[i - d0] == s@[i as int]);
        let d = (s[i] - 48) as u128;
        if !over {
            acc = acc * 10 + d;
            if acc > usize::MAX as u128 {
                over = true;
            }
        }
        i += 1;
    }
    if over {
        None
    } else {
        Some(acc as usize)
    }
}

/// The count of an ` NAtoms=` line.
fn natoms_in(b: &[u8]) -> (r: Option<usize>)
    requires
        starts_with(b@, natoms_prefix()),
    ensures
        match r {
            Some(n) => natoms_of(b@) == Some(n as nat),
            None => natoms_of(b@) is None,
        },
{
    proof {
        lemma_natoms_prefix_len();
    }
    let mut lo: usize = 8;
    let ghost rest = b@.subrange(8, b.len() as int);
    while lo < b.len() && is_space_byte(b[lo])
        invariant
            8 <= lo <= b.len(),
            rest == b@.subrange(8, b.len() as int),
            trim_start(rest) == trim_start(b@.subrange(lo as int, b.len() as int)),
        decreases b.len() - lo,
    {
        assert(b@.subrange(lo as int, b.len() as int).drop_first() =~= b@.subrange(
            lo + 1,
            b.len() as int,
        ));
        lo += 1;
    }
    let ghost t = b@.subrange(lo as int, b.len() as int);
    proof {
        if t.len() > 0 {
            assert(t[0] == b@[lo as int]);
        }
        assert(trim_start(t) == t);
    }
    let hi = find_either_in(b, lo, b.len(), 32, 32);
    assert(t.subrange(0, hi - lo) =~= b@.subrange(lo as int, hi as int));
    count_in(b, lo, hi)
}

pub open spec fn point_units(c: [Fixed; 3]) -> Seq<int> {
    c@.map_values(|f: Fixed| f.units as int)
}

/// The three coordinates of a line of a record.
fn coordinates_in(b: &[u8]) -> (r: Option<[Fixed; 3]>)
    ensures
        match r {
            Some(c) => coordinates_of(b@) == Some(point_units(c)),
            None => coordinates_of(b@) is None,
        },
{
    let t = token_spans(b);
    if t.len() < 6 {
        return None;
    }
    let ghost tk = tokens(b@);
    assert(tk[3] == b@.subrange(t@[3].0 as int, t@[3].1 as int));
    assert(tk[4] == b@.subrange(t@[4].0 as int, t@[4].1 as int));
    assert(tk[5] == b@.subrange(t@[5].0 as int, t@[5].1 as int));
    let (x0, x1) = t[3];
    let (y0, y1) = t[4];
    let (z0, z1) = t[5];
    assert(t@[3].0 <= t@[3].1 <= b.len());
    assert(t@[4].0 <= t@[4].1 <= b.len());
    assert(t@[5].0 <= t@[5].1 <= b.len());
    let x = match number_in(b, x0, x1) {
        Some(v) => v,
        None => {
            return None;
        },
    };
    let y = match number_in(b, y0, y1) {
        Some(v) => v,
        None => {
            return None;
        },
    };
    let z = match number_in(b, z0, z1) {
        Some(v) => v,
        None => {
            return None;
        },
    };
    let c = [x, y, z];
    assert(point_units(c) =~= seq![x.units as int, y.units as int, z.units as int]);
    Some(c)
}

proof fn lemma_first_natoms_skip(ls: Seq<String>, i: int)
    requires
        0 <= i <= ls.len(),
        forall|k: int| 0 <= k < i ==> !starts_with(line_bytes(#[trigger] ls[k]), natoms_prefix()),
    ensures
        first_natoms(ls) == first_natoms(ls.subrange(i, ls.len() as int)),
    decreases i,
{
    if i > 0 {
        let t = ls.drop_first();
        assert forall|k: int| 0 <= k < i - 1 implies !starts_with(
            line_bytes(#[trigger] t[k]),
            natoms_prefix(),
        ) by {
            assert(t[k] == ls[k + 1]);
        }
        lemma_first_natoms_skip(t, i - 1);
        assert(t.subrange(i - 1, t.len() as int) =~= ls.subrange(i, ls.len() as int));
    } else {
        assert(ls.subrange(0, ls.len() as int) =~= ls);
    }
}

proof fn lemma_record_error_stays(ls: Seq<String>, first: int, j: nat, k: nat)
    requires
        j <= k,
        record_from(ls, first, j) is Err,
    ensures
        record_from(ls, first, k) == record_from(ls, first, j),
    decreases k,
{
    if k > j {
        lemma_record_error_stays(ls, first, j, (k - 1) as nat);
    }
}

pub open spec fn marks_view(v: Seq<usize>) -> Seq<int> {
    v.map_values(|x: usize| x as int)
}

/// Reads the coordinates of the last good record of a log of a geometry
/// optimization, in angstrom.
#[verifier::rlimit(60)]
pub fn parse_gaussian_log_file(lines: &Vec<String>) -> (r: Result<Vec<[Fixed; 3]>, RestartError>)
    ensures
        match r {
            Ok(cs) => log_coordinates(lines@) == Ok::<Seq<Seq<int>>, RestartError>(
                cs@.map_values(|c: [Fixed; 3]| point_units(c)),
            ),
            Err(e) => log_coordinates(lines@) == Err::<Seq<Seq<int>>, RestartError>(e),
        },
{
    let n = lines.len();
    let mut natoms: Option<usize> = None;
    let mut marks: Vec<usize> = Vec::new();
    let mut i: usize = 0;
    while i < n
        invariant
            n == lines.len(),
            i <= n,
            natoms is None ==> forall|k: int|
                0 <= k < i ==> !starts_with(line_bytes(#[trigger] lines@[k]), natoms_prefix()),
            natoms matches Some(m) ==> first_natoms(lines@) == Some(Some(m as nat)),
            marks_view(marks@) == orientation_lines(lines@.subrange(0, i as int)),
            forall|k: int| 0 <= k < marks@.len() ==> #[trigger] marks@[k] < i,
        decreases n - i,
    {
        let b = bytes_of(&lines[i]);
        if natoms.is_none() && has_prefix(b, natoms_prefix_bytes()) {
            proof {
                lemma_first_natoms_skip(lines@, i as int);
                assert(lines@.subrange(i as int, n as int)[0] == lines@[i as int]);
            }
            match natoms_in(b) {
                Some(m) => {
                    natoms = Some(m);
                },
                None => {
                    return Err(RestartError::BadAtomCount);
                },
            }
        }
        assert(lines@.subrange(0, i + 1).drop_last() =~= lines@.subrange(0, i as int));
        if has_substring(b, orientation_marker_bytes()) {
            let ghost before = marks@;
            marks.push(i);
            assert(marks_view(marks@) =~= marks_view(before).push(i as int));
        }
        i += 1;
    }
    assert(lines@.subrange(0, n as int) =~= lines@);
    proof {
        if natoms is None {
            lemma_first_natoms_skip(lines@, n as int);
            assert(lines@.subrange(n as int, n as int).len() == 0);
        }
    }
    if marks.len() == 0 {
        return Err(RestartError::NoOrientation);
    }
    let natoms = match natoms {
        Some(m) => m,
        None => {
            return Err(RestartError::NoAtomCount);
        },
    };
    let ghost mv = marks_view(marks@);
    let start: usize = if marks.len() == 1 {
        marks[0]
    } else {
        let x = marks[marks.len() - 1];
        if natoms < n - x {
            marks[marks.len() - 2]
        } else {
            x
        }
    };
    assert(start as int == record_start(mv, natoms as nat, n as nat));
    assert(start < n);
    let avail: usize = if n - start > 5 {
        n - start - 5
    } else {
        0
    };
    let k: usize = if avail < natoms {
        avail
    } else {
        natoms
    };
    let ghost first = start + 5;
    let mut coords: Vec<[Fixed; 3]> = Vec::new();
    let mut j: usize = 0;
    assert(coords@.map_values(|c: [Fixed; 3]| point_units(c)) =~= Seq::<Seq<int>>::empty());
    while j < k
        invariant
            n == lines.len(),
            j <= k <= avail,
            avail == 0 || start + 5 + avail == n,
            first == start + 5,
            first_natoms(lines@) == Some(Some(natoms as nat)),
            orientation_lines(lines@) == mv,
            mv.len() > 0,
            start as int == record_start(mv, natoms as nat, n as nat),
            k == (if avail < natoms {
                avail
            } else {
                natoms
            }),
            record_from(lines@, first, j as nat) == Ok::<Seq<Seq<int>>, int>(
                coords@.map_values(|c: [Fixed; 3]| point_units(c)),
            ),
        decreases k - j,
    {
        let ghost before = coords@;
        match coordinates_in(bytes_of(&lines[start + 5 + j])) {
            Some(c) => {
                coords.push(c);
                assert(coords@.map_values(|c: [Fixed; 3]| point_units(c)) =~= before.map_values(
                    |c: [Fixed; 3]| point_units(c),
                ).push(point_units(c)));
            },
            None => {
                proof {
                    lemma_record_error_stays(lines@, first, (j + 1) as nat, k as nat);
                }
                return Err(RestartError::BadCoordinate(j));
            },
        }
        j += 1;
    }
    if k < natoms {
        return Err(RestartError::IncompleteRecord);
    }
    Ok(coords)
}

/// The first run of three coordinates in a line of an input, as the pattern
/// `\s+[-0-9]+\.[0-9]+\s+[-0-9]+\.[0-9]+\s+[-0-9]+\.[0-9]+` finds it.
pub uninterp spec fn coordinate_triplet(line: Seq<char>) -> Option<Seq<char>>;

/// Relies on `regex::Regex::find` with the pattern of
/// [`coordinate_triplet`]; a match is never empty.
#[verifier::external_body]
fn triplet_of(line: &str) -> (r: Option<String>)
    ensures
        match r {
            Some(m) => coordinate_triplet(line@) == Some(m@) && m@.len() > 0,
            None => coordinate_triplet(line@) is None,
        },
{
    let re = regex::Regex::new(r"\s+[-0-9]+\.[0-9]+\s+[-0-9]+\.[0-9]+\s+[-0-9]+\.[0-9]+").unwrap();
    re.find(line).map(|m| m.as_str().to_string())
}

/// The lines `ls` of an input with their coordinates replaced, in order,
/// by `xyz`, where `trips[i]` is the run of coordinates of line `i`; each
/// line ended by a new line; and how many were used.
pub open spec fn updated(ls: Seq<Seq<char>>, trips: Seq<Option<Seq<char>>>, xyz: Seq<Seq<char>>) -> Result<
    (Seq<char>, nat),
    RestartError,
>
    decreases ls.len(),
{
    if ls.len() == 0 {
        Ok((Seq::empty(), 0))
    } else {
        match updated(ls.drop_last(), trips, xyz) {
            Err(e) => Err(e),
            Ok((text, used)) => {
                let l = ls.last();
                match trips[ls.len() - 1] {
                    None => Ok((text + l + "\n"@, used)),
                    Some(old) => if used < xyz.len() {
                        Ok((text + replaced(l, old, xyz[used as int]) + "\n"@, used + 1))
                    } else {
                        Err(RestartError::TooFewCoordinates)
                    },
                }
            },
        }
    }
}

/// The lines `ls` of an input, whose runs of coordinates are `trips`, with
/// the coordinates replaced by `xyz`.
pub open spec fn input_updated_with(
    ls: Seq<Seq<char>>,
    trips: Seq<Option<Seq<char>>>,
    xyz: Seq<Seq<char>>,
) -> Result<Seq<char>, RestartError> {
    if xyz.len() == 0 {
        Err(RestartError::NoCoordinates)
    } else {
        match updated(ls, trips, xyz) {
            Err(e) => Err(e),
            Ok((text, used)) => if used == xyz.len() {
                Ok(text)
            } else {
                Err(RestartError::TooManyCoordinates)
            },
        }
    }
}

/// An input with its coordinates replaced by `xyz`.
pub open spec fn input_updated(ls: Seq<Seq<char>>, xyz: Seq<Seq<char>>) -> Result<Seq<char>, RestartError> {
    input_updated_with(ls, ls.map_values(|l: Seq<char>| coordinate_triplet(l)), xyz)
}

pub open spec fn views(v: Seq<String>) -> Seq<Seq<char>> {
    v.map_values(|s: String| s@)
}

pub open spec fn option_views(v: Seq<Option<String>>) -> Seq<Option<Seq<char>>> {
    v.map_values(
        |o: Option<String>|
            match o {
                Some(s) => Some(s@),
                None => None,
            },
    )
}

proof fn lemma_updated_error_stays(
    ls: Seq<Seq<char>>,
    trips: Seq<Option<Seq<char>>>,
    xyz: Seq<Seq<char>>,
    i: int,
)
    requires
        0 <= i <= ls.len(),
        updated(ls.take(i), trips, xyz) is Err,
    ensures
        updated(ls, trips, xyz) == updated(ls.take(i), trips, xyz),
    decreases ls.len() - i,
{
    if i < ls.len() {
        assert(ls.take(i + 1).drop_last() =~= ls.take(i));
        lemma_updated_error_stays(ls, trips, xyz, i + 1);
    } else {
        assert(ls.take(i) =~= ls);
    }
}

/// Replaces the runs of coordinates `triplets` of the lines of an input, in
/// order, by `xyz`; each line of the result ends with a new line.
pub fn update_with_triplets(
    template: &Vec<String>,
    triplets: &Vec<Option<String>>,
    xyz: &Vec<String>,
) -> (r: Result<String, RestartError>)
    requires
        triplets.len() == template.len(),
        forall|i: int| 0 <= i < triplets.len() ==> (#[trigger] triplets@[i] matches Some(t) ==> t@.len() > 0),
    ensures
        match r {
            Ok(x) => input_updated_with(views(template@), option_views(triplets@), views(xyz@))
                == Ok::<Seq<char>, RestartError>(x@),
            Err(e) => input_updated_with(views(template@), option_views(triplets@), views(xyz@))
                == Err::<Seq<char>, RestartError>(e),
        },
{
    if xyz.len() == 0 {
        return Err(RestartError::NoCoordinates);
    }
    let ghost tv = views(template@);
    let ghost trv = option_views(triplets@);
    let ghost xv = views(xyz@);
    let mut out = String::new();
    let mut used: usize = 0;
    let mut i: usize = 0;
    while i < template.len()
        invariant
            i <= template.len() == triplets.len(),
            tv == views(template@),
            trv == option_views(triplets@),
            xv == views(xyz@),
            xyz.len() > 0,
            used <= xyz.len(),
            forall|i: int| 0 <= i < triplets.len() ==> (#[trigger] triplets@[i] matches Some(t) ==> t@.len() > 0),
            updated(tv.take(i as int), trv, xv) == Ok::<(Seq<char>, nat), RestartError>(
                (out@, used as nat),
            ),
        decreases template.len() - i,
    {
        assert(tv.take(i + 1).drop_last() =~= tv.take(i as int));
        assert(tv.take(i + 1).last() == template@[i as int]@);
        assert(tv.take(i + 1).len() - 1 == i);
        let l = template[i].as_str();
        match &triplets[i] {
            None => {
                out.append(l);
                out.append("\n");
            },
            Some(old) => {
                if used == xyz.len() {
                    proof {
                        assert(updated(tv.take(i + 1), trv, xv) == Err::<(Seq<char>, nat), RestartError>(
                            RestartError::TooFewCoordinates,
                        ));
                        lemma_updated_error_stays(tv, trv, xv, i + 1);
                        assert(tv.take(template.len() as int) =~= tv);
                    }
                    return Err(RestartError::TooFewCoordinates);
                }
                assert(xv[used as int] == xyz@[used as int]@);
                let new_line = replace_str(l, old.as_str(), xyz[used].as_str());
                out.append(new_line.as_str());
                out.append("\n");
                used += 1;
            },
        }
        i += 1;
    }
    assert(tv.take(template.len() as int) =~= tv);
    if used != xyz.len() {
        return Err(RestartError::TooManyCoordinates);
    }
    Ok(out)
}

/// Updates the lines of an input with new coordinates, given as the text that
/// replaces each run of three coordinates, in order; each line of the result
/// ends with a new line.
pub fn update_with_coordinates(template: &Vec<String>, xyz: &Vec<String>) -> (r: Result<
    String,
    RestartError,
>)
    ensures
        match r {
            Ok(x) => input_updated(views(template@), views(xyz@)) == Ok::<Seq<char>, RestartError>(
                x@,
            ),
            Err(e) => input_updated(views(template@), views(xyz@)) == Err::<Seq<char>, RestartError>(
                e,
            ),
        },
{
    let mut triplets: Vec<Option<String>> = Vec::new();
    let mut i: usize = 0;
    while i < template.len()
        invariant
            i <= template.len(),
            triplets.len() == i,
            forall|k: int| 0 <= k < i ==> (#[trigger] triplets@[k] matches Some(t) ==> t@.len() > 0),
            option_views(triplets@) == views(template@).take(i as int).map_values(
                |l: Seq<char>| coordinate_triplet(l),
            ),
        decreases template.len() - i,
    {
        let t = triplet_of(template[i].as_str());
        let ghost before = triplets@;
        triplets.push(t);
        assert(option_views(triplets@) =~= views(template@).take(i + 1).map_values(
            |l: Seq<char>| coordinate_triplet(l),
        )) by {
            assert(option_views(triplets@) =~= option_views(before).push(
                match t {
                    Some(s) => Some(s@),
                    None => None,
                },
            ));
        }
        i += 1;
    }
    assert(views(template@).take(template.len() as int) =~= views(template@));
    update_with_triplets(template, &triplets, xyz)
}

} // verus!
