//! The xDH energy model: its components, the six functional presets, and the
//! assembly of the components from the relevant lines of a log.
use vstd::prelude::*;
use crate::gau::{
    alpha_alpha_marker,
    alpha_beta_marker,
    assigned_values,
    beta_beta_marker,
    bytes_of,
    entvj_fields,
    entvj_marker,
    extract_relevant_lines_from,
    line_bytes,
    os_ss_units,
    parse_entvj,
    parse_os_ss,
    parse_solvent,
    quad_units,
    relevant_lines,
    solvent_marker,
    solvent_units,
};
use crate::number::{Fixed, fixed_limit, lemma_fixed_limit, lemma_number_units_bound, number_units};
use crate::text::contains;

verus! {

/// The xDH family of doubly hybrid functionals.
#[allow(non_camel_case_types)]
#[derive(Clone, Copy, Debug, PartialEq, Eq, Structural)]
pub enum Functional {
    XYG3,
    XYG5,
    XYG6,
    XYG7,
    XYGJ_OS,
    revXYG3,
}

/// The seven coefficients of a preset, in units of 10^-4.
pub open spec fn coefficients(f: Functional) -> Seq<int> {
    match f {
        Functional::XYG3 => seq![8033, -140, 2107, 0, 6789, 3211, 3211],
        Functional::XYG5 => seq![9150, 612, 238, 0, 4957, 4548, 2764],
        Functional::XYG6 => seq![9105, 1576, -681, 1800, 2244, 4695, 2426],
        Functional::XYG7 => seq![8971, 2055, -1408, 4056, 1159, 4052, 2589],
        Functional::XYGJ_OS => seq![7731, 2269, 0, 2309, 2754, 4364, 0],
        Functional::revXYG3 => seq![9196, -222, 1026, 0, 6059, 3941, 3941],
    }
}

impl Functional {
    /// The seven coefficients of the preset, in units of 10^-4.
    pub fn parameters(&self) -> (r: [i64; 7])
        ensures
            r@.map_values(|x: i64| x as int) == coefficients(*self),
    {
        let r: [i64; 7] = match self {
            Functional::XYG3 => [8033, -140, 2107, 0, 6789, 3211, 3211],
            Functional::XYG5 => [9150, 612, 238, 0, 4957, 4548, 2764],
            Functional::XYG6 => [9105, 1576, -681, 1800, 2244, 4695, 2426],
            Functional::XYG7 => [8971, 2055, -1408, 4056, 1159, 4052, 2589],
            Functional::XYGJ_OS => [7731, 2269, 0, 2309, 2754, 4364, 0],
            Functional::revXYG3 => [9196, -222, 1026, 0, 6059, 3941, 3941],
        };
        assert(r@.map_values(|x: i64| x as int) =~= coefficients(*self));
        r
    }
}

/// An energy in units of 10^-28.
#[derive(Clone, Copy, Debug, PartialEq, Eq, Structural)]
pub struct Energy {
    pub units: i128,
}

/// The energy terms read from one log.
#[allow(non_camel_case_types)]
#[derive(Clone, Copy, Debug, PartialEq, Eq, Structural)]
pub struct xDH {
    /// First field of the first ENTVJ line.
    pub energy_no_xc: Fixed,
    /// The value of the last `Erf(P)=` line, where the log has one.
    pub solvent: Option<Fixed>,
    /// Second field of the first, second and third ENTVJ lines.
    pub ex_first: Fixed,
    pub ex_second: Fixed,
    pub ex_third: Fixed,
    /// Third field of the second and third ENTVJ lines.
    pub ec_second: Fixed,
    pub ec_third: Fixed,
    /// The last `alpha-beta` pair energy (opposite spin).
    pub pt2_os: Fixed,
    /// The last `alpha-alpha` and `beta-beta` pair energies (same spin).
    pub pt2_aa: Fixed,
    pub pt2_bb: Fixed,
}

/// A value as the log can give it.
pub open spec fn in_range(v: Fixed) -> bool {
    -fixed_limit() < v.units < fixed_limit()
}

/// `sum_{i < n} c[i] * p[i]`.
pub open spec fn weighted_sum(c: Seq<int>, p: Seq<int>, n: nat) -> int
    decreases n,
{
    if n == 0 {
        0
    } else {
        weighted_sum(c, p, (n - 1) as nat) + c[n - 1] * p[n - 1]
    }
}

impl xDH {
    pub open spec fn wf(&self) -> bool {
        &&& in_range(self.energy_no_xc)
        &&& (self.solvent matches Some(s) ==> in_range(s))
        &&& in_range(self.ex_first)
        &&& in_range(self.ex_second)
        &&& in_range(self.ex_third)
        &&& in_range(self.ec_second)
        &&& in_range(self.ec_third)
        &&& in_range(self.pt2_os)
        &&& in_range(self.pt2_aa)
        &&& in_range(self.pt2_bb)
    }

    /// The energy without exchange-correlation, solvent term included, in
    /// units of 10^-24.
    pub open spec fn baseline_units(&self) -> int {
        self.energy_no_xc.units + match self.solvent {
            Some(s) => s.units as int,
            None => 0,
        }
    }

    /// The seven components, in units of 10^-24.
    pub open spec fn component_units(&self) -> Seq<int> {
        seq![
            self.ex_first.units as int,
            self.ex_second.units as int,
            self.ex_third.units as int,
            self.ec_second.units as int,
            self.ec_third.units as int,
            self.pt2_os.units as int,
            self.pt2_aa.units + self.pt2_bb.units,
        ]
    }

    /// The energy of a preset, in units of 10^-28: the baseline plus the
    /// components weighted by the preset's coefficients.
    pub open spec fn energy_units(&self, f: Functional) -> int {
        self.baseline_units() * 10000 + weighted_sum(self.component_units(), coefficients(f), 7)
    }

    /// The energy without exchange-correlation, solvent term included.
    pub fn baseline(&self) -> (r: Fixed)
        requires
            self.wf(),
        ensures
            r.units == self.baseline_units(),
    {
        proof {
            lemma_fixed_limit();
        }
        match self.solvent {
            Some(s) => Fixed { units: self.energy_no_xc.units + s.units },
            None => self.energy_no_xc,
        }
    }

    /// The seven components.
    pub fn component(&self) -> (r: [Fixed; 7])
        requires
            self.wf(),
        ensures
            r@.map_values(|f: Fixed| f.units as int) == self.component_units(),
    {
        proof {
            lemma_fixed_limit();
        }
        let r = [
            self.ex_first,
            self.ex_second,
            self.ex_third,
            self.ec_second,
            self.ec_third,
            self.pt2_os,
            Fixed { units: self.pt2_aa.units + self.pt2_bb.units },
        ];
        assert(r@.map_values(|f: Fixed| f.units as int) =~= self.component_units());
        r
    }

    /// Final xDH functional energy from the energy components.
    pub fn energy(&self, functional: Functional) -> (r: Energy)
        requires
            self.wf(),
        ensures
            r.units == self.energy_units(functional),
    {
        let b = self.baseline();
        let c = self.component();
        let p = functional.parameters();
        let ghost cu = self.component_units();
        let ghost pu = coefficients(functional);
        proof {
            lemma_fixed_limit();
            assert(forall|i: int| 0 <= i < 7 ==> c@[i].units as int == #[trigger] cu[i]);
            assert(forall|i: int| 0 <= i < 7 ==> p@[i] as int == #[trigger] pu[i]);
            assert(forall|i: int| 0 <= i < 7 ==> -10000 <= #[trigger] pu[i] <= 10000);
        }
        let mut acc: i128 = b.units * 10000;
        let mut i: usize = 0;
        while i < 7
            invariant
                i <= 7,
                fixed_limit() == 100000000000000000000000000000000nat,
                forall|k: int| 0 <= k < 7 ==> c@[k].units as int == #[trigger] cu[k],
                forall|k: int| 0 <= k < 7 ==> p@[k] as int == #[trigger] pu[k],
                forall|k: int| 0 <= k < 7 ==> -10000 <= #[trigger] pu[k] <= 10000,
                forall|k: int| 0 <= k < 7 ==> -2 * fixed_limit() < #[trigger] cu[k] < 2 * fixed_limit(),
                acc == b.units * 10000 + weighted_sum(cu, pu, i as nat),
                -(i + 1) * 2000000000000000000000000000000000000 <= acc <= (i + 1)
                    * 2000000000000000000000000000000000000,
                -2 * fixed_limit() < b.units < 2 * fixed_limit(),
            decreases 7 - i,
        {
            let x = c[i].units;
            let y = p[i] as i128;
            proof {
                assert(x as int == cu[i as int]);
                assert(y as int == pu[i as int]);
                let lim = 2 * fixed_limit() as int;
                assert(-lim * 10000 <= x * y <= lim * 10000) by (nonlinear_arith)
                    requires
                        -lim < x < lim,
                        -10000 <= y <= 10000,
                ;
                assert(lim * 10000 == 2000000000000000000000000000000000000);
            }
            acc = acc + x * y;
            i += 1;
        }
        Energy { units: acc }
    }
}

/// Why the energy terms could not be read from a log.
#[derive(Clone, Copy, Debug, PartialEq, Eq, Structural)]
pub enum ExtractError {
    /// An ENTVJ line does not hold exactly five numeric assignments.
    EntvjShape,
    /// The log does not hold exactly three ENTVJ lines; the number found.
    EntvjCount(usize),
    /// No readable `alpha-alpha` same-spin pair energy.
    AlphaAlpha,
    /// No readable `alpha-beta` opposite-spin pair energy.
    AlphaBeta,
    /// No readable `beta-beta` same-spin pair energy.
    BetaBeta,
}

/// What the ENTVJ lines of `rs` read as, in their order.
pub open spec fn entvj_quads(rs: Seq<String>) -> Seq<Option<Seq<int>>>
    decreases rs.len(),
{
    if rs.len() == 0 {
        Seq::empty()
    } else {
        let q = entvj_quads(rs.drop_last());
        let b = line_bytes(rs.last());
        if contains(b, entvj_marker()) {
            q.push(entvj_fields(b))
        } else {
            q
        }
    }
}

/// The last line of `rs` that holds `pat`.
pub open spec fn last_line_with(rs: Seq<String>, pat: Seq<u8>) -> Option<Seq<u8>>
    decreases rs.len(),
{
    if rs.len() == 0 {
        None
    } else if contains(line_bytes(rs.last()), pat) {
        Some(line_bytes(rs.last()))
    } else {
        last_line_with(rs.drop_last(), pat)
    }
}

/// The pair energy of the last line of `rs` that holds `pat`.
pub open spec fn last_pair_term(rs: Seq<String>, pat: Seq<u8>) -> Option<int> {
    match last_line_with(rs, pat) {
        Some(b) => os_ss_units(b),
        None => None,
    }
}

/// The solvent term of the last `Erf(P)=` line of `rs`.
pub open spec fn last_solvent(rs: Seq<String>) -> Option<int> {
    match last_line_with(rs, solvent_marker()) {
        Some(b) => solvent_units(b),
        None => None,
    }
}

pub open spec fn fixed(u: int) -> Fixed {
    Fixed { units: u as i128 }
}

/// The energy terms that the relevant lines `rs` give, or the first reason
/// why they give none.
pub open spec fn assemble(rs: Seq<String>) -> Result<xDH, ExtractError> {
    let q = entvj_quads(rs);
    if exists|i: int| 0 <= i < q.len() && q[i] is None {
        Err(ExtractError::EntvjShape)
    } else if q.len() != 3 {
        Err(ExtractError::EntvjCount(q.len() as usize))
    } else if last_pair_term(rs, alpha_alpha_marker()) is None {
        Err(ExtractError::AlphaAlpha)
    } else if last_pair_term(rs, alpha_beta_marker()) is None {
        Err(ExtractError::AlphaBeta)
    } else if last_pair_term(rs, beta_beta_marker()) is None {
        Err(ExtractError::BetaBeta)
    } else {
        let q0 = q[0].unwrap();
        let q1 = q[1].unwrap();
        let q2 = q[2].unwrap();
        Ok(
            xDH {
                energy_no_xc: fixed(q0[0]),
                solvent: match last_solvent(rs) {
                    Some(u) => Some(fixed(u)),
                    None => None,
                },
                ex_first: fixed(q0[1]),
                ex_second: fixed(q1[1]),
                ex_third: fixed(q2[1]),
                ec_second: fixed(q1[2]),
                ec_third: fixed(q2[2]),
                pt2_os: fixed(last_pair_term(rs, alpha_beta_marker()).unwrap()),
                pt2_aa: fixed(last_pair_term(rs, alpha_alpha_marker()).unwrap()),
                pt2_bb: fixed(last_pair_term(rs, beta_beta_marker()).unwrap()),
            },
        )
    }
}

/// Every value that [`assigned_values`] gives is in range.
proof fn lemma_assigned_values_bounded(s: Seq<u8>)
    ensures
        forall|i: int|
            0 <= i < assigned_values(s).len() ==> -fixed_limit() < #[trigger] assigned_values(s)[i]
                < fixed_limit(),
    decreases s.len(),
{
    crate::text::lemma_find_either_bounds(s, 61, 61);
    let i = crate::text::find_either(s, 61, 61);
    if i < s.len() {
        let rest = s.subrange(i + 1, s.len() as int);
        lemma_assigned_values_bounded(rest);
        crate::text::lemma_find_either_bounds(rest, 61, 61);
        let seg = rest.subrange(0, crate::text::find_either(rest, 61, 61));
        lemma_number_units_bound(crate::gau::first_token(seg));
        let av = assigned_values(rest);
        match number_units(crate::gau::first_token(seg)) {
            Some(v) => {
                assert(assigned_values(s) == seq![v] + av);
                assert forall|k: int| 0 <= k < assigned_values(s).len() implies -fixed_limit()
                    < #[trigger] assigned_values(s)[k] < fixed_limit() by {
                    if k > 0 {
                        assert(assigned_values(s)[k] == av[k - 1]);
                    }
                }
            },
            None => {
                assert(assigned_values(s) == av);
            },
        }
    }
}

/// Every field of a readable ENTVJ line is in range.
proof fn lemma_entvj_quads_bounded(rs: Seq<String>)
    ensures
        forall|k: int|
            0 <= k < entvj_quads(rs).len() ==> (#[trigger] entvj_quads(rs)[k] matches Some(v) ==> (
            v.len() == 4 && forall|t: int|
                0 <= t < 4 ==> -fixed_limit() < #[trigger] v[t] < fixed_limit())),
    decreases rs.len(),
{
    if rs.len() > 0 {
        lemma_entvj_quads_bounded(rs.drop_last());
        lemma_assigned_values_bounded(line_bytes(rs.last()));
    }
}

/// A pair energy is in range.
proof fn lemma_last_pair_term_bound(rs: Seq<String>, pat: Seq<u8>)
    ensures
        last_pair_term(rs, pat) matches Some(u) ==> -fixed_limit() < u < fixed_limit(),
{
    match last_line_with(rs, pat) {
        Some(b) => {
            if 49 <= b.len() {
                lemma_number_units_bound(
                    crate::text::trim(crate::gau::d_to_e(b.subrange(49, b.len() as int))),
                );
            }
        },
        None => {},
    }
}

/// The index of the last line of `rs` that holds `pat`.
fn last_index_with(rs: &Vec<String>, pat: &[u8]) -> (r: Option<usize>)
    ensures
        match r {
            Some(k) => k < rs.len() && last_line_with(rs@, pat@) == Some(line_bytes(rs@[k as int])),
            None => last_line_with(rs@, pat@) is None,
        },
{
    let mut last: Option<usize> = None;
    let mut i: usize = 0;
    while i < rs.len()
        invariant
            i <= rs.len(),
            match last {
                Some(k) => k < i && last_line_with(rs@.subrange(0, i as int), pat@) == Some(
                    line_bytes(rs@[k as int]),
                ),
                None => last_line_with(rs@.subrange(0, i as int), pat@) is None,
            },
        decreases rs.len() - i,
    {
        proof {
            assert(rs@.subrange(0, i + 1).drop_last() =~= rs@.subrange(0, i as int));
        }
        if crate::text::has_substring(bytes_of(&rs[i]), pat) {
            last = Some(i);
        }
        i += 1;
    }
    assert(rs@.subrange(0, rs.len() as int) =~= rs@);
    last
}

/// The pair energy of the last line of `rs` that holds `pat`.
fn last_pair_term_of(rs: &Vec<String>, pat: &[u8]) -> (r: Option<Fixed>)
    ensures
        match r {
            Some(v) => last_pair_term(rs@, pat@) == Some(v.units as int),
            None => last_pair_term(rs@, pat@) is None,
        },
{
    match last_index_with(rs, pat) {
        Some(k) => parse_os_ss(rs[k].as_str()),
        None => None,
    }
}

pub open spec fn quad_option_units(o: Option<[Fixed; 4]>) -> Option<Seq<int>> {
    match o {
        Some(q) => Some(quad_units(q)),
        None => None,
    }
}

/// What the ENTVJ lines of `rs` read as, in their order.
fn entvj_quads_of(rs: &Vec<String>) -> (r: Vec<Option<[Fixed; 4]>>)
    ensures
        r@.map_values(|o: Option<[Fixed; 4]>| quad_option_units(o)) == entvj_quads(rs@),
{
    let mut r: Vec<Option<[Fixed; 4]>> = Vec::new();
    let mut i: usize = 0;
    while i < rs.len()
        invariant
            i <= rs.len(),
            r@.map_values(|o: Option<[Fixed; 4]>| quad_option_units(o)) == entvj_quads(
                rs@.subrange(0, i as int),
            ),
        decreases rs.len() - i,
    {
        proof {
            assert(rs@.subrange(0, i + 1).drop_last() =~= rs@.subrange(0, i as int));
        }
        let b = bytes_of(&rs[i]);
        if crate::text::has_substring(b, crate::gau::entvj_marker_bytes()) {
            let q = parse_entvj(rs[i].as_str());
            let ghost before = r@;
            r.push(q);
            assert(r@.map_values(|o: Option<[Fixed; 4]>| quad_option_units(o)) =~= before.map_values(
                |o: Option<[Fixed; 4]>| quad_option_units(o),
            ).push(quad_option_units(q)));
        }
        i += 1;
    }
    assert(rs@.subrange(0, rs.len() as int) =~= rs@);
    r
}

/// Assembles the energy terms from the relevant lines `rs`.
pub fn assemble_lines(rs: &Vec<String>) -> (r: Result<xDH, ExtractError>)
    ensures
        r == assemble(rs@),
        r matches Ok(m) ==> m.wf(),
{
    let qs = entvj_quads_of(rs);
    let ghost q = entvj_quads(rs@);
    let mut j: usize = 0;
    while j < qs.len()
        invariant
            j <= qs.len(),
            q == entvj_quads(rs@),
            qs@.map_values(|o: Option<[Fixed; 4]>| quad_option_units(o)) == q,
            forall|k: int| 0 <= k < j ==> q[k] is Some,
        decreases qs.len() - j,
    {
        if qs[j].is_none() {
            assert(qs@[j as int] is None);
            assert(q.len() == qs@.len());
            assert(q[j as int] == quad_option_units(qs@[j as int]));
            assert(exists|i: int| 0 <= i < q.len() && q[i] is None);
            assert(0 <= j < q.len() && q[j as int] is None);
            return Err(ExtractError::EntvjShape);
        }
        j += 1;
    }
    if qs.len() != 3 {
        return Err(ExtractError::EntvjCount(qs.len()));
    }
    proof {
        assert forall|k: int| 0 <= k < 3 implies #[trigger] qs@[k] is Some by {
            assert(q[k] == quad_option_units(qs@[k]));
        }
    }
    let (q0, q1, q2) = match (qs[0], qs[1], qs[2]) {
        (Some(a), Some(b), Some(c)) => (a, b, c),
        _ => {
            return Err(ExtractError::EntvjShape);
        },
    };
    let aa = match last_pair_term_of(rs, crate::gau::alpha_alpha_marker_bytes()) {
        Some(v) => v,
        None => {
            return Err(ExtractError::AlphaAlpha);
        },
    };
    let ab = match last_pair_term_of(rs, crate::gau::alpha_beta_marker_bytes()) {
        Some(v) => v,
        None => {
            return Err(ExtractError::AlphaBeta);
        },
    };
    let bb = match last_pair_term_of(rs, crate::gau::beta_beta_marker_bytes()) {
        Some(v) => v,
        None => {
            return Err(ExtractError::BetaBeta);
        },
    };
    let solvent = match last_index_with(rs, crate::gau::solvent_marker_bytes()) {
        Some(k) => parse_solvent(rs[k].as_str()),
        None => None,
    };
    proof {
        assert(q[0] == quad_option_units(qs@[0]));
        assert(q[1] == quad_option_units(qs@[1]));
        assert(q[2] == quad_option_units(qs@[2]));
        assert(!exists|i: int| 0 <= i < q.len() && q[i] is None);
        lemma_entvj_quads_bounded(rs@);
        assert(quad_units(q0) == q[0].unwrap());
        assert(quad_units(q1) == q[1].unwrap());
        assert(quad_units(q2) == q[2].unwrap());
        assert(forall|t: int| 0 <= t < 4 ==> #[trigger] quad_units(q0)[t] == q0@[t].units);
        assert(forall|t: int| 0 <= t < 4 ==> #[trigger] quad_units(q1)[t] == q1@[t].units);
        assert(forall|t: int| 0 <= t < 4 ==> #[trigger] quad_units(q2)[t] == q2@[t].units);
        lemma_last_pair_term_bound(rs@, alpha_alpha_marker());
        lemma_last_pair_term_bound(rs@, alpha_beta_marker());
        lemma_last_pair_term_bound(rs@, beta_beta_marker());
        match last_line_with(rs@, solvent_marker()) {
            Some(b) => {
                if b.len() >= 9 {
                    lemma_number_units_bound(crate::text::trim(b.subrange(9, b.len() as int)));
                }
            },
            None => {},
        }
    }
    let m = xDH {
        energy_no_xc: q0[0],
        solvent,
        ex_first: q0[1],
        ex_second: q1[1],
        ex_third: q2[1],
        ec_second: q1[2],
        ec_third: q2[2],
        pt2_os: ab,
        pt2_aa: aa,
        pt2_bb: bb,
    };
    Ok(m)
}

/// Reads the energy terms from the lines of a log.
pub fn collect_energy_components_from(lines: &Vec<String>) -> (r: Result<xDH, ExtractError>)
    ensures
        r == assemble(relevant_lines(lines@)),
        r matches Ok(m) ==> m.wf(),
{
    let rs = extract_relevant_lines_from(lines);
    assemble_lines(&rs)
}

impl xDH {
    /// Collects the energy terms from the lines of a Gaussian output.
    pub fn collect_from_gaussian(lines: &Vec<String>) -> (r: Result<Self, ExtractError>)
        ensures
            r == assemble(relevant_lines(lines@)),
            r matches Ok(m) ==> m.wf(),
    {
        collect_energy_components_from(lines)
    }
}

/// The energy of a preset is the baseline plus each of the seven components
/// times the preset's coefficient for it.
pub proof fn lemma_energy_is_weighted_sum(m: xDH, f: Functional)
    ensures
        ({
            let c = m.component_units();
            let p = coefficients(f);
            m.energy_units(f) == m.baseline_units() * 10000 + c[0] * p[0] + c[1] * p[1] + c[2] * p[2]
                + c[3] * p[3] + c[4] * p[4] + c[5] * p[5] + c[6] * p[6]
        }),
{
    reveal_with_fuel(weighted_sum, 8);
}

/// A log without exactly three ENTVJ lines gives no energy terms.
pub proof fn lemma_wrong_entvj_count_fails(lines: Seq<String>)
    requires
        entvj_quads(relevant_lines(lines)).len() != 3,
    ensures
        assemble(relevant_lines(lines)) is Err,
{
}

/// A log without a readable `beta-beta` line gives no energy terms.
pub proof fn lemma_missing_beta_beta_fails(lines: Seq<String>)
    requires
        last_pair_term(relevant_lines(lines), beta_beta_marker()) is None,
    ensures
        assemble(relevant_lines(lines)) is Err,
{
}

/// A log without a readable `alpha-alpha` or `alpha-beta` line gives no energy
/// terms.
pub proof fn lemma_missing_alpha_fails(lines: Seq<String>)
    requires
        last_pair_term(relevant_lines(lines), alpha_alpha_marker()) is None || last_pair_term(
            relevant_lines(lines),
            alpha_beta_marker(),
        ) is None,
    ensures
        assemble(relevant_lines(lines)) is Err,
{
}

/// Two sequences of lines that hold the same text, line by line.
pub open spec fn same_text(a: Seq<String>, b: Seq<String>) -> bool {
    a.len() == b.len() && forall|i: int| 0 <= i < a.len() ==> (#[trigger] a[i])@ == b[i]@
}

proof fn lemma_same_text_drop_last(a: Seq<String>, b: Seq<String>)
    requires
        same_text(a, b),
        a.len() > 0,
    ensures
        same_text(a.drop_last(), b.drop_last()),
        line_bytes(a.last()) == line_bytes(b.last()),
{
    assert forall|i: int| 0 <= i < a.drop_last().len() implies (#[trigger] a.drop_last()[i])@
        == b.drop_last()[i]@ by {
        assert(a.drop_last()[i] == a[i]);
        assert(b.drop_last()[i] == b[i]);
    }
    assert(a.last()@ == b.last()@);
}

proof fn lemma_relevant_same_text(a: Seq<String>, b: Seq<String>)
    requires
        same_text(a, b),
    ensures
        same_text(relevant_lines(a), relevant_lines(b)),
    decreases a.len(),
{
    if a.len() > 0 {
        lemma_same_text_drop_last(a, b);
        lemma_relevant_same_text(a.drop_last(), b.drop_last());
        let ra = relevant_lines(a.drop_last());
        let rb = relevant_lines(b.drop_last());
        if crate::gau::is_relevant(line_bytes(a.last())) {
            assert(a.last()@ == b.last()@);
            assert forall|i: int| 0 <= i < ra.push(a.last()).len() implies (#[trigger] ra.push(
                a.last(),
            )[i])@ == rb.push(b.last())[i]@ by {
                if i < ra.len() {
                    assert(ra.push(a.last())[i] == ra[i]);
                    assert(rb.push(b.last())[i] == rb[i]);
                }
            }
        }
    }
}

proof fn lemma_quads_same_text(a: Seq<String>, b: Seq<String>)
    requires
        same_text(a, b),
    ensures
        entvj_quads(a) == entvj_quads(b),
    decreases a.len(),
{
    if a.len() > 0 {
        lemma_same_text_drop_last(a, b);
        lemma_quads_same_text(a.drop_last(), b.drop_last());
    }
}

proof fn lemma_last_line_same_text(a: Seq<String>, b: Seq<String>, pat: Seq<u8>)
    requires
        same_text(a, b),
    ensures
        last_line_with(a, pat) == last_line_with(b, pat),
    decreases a.len(),
{
    if a.len() > 0 {
        lemma_same_text_drop_last(a, b);
        lemma_last_line_same_text(a.drop_last(), b.drop_last(), pat);
    }
}

/// Extraction is a function of the text of the lines alone: two logs with the
/// same lines give the same result.
pub proof fn lemma_extraction_depends_on_text_only(a: Seq<String>, b: Seq<String>)
    requires
        same_text(a, b),
    ensures
        assemble(relevant_lines(a)) == assemble(relevant_lines(b)),
{
    lemma_relevant_same_text(a, b);
    let ra = relevant_lines(a);
    let rb = relevant_lines(b);
    lemma_quads_same_text(ra, rb);
    lemma_last_line_same_text(ra, rb, alpha_alpha_marker());
    lemma_last_line_same_text(ra, rb, alpha_beta_marker());
    lemma_last_line_same_text(ra, rb, beta_beta_marker());
    lemma_last_line_same_text(ra, rb, solvent_marker());
}

} // verus!
