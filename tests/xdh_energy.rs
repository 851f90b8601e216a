use xo_tools::{
    collect_energy_components_from, extract_relevant_lines_from, parse_entvj, parse_os_ss,
    parse_scf_done, parse_solvent, xDH, ExtractError, Fixed, Functional,
};

/// A Gaussian log with the lines that the energy terms come from.
const JOB_LOG: [&str; 14] = [
    " Entering Gaussian System, Link 0=g09",
    " SCF Done:  E(RB3LYP) =  -150.367567881     A.U. after    9 cycles",
    "            ENTVJ= -133.281338 Ex=  -16.364758 Ec=    0.000000 ETotM2e= -234.7283473371  ETot= -149.6464806455",
    " Erf(P)=          -0.000578845929",
    "            ENTVJ= -133.280001 Ex=  -14.908981 Ec=   -1.426661 ETotM2e= -234.6031264921  ETot= -149.6156433382",
    "            ENTVJ= -133.279912 Ex=  -16.505819 Ec=   -0.573734 ETotM2e= -234.7101110293  ETot= -150.3594650112",
    "     alpha-alpha T2 =       0.1800000000D-01 E2=     -0.6000000000D-01",
    "     alpha-beta  T2 =       0.1300000000D+00 E2=     -0.3500000000D+00",
    "     beta-beta   T2 =       0.7000000000D-01 E2=     -0.1000000000D+00",
    "     alpha-alpha T2 =       0.1912645165D-01 E2=     -0.6748185095D-01",
    "     alpha-beta  T2 =       0.1397256845D+00 E2=     -0.3642781731D+00",
    "     beta-beta   T2 =       0.7629260704D-01 E2=     -0.1043875581D+00",
    " Erf(P)=          -0.000579521609",
    " Normal termination of Gaussian 09",
];

fn log_lines(text: [&str; 14]) -> Vec<String> {
    text.iter().map(|l| l.to_string()).collect()
}

fn to_f64(v: Fixed) -> f64 {
    format!("{}e-24", v.units).parse().unwrap()
}

/// The baseline and the components in double precision, added as the log's
/// values are added in floating point.
fn to_f64_parts(x: &xDH) -> (f64, [f64; 7]) {
    let mut e_no_xc = to_f64(x.energy_no_xc);
    if let Some(s) = x.solvent {
        e_no_xc += to_f64(s);
    }
    let comp = [
        to_f64(x.ex_first),
        to_f64(x.ex_second),
        to_f64(x.ex_third),
        to_f64(x.ec_second),
        to_f64(x.ec_third),
        to_f64(x.pt2_os),
        to_f64(x.pt2_aa) + to_f64(x.pt2_bb),
    ];
    (e_no_xc, comp)
}

fn energy_f64(x: &xDH, functional: Functional) -> f64 {
    let (e_no_xc, comp) = to_f64_parts(x);
    let params = functional.parameters();
    let energy: f64 = comp
        .iter()
        .zip(params.iter())
        .map(|(c, p)| c * format!("{}e-4", p).parse::<f64>().unwrap())
        .sum();
    energy + e_no_xc
}

fn check_os_ss() {
    let line = "     alpha-beta  T2 =       0.1397256845D+00 E2=     -0.3642781731D+00";
    let x = parse_os_ss(line).map(to_f64);
    assert_eq!(x, Some(-0.3642781731));

    let line = "     alpha-alpha T2 =       0.1912645165D-01 E2=     -0.6748185095D-01";
    let x = parse_os_ss(line).map(to_f64);
    assert_eq!(x, Some(-0.06748185095));

    let line = "     beta-beta   T2 =       0.7629260704D-01 E2=     -0.1043875581D+00";
    let x = parse_os_ss(line).map(to_f64);
    assert_eq!(x, Some(-0.1043875581));
}

#[test]
fn xdh_test_xdh_os_ss() {
    check_os_ss();
}

#[test]
fn gau_test_xdh_os_ss() {
    check_os_ss();
}

#[test]
fn output_test_xdh_os_ss() {
    check_os_ss();

    let line = "            ENTVJ= -363.840442 Ex=  -50.358635 Ec=   -5.600997 ETotM2e=-1072.3996282781  ETot= -419.8000737661";
    let parts = parse_entvj(line);
    assert!(parts.is_some());
    assert_eq!(to_f64(parts.unwrap()[3]), -1072.3996282781);
}

#[test]
fn xdh_test_parse_solvent() {
    let line = " Erf(P)=          -0.000578845929";
    assert_eq!(parse_solvent(line).map(to_f64), Some(-0.000578845929));
}

#[test]
fn gau_test_parse_solvent() {
    let line = " Erf(P)=          -0.000578845929";
    assert_eq!(parse_solvent(line).map(to_f64), Some(-0.000578845929));
}

#[test]
fn output_test_parse_solvent() {
    let line = " Erf(P)=          -0.000578845929";
    assert_eq!(parse_solvent(line).map(to_f64), Some(-0.000578845929));
}

#[test]
fn xdh_test_parse() {
    let lines = extract_relevant_lines_from(&log_lines(JOB_LOG));

    let p: Option<Vec<_>> = lines
        .iter()
        .filter(|line| line.contains("ENTVJ="))
        .map(|line| parse_entvj(line))
        .collect();
    assert_eq!(p.map(|v| v.len()), Some(3));

    let p: Option<_> = lines
        .iter()
        .filter(|line| line.contains("Erf(P)="))
        .last()
        .map(|line| parse_solvent(line));
    assert_eq!(p.flatten().map(to_f64), Some(-0.000579521609));

    for key in ["alpha-alpha", "alpha-beta", "beta-beta"] {
        let p: Option<Vec<_>> = lines
            .iter()
            .filter(|line| line.contains(key))
            .map(|line| parse_os_ss(line))
            .collect();
        assert_eq!(p.map(|v| v.len()), Some(2));
    }
}

fn check_parse() {
    let x = collect_energy_components_from(&log_lines(JOB_LOG)).unwrap();
    let (e_no_xc, comp) = to_f64_parts(&x);
    assert_eq!(e_no_xc, -133.28191752160902);

    let comp_expected = [-16.364758, -14.908981, -16.505819, -1.426661, -0.573734, -0.3642781731, -0.17186940905];
    assert_eq!(comp, comp_expected);
}

#[test]
fn gau_test_parse() {
    check_parse();
}

#[test]
fn output_test_parse() {
    check_parse();
}

#[test]
fn test_xdh_energy() {
    let xdh = xDH::collect_from_gaussian(&log_lines(JOB_LOG)).unwrap();
    assert_eq!(-150.25844295353738, energy_f64(&xdh, Functional::XYG3));
    assert_eq!(-150.05851758259632, energy_f64(&xdh, Functional::XYG5));
    assert_eq!(-150.005907822815, energy_f64(&xdh, Functional::XYG6));
    assert_eq!(-149.5397701816522, energy_f64(&xdh, Functional::XYG7));
    assert_eq!(-149.96275308354984, energy_f64(&xdh, Functional::XYGJ_OS));
    assert_eq!(-150.25238782233433, energy_f64(&xdh, Functional::revXYG3));
}

#[test]
fn exact_energies_of_the_reference_log() {
    let xdh = xDH::collect_from_gaussian(&log_lines(JOB_LOG)).unwrap();
    assert_eq!(xdh.baseline().units, -133281917521609000000000000);
    let expected: [(Functional, i128); 6] = [
        (Functional::XYG3, -1502584429535373650000000000000),
        (Functional::XYG5, -1500585175825963000000000000000),
        (Functional::XYG6, -1500059078228149800000000000000),
        (Functional::XYG7, -1495397701816521650000000000000),
        (Functional::XYGJ_OS, -1499627530835498400000000000000),
        (Functional::revXYG3, -1502523878223343150000000000000),
    ];
    for (f, units) in expected {
        assert_eq!(xdh.energy(f).units, units);
    }
}

#[test]
fn energy_is_baseline_plus_weighted_components() {
    let xdh = xDH::collect_from_gaussian(&log_lines(JOB_LOG)).unwrap();
    let b = xdh.baseline().units;
    let c = xdh.component();
    for f in [
        Functional::XYG3,
        Functional::XYG5,
        Functional::XYG6,
        Functional::XYG7,
        Functional::XYGJ_OS,
        Functional::revXYG3,
    ] {
        let p = f.parameters();
        let mut sum = b * 10000;
        for i in 0..7 {
            sum += c[i].units * p[i] as i128;
        }
        assert_eq!(xdh.energy(f).units, sum);
        assert_eq!(xdh.energy(f), xdh.energy(f));
    }
}

#[test]
fn extraction_twice_gives_the_same_result() {
    let lines = log_lines(JOB_LOG);
    let a = collect_energy_components_from(&lines);
    let b = collect_energy_components_from(&lines);
    assert_eq!(a, b);
}

#[test]
fn two_entvj_lines_fail() {
    let lines: Vec<String> = log_lines(JOB_LOG)
        .into_iter()
        .filter(|l| !l.contains("ENTVJ= -133.279912"))
        .collect();
    assert_eq!(collect_energy_components_from(&lines), Err(ExtractError::EntvjCount(2)));
}

#[test]
fn missing_beta_beta_fails() {
    let lines: Vec<String> = log_lines(JOB_LOG)
        .into_iter()
        .filter(|l| !l.contains("beta-beta"))
        .collect();
    assert_eq!(collect_energy_components_from(&lines), Err(ExtractError::BetaBeta));
}

#[test]
fn missing_alpha_terms_fail() {
    let no_aa: Vec<String> =
        log_lines(JOB_LOG).into_iter().filter(|l| !l.contains("alpha-alpha")).collect();
    assert_eq!(collect_energy_components_from(&no_aa), Err(ExtractError::AlphaAlpha));
    let no_ab: Vec<String> =
        log_lines(JOB_LOG).into_iter().filter(|l| !l.contains("alpha-beta")).collect();
    assert_eq!(collect_energy_components_from(&no_ab), Err(ExtractError::AlphaBeta));
}

#[test]
fn malformed_entvj_line_fails() {
    let lines: Vec<String> = log_lines(JOB_LOG)
        .into_iter()
        .map(|l| l.replace("ETot= -150.3594650112", "ETot= broken"))
        .collect();
    assert_eq!(collect_energy_components_from(&lines), Err(ExtractError::EntvjShape));
}

#[test]
fn solvent_term_is_optional() {
    let lines: Vec<String> =
        log_lines(JOB_LOG).into_iter().filter(|l| !l.contains("Erf(P)=")).collect();
    let x = collect_energy_components_from(&lines).unwrap();
    assert_eq!(x.solvent, None);
    assert_eq!(x.baseline().units, -133281338000000000000000000);
}

#[test]
fn last_pair_terms_win() {
    let x = collect_energy_components_from(&log_lines(JOB_LOG)).unwrap();
    assert_eq!(x.pt2_os.units, -364278173100000000000000);
    assert_eq!(x.pt2_aa.units, -67481850950000000000000);
    assert_eq!(x.pt2_bb.units, -104387558100000000000000);
    assert_eq!(x.component()[6].units, -171869409050000000000000);
}

#[test]
fn classifier_keeps_marked_lines_in_order() {
    let lines = log_lines(JOB_LOG);
    let kept = extract_relevant_lines_from(&lines);
    assert_eq!(kept.len(), 12);
    assert!(kept[0].contains("SCF Done:"));
    assert!(kept[1].contains("ENTVJ="));
    assert!(kept[11].contains("Erf(P)="));
    assert!(extract_relevant_lines_from(&vec![]).is_empty());
}

#[test]
fn parsers_reject_other_lines() {
    assert_eq!(parse_os_ss(" alpha-beta E2= -0.1D+00"), None);
    assert_eq!(parse_os_ss("     alpha-beta short"), None);
    assert_eq!(parse_solvent("Erf(P)= -0.5"), None);
    assert_eq!(parse_entvj(" ENTVJ= -1.0 Ex= -2.0"), None);
    assert_eq!(parse_scf_done(" Energy= 1.0"), None);
}

#[test]
fn scf_done_field() {
    let line = " SCF Done:  E(UB3LYP) =  -150.367567881     A.U. after    9 cycles";
    assert_eq!(parse_scf_done(line).map(to_f64), Some(-150.367567881));
}

#[test]
fn numbers_are_read_exactly() {
    let v = parse_solvent(" Erf(P)= 1.5e-3").unwrap();
    assert_eq!(v.units, 1500000000000000000000);
    let v = parse_solvent(" Erf(P)= -.25").unwrap();
    assert_eq!(v.units, -250000000000000000000000);
    let v = parse_solvent(" Erf(P)= +7.").unwrap();
    assert_eq!(v.units, 7000000000000000000000000);
    assert_eq!(parse_solvent(" Erf(P)= 1e8"), None);
    assert_eq!(parse_solvent(" Erf(P)= 1e-25"), None);
    assert_eq!(parse_solvent(" Erf(P)= 0e-99").map(|v| v.units), Some(0));
    assert_eq!(parse_solvent(" Erf(P)= ."), None);
    assert_eq!(parse_solvent(" Erf(P)= 1.0D-01"), None);
    assert_eq!(parse_os_ss("     alpha-beta  T2 =       0.1397256845D+00 E2=     -0.3642781731d+00"), None);
}
