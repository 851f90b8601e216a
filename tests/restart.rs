use xo_tools::{
    parse_gaussian_log_file, update_with_coordinates, update_with_triplets, Fixed, RestartError,
};

fn lines(v: &[&str]) -> Vec<String> {
    v.iter().map(|l| l.to_string()).collect()
}

fn optimization_log() -> Vec<String> {
    lines(&[
        " NAtoms=      2 NQM=        2 NQMF=       0 NMMI=      0 NMMIF=      0",
        "                         Standard orientation:",
        " ---------------------------------------------------------------------",
        " Center     Atomic      Atomic             Coordinates (Angstroms)",
        " Number     Number       Type             X           Y           Z",
        " ---------------------------------------------------------------------",
        "      1          8           0        0.000000    0.000000    0.117300",
        "      2          1           0        0.000000    0.757200   -0.469200",
        " ---------------------------------------------------------------------",
        "                         Standard orientation:",
        " ---------------------------------------------------------------------",
        " Center     Atomic      Atomic             Coordinates (Angstroms)",
        " Number     Number       Type             X           Y           Z",
        " ---------------------------------------------------------------------",
        "      1          8           0        0.000000    0.000000    0.120000",
        "      2          1           0        0.000000    0.750000   -0.480000",
        " ---------------------------------------------------------------------",
        " Normal termination of Gaussian 09",
    ])
}

fn units(c: &[Fixed; 3]) -> [i128; 3] {
    [c[0].units, c[1].units, c[2].units]
}

#[test]
fn coordinates_of_an_optimization() {
    let cs = parse_gaussian_log_file(&optimization_log()).unwrap();
    let got: Vec<[i128; 3]> = cs.iter().map(units).collect();
    let e = 1_000_000_000_000_000_000i128;
    assert_eq!(got, vec![[0, 0, 117300 * e], [0, 757200 * e, -469200 * e]]);
}

#[test]
fn a_single_record_is_taken() {
    let log = optimization_log()[..9].to_vec();
    let cs = parse_gaussian_log_file(&log).unwrap();
    assert_eq!(cs.len(), 2);
    assert_eq!(cs[0][2].units, 117300_000_000_000_000_000_000);
}

#[test]
fn a_cut_record_is_incomplete() {
    let log = optimization_log()[..11].to_vec();
    assert_eq!(parse_gaussian_log_file(&log), Err(RestartError::IncompleteRecord));
}

#[test]
fn log_errors() {
    let mut log = optimization_log();
    log[0] = " NAtoms= two".to_string();
    assert_eq!(parse_gaussian_log_file(&log), Err(RestartError::BadAtomCount));
    let log = optimization_log()[1..].to_vec();
    assert_eq!(parse_gaussian_log_file(&log), Err(RestartError::NoAtomCount));
    let log = lines(&[" NAtoms=      2", " nothing"]);
    assert_eq!(parse_gaussian_log_file(&log), Err(RestartError::NoOrientation));
    let mut log = optimization_log();
    log[7] = "      2          1           0        0.000000    x   -0.469200".to_string();
    assert_eq!(parse_gaussian_log_file(&log), Err(RestartError::BadCoordinate(1)));
}

fn xyz(c: [f64; 3]) -> String {
    format!("{:20.8}{:20.8}{:20.8}", c[0], c[1], c[2])
}

#[test]
fn coordinates_are_replaced() {
    let template = lines(&[
        "%chk=water.chk",
        "# opt b3lyp/6-31g",
        "",
        "water",
        "",
        "0 1",
        " O   0.0000   0.0000   0.1173",
        " H   0.0000   0.7572  -0.4692",
    ]);
    let new = vec![xyz([0.0, 0.0, 0.12]), xyz([0.0, 0.75, -0.48])];
    let x = update_with_coordinates(&template, &new).unwrap();
    assert_eq!(
        x,
        "%chk=water.chk\n# opt b3lyp/6-31g\n\nwater\n\n0 1\n O          0.00000000          0.00000000          0.12000000\n H          0.00000000          0.75000000         -0.48000000\n"
    );
    assert_eq!(
        update_with_coordinates(&template, &new[..1].to_vec()),
        Err(RestartError::TooFewCoordinates)
    );
    let three = vec![new[0].clone(), new[1].clone(), new[1].clone()];
    assert_eq!(update_with_coordinates(&template, &three), Err(RestartError::TooManyCoordinates));
    assert_eq!(update_with_coordinates(&template, &vec![]), Err(RestartError::NoCoordinates));
}

#[test]
fn given_runs_of_coordinates_are_replaced() {
    let template = lines(&["a 1 2 3 x", "b", "a 1 2 3 y 1 2 3"]);
    let runs = vec![Some(" 1 2 3".to_string()), None, Some(" 1 2 3".to_string())];
    let xyz = vec![" 4 5 6".to_string(), " 7 8 9".to_string()];
    let x = update_with_triplets(&template, &runs, &xyz).unwrap();
    assert_eq!(x, "a 4 5 6 x\nb\na 7 8 9 y 7 8 9\n");
    assert_eq!(
        update_with_triplets(&template, &runs, &xyz[..1].to_vec()),
        Err(RestartError::TooFewCoordinates)
    );
}
