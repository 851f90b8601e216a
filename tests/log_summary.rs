use xo_tools::{extract_relevant_lines, summarize_gauss_log, Level, Note};

const BANNER: &str = " ------------------------------------------------------------------------";

fn lines(v: &[&str]) -> Vec<String> {
    v.iter().map(|l| l.to_string()).collect()
}

fn view(notes: &[Note]) -> Vec<(Level, String)> {
    notes.iter().map(|n| (n.level, n.text.clone())).collect()
}

#[test]
fn summary_picks_essential_lines() {
    let log = lines(&[
        " Gaussian 09:  EM64L-G09RevE.01 30-Nov-2015",
        " nothing here",
        " Deg. of freedom    12",
        " SCF Done:  E(RB3LYP) =  -76.4089533     A.U. after   10 cycles",
        "            NFock= 10  Conv=0.39D-08     -V/T= 2.0052",
        " Frequencies --   1600.1   3700.2   3800.3",
        " Frequencies --   4000.0",
        " Sum of electronic and thermal Free Energies=   -76.403",
        " Normal termination of Gaussian 09",
    ]);
    let notes = view(&summarize_gauss_log(&log));
    assert_eq!(
        notes,
        vec![
            (Level::Info, " Deg. of freedom    12".to_string()),
            (Level::Plain, BANNER.to_string()),
            (Level::Warn, log[3].clone()),
            (Level::Plain, log[4].clone()),
            (Level::Plain, BANNER.to_string()),
            (Level::Info, log[5].clone()),
            (Level::Info, log[7].clone()),
            (Level::Plain, BANNER.to_string()),
            (Level::Info, log[8].clone()),
        ]
    );
}

#[test]
fn summary_converged_block_and_eigenvalues() {
    let log = lines(&[
        "         Item               Value     Threshold  Converged?",
        " Maximum Force            0.000010     0.000450     YES",
        " RMS     Force            0.000007     0.000300     YES",
        " Alpha  occ. eigenvalues --  -19.1 Eigenvalues --- first",
        " Eigenvalues ---  a",
        " skipped line",
        " Job cpu time:       0 days  0 hours  0 minutes 10.0 seconds.",
    ]);
    let notes = view(&summarize_gauss_log(&log));
    assert_eq!(
        notes,
        vec![
            (Level::Plain, BANNER.to_string()),
            (Level::Info, log[0].clone()),
            (Level::Plain, log[1].clone()),
            (Level::Plain, log[2].clone()),
            (Level::Plain, log[3].clone()),
            (Level::Plain, log[4].clone()),
            (Level::Plain, log[5].clone()),
            (Level::Plain, log[6].clone()),
            (Level::Plain, BANNER.to_string()),
        ]
    );
    let log = lines(&[" Eigenvalues ---  1", " Eigenvalues ---  2", " dropped", " Warning: x"]);
    let notes = view(&summarize_gauss_log(&log));
    assert_eq!(notes, vec![(Level::Info, log[0].clone()), (Level::Warn, log[3].clone())]);
}

#[test]
fn summary_stops_after_a_final_scf_line() {
    let log = lines(&[" SCF Done:  E(RB3LYP) =  -76.4"]);
    let notes = view(&summarize_gauss_log(&log));
    assert_eq!(notes, vec![(Level::Warn, log[0].clone())]);
    assert!(summarize_gauss_log(&vec![]).is_empty());
}

#[test]
fn relevant_lines_of_a_whole_text() {
    let text = " SCF Done:  E = -1.0\r\n other\n Erf(P)=  -0.1\n";
    let kept = extract_relevant_lines(text);
    assert_eq!(kept, vec![" SCF Done:  E = -1.0".to_string(), " Erf(P)=  -0.1".to_string()]);
    assert!(extract_relevant_lines("").is_empty());
    let kept = extract_relevant_lines(" Erf(P)= 1\r\n\n Erf(P)= 2\r");
    assert_eq!(kept, vec![" Erf(P)= 1".to_string(), " Erf(P)= 2\r".to_string()]);
}
