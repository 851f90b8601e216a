use xo_tools::{
    absolute_at_file_path, exe_name_of, finish_route, frozen_core_of_upper, fix_line_endings_issue, gaussian_script,
    get_gaussian_exe_from_path, read_gaussian_input_from, rewrite_final_section,
    rewrite_gaussian_input_from, rewrite_route_section, xDH, GjfError,
};

#[test]
fn test_xx() {
    let p = "/share/apps/gaussian/bin/g03.rc";
    assert_eq!(get_gaussian_exe_from_path(p), Some("g03".into()));

    let p = "/share/apps/gaussian/bin/g09.E01.rc";
    assert_eq!(get_gaussian_exe_from_path(p), Some("g09".into()));

    let p = "/share/apps/gaussian/bin/g03";
    assert_eq!(get_gaussian_exe_from_path(p), None);
}

#[test]
fn exe_name_is_the_part_before_the_first_dot() {
    assert_eq!(exe_name_of("g16.c01.rc"), "g16");
    assert_eq!(exe_name_of("g09"), "g09");
    assert_eq!(exe_name_of(".rc"), "");
    assert_eq!(get_gaussian_exe_from_path("/"), None);
}

#[test]
fn line_endings_are_fixed() {
    assert_eq!(fix_line_endings_issue("a\r\nb\r\n"), "a\nb\n\n");
    assert_eq!(fix_line_endings_issue(""), "\n");
}

#[test]
fn run_script_sources_the_profile() {
    let s = gaussian_script("/opt/g09.rc", "g09");
    assert_eq!(
        s,
        "#! /usr/bin/env bash\n\nsource \"/opt/g09.rc\"\nsource \"$g09root/g09/bsd/g09.profile\"\n\"$g09root/g09/g09\"\n\n"
    );
}

#[test]
fn test_xdh_gjf_at_file() {
    let x = absolute_at_file_path("@Test008.H /N", "/path/to/Test008.gjf").unwrap();
    assert_eq!(x, "@/path/to/Test008.H /N");

    let x = absolute_at_file_path("@GAUSS_EXEDIR:mm2.prm", "/path/to/Test008.gjf").unwrap();
    assert_eq!(x, "@GAUSS_EXEDIR:mm2.prm");

    let x = absolute_at_file_path("@Test008.H ", "path/to/Test008.gjf").unwrap();
    assert_eq!(x, "@path/to/Test008.H ");
}

#[test]
fn at_file_path_needs_an_at_line() {
    assert_eq!(absolute_at_file_path("no file here", "/path/to/Test008.gjf"), None);
    assert_eq!(absolute_at_file_path("@Test008.H", "/"), None);
}

#[test]
fn test_xdh_reform_route() {
    let x = rewrite_route_section("# XYG3/6-31g").unwrap();
    assert_eq!(x, "#p b3lyp/6-31g iop(5/33=1) nosymm extraoverlay\n\n8/7=1,10=90/1;\n9/16=-3/6;\n6//8;\n");

    let x = rewrite_route_section("# xyg3(full)/6-31g** nosymm test").unwrap();
    assert_eq!(x, "#p b3lyp/6-31g** nosymm test iop(5/33=1) extraoverlay\n\n8/7=1,10=90/1;\n9/16=-3/6;\n6//8;\n");
    let x = rewrite_route_section("# xyg3(fc)/6-31g** nosymm test").unwrap();
    assert_eq!(x, "#p b3lyp/6-31g** nosymm test iop(5/33=1) extraoverlay\n\n8/7=1,10=4/1;\n9/16=-3/6;\n6//8;\n");
}

#[test]
fn route_errors() {
    assert_eq!(rewrite_route_section("XYG3/6-31g"), Err(GjfError::InvalidRoute));
    assert_eq!(rewrite_route_section("# B3LYP/6-31g"), Err(GjfError::NotXyg3));
    assert_eq!(rewrite_route_section("# XYG3(abc)/6-31g"), Err(GjfError::InvalidSyntax));
    let x = rewrite_route_section("#T XYG3/6-31g iop(5/33=1) nosymm extraoverlay").unwrap();
    assert_eq!(x, "#p b3lyp/6-31g iop(5/33=1) nosymm extraoverlay\n\n8/7=1,10=90/1;\n9/16=-3/6;\n6//8;\n");
}

#[test]
fn final_section_gets_overlay_data() {
    assert_eq!(rewrite_final_section("H 0\n6-31g\n****\n\n"), "H 0\n6-31g\n****\n\n100\n205\n402\n");
}

#[test]
fn input_is_rewritten() {
    let lines: Vec<String> = vec![
        "%chk=water.chk".into(),
        "%mem=1GB".into(),
        "# XYG3(FC)/6-31g".into(),
        "".into(),
        "water".into(),
        "".into(),
        "0 1".into(),
        "O 0.0 0.0 0.0".into(),
        "".into(),
        "".into(),
    ];
    let text = read_gaussian_input_from(&lines);
    assert_eq!(
        text,
        "%chk=water.chk\n%mem=1GB\n# XYG3(FC)/6-31g\n\nwater\n\n0 1\nO 0.0 0.0 0.0\n\n\n"
    );
    let x = rewrite_gaussian_input_from(&text).unwrap();
    assert_eq!(
        x,
        "%chk=water.chk\n%mem=1GB\n#p b3lyp/6-31g iop(5/33=1) nosymm extraoverlay\n\n8/7=1,10=4/1;\n9/16=-3/6;\n6//8;\n\nwater\n\n0 1\nO 0.0 0.0 0.0\n\n100\n205\n402\n"
    );
    assert_eq!(xDH::rewrite_gaussian_input(&lines), Ok(x));
    assert_eq!(rewrite_gaussian_input_from("# XYG3\n\ntitle"), Err(GjfError::InvalidInput));
}

#[test]
fn route_is_finished_with_options_and_overlays() {
    assert_eq!(
        finish_route("#p b3lyp/6-31g nosymm", true),
        "#p b3lyp/6-31g nosymm iop(5/33=1) extraoverlay\n\n8/7=1,10=4/1;\n9/16=-3/6;\n6//8;\n"
    );
    assert_eq!(frozen_core_of_upper("(FULL)"), Some(false));
    assert_eq!(frozen_core_of_upper("(FC)"), Some(true));
    assert_eq!(frozen_core_of_upper("(fc)"), None);
}

#[test]
fn route_after_leading_space() {
    let x = rewrite_route_section("  #N Xyg3(Fc)/cc-pvtz").unwrap();
    assert_eq!(x, "#p b3lyp/cc-pvtz iop(5/33=1) nosymm extraoverlay\n\n8/7=1,10=4/1;\n9/16=-3/6;\n6//8;\n");
}
