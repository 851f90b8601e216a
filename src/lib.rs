//! Reading the energy terms of the xDH doubly hybrid functionals from Gaussian
//! logs, and preparing the text that running Gaussian needs.
//!
//! The logic works on lines and values; reading files and running programs
//! is left to the caller.
use vstd::prelude::*;

pub mod gau;
pub mod gjf;
pub mod number;
pub mod restart;
pub mod run;
pub mod summary;
pub mod text;
pub mod xdh;

pub use gau::{
    extract_relevant_lines, extract_relevant_lines_from, parse_entvj, parse_os_ss, parse_scf_done,
    parse_solvent,
};
pub use gjf::{
    absolute_at_file_path, finish_route, frozen_core_of_upper, read_gaussian_input_from, rewrite_final_section,
    rewrite_gaussian_input_from, rewrite_route_section, GjfError,
};
pub use number::Fixed;
pub use restart::{
    parse_gaussian_log_file, update_with_coordinates, update_with_triplets, RestartError,
};
pub use run::{exe_name_of, fix_line_endings_issue, gaussian_script, get_gaussian_exe_from_path};
pub use summary::{summarize_gauss_log, Level, Note};
pub use xdh::{collect_energy_components_from, Energy, ExtractError, Functional, xDH};
