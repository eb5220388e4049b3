pub mod cli;
pub mod coords;
pub mod flag_laws;
pub mod laws;
pub mod line;
pub mod number;
pub mod render;
pub mod text;
pub mod usage;
pub mod world;

pub use cli::{
    output_content, parse_convert_flags, parse_validate_flags, run_convert, run_validate,
    split_lines, split_world, Step, ValidateOpts,
};
pub use coords::Coords;
pub use line::{parse_line, parse_validate_line, Item};
pub use render::{fmt_coords, render, render_items, validity_reason, ConvertOpts};
pub use usage::{print_convert_usage_to, print_usage_to, print_validate_usage_to};
pub use world::{McVersion, OutputFormat, World};
