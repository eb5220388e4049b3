//! The usage messages of the commands.
use vstd::prelude::*;

verus! {

/// The text of the overall usage message.
pub open spec fn usage_text() -> Seq<char> {
    "usage: mccoords <command> [OPTIONS]\n"@
        + "\n"@
        + "commands:\n"@
        + "  convert   convert coordinates between the overworld and the nether\n"@
        + "  validate  check coordinates against the world limits of an MC version\n"@
        + "\n"@
        + "run 'mccoords <command> --help' for details\n"@
}

/// Appends the overall usage message to `out`.
pub fn print_usage_to(out: &mut String)
    ensures
        final(out)@ == old(out)@ + usage_text(),
{
    let mut s = String::new();
    s.append("usage: mccoords <command> [OPTIONS]\n");
    assert(s@ =~= "usage: mccoords <command> [OPTIONS]\n"@);
    s.append("\n");
    s.append("commands:\n");
    s.append("  convert   convert coordinates between the overworld and the nether\n");
    s.append("  validate  check coordinates against the world limits of an MC version\n");
    s.append("\n");
    s.append("run 'mccoords <command> --help' for details\n");
    out.append(s.as_str());
}

/// The text of the `convert` usage message.
pub open spec fn convert_usage_text() -> Seq<char> {
    "usage: mccoords convert [OPTIONS] [WORLD] [X [Y] Z]\n"@
        + "\n"@
        + "converts Minecraft coordinates between the overworld and the nether\n"@
        + "  overworld -> nether:  X/8, Z/8   nether -> overworld:  X*8, Z*8   (Y is kept)\n"@
        + "\n"@
        + "WORLD aliases: n, nether, o, ow, overworld (case-insensitive)\n"@
        + "coordinates: 'X Y Z', 'X Z', 'X,Y,Z', 'X,Z' (2 numbers = X Z)\n"@
        + "input format is auto-detected; --output-format affects output only\n"@
        + "coordinates are validated against the world limits of --mc-version (default: new);\n"@
        + "invalid coordinates make convert exit with an error\n"@
        + "  --ignore-invalid-coords converts them anyway, without errors\n"@
        + "\n"@
        + "without coordinates in the arguments, lines are read from stdin (-i):\n"@
        + "  each line: [WORLD] coordinates   (WORLD needed unless given as an argument)\n"@
        + "\n"@
        + "options:\n"@
        + "  -i PATH                        read input from PATH ('-' means stdin, default)\n"@
        + "  -o PATH                        write output to PATH ('-' means stdout, default)\n"@
        + "  --no-y                         omit Y from the output\n"@
        + "  --add-dimension-to-output      prefix output with the target world name\n"@
        + "  --add-from-dimension           print: FROM coords -> TO coords with world names\n"@
        + "  --output-format FORMAT         space-sep (default) or comma-sep\n"@
        + "  --mc-version old|new           MC version for coordinate limits (default: new)\n"@
        + "  --ignore-invalid-coords       convert out-of-bounds coordinates anyway\n"@
        + "  -h, --help                     show this help\n"@
}

/// Appends the usage message of `convert` to `out`.
pub fn print_convert_usage_to(out: &mut String)
    ensures
        final(out)@ == old(out)@ + convert_usage_text(),
{
    let mut s = String::new();
    s.append("usage: mccoords convert [OPTIONS] [WORLD] [X [Y] Z]\n");
    assert(s@ =~= "usage: mccoords convert [OPTIONS] [WORLD] [X [Y] Z]\n"@);
    s.append("\n");
    s.append("converts Minecraft coordinates between the overworld and the nether\n");
    s.append("  overworld -> nether:  X/8, Z/8   nether -> overworld:  X*8, Z*8   (Y is kept)\n");
    s.append("\n");
    s.append("WORLD aliases: n, nether, o, ow, overworld (case-insensitive)\n");
    s.append("coordinates: 'X Y Z', 'X Z', 'X,Y,Z', 'X,Z' (2 numbers = X Z)\n");
    s.append("input format is auto-detected; --output-format affects output only\n");
    s.append("coordinates are validated against the world limits of --mc-version (default: new);\n");
    s.append("invalid coordinates make convert exit with an error\n");
    s.append("  --ignore-invalid-coords converts them anyway, without errors\n");
    s.append("\n");
    s.append("without coordinates in the arguments, lines are read from stdin (-i):\n");
    s.append("  each line: [WORLD] coordinates   (WORLD needed unless given as an argument)\n");
    s.append("\n");
    s.append("options:\n");
    s.append("  -i PATH                        read input from PATH ('-' means stdin, default)\n");
    s.append("  -o PATH                        write output to PATH ('-' means stdout, default)\n");
    s.append("  --no-y                         omit Y from the output\n");
    s.append("  --add-dimension-to-output      prefix output with the target world name\n");
    s.append("  --add-from-dimension           print: FROM coords -> TO coords with world names\n");
    s.append("  --output-format FORMAT         space-sep (default) or comma-sep\n");
    s.append("  --mc-version old|new           MC version for coordinate limits (default: new)\n");
    s.append("  --ignore-invalid-coords       convert out-of-bounds coordinates anyway\n");
    s.append("  -h, --help                     show this help\n");
    out.append(s.as_str());
}

/// The text of the `validate` usage message.
pub open spec fn validate_usage_text() -> Seq<char> {
    "usage: mccoords validate [OPTIONS] [DIMENSION] [X [Y] Z]\n"@
        + "\n"@
        + "checks coordinates against the world limits of an MC version\n"@
        + "prints 1 (valid) or 0 (invalid) per coordinate set\n"@
        + "\n"@
        + "DIMENSION (default: overworld): n, nether, o, ow, overworld\n"@
        + "coordinates: 'X Y Z', 'X Z', 'X,Y,Z', 'X,Z' (2 numbers = X Z)\n"@
        + "\n"@
        + "without coordinates in the arguments, lines are read from stdin (-i)\n"@
        + "each line may start with a DIMENSION, overriding the default\n"@
        + "\n"@
        + "world limits by version (X/Z are the same in both dimensions):\n"@
        + "  old  overworld  X/Z in [-30,000,000, 30,000,000],  Y in [0, 255]\n"@
        + "  old  nether     X/Z in [-30,000,000, 30,000,000],  Y in [0, 127]\n"@
        + "  new  both       X/Z in [-29,999,984, 29,999,984],  Y in [-64, 319]\n"@
        + "  (without a Y coordinate, only X/Z are checked)\n"@
        + "\n"@
        + "options:\n"@
        + "  -i PATH              read input from PATH ('-' means stdin, default)\n"@
        + "  -o PATH              write output to PATH ('-' means stdout, default)\n"@
        + "  --mc-version old|new MC version whose limits to check (required)\n"@
        + "  --dimension NAME     dimension to check (n/nether/o/ow/overworld)\n"@
        + "  -h, --help           show this help\n"@
}

/// Appends the usage message of `validate` to `out`.
pub fn print_validate_usage_to(out: &mut String)
    ensures
        final(out)@ == old(out)@ + validate_usage_text(),
{
    let mut s = String::new();
    s.append("usage: mccoords validate [OPTIONS] [DIMENSION] [X [Y] Z]\n");
    assert(s@ =~= "usage: mccoords validate [OPTIONS] [DIMENSION] [X [Y] Z]\n"@);
    s.append("\n");
    s.append("checks coordinates against the world limits of an MC version\n");
    s.append("prints 1 (valid) or 0 (invalid) per coordinate set\n");
    s.append("\n");
    s.append("DIMENSION (default: overworld): n, nether, o, ow, overworld\n");
    s.append("coordinates: 'X Y Z', 'X Z', 'X,Y,Z', 'X,Z' (2 numbers = X Z)\n");
    s.append("\n");
    s.append("without coordinates in the arguments, lines are read from stdin (-i)\n");
    s.append("each line may start with a DIMENSION, overriding the default\n");
    s.append("\n");
    s.append("world limits by version (X/Z are the same in both dimensions):\n");
    s.append("  old  overworld  X/Z in [-30,000,000, 30,000,000],  Y in [0, 255]\n");
    s.append("  old  nether     X/Z in [-30,000,000, 30,000,000],  Y in [0, 127]\n");
    s.append("  new  both       X/Z in [-29,999,984, 29,999,984],  Y in [-64, 319]\n");
    s.append("  (without a Y coordinate, only X/Z are checked)\n");
    s.append("\n");
    s.append("options:\n");
    s.append("  -i PATH              read input from PATH ('-' means stdin, default)\n");
    s.append("  -o PATH              write output to PATH ('-' means stdout, default)\n");
    s.append("  --mc-version old|new MC version whose limits to check (required)\n");
    s.append("  --dimension NAME     dimension to check (n/nether/o/ow/overworld)\n");
    s.append("  -h, --help           show this help\n");
    out.append(s.as_str());
}

} // verus!
