//! The `convert` and `validate` commands: their flags, the choice of the
//! source world, and the decisions of a run, from arguments and input
//! lines to output lines.
use vstd::prelude::*;
use crate::coords::{coords_from_tokens, coords_of_tokens, Coords};
use crate::line::{check_from_line, item_from_line, parse_line, parse_validate_line, Item};
use crate::render::{
    opt_text, render_items, rendered_items, string_views, ConvertOpts, ConvertSettings,
};
use crate::text::{
    copy_range, debug_text, is_blank, lemma_split_on_nonempty, push_debug_str, same_text,
    split_chars, split_on, string_from, string_of, to_chars, trim, views,
};
use crate::world::{output_format_named, version_named, world_named, McVersion, OutputFormat, World};

verus! {

/// The settings of the `convert` command before any flag is read.
pub open spec fn convert_defaults() -> ConvertSettings {
    ConvertSettings {
        input: None,
        output: None,
        no_y: false,
        add_dimension_to_output: false,
        add_from_dimension: false,
        output_format: OutputFormat::Space,
        mc_version: McVersion::New,
        ignore_invalid_coords: false,
    }
}

/// The flags of `convert` read from position `i` on: the settings and the
/// positional arguments, `None` where help is asked for, or the error.
pub open spec fn convert_flags_from(
    args: Seq<Seq<char>>,
    i: int,
    st: ConvertSettings,
    pos: Seq<Seq<char>>,
) -> Result<Option<(ConvertSettings, Seq<Seq<char>>)>, Seq<char>>
    decreases args.len() - i,
{
    if i < 0 || i >= args.len() {
        Ok(Some((st, pos)))
    } else {
        let a = args[i];
        let has_value = i + 1 < args.len();
        let v = args[i + 1];
        if a == "-h"@ || a == "--help"@ {
            Ok(None)
        } else if a == "-i"@ {
            if has_value {
                convert_flags_from(args, i + 2, ConvertSettings { input: Some(v), ..st }, pos)
            } else {
                Err("missing value for -i"@)
            }
        } else if a == "-o"@ {
            if has_value {
                convert_flags_from(args, i + 2, ConvertSettings { output: Some(v), ..st }, pos)
            } else {
                Err("missing value for -o"@)
            }
        } else if a == "--no-y"@ {
            convert_flags_from(args, i + 1, ConvertSettings { no_y: true, ..st }, pos)
        } else if a == "--add-dimension-to-output"@ {
            convert_flags_from(
                args,
                i + 1,
                ConvertSettings { add_dimension_to_output: true, ..st },
                pos,
            )
        } else if a == "--add-from-dimension"@ {
            convert_flags_from(args, i + 1, ConvertSettings { add_from_dimension: true, ..st }, pos)
        } else if a == "--mc-version"@ {
            if has_value {
                match version_named(v) {
                    Ok(ver) => convert_flags_from(
                        args,
                        i + 2,
                        ConvertSettings { mc_version: ver, ..st },
                        pos,
                    ),
                    Err(e) => Err(e),
                }
            } else {
                Err("missing value for --mc-version"@)
            }
        } else if a == "--ignore-invalid-coords"@ {
            convert_flags_from(
                args,
                i + 1,
                ConvertSettings { ignore_invalid_coords: true, ..st },
                pos,
            )
        } else if a == "--output-format"@ {
            if has_value {
                match output_format_named(v) {
                    Ok(f) => convert_flags_from(
                        args,
                        i + 2,
                        ConvertSettings { output_format: f, ..st },
                        pos,
                    ),
                    Err(e) => Err(e),
                }
            } else {
                Err("missing value for --output-format"@)
            }
        } else {
            convert_flags_from(args, i + 1, st, pos.push(a))
        }
    }
}

/// The flags of `convert`: the settings and the positional arguments,
/// `None` where help is asked for, or the error.
pub open spec fn convert_flags(args: Seq<Seq<char>>) -> Result<
    Option<(ConvertSettings, Seq<Seq<char>>)>,
    Seq<char>,
> {
    convert_flags_from(args, 0, convert_defaults(), seq![])
}

/// A parsed command line taken by its characters.
pub open spec fn parsed_view<T: View>(r: Result<Option<(T, Vec<String>)>, String>) -> Result<
    Option<(T::V, Seq<Seq<char>>)>,
    Seq<char>,
> {
    match r {
        Ok(Some((o, p))) => Ok(Some((o@, string_views(p@)))),
        Ok(None) => Ok(None),
        Err(e) => Err(e@),
    }
}

/// A copy of a string.
fn copy_string(s: &String) -> (r: String)
    ensures
        r@ == s@,
{
    string_from(s.as_str())
}

/// Reads the flags of `convert`; `Ok(None)` means help was asked for.
pub fn parse_convert_flags(args: &[String]) -> (r: Result<Option<(ConvertOpts, Vec<String>)>, String>)
    ensures
        parsed_view(r) == convert_flags(string_views(args@)),
{
    let ghost av = string_views(args@);
    let mut opts = ConvertOpts {
        input: None,
        output: None,
        no_y: false,
        add_dimension_to_output: false,
        add_from_dimension: false,
        output_format: OutputFormat::Space,
        mc_version: McVersion::New,
        ignore_invalid_coords: false,
    };
    let mut positional: Vec<String> = Vec::new();
    let mut i: usize = 0;
    assert(opts@ == convert_defaults());
    assert(string_views(positional@) =~= Seq::<Seq<char>>::empty());
    while i < args.len()
        invariant
            i <= args@.len(),
            av == string_views(args@),
            convert_flags(av) == convert_flags_from(av, i as int, opts@, string_views(positional@)),
        decreases args@.len() - i,
    {
        let arg = args[i].as_str();
        let has_value = i + 1 < args.len();
        assert(av[i as int] == arg@);
        if has_value {
            assert(av[i + 1] == args@[i + 1]@);
        }
        if same_text(arg, "-h") || same_text(arg, "--help") {
            return Ok(None);
        } else if same_text(arg, "-i") {
            if !has_value {
                return Err(string_from("missing value for -i"));
            }
            opts.input = Some(copy_string(&args[i + 1]));
            i += 2;
        } else if same_text(arg, "-o") {
            if !has_value {
                return Err(string_from("missing value for -o"));
            }
            opts.output = Some(copy_string(&args[i + 1]));
            i += 2;
        } else if same_text(arg, "--no-y") {
            opts.no_y = true;
            i += 1;
        } else if same_text(arg, "--add-dimension-to-output") {
            opts.add_dimension_to_output = true;
            i += 1;
        } else if same_text(arg, "--add-from-dimension") {
            opts.add_from_dimension = true;
            i += 1;
        } else if same_text(arg, "--mc-version") {
            if !has_value {
                return Err(string_from("missing value for --mc-version"));
            }
            match McVersion::parse(args[i + 1].as_str()) {
                Ok(v) => {
                    opts.mc_version = v;
                },
                Err(e) => {
                    return Err(e);
                },
            }
            i += 2;
        } else if same_text(arg, "--ignore-invalid-coords") {
            opts.ignore_invalid_coords = true;
            i += 1;
        } else if same_text(arg, "--output-format") {
            if !has_value {
                return Err(string_from("missing value for --output-format"));
            }
            match OutputFormat::parse(args[i + 1].as_str()) {
                Ok(f) => {
                    opts.output_format = f;
                },
                Err(e) => {
                    return Err(e);
                },
            }
            i += 2;
        } else {
            let ghost before = string_views(positional@);
            let p = string_from(arg);
            let ghost pv = p@;
            positional.push(p);
            assert(string_views(positional@) =~= before.push(pv));
            i += 1;
        }
    }
    Ok(Some((opts, positional)))
}

} // verus!

verus! {

/// The settings of the `validate` command.
#[derive(Debug)]
pub struct ValidateOpts {
    pub input: Option<String>,
    pub output: Option<String>,
    pub mc_version: McVersion,
    pub dimension: Option<World>,
}

/// The settings of the `validate` command, paths taken by their characters.
pub struct ValidateSettings {
    pub input: Option<Seq<char>>,
    pub output: Option<Seq<char>>,
    pub mc_version: McVersion,
    pub dimension: Option<World>,
}

impl View for ValidateOpts {
    type V = ValidateSettings;

    open spec fn view(&self) -> ValidateSettings {
        ValidateSettings {
            input: opt_text(self.input),
            output: opt_text(self.output),
            mc_version: self.mc_version,
            dimension: self.dimension,
        }
    }
}

/// The flags of `validate` read from position `i` on; the version stays
/// open until a `--mc-version` names it.
pub open spec fn validate_flags_from(
    args: Seq<Seq<char>>,
    i: int,
    st: ValidateSettings,
    version: Option<McVersion>,
    pos: Seq<Seq<char>>,
) -> Result<Option<(ValidateSettings, Seq<Seq<char>>)>, Seq<char>>
    decreases args.len() - i,
{
    if i < 0 || i >= args.len() {
        match version {
            Some(ver) => Ok(Some((ValidateSettings { mc_version: ver, ..st }, pos))),
            None => Err("missing --mc-version old|new"@),
        }
    } else {
        let a = args[i];
        let has_value = i + 1 < args.len();
        let v = args[i + 1];
        if a == "-h"@ || a == "--help"@ {
            Ok(None)
        } else if a == "-i"@ {
            if has_value {
                validate_flags_from(args, i + 2, ValidateSettings { input: Some(v), ..st }, version, pos)
            } else {
                Err("missing value for -i"@)
            }
        } else if a == "-o"@ {
            if has_value {
                validate_flags_from(args, i + 2, ValidateSettings { output: Some(v), ..st }, version, pos)
            } else {
                Err("missing value for -o"@)
            }
        } else if a == "--mc-version"@ {
            if has_value {
                match version_named(v) {
                    Ok(ver) => validate_flags_from(args, i + 2, st, Some(ver), pos),
                    Err(e) => Err(e),
                }
            } else {
                Err("missing value for --mc-version"@)
            }
        } else if a == "--dimension"@ {
            if has_value {
                match world_named(v) {
                    Some(d) => validate_flags_from(
                        args,
                        i + 2,
                        ValidateSettings { dimension: Some(d), ..st },
                        version,
                        pos,
                    ),
                    None => Err(
                        "invalid dimension: "@ + debug_text(v)
                            + " (expected n/nether/o/ow/overworld)"@,
                    ),
                }
            } else {
                Err("missing value for --dimension"@)
            }
        } else {
            validate_flags_from(args, i + 1, st, version, pos.push(a))
        }
    }
}

/// The flags of `validate`: the settings and the positional arguments,
/// `None` where help is asked for, or the error; `--mc-version` is required.
pub open spec fn validate_flags(args: Seq<Seq<char>>) -> Result<
    Option<(ValidateSettings, Seq<Seq<char>>)>,
    Seq<char>,
> {
    validate_flags_from(
        args,
        0,
        ValidateSettings { input: None, output: None, mc_version: McVersion::New, dimension: None },
        None,
        seq![],
    )
}

/// Reads the flags of `validate`; `Ok(None)` means help was asked for.
pub fn parse_validate_flags(args: &[String]) -> (r: Result<Option<(ValidateOpts, Vec<String>)>, String>)
    ensures
        parsed_view(r) == validate_flags(string_views(args@)),
{
    let ghost av = string_views(args@);
    let mut opts = ValidateOpts {
        input: None,
        output: None,
        mc_version: McVersion::New,
        dimension: None,
    };
    let mut positional: Vec<String> = Vec::new();
    let mut mc_version: Option<McVersion> = None;
    let mut i: usize = 0;
    assert(string_views(positional@) =~= Seq::<Seq<char>>::empty());
    while i < args.len()
        invariant
            i <= args@.len(),
            av == string_views(args@),
            opts.mc_version == McVersion::New,
            validate_flags(av) == validate_flags_from(
                av,
                i as int,
                opts@,
                mc_version,
                string_views(positional@),
            ),
        decreases args@.len() - i,
    {
        let arg = args[i].as_str();
        let has_value = i + 1 < args.len();
        assert(av[i as int] == arg@);
        if has_value {
            assert(av[i + 1] == args@[i + 1]@);
        }
        if same_text(arg, "-h") || same_text(arg, "--help") {
            return Ok(None);
        } else if same_text(arg, "-i") {
            if !has_value {
                return Err(string_from("missing value for -i"));
            }
            opts.input = Some(copy_string(&args[i + 1]));
            i += 2;
        } else if same_text(arg, "-o") {
            if !has_value {
                return Err(string_from("missing value for -o"));
            }
            opts.output = Some(copy_string(&args[i + 1]));
            i += 2;
        } else if same_text(arg, "--mc-version") {
            if !has_value {
                return Err(string_from("missing value for --mc-version"));
            }
            match McVersion::parse(args[i + 1].as_str()) {
                Ok(v) => {
                    mc_version = Some(v);
                },
                Err(e) => {
                    return Err(e);
                },
            }
            i += 2;
        } else if same_text(arg, "--dimension") {
            if !has_value {
                return Err(string_from("missing value for --dimension"));
            }
            let name = args[i + 1].as_str();
            match World::parse(name) {
                Some(d) => {
                    opts.dimension = Some(d);
                },
                None => {
                    let mut e = string_from("invalid dimension: ");
                    push_debug_str(&mut e, name);
                    e.append(" (expected n/nether/o/ow/overworld)");
                    return Err(e);
                },
            }
            i += 2;
        } else {
            let ghost before = string_views(positional@);
            let p = string_from(arg);
            let ghost pv = p@;
            positional.push(p);
            assert(string_views(positional@) =~= before.push(pv));
            i += 1;
        }
    }
    match mc_version {
        Some(v) => {
            opts.mc_version = v;
            Ok(Some((opts, positional)))
        },
        None => Err(string_from("missing --mc-version old|new")),
    }
}

/// The positional arguments from position `i` on, split into a world name
/// (at most one) and the rest.
pub open spec fn split_world_from(
    ts: Seq<Seq<char>>,
    i: int,
    world: Option<World>,
    rest: Seq<Seq<char>>,
) -> Result<(Option<World>, Seq<Seq<char>>), Seq<char>>
    decreases ts.len() - i,
{
    if i < 0 || i >= ts.len() {
        Ok((world, rest))
    } else {
        match world_named(ts[i]) {
            Some(w) => if world is Some {
                Err("unexpected world: "@ + debug_text(ts[i]))
            } else {
                split_world_from(ts, i + 1, Some(w), rest)
            },
            None => split_world_from(ts, i + 1, world, rest.push(ts[i])),
        }
    }
}

/// The positional arguments split into the world they name, if any, and
/// the others in order; a second world name is an error.
pub open spec fn world_and_rest(ts: Seq<Seq<char>>) -> Result<(Option<World>, Seq<Seq<char>>), Seq<char>> {
    split_world_from(ts, 0, None, seq![])
}

/// Takes the world name out of the positional arguments.
pub fn split_world(positional: &[String]) -> (r: Result<(Option<World>, Vec<String>), String>)
    ensures
        match r {
            Ok((w, rest)) => world_and_rest(string_views(positional@)) == Ok::<
                (Option<World>, Seq<Seq<char>>),
                Seq<char>,
            >((w, string_views(rest@))),
            Err(e) => world_and_rest(string_views(positional@)) == Err::<
                (Option<World>, Seq<Seq<char>>),
                Seq<char>,
            >(e@),
        },
{
    let ghost ts = string_views(positional@);
    let mut world: Option<World> = None;
    let mut coords: Vec<String> = Vec::new();
    let mut i: usize = 0;
    assert(string_views(coords@) =~= Seq::<Seq<char>>::empty());
    while i < positional.len()
        invariant
            i <= positional@.len(),
            ts == string_views(positional@),
            world_and_rest(ts) == split_world_from(ts, i as int, world, string_views(coords@)),
        decreases positional@.len() - i,
    {
        let token = positional[i].as_str();
        assert(ts[i as int] == token@);
        match World::parse(token) {
            Some(w) => {
                if world.is_some() {
                    let mut e = string_from("unexpected world: ");
                    push_debug_str(&mut e, token);
                    return Err(e);
                }
                world = Some(w);
            },
            None => {
                let ghost before = string_views(coords@);
                let c = string_from(token);
                let ghost cv = c@;
                coords.push(c);
                assert(string_views(coords@) =~= before.push(cv));
            },
        }
        i += 1;
    }
    Ok((world, coords))
}

} // verus!

verus! {

/// What a run asks of its caller next.
#[derive(Debug)]
pub enum Step {
    /// Print the command's help and stop.
    Help,
    /// Read the input lines from this file, or from standard input where
    /// there is no path, and run again with them.
    ReadInput(Option<String>),
    /// Write these lines to this file, or to standard output where there is
    /// no path.
    Write(Option<String>, Vec<String>),
    /// Report this error and stop, without the usage text.
    Failed(String),
}

/// A step taken by the characters of its strings.
pub enum StepView {
    Help,
    ReadInput(Option<Seq<char>>),
    Write(Option<Seq<char>>, Seq<Seq<char>>),
    Failed(Seq<char>),
}

impl View for Step {
    type V = StepView;

    open spec fn view(&self) -> StepView {
        match self {
            Step::Help => StepView::Help,
            Step::ReadInput(p) => StepView::ReadInput(opt_text(*p)),
            Step::Write(p, ls) => StepView::Write(opt_text(*p), string_views(ls@)),
            Step::Failed(e) => StepView::Failed(e@),
        }
    }
}

/// A run's result taken by its characters.
pub open spec fn step_result(r: Result<Step, String>) -> Result<StepView, Seq<char>> {
    match r {
        Ok(s) => Ok(s@),
        Err(e) => Err(e@),
    }
}

/// The input lines, where they have been read, by their characters.
pub open spec fn input_view(input: Option<&Vec<String>>) -> Option<Seq<Seq<char>>> {
    match input {
        Some(v) => Some(string_views(v@)),
        None => None,
    }
}

/// The file that a path names; `-` and no path at all stand for the
/// standard stream.
pub open spec fn stream_path(p: Option<Seq<char>>) -> Option<Seq<char>> {
    match p {
        Some(s) => if s == "-"@ {
            None
        } else {
            Some(s)
        },
        None => None,
    }
}

fn resolve_stream(p: Option<String>) -> (r: Option<String>)
    ensures
        opt_text(r) == stream_path(opt_text(p)),
{
    match p {
        Some(s) => if same_text(s.as_str(), "-") {
            None
        } else {
            Some(s)
        },
        None => None,
    }
}

/// The characters of each string.
fn char_tokens(v: &Vec<String>) -> (r: Vec<Vec<char>>)
    ensures
        views(r@) == string_views(v@),
{
    let mut out: Vec<Vec<char>> = Vec::new();
    let mut i: usize = 0;
    while i < v.len()
        invariant
            i <= v@.len(),
            views(out@) == string_views(v@).take(i as int),
        decreases v@.len() - i,
    {
        let ghost before = views(out@);
        let w = to_chars(v[i].as_str());
        let ghost wv = w@;
        out.push(w);
        assert(views(out@) =~= before.push(wv));
        assert(views(out@) =~= string_views(v@).take(i + 1));
        i += 1;
    }
    assert(string_views(v@).take(v@.len() as int) =~= string_views(v@));
    out
}

/// The items of the `convert` input lines, blank lines skipped, or the
/// first error.
pub open spec fn items_from_lines(lines: Seq<Seq<char>>, world: Option<World>) -> Result<Seq<Item>, Seq<char>>
    decreases lines.len(),
{
    if lines.len() == 0 {
        Ok(seq![])
    } else {
        match items_from_lines(lines.drop_last(), world) {
            Err(e) => Err(e),
            Ok(items) => if trim(lines.last()).len() == 0 {
                Ok(items)
            } else {
                match item_from_line(lines.last(), world) {
                    Ok(it) => Ok(items.push(it)),
                    Err(e) => Err(e),
                }
            },
        }
    }
}

/// The end of a `convert` run: the output lines, or the failure of the
/// first item that cannot be written.
pub open spec fn convert_finish(items: Seq<Item>, st: ConvertSettings) -> StepView {
    match rendered_items(items, st) {
        Err(m) => StepView::Failed(m),
        Ok(ls) => StepView::Write(stream_path(st.output), ls),
    }
}

/// What a `convert` run with the arguments `args` does next, given the
/// input lines where they have been read: coordinates among the arguments
/// need a world among them too; without coordinates, the input lines are
/// read and must hold at least one item.
pub open spec fn convert_run(args: Seq<Seq<char>>, input: Option<Seq<Seq<char>>>) -> Result<StepView, Seq<char>> {
    match convert_flags(args) {
        Err(e) => Err(e),
        Ok(None) => Ok(StepView::Help),
        Ok(Some((st, pos))) => match world_and_rest(pos) {
            Err(e) => Err(e),
            Ok((world, toks)) => if toks.len() > 0 {
                match world {
                    None => Err("missing source world (use n/nether/o/ow/overworld)"@),
                    Some(w) => match coords_from_tokens(toks) {
                        Err(e) => Err(e),
                        Ok(c) => Ok(convert_finish(seq![Item { from: w, coords: c }], st)),
                    },
                }
            } else {
                match input {
                    None => Ok(StepView::ReadInput(stream_path(st.input))),
                    Some(lines) => match items_from_lines(lines, world) {
                        Err(e) => Err(e),
                        Ok(items) => if items.len() == 0 {
                            Err("no input"@)
                        } else {
                            Ok(convert_finish(items, st))
                        },
                    },
                }
            },
        },
    }
}

proof fn lemma_items_error_persists(lines: Seq<Seq<char>>, world: Option<World>, k: int)
    requires
        0 <= k <= lines.len(),
        items_from_lines(lines.take(k), world) is Err,
    ensures
        items_from_lines(lines, world) == items_from_lines(lines.take(k), world),
    decreases lines.len(),
{
    if k == lines.len() {
        assert(lines.take(k) =~= lines);
    } else {
        assert(lines.drop_last().take(k) =~= lines.take(k));
        lemma_items_error_persists(lines.drop_last(), world, k);
    }
}

/// The items of the `convert` input lines.
fn read_items(lines: &Vec<String>, world: Option<World>) -> (r: Result<Vec<Item>, String>)
    ensures
        match r {
            Ok(v) => items_from_lines(string_views(lines@), world) == Ok::<Seq<Item>, Seq<char>>(v@),
            Err(e) => items_from_lines(string_views(lines@), world) == Err::<Seq<Item>, Seq<char>>(e@),
        },
{
    let ghost lv = string_views(lines@);
    let mut items: Vec<Item> = Vec::new();
    let mut i: usize = 0;
    assert(lv.take(0) =~= Seq::<Seq<char>>::empty());
    while i < lines.len()
        invariant
            i <= lines@.len(),
            lv == string_views(lines@),
            items_from_lines(lv.take(i as int), world) == Ok::<Seq<Item>, Seq<char>>(items@),
        decreases lines@.len() - i,
    {
        let line = lines[i].as_str();
        let ghost pre = lv.take(i + 1);
        assert(pre.drop_last() =~= lv.take(i as int));
        assert(pre.last() == line@);
        let chars = to_chars(line);
        if !is_blank(&chars) {
            match parse_line(line, world) {
                Ok(item) => {
                    items.push(item);
                },
                Err(e) => {
                    proof {
                        lemma_items_error_persists(lv, world, i + 1);
                    }
                    return Err(e);
                },
            }
        }
        i += 1;
    }
    assert(lv.take(lines@.len() as int) =~= lv);
    Ok(items)
}

fn finish_convert(items: &Vec<Item>, opts: ConvertOpts) -> (r: Step)
    ensures
        r@ == convert_finish(items@, opts@),
{
    match render_items(items, &opts) {
        Ok(out) => Step::Write(resolve_stream(opts.output), out),
        Err(msg) => Step::Failed(msg),
    }
}

/// Decides a `convert` run: from the arguments, and from the input lines
/// once they have been read, what to do next.
pub fn run_convert(args: &[String], input: Option<&Vec<String>>) -> (r: Result<Step, String>)
    ensures
        step_result(r) == convert_run(string_views(args@), input_view(input)),
{
    let (opts, positional) = match parse_convert_flags(args) {
        Err(e) => return Err(e),
        Ok(None) => return Ok(Step::Help),
        Ok(Some(p)) => p,
    };
    let (world, coord_tokens) = match split_world(&positional) {
        Err(e) => return Err(e),
        Ok(p) => p,
    };
    if coord_tokens.len() > 0 {
        let w = match world {
            Some(w) => w,
            None => return Err(string_from("missing source world (use n/nether/o/ow/overworld)")),
        };
        let toks = char_tokens(&coord_tokens);
        let coords = match coords_of_tokens(&toks) {
            Ok(c) => c,
            Err(e) => return Err(e),
        };
        let items = vec![Item { from: w, coords }];
        assert(items@ =~= seq![Item { from: w, coords }]);
        Ok(finish_convert(&items, opts))
    } else {
        match input {
            None => Ok(Step::ReadInput(resolve_stream(opts.input))),
            Some(lines) => {
                let items = match read_items(lines, world) {
                    Ok(v) => v,
                    Err(e) => return Err(e),
                };
                if items.len() == 0 {
                    return Err(string_from("no input"));
                }
                Ok(finish_convert(&items, opts))
            },
        }
    }
}

} // verus!

verus! {

/// The dimension that coordinates without their own are checked in: the
/// `--dimension` flag and a positional world must agree; without either it
/// is the overworld.
pub open spec fn dimension_choice(flag: Option<World>, pos: Option<World>) -> Result<World, Seq<char>> {
    match (flag, pos) {
        (Some(f), Some(p)) => if f != p {
            Err("conflicting dimensions: --dimension "@ + debug_text(f.name_text())
                + " and positional "@ + debug_text(p.name_text()))
        } else {
            Ok(f)
        },
        (Some(f), None) => Ok(f),
        (None, Some(p)) => Ok(p),
        (None, None) => Ok(World::Overworld),
    }
}

/// The coordinate sets of the `validate` input lines, blank lines skipped,
/// or the first error.
pub open spec fn checks_from_lines(lines: Seq<Seq<char>>, dim: World) -> Result<
    Seq<(World, Coords)>,
    Seq<char>,
>
    decreases lines.len(),
{
    if lines.len() == 0 {
        Ok(seq![])
    } else {
        match checks_from_lines(lines.drop_last(), dim) {
            Err(e) => Err(e),
            Ok(cs) => if trim(lines.last()).len() == 0 {
                Ok(cs)
            } else {
                match check_from_line(lines.last(), dim) {
                    Ok(c) => Ok(cs.push(c)),
                    Err(e) => Err(e),
                }
            },
        }
    }
}

/// `1` for each coordinate set inside the limits of version `v`, `0` for
/// each outside them.
pub open spec fn verdicts(cs: Seq<(World, Coords)>, v: McVersion) -> Seq<Seq<char>> {
    cs.map_values(
        |p: (World, Coords)|
            if v.within(p.0, p.1) {
                "1"@
            } else {
                "0"@
            },
    )
}

/// What a `validate` run with the arguments `args` does next, given the
/// input lines where they have been read: one verdict per coordinate set.
pub open spec fn validate_run(args: Seq<Seq<char>>, input: Option<Seq<Seq<char>>>) -> Result<StepView, Seq<char>> {
    match validate_flags(args) {
        Err(e) => Err(e),
        Ok(None) => Ok(StepView::Help),
        Ok(Some((st, pos))) => match world_and_rest(pos) {
            Err(e) => Err(e),
            Ok((pos_dim, toks)) => match dimension_choice(st.dimension, pos_dim) {
                Err(e) => Err(e),
                Ok(dim) => if toks.len() > 0 {
                    match coords_from_tokens(toks) {
                        Err(e) => Err(e),
                        Ok(c) => Ok(
                            StepView::Write(
                                stream_path(st.output),
                                verdicts(seq![(dim, c)], st.mc_version),
                            ),
                        ),
                    }
                } else {
                    match input {
                        None => Ok(StepView::ReadInput(stream_path(st.input))),
                        Some(lines) => match checks_from_lines(lines, dim) {
                            Err(e) => Err(e),
                            Ok(cs) => if cs.len() == 0 {
                                Err("no input"@)
                            } else {
                                Ok(
                                    StepView::Write(
                                        stream_path(st.output),
                                        verdicts(cs, st.mc_version),
                                    ),
                                )
                            },
                        },
                    }
                },
            },
        },
    }
}

proof fn lemma_checks_error_persists(lines: Seq<Seq<char>>, dim: World, k: int)
    requires
        0 <= k <= lines.len(),
        checks_from_lines(lines.take(k), dim) is Err,
    ensures
        checks_from_lines(lines, dim) == checks_from_lines(lines.take(k), dim),
    decreases lines.len(),
{
    if k == lines.len() {
        assert(lines.take(k) =~= lines);
    } else {
        assert(lines.drop_last().take(k) =~= lines.take(k));
        lemma_checks_error_persists(lines.drop_last(), dim, k);
    }
}

/// The coordinate sets of the `validate` input lines.
fn read_checks(lines: &Vec<String>, dim: World) -> (r: Result<Vec<(World, Coords)>, String>)
    ensures
        match r {
            Ok(v) => checks_from_lines(string_views(lines@), dim) == Ok::<
                Seq<(World, Coords)>,
                Seq<char>,
            >(v@),
            Err(e) => checks_from_lines(string_views(lines@), dim) == Err::<
                Seq<(World, Coords)>,
                Seq<char>,
            >(e@),
        },
{
    let ghost lv = string_views(lines@);
    let mut cs: Vec<(World, Coords)> = Vec::new();
    let mut i: usize = 0;
    assert(lv.take(0) =~= Seq::<Seq<char>>::empty());
    while i < lines.len()
        invariant
            i <= lines@.len(),
            lv == string_views(lines@),
            checks_from_lines(lv.take(i as int), dim) == Ok::<Seq<(World, Coords)>, Seq<char>>(
                cs@,
            ),
        decreases lines@.len() - i,
    {
        let line = lines[i].as_str();
        let ghost pre = lv.take(i + 1);
        assert(pre.drop_last() =~= lv.take(i as int));
        assert(pre.last() == line@);
        let chars = to_chars(line);
        if !is_blank(&chars) {
            match parse_validate_line(line, dim) {
                Ok(c) => {
                    cs.push(c);
                },
                Err(e) => {
                    proof {
                        lemma_checks_error_persists(lv, dim, i + 1);
                    }
                    return Err(e);
                },
            }
        }
        i += 1;
    }
    assert(lv.take(lines@.len() as int) =~= lv);
    Ok(cs)
}

/// `1` or `0` for each coordinate set.
fn verdict_lines(cs: &Vec<(World, Coords)>, v: McVersion) -> (r: Vec<String>)
    ensures
        string_views(r@) == verdicts(cs@, v),
{
    let mut out: Vec<String> = Vec::new();
    let mut i: usize = 0;
    while i < cs.len()
        invariant
            i <= cs@.len(),
            string_views(out@) == verdicts(cs@.take(i as int), v),
        decreases cs@.len() - i,
    {
        let (d, c) = cs[i];
        let s = if v.is_valid(d, &c) {
            string_from("1")
        } else {
            string_from("0")
        };
        let ghost before = string_views(out@);
        let ghost sv = s@;
        out.push(s);
        assert(string_views(out@) =~= before.push(sv));
        assert(string_views(out@) =~= verdicts(cs@.take(i + 1), v));
        i += 1;
    }
    assert(cs@.take(cs@.len() as int) =~= cs@);
    out
}

/// Decides a `validate` run: from the arguments, and from the input lines
/// once they have been read, what to do next.
pub fn run_validate(args: &[String], input: Option<&Vec<String>>) -> (r: Result<Step, String>)
    ensures
        step_result(r) == validate_run(string_views(args@), input_view(input)),
{
    let (opts, positional) = match parse_validate_flags(args) {
        Err(e) => return Err(e),
        Ok(None) => return Ok(Step::Help),
        Ok(Some(p)) => p,
    };
    let (pos_dim, coord_tokens) = match split_world(&positional) {
        Err(e) => return Err(e),
        Ok(p) => p,
    };
    let default_dim = match (opts.dimension, pos_dim) {
        (Some(flag), Some(pos)) => {
            if flag != pos {
                let mut e = string_from("conflicting dimensions: --dimension ");
                push_debug_str(&mut e, flag.name());
                e.append(" and positional ");
                push_debug_str(&mut e, pos.name());
                return Err(e);
            }
            flag
        },
        (Some(flag), None) => flag,
        (None, Some(pos)) => pos,
        (None, None) => World::Overworld,
    };
    let cs: Vec<(World, Coords)> = if coord_tokens.len() > 0 {
        let toks = char_tokens(&coord_tokens);
        let coords = match coords_of_tokens(&toks) {
            Ok(c) => c,
            Err(e) => return Err(e),
        };
        let v = vec![(default_dim, coords)];
        assert(v@ =~= seq![(default_dim, coords)]);
        v
    } else {
        match input {
            None => return Ok(Step::ReadInput(resolve_stream(opts.input))),
            Some(lines) => {
                let cs = match read_checks(lines, default_dim) {
                    Ok(v) => v,
                    Err(e) => return Err(e),
                };
                if cs.len() == 0 {
                    return Err(string_from("no input"));
                }
                cs
            },
        }
    };
    let out = verdict_lines(&cs, opts.mc_version);
    Ok(Step::Write(resolve_stream(opts.output), out))
}

} // verus!

verus! {

/// Each line followed by a line feed.
pub open spec fn with_newlines(lines: Seq<Seq<char>>) -> Seq<char>
    decreases lines.len(),
{
    if lines.len() == 0 {
        seq![]
    } else {
        with_newlines(lines.drop_last()) + lines.last() + seq!['\n']
    }
}

/// The text written for the output lines: nothing at all where there are
/// none, else the lines joined by line feeds with a final line feed.
pub fn output_content(lines: &Vec<String>) -> (r: Option<String>)
    ensures
        match r {
            Some(s) => lines@.len() > 0 && s@ == with_newlines(string_views(lines@)),
            None => lines@.len() == 0,
        },
{
    if lines.len() == 0 {
        return None;
    }
    let ghost lv = string_views(lines@);
    let mut s = String::new();
    let mut i: usize = 0;
    assert(lv.take(0) =~= Seq::<Seq<char>>::empty());
    while i < lines.len()
        invariant
            i <= lines@.len(),
            lv == string_views(lines@),
            s@ == with_newlines(lv.take(i as int)),
        decreases lines@.len() - i,
    {
        let ghost pre = lv.take(i + 1);
        assert(pre.drop_last() =~= lv.take(i as int));
        assert(pre.last() == lines@[i as int]@);
        s.append(lines[i].as_str());
        s.append("\n");
        proof {
            reveal_strlit("\n");
        }
        assert(s@ =~= with_newlines(pre));
        i += 1;
    }
    assert(lv.take(lines@.len() as int) =~= lv);
    Some(s)
}

/// `s` without one final carriage return.
pub open spec fn strip_cr(s: Seq<char>) -> Seq<char> {
    if s.len() > 0 && s.last() == '\r' {
        s.drop_last()
    } else {
        s
    }
}

/// The `i`-th line among the pieces `p` of a text split at line feeds:
/// pieces followed by a line feed lose one final carriage return.
pub open spec fn line_piece(p: Seq<Seq<char>>, i: int) -> Seq<char> {
    if i < p.len() - 1 {
        strip_cr(p[i])
    } else {
        p[i]
    }
}

/// How many lines a text split into the pieces `p` has: an empty last
/// piece, after a final line feed or in an empty text, is no line.
pub open spec fn line_count(p: Seq<Seq<char>>) -> int {
    if p.last().len() == 0 {
        p.len() - 1
    } else {
        p.len() as int
    }
}

/// The lines of a text (`str::lines`): split at line feeds, a carriage
/// return before a line feed dropped, no empty line after a final line
/// feed.
pub open spec fn lines_of(s: Seq<char>) -> Seq<Seq<char>> {
    let p = split_on(s, '\n');
    Seq::new(line_count(p) as nat, |i: int| line_piece(p, i))
}

/// The lines of a text, as `str::lines` gives them.
pub fn split_lines(content: &str) -> (r: Vec<String>)
    ensures
        string_views(r@) == lines_of(content@),
{
    let chars = to_chars(content);
    let pieces = split_chars(&chars, '\n');
    proof {
        lemma_split_on_nonempty(content@, '\n');
    }
    let ghost p = split_on(content@, '\n');
    assert(views(pieces@) == p);
    let np = pieces.len();
    let n: usize = if pieces[np - 1].len() == 0 {
        np - 1
    } else {
        np
    };
    let mut out: Vec<String> = Vec::new();
    let mut i: usize = 0;
    while i < n
        invariant
            i <= n,
            n <= np,
            np == pieces@.len(),
            np >= 1,
            views(pieces@) == p,
            p == split_on(content@, '\n'),
            n == lines_of(content@).len(),
            string_views(out@) == lines_of(content@).take(i as int),
        decreases n - i,
    {
        let piece = &pieces[i];
        assert(piece@ == p[i as int]);
        let len = piece.len();
        let keep: usize = if i + 1 < np && len > 0 && piece[len - 1] == '\r' {
            len - 1
        } else {
            len
        };
        let s = string_of(&copy_range(piece, 0, keep));
        assert(lines_of(content@)[i as int] == line_piece(p, i as int));
        proof {
            if len > 0 {
                assert(piece@.last() == piece@[len - 1]);
            }
            if keep < len {
                assert(piece@.subrange(0, keep as int) =~= piece@.drop_last());
            } else {
                assert(piece@.subrange(0, keep as int) =~= piece@);
            }
        }
        assert(s@ =~= lines_of(content@)[i as int]);
        let ghost before = string_views(out@);
        let ghost sv = s@;
        out.push(s);
        assert(string_views(out@) =~= before.push(sv));
        assert(string_views(out@) =~= lines_of(content@).take(i + 1));
        i += 1;
    }
    assert(lines_of(content@).take(n as int) =~= lines_of(content@));
    out
}

} // verus!
