//! Writing converted coordinates, and holding them to the world limits.
use vstd::prelude::*;
use crate::coords::{converted, parts_of, Coords};
use crate::line::Item;
use crate::number::{int_decimal, push_decimal};
use crate::text::string_from;
use crate::world::{McVersion, OutputFormat, World};

verus! {

/// The settings of the `convert` command.
#[derive(Debug)]
pub struct ConvertOpts {
    pub input: Option<String>,
    pub output: Option<String>,
    pub no_y: bool,
    pub add_dimension_to_output: bool,
    pub add_from_dimension: bool,
    pub output_format: OutputFormat,
    pub mc_version: McVersion,
    pub ignore_invalid_coords: bool,
}

/// The settings of the `convert` command, paths taken by their characters.
pub struct ConvertSettings {
    pub input: Option<Seq<char>>,
    pub output: Option<Seq<char>>,
    pub no_y: bool,
    pub add_dimension_to_output: bool,
    pub add_from_dimension: bool,
    pub output_format: OutputFormat,
    pub mc_version: McVersion,
    pub ignore_invalid_coords: bool,
}

/// An optional string taken by its characters.
pub open spec fn opt_text(o: Option<String>) -> Option<Seq<char>> {
    match o {
        Some(s) => Some(s@),
        None => None,
    }
}

impl View for ConvertOpts {
    type V = ConvertSettings;

    open spec fn view(&self) -> ConvertSettings {
        ConvertSettings {
            input: opt_text(self.input),
            output: opt_text(self.output),
            no_y: self.no_y,
            add_dimension_to_output: self.add_dimension_to_output,
            add_from_dimension: self.add_from_dimension,
            output_format: self.output_format,
            mc_version: self.mc_version,
            ignore_invalid_coords: self.ignore_invalid_coords,
        }
    }
}

/// Why `c` lies outside the limits of the world `dim` in version `v`, or
/// `None` where it lies inside them; `x` and `z` are checked first.
pub open spec fn reason_text(v: McVersion, dim: World, c: Coords) -> Option<Seq<char>> {
    let xz = v.xz_bound();
    let (lo, hi) = v.y_bounds(dim);
    if !(-xz <= c.x <= xz) || !(-xz <= c.z <= xz) {
        Some("X/Z out of range [-"@ + int_decimal(xz as int) + ", "@ + int_decimal(xz as int) + "]"@)
    } else {
        match c.y {
            Some(y) => if y < lo || y > hi {
                Some("Y out of range ["@ + int_decimal(lo as int) + ", "@ + int_decimal(hi as int) + "]"@)
            } else {
                None
            },
            None => None,
        }
    }
}

/// `x y z`, or `x z` without a height, separated by spaces.
pub open spec fn coords_text(c: Coords) -> Seq<char> {
    match c.y {
        Some(y) => int_decimal(c.x as int) + " "@ + int_decimal(y as int) + " "@ + int_decimal(c.z as int),
        None => int_decimal(c.x as int) + " "@ + int_decimal(c.z as int),
    }
}

/// The decimal forms of `ns` with `sep` between them.
pub open spec fn joined(ns: Seq<i64>, sep: Seq<char>) -> Seq<char>
    decreases ns.len(),
{
    if ns.len() == 0 {
        seq![]
    } else if ns.len() == 1 {
        int_decimal(ns[0] as int)
    } else {
        joined(ns.drop_last(), sep) + sep + int_decimal(ns.last() as int)
    }
}

/// The numbers of `c` as the output writes them.
pub open spec fn numbers_text(c: Coords, opts: ConvertSettings) -> Seq<char> {
    joined(parts_of(c, opts.no_y), opts.output_format.sep_text())
}

/// The output line for `item`, or the error of its conversion.
pub open spec fn rendered(item: Item, opts: ConvertSettings) -> Result<Seq<char>, Seq<char>> {
    match converted(item.coords, item.from) {
        Err(e) => Err(e),
        Ok(to) => {
            let target = item.from.other();
            if opts.add_from_dimension {
                Ok(item.from.display_text() + " "@ + numbers_text(item.coords, opts) + " -> "@
                    + target.display_text() + " "@ + numbers_text(to, opts))
            } else if opts.add_dimension_to_output {
                Ok(target.name_text() + " "@ + numbers_text(to, opts))
            } else {
                Ok(numbers_text(to, opts))
            }
        },
    }
}

/// The output line for `item`, or the error: coordinates outside the
/// limits of the chosen version are refused unless they are to be ignored.
pub open spec fn item_line(item: Item, opts: ConvertSettings) -> Result<Seq<char>, Seq<char>> {
    match reason_text(opts.mc_version, item.from, item.coords) {
        Some(reason) => if !opts.ignore_invalid_coords {
            Err("invalid coords for "@ + item.from.name_text() + " ("@ + coords_text(item.coords)
                + ") with mc-version "@ + opts.mc_version.name_text() + ": "@ + reason)
        } else {
            rendered(item, opts)
        },
        None => rendered(item, opts),
    }
}

/// The output lines for `items`, or the first error.
pub open spec fn rendered_items(items: Seq<Item>, opts: ConvertSettings) -> Result<Seq<Seq<char>>, Seq<char>>
    decreases items.len(),
{
    if items.len() == 0 {
        Ok(seq![])
    } else {
        match rendered_items(items.drop_last(), opts) {
            Err(e) => Err(e),
            Ok(lines) => match item_line(items.last(), opts) {
                Ok(l) => Ok(lines.push(l)),
                Err(e) => Err(e),
            },
        }
    }
}

/// The views of a sequence of strings.
pub open spec fn string_views(v: Seq<String>) -> Seq<Seq<char>> {
    v.map_values(|s: String| s@)
}

/// A result holding lines, taken by their characters.
pub open spec fn lines_result(r: Result<Vec<String>, String>) -> Result<Seq<Seq<char>>, Seq<char>> {
    match r {
        Ok(v) => Ok(string_views(v@)),
        Err(e) => Err(e@),
    }
}

/// Why `c` lies outside the limits of the world `dim` in version `v`.
pub fn validity_reason(version: McVersion, dim: World, c: &Coords) -> (r: Option<String>)
    ensures
        match r {
            Some(s) => reason_text(version, dim, *c) == Some(s@),
            None => reason_text(version, dim, *c) == None::<Seq<char>>,
        },
{
    let xz = version.xz_limit();
    if c.x < -xz || c.x > xz || c.z < -xz || c.z > xz {
        let mut s = string_from("X/Z out of range [-");
        push_decimal(&mut s, xz);
        s.append(", ");
        push_decimal(&mut s, xz);
        s.append("]");
        return Some(s);
    }
    let (y_lo, y_hi) = version.y_range(dim);
    match c.y {
        Some(y) => {
            if y < y_lo || y > y_hi {
                let mut s = string_from("Y out of range [");
                push_decimal(&mut s, y_lo);
                s.append(", ");
                push_decimal(&mut s, y_hi);
                s.append("]");
                Some(s)
            } else {
                None
            }
        },
        None => None,
    }
}

/// Appends `x y z` (or `x z`) to `out`.
fn push_coords(out: &mut String, c: &Coords)
    ensures
        final(out)@ == old(out)@ + coords_text(*c),
{
    push_decimal(out, c.x);
    match c.y {
        Some(y) => {
            out.append(" ");
            push_decimal(out, y);
        },
        None => {},
    }
    out.append(" ");
    push_decimal(out, c.z);
    assert(out@ =~= old(out)@ + coords_text(*c));
}

/// The coordinates as `x y z`, or `x z` without a height.
pub fn fmt_coords(c: &Coords) -> (r: String)
    ensures
        r@ == coords_text(*c),
{
    let mut s = String::new();
    push_coords(&mut s, c);
    assert(s@ =~= coords_text(*c));
    s
}

/// Appends the decimal forms of `ns`, separated by `sep`, to `out`.
fn push_joined(out: &mut String, ns: &Vec<i64>, sep: &str)
    ensures
        final(out)@ == old(out)@ + joined(ns@, sep@),
{
    let mut i: usize = 0;
    assert(ns@.take(0) =~= Seq::<i64>::empty());
    assert(out@ =~= old(out)@ + joined(ns@.take(0), sep@));
    while i < ns.len()
        invariant
            i <= ns@.len(),
            out@ == old(out)@ + joined(ns@.take(i as int), sep@),
        decreases ns@.len() - i,
    {
        let ghost pre = ns@.take(i + 1);
        assert(pre.drop_last() =~= ns@.take(i as int));
        if i > 0 {
            out.append(sep);
        }
        push_decimal(out, ns[i]);
        proof {
            if i == 0 {
                assert(out@ =~= old(out)@ + joined(pre, sep@));
            } else {
                assert(out@ =~= old(out)@ + joined(pre, sep@));
            }
        }
        i += 1;
    }
    assert(ns@.take(ns@.len() as int) =~= ns@);
}

/// Appends the numbers of `c` as the output writes them.
fn push_numbers(out: &mut String, c: Coords, opts: &ConvertOpts)
    ensures
        final(out)@ == old(out)@ + numbers_text(c, opts@),
{
    let ns = c.parts(opts.no_y);
    push_joined(out, &ns, opts.output_format.sep());
}

/// The output line for `item`: the coordinates in the target world, in the
/// chosen format, optionally named or shown beside the source.
pub fn render(item: &Item, opts: &ConvertOpts) -> (r: Result<String, String>)
    ensures
        match r {
            Ok(s) => rendered(*item, opts@) == Ok::<Seq<char>, Seq<char>>(s@),
            Err(e) => rendered(*item, opts@) == Err::<Seq<char>, Seq<char>>(e@),
        },
{
    let to_coords = match item.coords.convert(item.from) {
        Ok(c) => c,
        Err(e) => return Err(e),
    };
    let target = item.from.target();
    let mut s = String::new();
    if opts.add_from_dimension {
        s.append(item.from.display_name());
        s.append(" ");
        push_numbers(&mut s, item.coords, opts);
        s.append(" -> ");
        s.append(target.display_name());
        s.append(" ");
        push_numbers(&mut s, to_coords, opts);
    } else if opts.add_dimension_to_output {
        s.append(target.name());
        s.append(" ");
        push_numbers(&mut s, to_coords, opts);
    } else {
        push_numbers(&mut s, to_coords, opts);
    }
    assert(rendered(*item, opts@) == Ok::<Seq<char>, Seq<char>>(s@));
    Ok(s)
}

proof fn lemma_rendered_items_error_persists(items: Seq<Item>, opts: ConvertSettings, k: int)
    requires
        0 <= k <= items.len(),
        rendered_items(items.take(k), opts) is Err,
    ensures
        rendered_items(items, opts) == rendered_items(items.take(k), opts),
    decreases items.len(),
{
    if k == items.len() {
        assert(items.take(k) =~= items);
    } else {
        assert(items.drop_last().take(k) =~= items.take(k));
        lemma_rendered_items_error_persists(items.drop_last(), opts, k);
    }
}

/// The output line for one item, held to the limits first.
fn render_checked(item: &Item, opts: &ConvertOpts) -> (r: Result<String, String>)
    ensures
        match r {
            Ok(s) => item_line(*item, opts@) == Ok::<Seq<char>, Seq<char>>(s@),
            Err(e) => item_line(*item, opts@) == Err::<Seq<char>, Seq<char>>(e@),
        },
{
    match validity_reason(opts.mc_version, item.from, &item.coords) {
        Some(reason) => {
            if !opts.ignore_invalid_coords {
                let mut e = string_from("invalid coords for ");
                e.append(item.from.name());
                e.append(" (");
                push_coords(&mut e, &item.coords);
                e.append(") with mc-version ");
                e.append(opts.mc_version.name());
                e.append(": ");
                e.append(reason.as_str());
                return Err(e);
            }
        },
        None => {},
    }
    render(item, opts)
}

/// The output lines for all items, in order; the first item that is
/// outside the limits (unless they are ignored) or cannot be converted
/// stops it with an error.
pub fn render_items(items: &[Item], opts: &ConvertOpts) -> (r: Result<Vec<String>, String>)
    ensures
        lines_result(r) == rendered_items(items@, opts@),
{
    let mut output: Vec<String> = Vec::new();
    let mut i: usize = 0;
    assert(items@.take(0) =~= Seq::<Item>::empty());
    assert(string_views(output@) =~= Seq::<Seq<char>>::empty());
    while i < items.len()
        invariant
            i <= items@.len(),
            rendered_items(items@.take(i as int), opts@) == Ok::<Seq<Seq<char>>, Seq<char>>(
                string_views(output@),
            ),
        decreases items@.len() - i,
    {
        let ghost pre = items@.take(i + 1);
        assert(pre.drop_last() =~= items@.take(i as int));
        match render_checked(&items[i], opts) {
            Ok(s) => {
                let ghost before = string_views(output@);
                let ghost sv = s@;
                output.push(s);
                assert(string_views(output@) =~= before.push(sv));
            },
            Err(e) => {
                proof {
                    lemma_rendered_items_error_persists(items@, opts@, i + 1);
                }
                return Err(e);
            },
        }
        i += 1;
    }
    assert(items@.take(items@.len() as int) =~= items@);
    Ok(output)
}

} // verus!
