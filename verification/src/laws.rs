//! Properties that span the library's operations.
use vstd::prelude::*;
use crate::coords::{
    coord_fields, converted, coords_from_tokens, div8, field_values, kept_pieces, parts_of,
    times8_fits, Coords,
};
use crate::line::{check_from_line, item_from_line, Item};
use crate::number::{int_decimal, is_digit, lemma_decimal_round_trip, lemma_decimal_shape, parse_i64_spec};
use crate::render::{
    coords_text, item_line, joined, numbers_text, reason_text, rendered, rendered_items,
    ConvertSettings,
};
use crate::cli::{
    checks_from_lines, dimension_choice, items_from_lines, line_count, line_piece, lines_of,
    stream_path, validate_flags, validate_run, verdicts, with_newlines, world_and_rest,
    StepView,
};
use crate::text::{
    ascii_lower, is_space, lemma_trim_no_space, lemma_words_append_word, lemma_words_push_space,
    lemma_split_on_extend, lemma_split_on_sep, lower_text, no_space, split_on, trim, words,
};
use crate::world::{world_named, McVersion, OutputFormat, World};

verus! {

/// Nether coordinates taken to the overworld and back are unchanged, where
/// multiplying them by 8 does not overflow.
pub proof fn law_nether_round_trip(c: Coords)
    requires
        times8_fits(c.x),
        times8_fits(c.z),
    ensures
        converted(c, World::Nether) is Ok,
        converted(converted(c, World::Nether)->Ok_0, World::Overworld) == Ok::<Coords, Seq<char>>(c),
{
    let o = converted(c, World::Nether)->Ok_0;
    assert(div8(c.x * 8) == c.x);
    assert(div8(c.z * 8) == c.z);
}

/// Overworld coordinates taken to the nether and back move toward zero by
/// less than 8 blocks on each axis, and keep their height; the way back
/// never overflows.
pub proof fn law_overworld_round_trip(c: Coords)
    ensures
        ({
            let n = converted(c, World::Overworld)->Ok_0;
            &&& converted(c, World::Overworld) is Ok
            &&& converted(n, World::Nether) is Ok
            &&& {
                let o = converted(n, World::Nether)->Ok_0;
                &&& o.y == c.y
                &&& (c.x >= 0 ==> 0 <= c.x - o.x < 8)
                &&& (c.x < 0 ==> 0 <= o.x - c.x < 8)
                &&& (c.z >= 0 ==> 0 <= c.z - o.z < 8)
                &&& (c.z < 0 ==> 0 <= o.z - c.z < 8)
            }
        }),
{
}

/// Converting from the overworld never fails, and no conversion changes
/// the height.
pub proof fn law_conversion_keeps_height(c: Coords, from: World)
    ensures
        converted(c, World::Overworld) is Ok,
        converted(c, from) matches Ok(o) ==> o.y == c.y,
{
}

/// The target of the target of a world is the world itself, and no world
/// is its own target.
pub proof fn law_target_involution(w: World)
    ensures
        w.other().other() == w,
        w.other() != w,
{
}

/// Each world's lower-case name and capitalised name both read back as
/// that world.
pub proof fn law_world_names_read_back(w: World)
    ensures
        world_named(w.name_text()) == Some(w),
        world_named(w.display_text()) == Some(w),
{
    reveal_strlit("overworld");
    reveal_strlit("Overworld");
    reveal_strlit("nether");
    reveal_strlit("Nether");
    reveal_strlit("n");
    reveal_strlit("o");
    reveal_strlit("ow");
    assert(lower_text("overworld"@) =~= "overworld"@);
    assert(lower_text("Overworld"@) =~= "overworld"@);
    assert(lower_text("nether"@) =~= "nether"@);
    assert(lower_text("Nether"@) =~= "nether"@);
    assert("nether"@ != "n"@);
    assert("overworld"@ != "o"@);
    assert("overworld"@ != "ow"@);
}

/// World names are read without regard to ASCII case: a name and its
/// lower-case form name the same world.
pub proof fn law_world_names_ignore_case(s: Seq<char>)
    ensures
        world_named(s) == world_named(lower_text(s)),
{
    assert(lower_text(lower_text(s)) =~= lower_text(s));
}

/// Coordinates are refused with a reason exactly when they lie outside the
/// limits that `is_valid` checks.
pub proof fn law_reason_iff_invalid(v: McVersion, dim: World, c: Coords)
    ensures
        reason_text(v, dim, c) is None <==> v.within(dim, c),
{
}

/// With `--ignore-invalid-coords` an item is written whatever the limits
/// say; without it, an item outside the limits is an error.
pub proof fn law_invalid_items(item: Item, st: ConvertSettings)
    ensures
        st.ignore_invalid_coords ==> item_line(item, st) == rendered(item, st),
        !st.ignore_invalid_coords && !st.mc_version.within(item.from, item.coords) ==> item_line(
            item,
            st,
        ) is Err,
        st.mc_version.within(item.from, item.coords) ==> item_line(item, st) == rendered(item, st),
{
}

/// A world named at the start of a line overrides the default world.
pub proof fn law_line_world_overrides_default(line: Seq<char>, a: Option<World>, b: Option<World>, d1: World, d2: World)
    requires
        words(line).len() > 0,
        world_named(words(line)[0]) is Some,
    ensures
        item_from_line(line, a) == item_from_line(line, b),
        check_from_line(line, d1) == check_from_line(line, d2),
{
}

/// The decimal form of an integer has no whitespace, names no world, and
/// reads back as the integer.
proof fn lemma_decimal_token(n: i64)
    ensures
        no_space(int_decimal(n as int)),
        world_named(int_decimal(n as int)) is None,
        parse_i64_spec(trim(int_decimal(n as int))) == Some(n),
{
    let d = int_decimal(n as int);
    lemma_decimal_shape(n as int);
    assert forall|i: int| 0 <= i < d.len() implies !is_space(#[trigger] d[i]) by {
        assert(is_digit(d[i]) || d[i] == '-');
    }
    lemma_trim_no_space(d);
    lemma_decimal_round_trip(n);
    let l = lower_text(d);
    assert(l[0] == ascii_lower(d[0]));
    assert(is_digit(d[0]) || d[0] == '-');
    assert(l[0] != 'n' && l[0] != 'o');
    reveal_strlit("n");
    reveal_strlit("nether");
    reveal_strlit("o");
    reveal_strlit("ow");
    reveal_strlit("overworld");
    assert(l != "n"@ && l != "nether"@ && l != "o"@ && l != "ow"@ && l != "overworld"@) by {
        assert("n"@[0] == 'n');
        assert("nether"@[0] == 'n');
        assert("o"@[0] == 'o');
        assert("ow"@[0] == 'o');
        assert("overworld"@[0] == 'o');
    }
}

/// The decimal forms of the numbers of `c`: `x y z`, or `x z`.
pub open spec fn decimal_tokens(c: Coords) -> Seq<Seq<char>> {
    match c.y {
        Some(y) => seq![int_decimal(c.x as int), int_decimal(y as int), int_decimal(c.z as int)],
        None => seq![int_decimal(c.x as int), int_decimal(c.z as int)],
    }
}

/// The decimal forms of the numbers of `c`, as separate tokens, read as `c`.
proof fn lemma_decimal_tokens_read(c: Coords)
    ensures
        coords_from_tokens(decimal_tokens(c)) == Ok::<Coords, Seq<char>>(c),
{
    let tokens = decimal_tokens(c);
    let dx = int_decimal(c.x as int);
    lemma_decimal_token(c.x);
    lemma_decimal_token(c.z);
    if let Some(y) = c.y {
        lemma_decimal_token(y);
    }
    assert(coord_fields(tokens) == tokens);
    let t1 = tokens.take(1);
    assert(t1.drop_last() =~= Seq::<Seq<char>>::empty());
    assert(t1.last() == dx);
    assert(field_values(t1.drop_last()) == Ok::<Seq<i64>, Seq<char>>(Seq::<i64>::empty()));
    assert(Seq::<i64>::empty().push(c.x) =~= seq![c.x]);
    assert(field_values(t1) == Ok::<Seq<i64>, Seq<char>>(seq![c.x]));
    match c.y {
        Some(y) => {
            let t2 = tokens.take(2);
            assert(t2.drop_last() =~= t1);
            assert(field_values(t2) == Ok::<Seq<i64>, Seq<char>>(seq![c.x].push(y)));
            assert(tokens.drop_last() =~= t2);
            assert(field_values(tokens) == Ok::<Seq<i64>, Seq<char>>(seq![c.x].push(y).push(c.z)));
        },
        None => {
            assert(tokens.drop_last() =~= t1);
            assert(field_values(tokens) == Ok::<Seq<i64>, Seq<char>>(seq![c.x].push(c.z)));
        },
    }
    assert(coords_from_tokens(tokens) == Ok::<Coords, Seq<char>>(c));
}

/// What `fmt_coords` writes reads back, as a line of input, as the same
/// coordinates, in the default world.
pub proof fn law_coords_text_reads_back(c: Coords, dim: World, w: World)
    ensures
        check_from_line(coords_text(c), dim) == Ok::<(World, Coords), Seq<char>>((dim, c)),
        item_from_line(coords_text(c), Some(w)) == Ok::<Item, Seq<char>>(
            Item { from: w, coords: c },
        ),
{
    reveal_strlit(" ");
    let sp: Seq<char> = " "@;
    assert(sp =~= seq![' ']);
    assert(is_space(' '));
    let dx = int_decimal(c.x as int);
    let dz = int_decimal(c.z as int);
    lemma_decimal_token(c.x);
    lemma_decimal_token(c.z);
    lemma_decimal_shape(c.x as int);
    lemma_decimal_shape(c.z as int);
    let e = Seq::<char>::empty();
    assert(e + dx =~= dx);
    lemma_words_append_word(e, dx);
    assert(words(e) =~= Seq::<Seq<char>>::empty());
    assert(dx + sp =~= dx.push(' '));
    lemma_words_push_space(dx, ' ');
    let tokens = match c.y {
        Some(y) => {
            let dy = int_decimal(y as int);
            lemma_decimal_token(y);
            lemma_decimal_shape(y as int);
            lemma_words_append_word(dx + sp, dy);
            assert((dx + sp + dy) + sp =~= (dx + sp + dy).push(' '));
            lemma_words_push_space(dx + sp + dy, ' ');
            lemma_words_append_word(dx + sp + dy + sp, dz);
            assert(words(coords_text(c)) =~= seq![dx, dy, dz]);
            seq![dx, dy, dz]
        },
        None => {
            lemma_words_append_word(dx + sp, dz);
            assert(words(coords_text(c)) =~= seq![dx, dz]);
            seq![dx, dz]
        },
    };
    assert(tokens == decimal_tokens(c));
    lemma_decimal_tokens_read(c);
    assert(coords_from_tokens(tokens) == Ok::<Coords, Seq<char>>(c));
}

/// A field of coordinates written plainly: not empty, without whitespace
/// or commas.
pub open spec fn plain_field(t: Seq<char>) -> bool {
    t.len() > 0 && no_space(t) && !t.contains(',')
}

/// The pieces of plain fields joined by commas are the fields again.
proof fn lemma_comma_pieces(a: Seq<char>, b: Seq<char>, c: Seq<char>)
    requires
        plain_field(a),
        plain_field(b),
        plain_field(c),
    ensures
        kept_pieces(split_on(a + ","@ + b, ',')) == seq![a, b],
        kept_pieces(split_on(a + ","@ + b + ","@ + c, ',')) == seq![a, b, c],
{
    reveal_strlit(",");
    let comma: Seq<char> = ","@;
    assert(comma =~= seq![',']);
    let e = Seq::<char>::empty();
    lemma_split_on_extend(e, a, ',');
    assert(e + a =~= a);
    assert(Seq::<char>::empty() + a =~= a);
    assert(split_on(e, ',') =~= seq![e]);
    assert(split_on(a, ',') =~= seq![a]);
    assert(a + comma =~= a.push(','));
    lemma_split_on_sep(a, ',');
    lemma_split_on_extend(a + comma, b, ',');
    assert(e + b =~= b);
    let ab = a + comma + b;
    assert(split_on(ab, ',') =~= seq![a, b]);
    assert(ab + comma =~= ab.push(','));
    lemma_split_on_sep(ab, ',');
    lemma_split_on_extend(ab + comma, c, ',');
    assert(e + c =~= c);
    assert(split_on(ab + comma + c, ',') =~= seq![a, b, c]);
    lemma_trim_no_space(a);
    lemma_trim_no_space(b);
    lemma_trim_no_space(c);
    let p2 = seq![a, b];
    assert(p2.drop_last() =~= seq![a]);
    assert(seq![a].drop_last() =~= Seq::<Seq<char>>::empty());
    assert(kept_pieces(Seq::<Seq<char>>::empty()) =~= Seq::<Seq<char>>::empty());
    assert(seq![a].last() == a);
    assert(trim(a) == a);
    assert(Seq::<Seq<char>>::empty().push(a) =~= seq![a]);
    assert(kept_pieces(seq![a]) =~= seq![a]);
    assert(kept_pieces(p2) =~= seq![a, b]);
    let p3 = seq![a, b, c];
    assert(p3.drop_last() =~= p2);
    assert(kept_pieces(p3) =~= seq![a, b, c]);
}

/// Coordinates written with commas in one token read as the same fields
/// written as separate tokens: the input format is detected by itself.
pub proof fn law_comma_form_reads_as_spaced(a: Seq<char>, b: Seq<char>, c: Seq<char>)
    requires
        plain_field(a),
        plain_field(b),
        plain_field(c),
    ensures
        coords_from_tokens(seq![a + ","@ + b]) == coords_from_tokens(seq![a, b]),
        coords_from_tokens(seq![a + ","@ + b + ","@ + c]) == coords_from_tokens(seq![a, b, c]),
{
    lemma_comma_pieces(a, b, c);
    reveal_strlit(",");
    let comma: Seq<char> = ","@;
    assert(comma =~= seq![',']);
    let t2 = a + comma + b;
    assert(t2[a.len() as int] == ',');
    assert(t2.contains(','));
    let t3 = a + comma + b + comma + c;
    assert(t3[a.len() as int] == ',');
    assert(t3.contains(','));
    assert(coord_fields(seq![t2]) == seq![a, b]);
    assert(coord_fields(seq![t3]) == seq![a, b, c]);
}

/// Converting items gives one output line per item, in order.
pub proof fn law_one_line_per_item(items: Seq<Item>, st: ConvertSettings)
    ensures
        rendered_items(items, st) matches Ok(lines) ==> lines.len() == items.len() && forall|
            i: int,
        |
            0 <= i < items.len() ==> item_line(items[i], st) == Ok::<Seq<char>, Seq<char>>(
                #[trigger] lines[i],
            ),
    decreases items.len(),
{
    if items.len() > 0 {
        law_one_line_per_item(items.drop_last(), st);
        if let Ok(lines) = rendered_items(items, st) {
            let prev = rendered_items(items.drop_last(), st)->Ok_0;
            assert forall|i: int| 0 <= i < items.len() implies item_line(items[i], st) == Ok::<
                Seq<char>,
                Seq<char>,
            >(#[trigger] lines[i]) by {
                if i < items.len() - 1 {
                    assert(items.drop_last()[i] == items[i]);
                    assert(prev[i] == lines[i]);
                }
            }
        }
    }
}

/// A line of output: no line feed in it, and no carriage return at its end.
pub open spec fn plain_line(l: Seq<char>) -> bool {
    !l.contains('\n') && !(l.len() > 0 && l.last() == '\r')
}

proof fn lemma_split_written(ls: Seq<Seq<char>>)
    requires
        forall|i: int| 0 <= i < ls.len() ==> plain_line(#[trigger] ls[i]),
    ensures
        split_on(with_newlines(ls), '\n') == ls.push(seq![]),
    decreases ls.len(),
{
    if ls.len() == 0 {
        assert(split_on(with_newlines(ls), '\n') =~= ls.push(seq![]));
    } else {
        let front = ls.drop_last();
        assert forall|i: int| 0 <= i < front.len() implies plain_line(#[trigger] front[i]) by {
            assert(front[i] == ls[i]);
        }
        lemma_split_written(front);
        let last = ls.last();
        assert(plain_line(ls[ls.len() - 1]));
        let w = with_newlines(front);
        lemma_split_on_extend(w, last, '\n');
        assert(Seq::<char>::empty() + last =~= last);
        assert(w + last + seq!['\n'] =~= (w + last).push('\n'));
        lemma_split_on_sep(w + last, '\n');
        assert(split_on(w + last, '\n') =~= ls);
    }
}

/// Output lines written out, with a line feed after each, read back as the
/// same lines.
pub proof fn law_written_lines_read_back(ls: Seq<Seq<char>>)
    requires
        forall|i: int| 0 <= i < ls.len() ==> plain_line(#[trigger] ls[i]),
    ensures
        lines_of(with_newlines(ls)) == ls,
{
    lemma_split_written(ls);
    let p = split_on(with_newlines(ls), '\n');
    assert(line_count(p) == ls.len());
    assert forall|i: int| 0 <= i < ls.len() implies line_piece(p, i) == ls[i] by {
        assert(p[i] == ls[i]);
        assert(plain_line(ls[i]));
    }
    assert(lines_of(with_newlines(ls)) =~= ls);
}

/// The output format changes only how the numbers are separated: whether
/// an item can be written, and the error where it cannot, do not depend on
/// it.
pub proof fn law_output_format_affects_output_only(item: Item, st: ConvertSettings, f: OutputFormat)
    ensures
        (item_line(item, st) is Ok) == (item_line(item, ConvertSettings { output_format: f, ..st }) is Ok),
        item_line(item, st) is Err ==> item_line(item, ConvertSettings { output_format: f, ..st })
            == item_line(item, st),
{
}

/// The coordinates that the output shows of `c`: without the height where
/// it is left out.
pub open spec fn shown(c: Coords, no_y: bool) -> Coords {
    Coords { x: c.x, y: if no_y { None } else { c.y }, z: c.z }
}

/// The numbers of `c` joined by `sep`.
proof fn lemma_joined_parts(c: Coords, no_y: bool, sep: Seq<char>)
    ensures
        joined(parts_of(c, no_y), sep) == match shown(c, no_y).y {
            Some(y) => int_decimal(c.x as int) + sep + int_decimal(y as int) + sep + int_decimal(
                c.z as int,
            ),
            None => int_decimal(c.x as int) + sep + int_decimal(c.z as int),
        },
{
    let ps = parts_of(c, no_y);
    let one = seq![c.x];
    assert(joined(one, sep) == int_decimal(c.x as int)) by {
        assert(one.len() == 1);
    }
    match shown(c, no_y).y {
        Some(y) => {
            assert(ps == seq![c.x, y, c.z]);
            assert(ps.drop_last() =~= seq![c.x, y]);
            assert(seq![c.x, y].drop_last() =~= one);
            assert(joined(seq![c.x, y], sep) == joined(one, sep) + sep + int_decimal(y as int));
            assert(joined(ps, sep) == joined(seq![c.x, y], sep) + sep + int_decimal(c.z as int));
        },
        None => {
            assert(ps == seq![c.x, c.z]);
            assert(ps.drop_last() =~= one);
            assert(joined(ps, sep) == joined(one, sep) + sep + int_decimal(c.z as int));
        },
    }
}

/// The numbers that the output writes for `c` read back as the coordinates
/// shown: as a line of `validate` input where they are separated by spaces,
/// as one comma-separated token where they are separated by commas.
pub proof fn law_numbers_read_back(c: Coords, st: ConvertSettings, d: World)
    ensures
        st.output_format == OutputFormat::Space ==> check_from_line(numbers_text(c, st), d) == Ok::<
            (World, Coords),
            Seq<char>,
        >((d, shown(c, st.no_y))),
        st.output_format == OutputFormat::Comma ==> coords_from_tokens(seq![numbers_text(c, st)])
            == Ok::<Coords, Seq<char>>(shown(c, st.no_y)),
{
    let s = shown(c, st.no_y);
    lemma_joined_parts(c, st.no_y, st.output_format.sep_text());
    if st.output_format == OutputFormat::Space {
        assert(numbers_text(c, st) == coords_text(s));
        law_coords_text_reads_back(s, d, d);
    } else {
        let dx = int_decimal(c.x as int);
        let dz = int_decimal(c.z as int);
        lemma_plain_decimal(c.x);
        lemma_plain_decimal(c.z);
        lemma_decimal_tokens_read(s);
        match s.y {
            Some(y) => {
                let dy = int_decimal(y as int);
                lemma_plain_decimal(y);
                law_comma_form_reads_as_spaced(dx, dy, dz);
            },
            None => {
                law_comma_form_reads_as_spaced(dx, dz, dz);
            },
        }
    }
}

/// The decimal form of an integer is a plain field.
proof fn lemma_plain_decimal(n: i64)
    ensures
        plain_field(int_decimal(n as int)),
{
    let d = int_decimal(n as int);
    lemma_decimal_token(n);
    lemma_decimal_shape(n as int);
    if d.contains(',') {
        let k = choose|k: int| 0 <= k < d.len() && d[k] == ',';
        assert(is_digit(d[k]) || d[k] == '-');
    }
}

/// Without names added, the output line of an item is the converted
/// coordinates, which read back as those coordinates (the height left out
/// only with `--no-y`); it fails exactly when the conversion does.
pub proof fn law_plain_output_reads_back(item: Item, st: ConvertSettings, d: World)
    requires
        !st.add_from_dimension,
        !st.add_dimension_to_output,
    ensures
        rendered(item, st) is Ok <==> converted(item.coords, item.from) is Ok,
        rendered(item, st) matches Ok(t) ==> {
            let to = converted(item.coords, item.from)->Ok_0;
            &&& st.output_format == OutputFormat::Space ==> check_from_line(t, d) == Ok::<
                (World, Coords),
                Seq<char>,
            >((d, shown(to, st.no_y)))
            &&& st.output_format == OutputFormat::Comma ==> coords_from_tokens(seq![t]) == Ok::<
                Coords,
                Seq<char>,
            >(shown(to, st.no_y))
        },
{
    if let Ok(to) = converted(item.coords, item.from) {
        law_numbers_read_back(to, st, d);
    }
}

/// `--add-dimension-to-output` puts the target world's lower-case name and
/// a space before the line that would be written without it, and changes
/// nothing else.
pub proof fn law_dimension_prefix(item: Item, st: ConvertSettings)
    requires
        st.add_dimension_to_output,
        !st.add_from_dimension,
    ensures
        rendered(item, st) == match rendered(item, ConvertSettings { add_dimension_to_output: false, ..st }) {
            Ok(t) => Ok::<Seq<char>, Seq<char>>(item.from.other().name_text() + " "@ + t),
            Err(e) => Err(e),
        },
{
}

/// `--add-from-dimension` writes the source world's name, the numbers of
/// the given coordinates, an arrow, the target world's name, and the line
/// that would be written without any name added.
pub proof fn law_from_dimension_line(item: Item, st: ConvertSettings)
    requires
        st.add_from_dimension,
    ensures
        rendered(item, st) is Ok <==> converted(item.coords, item.from) is Ok,
        rendered(item, st) matches Ok(t) ==> t == item.from.display_text() + " "@ + numbers_text(
            item.coords,
            st,
        ) + " -> "@ + item.from.other().display_text() + " "@ + rendered(
            item,
            ConvertSettings { add_from_dimension: false, add_dimension_to_output: false, ..st },
        )->Ok_0,
{
}

/// Each non-blank input line of `convert` is read on its own, with the
/// world given to the whole input: reading a further line extends what the
/// lines before it gave by that line's item, and blank lines add nothing.
pub proof fn law_convert_input_line_by_line(lines: Seq<Seq<char>>, l: Seq<char>, w: Option<World>)
    ensures
        trim(l).len() == 0 ==> items_from_lines(lines.push(l), w) == items_from_lines(lines, w),
        trim(l).len() > 0 ==> items_from_lines(lines.push(l), w) == match items_from_lines(
            lines,
            w,
        ) {
            Err(e) => Err(e),
            Ok(items) => match item_from_line(l, w) {
                Ok(it) => Ok::<Seq<Item>, Seq<char>>(items.push(it)),
                Err(e) => Err(e),
            },
        },
{
    assert(lines.push(l).drop_last() =~= lines);
}

/// Reading `convert` input in two parts gives what reading it whole gives:
/// nothing carries over from one line to the next.
pub proof fn law_convert_input_splits(a: Seq<Seq<char>>, b: Seq<Seq<char>>, w: Option<World>)
    ensures
        items_from_lines(a + b, w) == match items_from_lines(a, w) {
            Err(e) => Err(e),
            Ok(x) => match items_from_lines(b, w) {
                Err(e) => Err(e),
                Ok(y) => Ok::<Seq<Item>, Seq<char>>(x + y),
            },
        },
    decreases b.len(),
{
    if b.len() == 0 {
        assert(a + b =~= a);
        if let Ok(x) = items_from_lines(a, w) {
            assert(x + Seq::<Item>::empty() =~= x);
        }
    } else {
        let b1 = b.drop_last();
        law_convert_input_splits(a, b1, w);
        assert((a + b).drop_last() =~= a + b1);
        assert((a + b).last() == b.last());
        if let Ok(x) = items_from_lines(a, w) {
            if let Ok(y1) = items_from_lines(b1, w) {
                if let Ok(it) = item_from_line(b.last(), w) {
                    assert(x + y1.push(it) =~= (x + y1).push(it));
                }
            }
        }
    }
}

/// Each non-blank input line of `validate` is read on its own, with the
/// default dimension given to the whole input.
pub proof fn law_validate_input_line_by_line(lines: Seq<Seq<char>>, l: Seq<char>, d: World)
    ensures
        trim(l).len() == 0 ==> checks_from_lines(lines.push(l), d) == checks_from_lines(lines, d),
        trim(l).len() > 0 ==> checks_from_lines(lines.push(l), d) == match checks_from_lines(
            lines,
            d,
        ) {
            Err(e) => Err(e),
            Ok(cs) => match check_from_line(l, d) {
                Ok(c) => Ok::<Seq<(World, Coords)>, Seq<char>>(cs.push(c)),
                Err(e) => Err(e),
            },
        },
{
    assert(lines.push(l).drop_last() =~= lines);
}

/// Reading `validate` input in two parts gives what reading it whole gives.
pub proof fn law_validate_input_splits(a: Seq<Seq<char>>, b: Seq<Seq<char>>, d: World)
    ensures
        checks_from_lines(a + b, d) == match checks_from_lines(a, d) {
            Err(e) => Err(e),
            Ok(x) => match checks_from_lines(b, d) {
                Err(e) => Err(e),
                Ok(y) => Ok::<Seq<(World, Coords)>, Seq<char>>(x + y),
            },
        },
    decreases b.len(),
{
    if b.len() == 0 {
        assert(a + b =~= a);
        if let Ok(x) = checks_from_lines(a, d) {
            assert(x + Seq::<(World, Coords)>::empty() =~= x);
        }
    } else {
        let b1 = b.drop_last();
        law_validate_input_splits(a, b1, d);
        assert((a + b).drop_last() =~= a + b1);
        assert((a + b).last() == b.last());
        if let Ok(x) = checks_from_lines(a, d) {
            if let Ok(y1) = checks_from_lines(b1, d) {
                if let Ok(c) = check_from_line(b.last(), d) {
                    assert(x + y1.push(c) =~= (x + y1).push(c));
                }
            }
        }
    }
}

/// A line without a world name of its own is read in the world given to
/// the input, and one with a world name in that world.
pub proof fn law_line_world(l: Seq<char>, w: Option<World>, d: World)
    requires
        words(l).len() > 0,
    ensures
        item_from_line(l, w) matches Ok(it) ==> it.from == match world_named(words(l)[0]) {
            Some(x) => x,
            None => w->Some_0,
        },
        check_from_line(l, d) matches Ok((e, _)) ==> e == match world_named(words(l)[0]) {
            Some(x) => x,
            None => d,
        },
        world_named(words(l)[0]) is None && w is None ==> item_from_line(l, w) is Err,
{
}

/// The dimension that `validate` checks in: the one that `--dimension` or a
/// positional world names, and the overworld where neither does; naming
/// two different ones is an error.
pub proof fn law_dimension_choice(flag: Option<World>, pos: Option<World>)
    ensures
        dimension_choice(flag, pos) is Err <==> (flag is Some && pos is Some && flag != pos),
        dimension_choice(flag, pos) matches Ok(d) ==> {
            &&& flag matches Some(f) ==> d == f
            &&& pos matches Some(p) ==> d == p
            &&& flag is None && pos is None ==> d == World::Overworld
        },
{
}

/// `validate` answers `1` for each coordinate set inside the limits and `0`
/// for each outside them, one answer per set, in order.
pub proof fn law_verdicts(cs: Seq<(World, Coords)>, v: McVersion)
    ensures
        verdicts(cs, v).len() == cs.len(),
        forall|i: int|
            0 <= i < cs.len() ==> #[trigger] verdicts(cs, v)[i] == (if v.within(cs[i].0, cs[i].1) {
                "1"@
            } else {
                "0"@
            }),
{
}

/// Without `--dimension` and without a world among the arguments,
/// `validate` checks coordinates in the overworld: those given as arguments,
/// and input lines that do not name a world.
pub proof fn law_validate_default_overworld(args: Seq<Seq<char>>, input: Option<Seq<Seq<char>>>)
    requires
        validate_flags(args) is Ok,
        validate_flags(args)->Ok_0 is Some,
        validate_flags(args)->Ok_0->Some_0.0.dimension is None,
        world_and_rest(validate_flags(args)->Ok_0->Some_0.1) is Ok,
        world_and_rest(validate_flags(args)->Ok_0->Some_0.1)->Ok_0.0 is None,
    ensures
        ({
            let st = validate_flags(args)->Ok_0->Some_0.0;
            let toks = world_and_rest(validate_flags(args)->Ok_0->Some_0.1)->Ok_0.1;
            &&& toks.len() > 0 ==> validate_run(args, input) == match coords_from_tokens(toks) {
                Err(e) => Err(e),
                Ok(c) => Ok::<StepView, Seq<char>>(
                    StepView::Write(
                        stream_path(st.output),
                        seq![
                            if st.mc_version.within(World::Overworld, c) {
                                "1"@
                            } else {
                                "0"@
                            },
                        ],
                    ),
                ),
            }
            &&& toks.len() == 0 && input is Some ==> validate_run(args, input) == match checks_from_lines(
                input->Some_0,
                World::Overworld,
            ) {
                Err(e) => Err(e),
                Ok(cs) => if cs.len() == 0 {
                    Err("no input"@)
                } else {
                    Ok::<StepView, Seq<char>>(
                        StepView::Write(stream_path(st.output), verdicts(cs, st.mc_version)),
                    )
                },
            }
        }),
{
    let st = validate_flags(args)->Ok_0->Some_0.0;
    let toks = world_and_rest(validate_flags(args)->Ok_0->Some_0.1)->Ok_0.1;
    if toks.len() > 0 {
        if let Ok(c) = coords_from_tokens(toks) {
            let one = seq![(World::Overworld, c)];
            assert(verdicts(one, st.mc_version) =~= seq![
                if st.mc_version.within(World::Overworld, c) {
                    "1"@
                } else {
                    "0"@
                },
            ]);
        }
    }
}

} // verus!
