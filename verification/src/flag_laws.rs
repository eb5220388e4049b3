//! Properties of reading the commands' flags: each flag sets only its own
//! setting, and every other argument is kept as a positional argument.
use vstd::prelude::*;
use crate::cli::{
    convert_defaults, convert_flags, convert_flags_from, split_world_from, validate_flags,
    validate_flags_from, world_and_rest, ValidateSettings,
};
use crate::number::{int_decimal, is_digit, lemma_decimal_shape};
use crate::render::ConvertSettings;
use crate::world::{output_format_named, version_named, world_named, McVersion, OutputFormat, World};

verus! {

/// The arguments that `convert` reads as flags.
pub open spec fn is_convert_flag(a: Seq<char>) -> bool {
    ||| a == "-h"@
    ||| a == "--help"@
    ||| a == "-i"@
    ||| a == "-o"@
    ||| a == "--no-y"@
    ||| a == "--add-dimension-to-output"@
    ||| a == "--add-from-dimension"@
    ||| a == "--mc-version"@
    ||| a == "--ignore-invalid-coords"@
    ||| a == "--output-format"@
}

/// The arguments that `validate` reads as flags.
pub open spec fn is_validate_flag(a: Seq<char>) -> bool {
    ||| a == "-h"@
    ||| a == "--help"@
    ||| a == "-i"@
    ||| a == "-o"@
    ||| a == "--mc-version"@
    ||| a == "--dimension"@
}

/// Reading `convert` flags that end cleanly, then one more argument,
/// continues from where the first arguments left off.
proof fn lemma_convert_push(
    args: Seq<Seq<char>>,
    i: int,
    s: ConvertSettings,
    p: Seq<Seq<char>>,
    a: Seq<char>,
)
    requires
        0 <= i <= args.len(),
        convert_flags_from(args, i, s, p) is Ok,
        convert_flags_from(args, i, s, p)->Ok_0 is Some,
    ensures
        ({
            let r = convert_flags_from(args, i, s, p)->Ok_0->Some_0;
            convert_flags_from(args.push(a), i, s, p) == convert_flags_from(
                args.push(a),
                args.len() as int,
                r.0,
                r.1,
            )
        }),
    decreases args.len() - i,
{
    if i < args.len() {
        let ext = args.push(a);
        let x = args[i];
        assert(ext[i] == x);
        if i + 1 < args.len() {
            assert(ext[i + 1] == args[i + 1]);
        }
        let v = args[i + 1];
        if x == "-h"@ || x == "--help"@ {
        } else if x == "-i"@ {
            lemma_convert_push(args, i + 2, ConvertSettings { input: Some(v), ..s }, p, a);
        } else if x == "-o"@ {
            lemma_convert_push(args, i + 2, ConvertSettings { output: Some(v), ..s }, p, a);
        } else if x == "--no-y"@ {
            lemma_convert_push(args, i + 1, ConvertSettings { no_y: true, ..s }, p, a);
        } else if x == "--add-dimension-to-output"@ {
            lemma_convert_push(
                args,
                i + 1,
                ConvertSettings { add_dimension_to_output: true, ..s },
                p,
                a,
            );
        } else if x == "--add-from-dimension"@ {
            lemma_convert_push(args, i + 1, ConvertSettings { add_from_dimension: true, ..s }, p, a);
        } else if x == "--mc-version"@ {
            if let Ok(ver) = version_named(v) {
                lemma_convert_push(args, i + 2, ConvertSettings { mc_version: ver, ..s }, p, a);
            }
        } else if x == "--ignore-invalid-coords"@ {
            lemma_convert_push(
                args,
                i + 1,
                ConvertSettings { ignore_invalid_coords: true, ..s },
                p,
                a,
            );
        } else if x == "--output-format"@ {
            if let Ok(f) = output_format_named(v) {
                lemma_convert_push(args, i + 2, ConvertSettings { output_format: f, ..s }, p, a);
            }
        } else {
            lemma_convert_push(args, i + 1, s, p.push(x), a);
        }
    }
}

/// An argument that is no flag of `convert`, added after arguments that
/// read cleanly, is kept as the last positional argument and changes no
/// setting.
pub proof fn law_convert_positional_appended(args: Seq<Seq<char>>, a: Seq<char>)
    requires
        convert_flags(args) is Ok,
        convert_flags(args)->Ok_0 is Some,
        !is_convert_flag(a),
    ensures
        ({
            let r = convert_flags(args)->Ok_0->Some_0;
            convert_flags(args.push(a)) == Ok::<
                Option<(ConvertSettings, Seq<Seq<char>>)>,
                Seq<char>,
            >(Some((r.0, r.1.push(a))))
        }),
{
    let e = Seq::<Seq<char>>::empty();
    assert(convert_flags(args) == convert_flags_from(args, 0, convert_defaults(), e));
    lemma_convert_push(args, 0, convert_defaults(), e, a);
    let r = convert_flags(args)->Ok_0->Some_0;
    let ext = args.push(a);
    let n = args.len() as int;
    assert(ext[n] == a);
    assert(convert_flags_from(ext, n + 1, r.0, r.1.push(a)) == Ok::<
        Option<(ConvertSettings, Seq<Seq<char>>)>,
        Seq<char>,
    >(Some((r.0, r.1.push(a)))));
    assert(convert_flags_from(ext, n, r.0, r.1) == convert_flags_from(ext, n + 1, r.0, r.1.push(a)));
}

/// A switch of `convert` added after arguments that read cleanly turns on
/// its own setting and nothing else.
pub proof fn law_convert_switch_appended(args: Seq<Seq<char>>)
    requires
        convert_flags(args) is Ok,
        convert_flags(args)->Ok_0 is Some,
    ensures
        ({
            let (st, pos) = convert_flags(args)->Ok_0->Some_0;
            &&& convert_flags(args.push("--no-y"@)) == Ok::<
                Option<(ConvertSettings, Seq<Seq<char>>)>,
                Seq<char>,
            >(Some((ConvertSettings { no_y: true, ..st }, pos)))
            &&& convert_flags(args.push("--add-dimension-to-output"@)) == Ok::<
                Option<(ConvertSettings, Seq<Seq<char>>)>,
                Seq<char>,
            >(Some((ConvertSettings { add_dimension_to_output: true, ..st }, pos)))
            &&& convert_flags(args.push("--add-from-dimension"@)) == Ok::<
                Option<(ConvertSettings, Seq<Seq<char>>)>,
                Seq<char>,
            >(Some((ConvertSettings { add_from_dimension: true, ..st }, pos)))
            &&& convert_flags(args.push("--ignore-invalid-coords"@)) == Ok::<
                Option<(ConvertSettings, Seq<Seq<char>>)>,
                Seq<char>,
            >(Some((ConvertSettings { ignore_invalid_coords: true, ..st }, pos)))
        }),
{
    reveal_strlit("-h");
    reveal_strlit("--help");
    reveal_strlit("-i");
    reveal_strlit("-o");
    reveal_strlit("--no-y");
    reveal_strlit("--add-dimension-to-output");
    reveal_strlit("--add-from-dimension");
    reveal_strlit("--mc-version");
    reveal_strlit("--ignore-invalid-coords");
    reveal_strlit("--output-format");
    let n = args.len() as int;
    let d = convert_defaults();
    let e = Seq::<Seq<char>>::empty();
    assert(convert_flags(args) == convert_flags_from(args, 0, d, e));
    let (st, pos) = convert_flags(args)->Ok_0->Some_0;
    let done = |t: ConvertSettings|
        Ok::<Option<(ConvertSettings, Seq<Seq<char>>)>, Seq<char>>(Some((t, pos)));
    assert(convert_flags_from(args.push("--no-y"@), n + 1, ConvertSettings { no_y: true, ..st }, pos)
        == done(ConvertSettings { no_y: true, ..st }));
    assert(convert_flags_from(
        args.push("--add-dimension-to-output"@),
        n + 1,
        ConvertSettings { add_dimension_to_output: true, ..st },
        pos,
    ) == done(ConvertSettings { add_dimension_to_output: true, ..st }));
    assert(convert_flags_from(
        args.push("--add-from-dimension"@),
        n + 1,
        ConvertSettings { add_from_dimension: true, ..st },
        pos,
    ) == done(ConvertSettings { add_from_dimension: true, ..st }));
    assert(convert_flags_from(
        args.push("--ignore-invalid-coords"@),
        n + 1,
        ConvertSettings { ignore_invalid_coords: true, ..st },
        pos,
    ) == done(ConvertSettings { ignore_invalid_coords: true, ..st }));
    lemma_convert_push(args, 0, d, e, "--no-y"@);
    assert(args.push("--no-y"@)[n] == "--no-y"@);
    assert("--no-y"@ != "--help"@) by {
        assert("--no-y"@[2] != "--help"@[2]);
    }
    lemma_convert_push(args, 0, d, e, "--add-dimension-to-output"@);
    assert(args.push("--add-dimension-to-output"@)[n] == "--add-dimension-to-output"@);
    lemma_convert_push(args, 0, d, e, "--add-from-dimension"@);
    assert(args.push("--add-from-dimension"@)[n] == "--add-from-dimension"@);
    lemma_convert_push(args, 0, d, e, "--ignore-invalid-coords"@);
    assert(args.push("--ignore-invalid-coords"@)[n] == "--ignore-invalid-coords"@);
}

/// Settings that no argument names keep the values they had.
proof fn lemma_convert_untouched(args: Seq<Seq<char>>, i: int, s: ConvertSettings, p: Seq<Seq<char>>)
    requires
        0 <= i,
        convert_flags_from(args, i, s, p) is Ok,
        convert_flags_from(args, i, s, p)->Ok_0 is Some,
    ensures
        ({
            let st = convert_flags_from(args, i, s, p)->Ok_0->Some_0.0;
            let absent = |f: Seq<char>| forall|j: int| i <= j < args.len() ==> args[j] != f;
            &&& absent("--no-y"@) ==> st.no_y == s.no_y
            &&& absent("--add-dimension-to-output"@) ==> st.add_dimension_to_output
                == s.add_dimension_to_output
            &&& absent("--add-from-dimension"@) ==> st.add_from_dimension == s.add_from_dimension
            &&& absent("--ignore-invalid-coords"@) ==> st.ignore_invalid_coords
                == s.ignore_invalid_coords
            &&& absent("--mc-version"@) ==> st.mc_version == s.mc_version
            &&& absent("--output-format"@) ==> st.output_format == s.output_format
            &&& absent("-i"@) ==> st.input == s.input
            &&& absent("-o"@) ==> st.output == s.output
        }),
    decreases args.len() - i,
{
    if i < args.len() {
        let x = args[i];
        let v = args[i + 1];
        if x == "-h"@ || x == "--help"@ {
        } else if x == "-i"@ {
            lemma_convert_untouched(args, i + 2, ConvertSettings { input: Some(v), ..s }, p);
        } else if x == "-o"@ {
            lemma_convert_untouched(args, i + 2, ConvertSettings { output: Some(v), ..s }, p);
        } else if x == "--no-y"@ {
            lemma_convert_untouched(args, i + 1, ConvertSettings { no_y: true, ..s }, p);
        } else if x == "--add-dimension-to-output"@ {
            lemma_convert_untouched(
                args,
                i + 1,
                ConvertSettings { add_dimension_to_output: true, ..s },
                p,
            );
        } else if x == "--add-from-dimension"@ {
            lemma_convert_untouched(args, i + 1, ConvertSettings { add_from_dimension: true, ..s }, p);
        } else if x == "--mc-version"@ {
            if let Ok(ver) = version_named(v) {
                lemma_convert_untouched(args, i + 2, ConvertSettings { mc_version: ver, ..s }, p);
            }
        } else if x == "--ignore-invalid-coords"@ {
            lemma_convert_untouched(
                args,
                i + 1,
                ConvertSettings { ignore_invalid_coords: true, ..s },
                p,
            );
        } else if x == "--output-format"@ {
            if let Ok(f) = output_format_named(v) {
                lemma_convert_untouched(args, i + 2, ConvertSettings { output_format: f, ..s }, p);
            }
        } else {
            lemma_convert_untouched(args, i + 1, s, p.push(x));
        }
    }
}

/// Each setting of `convert` keeps its default unless its own flag is among
/// the arguments: switches stay off, the version stays `new`, the format
/// stays space-separated, and input and output stay unnamed.
pub proof fn law_convert_settings_from_own_flags(args: Seq<Seq<char>>)
    requires
        convert_flags(args) is Ok,
        convert_flags(args)->Ok_0 is Some,
    ensures
        ({
            let st = convert_flags(args)->Ok_0->Some_0.0;
            let absent = |f: Seq<char>| forall|j: int| 0 <= j < args.len() ==> args[j] != f;
            &&& absent("--no-y"@) ==> !st.no_y
            &&& absent("--add-dimension-to-output"@) ==> !st.add_dimension_to_output
            &&& absent("--add-from-dimension"@) ==> !st.add_from_dimension
            &&& absent("--ignore-invalid-coords"@) ==> !st.ignore_invalid_coords
            &&& absent("--mc-version"@) ==> st.mc_version == McVersion::New
            &&& absent("--output-format"@) ==> st.output_format == OutputFormat::Space
            &&& absent("-i"@) ==> st.input is None
            &&& absent("-o"@) ==> st.output is None
        }),
{
    lemma_convert_untouched(args, 0, convert_defaults(), seq![]);
}

/// Reading `validate` flags that end cleanly, then one more argument that
/// is no flag, keeps that argument as the last positional argument.
proof fn lemma_validate_push(
    args: Seq<Seq<char>>,
    i: int,
    s: ValidateSettings,
    ver: Option<McVersion>,
    p: Seq<Seq<char>>,
    a: Seq<char>,
)
    requires
        0 <= i <= args.len(),
        !is_validate_flag(a),
        validate_flags_from(args, i, s, ver, p) is Ok,
        validate_flags_from(args, i, s, ver, p)->Ok_0 is Some,
    ensures
        ({
            let r = validate_flags_from(args, i, s, ver, p)->Ok_0->Some_0;
            validate_flags_from(args.push(a), i, s, ver, p) == Ok::<
                Option<(ValidateSettings, Seq<Seq<char>>)>,
                Seq<char>,
            >(Some((r.0, r.1.push(a))))
        }),
    decreases args.len() - i,
{
    let ext = args.push(a);
    if i == args.len() {
        assert(ext[i] == a);
        assert(validate_flags_from(ext, i + 1, s, ver, p.push(a)) == match ver {
            Some(nv) => Ok::<Option<(ValidateSettings, Seq<Seq<char>>)>, Seq<char>>(
                Some((ValidateSettings { mc_version: nv, ..s }, p.push(a))),
            ),
            None => Err("missing --mc-version old|new"@),
        });
    } else {
        let x = args[i];
        assert(ext[i] == x);
        if i + 1 < args.len() {
            assert(ext[i + 1] == args[i + 1]);
        }
        let v = args[i + 1];
        if x == "-h"@ || x == "--help"@ {
        } else if x == "-i"@ {
            lemma_validate_push(args, i + 2, ValidateSettings { input: Some(v), ..s }, ver, p, a);
        } else if x == "-o"@ {
            lemma_validate_push(args, i + 2, ValidateSettings { output: Some(v), ..s }, ver, p, a);
        } else if x == "--mc-version"@ {
            if let Ok(nv) = version_named(v) {
                lemma_validate_push(args, i + 2, s, Some(nv), p, a);
            }
        } else if x == "--dimension"@ {
            if let Some(d) = crate::world::world_named(v) {
                lemma_validate_push(
                    args,
                    i + 2,
                    ValidateSettings { dimension: Some(d), ..s },
                    ver,
                    p,
                    a,
                );
            }
        } else {
            lemma_validate_push(args, i + 1, s, ver, p.push(x), a);
        }
    }
}

/// An argument that is no flag of `validate`, added after arguments that
/// read cleanly, is kept as the last positional argument and changes no
/// setting.
pub proof fn law_validate_positional_appended(args: Seq<Seq<char>>, a: Seq<char>)
    requires
        validate_flags(args) is Ok,
        validate_flags(args)->Ok_0 is Some,
        !is_validate_flag(a),
    ensures
        ({
            let r = validate_flags(args)->Ok_0->Some_0;
            validate_flags(args.push(a)) == Ok::<
                Option<(ValidateSettings, Seq<Seq<char>>)>,
                Seq<char>,
            >(Some((r.0, r.1.push(a))))
        }),
{
    lemma_validate_push(
        args,
        0,
        ValidateSettings { input: None, output: None, mc_version: McVersion::New, dimension: None },
        None,
        seq![],
        a,
    );
}

/// A number, negative ones included, is never taken for a flag.
pub proof fn law_number_is_no_flag(n: int)
    ensures
        !is_convert_flag(int_decimal(n)),
        !is_validate_flag(int_decimal(n)),
{
    let d = int_decimal(n);
    lemma_decimal_shape(n);
    reveal_strlit("-h");
    reveal_strlit("--help");
    reveal_strlit("-i");
    reveal_strlit("-o");
    reveal_strlit("--no-y");
    reveal_strlit("--add-dimension-to-output");
    reveal_strlit("--add-from-dimension");
    reveal_strlit("--mc-version");
    reveal_strlit("--ignore-invalid-coords");
    reveal_strlit("--output-format");
    reveal_strlit("--dimension");
    if d.len() >= 2 {
        assert(is_digit(d[1]));
    }
}

/// `validate --mc-version new` followed by a number keeps the number as a
/// coordinate, whatever its sign.
pub proof fn law_validate_number_positional(n: i64)
    ensures
        validate_flags(seq!["--mc-version"@, "new"@, int_decimal(n as int)]) == Ok::<
            Option<(ValidateSettings, Seq<Seq<char>>)>,
            Seq<char>,
        >(
            Some(
                (
                    ValidateSettings {
                        input: None,
                        output: None,
                        mc_version: McVersion::New,
                        dimension: None,
                    },
                    seq![int_decimal(n as int)],
                ),
            ),
        ),
{
    reveal_strlit("-h");
    reveal_strlit("--help");
    reveal_strlit("-i");
    reveal_strlit("-o");
    reveal_strlit("--mc-version");
    reveal_strlit("new");
    reveal_strlit("old");
    let two = seq!["--mc-version"@, "new"@];
    let init = ValidateSettings {
        input: None,
        output: None,
        mc_version: McVersion::New,
        dimension: None,
    };
    assert("new"@[0] != "old"@[0]);
    assert(version_named("new"@) == Ok::<McVersion, Seq<char>>(McVersion::New));
    assert(validate_flags_from(two, 2, init, Some(McVersion::New), seq![]) == Ok::<
        Option<(ValidateSettings, Seq<Seq<char>>)>,
        Seq<char>,
    >(Some((init, seq![]))));
    assert(two[0] == "--mc-version"@ && two[1] == "new"@);
    assert("--mc-version"@.len() == 12);
    assert("--mc-version"@ != "-h"@ && "--mc-version"@ != "--help"@ && "--mc-version"@ != "-i"@
        && "--mc-version"@ != "-o"@);
    assert(validate_flags(two) == validate_flags_from(two, 0, init, None, seq![]));
    assert(validate_flags_from(two, 0, init, None, seq![]) == validate_flags_from(
        two,
        2,
        init,
        Some(McVersion::New),
        seq![],
    ));
    assert(validate_flags(two) == Ok::<Option<(ValidateSettings, Seq<Seq<char>>)>, Seq<char>>(
        Some((init, seq![])),
    ));
    law_number_is_no_flag(n as int);
    law_validate_positional_appended(two, int_decimal(n as int));
    assert(two.push(int_decimal(n as int)) =~= seq!["--mc-version"@, "new"@, int_decimal(n as int)]);
    assert(Seq::<Seq<char>>::empty().push(int_decimal(n as int)) =~= seq![int_decimal(n as int)]);
}

/// Whether the argument names no world.
pub open spec fn names_no_world(t: Seq<char>) -> bool {
    world_named(t) is None
}

/// Whether two of the arguments from position `i` on name worlds.
pub open spec fn two_worlds_from(ts: Seq<Seq<char>>, i: int) -> bool {
    exists|j: int, k: int|
        i <= j < k < ts.len() && #[trigger] world_named(ts[j]) is Some && #[trigger] world_named(
            ts[k],
        ) is Some
}

proof fn lemma_split_world_from(ts: Seq<Seq<char>>, i: int, w0: Option<World>, r0: Seq<Seq<char>>)
    requires
        0 <= i <= ts.len(),
    ensures
        ({
            let res = split_world_from(ts, i, w0, r0);
            let any = exists|j: int| i <= j < ts.len() && #[trigger] world_named(ts[j]) is Some;
            &&& res is Err <==> (two_worlds_from(ts, i) || (w0 is Some && any))
            &&& res matches Ok((w, rest)) ==> {
                &&& rest == r0 + ts.skip(i).filter(|t: Seq<char>| names_no_world(t))
                &&& (w is None <==> (w0 is None && !any))
                &&& (w matches Some(x) ==> (w0 == Some(x) || exists|j: int|
                    i <= j < ts.len() && #[trigger] world_named(ts[j]) == Some(x)))
            }
        }),
    decreases ts.len() - i,
{
    let pred = |t: Seq<char>| names_no_world(t);
    if i == ts.len() {
        assert(ts.skip(i) =~= Seq::<Seq<char>>::empty());
        reveal(Seq::filter);
        assert(r0 + Seq::<Seq<char>>::empty().filter(pred) =~= r0);
    } else {
        let t = ts[i];
        let one = seq![t];
        assert(ts.skip(i) =~= one + ts.skip(i + 1));
        Seq::filter_distributes_over_add(one, ts.skip(i + 1), pred);
        reveal_with_fuel(Seq::filter, 2);
        assert(one.drop_last() =~= Seq::<Seq<char>>::empty());
        match world_named(t) {
            Some(x) => {
                lemma_split_world_from(ts, i + 1, Some(x), r0);
                assert(one.filter(pred) =~= Seq::<Seq<char>>::empty());
                assert(r0 + (one.filter(pred) + ts.skip(i + 1).filter(pred)) =~= r0 + ts.skip(
                    i + 1,
                ).filter(pred));
                if w0 is None {
                    lemma_split_world_from(ts, i + 1, w0, r0);
                }
                if exists|j: int| i + 1 <= j < ts.len() && #[trigger] world_named(ts[j]) is Some {
                    let j = choose|j: int| i + 1 <= j < ts.len() && #[trigger] world_named(ts[j]) is Some;
                    assert(world_named(ts[i]) is Some);
                }
                if two_worlds_from(ts, i) {
                    let (j, k) = choose|j: int, k: int|
                        i <= j < k < ts.len() && #[trigger] world_named(ts[j]) is Some
                            && #[trigger] world_named(ts[k]) is Some;
                    assert(world_named(ts[k]) is Some);
                }
            },
            None => {
                lemma_split_world_from(ts, i + 1, w0, r0.push(t));
                assert(one.filter(pred) =~= one);
                assert(r0.push(t) + ts.skip(i + 1).filter(pred) =~= r0 + (one.filter(pred)
                    + ts.skip(i + 1).filter(pred)));
                if two_worlds_from(ts, i) {
                    let (j, k) = choose|j: int, k: int|
                        i <= j < k < ts.len() && #[trigger] world_named(ts[j]) is Some
                            && #[trigger] world_named(ts[k]) is Some;
                    assert(j != i);
                    assert(two_worlds_from(ts, i + 1));
                }
                if exists|j: int| i <= j < ts.len() && #[trigger] world_named(ts[j]) is Some {
                    let j = choose|j: int| i <= j < ts.len() && #[trigger] world_named(ts[j]) is Some;
                    assert(j != i);
                }
            },
        }
    }
}

/// Splitting the positional arguments keeps every argument that names no
/// world, in order, and takes out the one that names a world; two world
/// names are an error.
pub proof fn law_split_world(ts: Seq<Seq<char>>)
    ensures
        world_and_rest(ts) is Err <==> two_worlds_from(ts, 0),
        world_and_rest(ts) matches Ok((w, rest)) ==> {
            &&& rest == ts.filter(|t: Seq<char>| names_no_world(t))
            &&& (w is None <==> forall|j: int| 0 <= j < ts.len() ==> #[trigger] world_named(ts[j]) is None)
            &&& (w matches Some(x) ==> exists|j: int|
                0 <= j < ts.len() && #[trigger] world_named(ts[j]) == Some(x))
        },
{
    lemma_split_world_from(ts, 0, None, seq![]);
    assert(ts.skip(0) =~= ts);
    let pred = |t: Seq<char>| names_no_world(t);
    assert(Seq::<Seq<char>>::empty() + ts.filter(pred) =~= ts.filter(pred));
}

} // verus!
