use mccoords::{
    fmt_coords, output_content, parse_convert_flags, parse_line, parse_validate_flags,
    parse_validate_line, print_convert_usage_to, print_usage_to, print_validate_usage_to, render,
    render_items, run_convert, run_validate, split_lines, split_world, validity_reason,
    ConvertOpts, Coords, Item, McVersion, OutputFormat, Step, World,
};

fn opts() -> ConvertOpts {
    ConvertOpts {
        input: None,
        output: None,
        no_y: false,
        add_dimension_to_output: false,
        add_from_dimension: false,
        output_format: OutputFormat::Space,
        mc_version: McVersion::New,
        ignore_invalid_coords: false,
    }
}

fn args(v: &[&str]) -> Vec<String> {
    v.iter().map(|s| s.to_string()).collect()
}

fn lines(v: &[&str]) -> Vec<String> {
    v.iter().map(|s| s.to_string()).collect()
}

#[test]
fn nether_round_trip_restores_coords() {
    for c in [
        Coords { x: 13, y: Some(70), z: -21 },
        Coords { x: i64::MAX / 8, y: None, z: i64::MIN / 8 },
        Coords { x: 0, y: Some(-64), z: 0 },
    ] {
        let o = c.convert(World::Nether).unwrap();
        assert_eq!(o.convert(World::Overworld).unwrap(), c);
    }
}

#[test]
fn overworld_round_trip_moves_toward_zero() {
    let c = Coords { x: 13, y: Some(5), z: -13 };
    let n = c.convert(World::Overworld).unwrap();
    assert_eq!(n, Coords { x: 1, y: Some(5), z: -1 });
    let o = n.convert(World::Nether).unwrap();
    assert_eq!(o, Coords { x: 8, y: Some(5), z: -8 });
}

#[test]
fn overworld_division_truncates_small_negatives() {
    let c = Coords { x: -1, y: None, z: -9 };
    assert_eq!(c.convert(World::Overworld).unwrap(), Coords { x: 0, y: None, z: -1 });
    let c = Coords { x: i64::MIN, y: None, z: i64::MAX };
    assert_eq!(
        c.convert(World::Overworld).unwrap(),
        Coords { x: -1152921504606846976, y: None, z: 1152921504606846975 }
    );
}

#[test]
fn nether_overflow_messages() {
    let c = Coords { x: i64::MAX / 4, y: None, z: 0 };
    assert_eq!(
        c.convert(World::Nether).unwrap_err(),
        "X * 8 overflows i64: 2305843009213693951"
    );
    let c = Coords { x: 1, y: None, z: i64::MIN };
    assert_eq!(
        c.convert(World::Nether).unwrap_err(),
        "Z * 8 overflows i64: -9223372036854775808"
    );
    let c = Coords { x: i64::MAX / 8, y: None, z: 0 };
    assert!(c.convert(World::Nether).is_ok());
}

#[test]
fn target_is_an_involution() {
    for w in [World::Overworld, World::Nether] {
        assert_eq!(w.target().target(), w);
        assert_ne!(w.target(), w);
    }
}

#[test]
fn world_names_read_back() {
    for w in [World::Overworld, World::Nether] {
        assert_eq!(World::parse(w.name()), Some(w));
        assert_eq!(World::parse(w.display_name()), Some(w));
    }
    assert_eq!(World::parse("oW"), Some(World::Overworld));
    assert_eq!(World::parse("N"), Some(World::Nether));
    assert_eq!(World::parse(""), None);
    assert_eq!(World::parse("nethe"), None);
    assert_eq!(World::parse("ne"), None);
}

#[test]
fn reason_exactly_when_invalid() {
    let cases = [
        (McVersion::New, World::Overworld, Coords { x: 29_999_984, y: Some(319), z: -29_999_984 }),
        (McVersion::New, World::Nether, Coords { x: 29_999_985, y: None, z: 0 }),
        (McVersion::Old, World::Nether, Coords { x: 0, y: Some(128), z: 0 }),
        (McVersion::Old, World::Overworld, Coords { x: 0, y: Some(255), z: -30_000_001 }),
        (McVersion::Old, World::Overworld, Coords { x: i64::MIN, y: None, z: 0 }),
    ];
    for (v, d, c) in cases {
        assert_eq!(validity_reason(v, d, &c).is_none(), v.is_valid(d, &c));
    }
}

#[test]
fn validity_reason_messages() {
    assert_eq!(
        validity_reason(McVersion::New, World::Overworld, &Coords { x: 0, y: None, z: 30_000_000 }),
        Some("X/Z out of range [-29999984, 29999984]".to_string())
    );
    assert_eq!(
        validity_reason(McVersion::Old, World::Nether, &Coords { x: 0, y: Some(-1), z: 0 }),
        Some("Y out of range [0, 127]".to_string())
    );
    assert_eq!(
        validity_reason(McVersion::New, World::Nether, &Coords { x: 1, y: Some(400), z: 1 }),
        Some("Y out of range [-64, 319]".to_string())
    );
    assert_eq!(
        validity_reason(McVersion::Old, World::Overworld, &Coords { x: 30_000_000, y: Some(300), z: 0 }),
        Some("Y out of range [0, 255]".to_string())
    );
}

#[test]
fn xz_limit_and_y_range_values() {
    assert_eq!(McVersion::Old.xz_limit(), 30_000_000);
    assert_eq!(McVersion::New.xz_limit(), 29_999_984);
    assert_eq!(McVersion::Old.y_range(World::Overworld), (0, 255));
    assert_eq!(McVersion::Old.y_range(World::Nether), (0, 127));
    assert_eq!(McVersion::New.y_range(World::Nether), (-64, 319));
    assert_eq!(McVersion::Old.name(), "old");
    assert_eq!(McVersion::New.name(), "new");
}

#[test]
fn formatted_coords_read_back() {
    for c in [
        Coords { x: -5, y: Some(0), z: 17 },
        Coords { x: i64::MIN, y: None, z: i64::MAX },
        Coords { x: 0, y: Some(-64), z: -0 },
    ] {
        let text = fmt_coords(&c);
        assert_eq!(parse_validate_line(&text, World::Nether), Ok((World::Nether, c)));
        assert_eq!(parse_line(&text, Some(World::Overworld)), Ok(Item { from: World::Overworld, coords: c }));
    }
    assert_eq!(fmt_coords(&Coords { x: -5, y: Some(0), z: 17 }), "-5 0 17");
    assert_eq!(fmt_coords(&Coords { x: 3, y: None, z: -4 }), "3 -4");
}

#[test]
fn comma_form_reads_as_spaced() {
    assert_eq!(Coords::parse(&["+1,-2,3"]), Coords::parse(&["+1", "-2", "3"]));
    assert_eq!(Coords::parse(&["7,x"]), Coords::parse(&["7", "x"]));
    assert_eq!(Coords::parse(&["1,,2"]).unwrap(), Coords { x: 1, y: None, z: 2 });
    assert_eq!(Coords::parse(&[" 1 , 2 "]).unwrap(), Coords { x: 1, y: None, z: 2 });
    assert_eq!(Coords::parse(&[",5,6,"]).unwrap(), Coords { x: 5, y: None, z: 6 });
}

#[test]
fn number_edge_cases() {
    assert_eq!(Coords::parse(&["-9223372036854775808", "9223372036854775807"]).unwrap(),
        Coords { x: i64::MIN, y: None, z: i64::MAX });
    assert_eq!(Coords::parse(&["-0", "+0"]).unwrap(), Coords { x: 0, y: None, z: 0 });
    assert_eq!(Coords::parse(&["0007", "-0010"]).unwrap(), Coords { x: 7, y: None, z: -10 });
    assert_eq!(
        Coords::parse(&["9223372036854775808", "0"]).unwrap_err(),
        "invalid coordinate: \"9223372036854775808\""
    );
    assert_eq!(Coords::parse(&["+", "0"]).unwrap_err(), "invalid coordinate: \"+\"");
    assert_eq!(Coords::parse(&["1", "2-"]).unwrap_err(), "invalid coordinate: \"2-\"");
    assert_eq!(Coords::parse(&["1", "--2"]).unwrap_err(), "invalid coordinate: \"--2\"");
}

#[test]
fn coords_parse_errors() {
    assert_eq!(Coords::parse(&["abc", "64", "200"]).unwrap_err(), "invalid coordinate: \"abc\"");
    assert_eq!(Coords::parse(&["1", "x", "y"]).unwrap_err(), "invalid coordinate: \"x\"");
    assert_eq!(Coords::parse(&["a\"b"]).unwrap_err(), "invalid coordinate: \"a\\\"b\"");
    assert_eq!(Coords::parse(&["100"]).unwrap_err(), "expected 2 or 3 coordinates, got 1");
    assert_eq!(Coords::parse(&["1", "2", "3", "4"]).unwrap_err(), "expected 2 or 3 coordinates, got 4");
    assert_eq!(Coords::parse(&[]).unwrap_err(), "expected 2 or 3 coordinates, got 0");
    assert_eq!(Coords::parse(&[","]).unwrap_err(), "expected 2 or 3 coordinates, got 0");
}

#[test]
fn parts_with_and_without_y() {
    let c = Coords { x: 1, y: Some(2), z: 3 };
    assert_eq!(c.parts(false), vec![1, 2, 3]);
    assert_eq!(c.parts(true), vec![1, 3]);
    assert_eq!(Coords { x: 1, y: None, z: 3 }.parts(false), vec![1, 3]);
}

#[test]
fn line_errors() {
    assert_eq!(parse_line("   ", None).unwrap_err(), "empty line");
    assert_eq!(parse_line("nether", Some(World::Overworld)).unwrap_err(), "missing coordinates");
    assert_eq!(parse_line("foo 1 2", None).unwrap_err(), "unknown world: \"foo\"");
    assert_eq!(parse_validate_line("", World::Nether).unwrap_err(), "empty line");
    assert_eq!(parse_validate_line("o", World::Nether).unwrap_err(), "expected 2 or 3 coordinates, got 0");
}

#[test]
fn line_world_overrides_default() {
    assert_eq!(parse_line("OW 8 8", Some(World::Nether)), parse_line("OW 8 8", None));
    assert_eq!(parse_line("OW 8 8", None).unwrap().from, World::Overworld);
    assert_eq!(parse_validate_line("n 1 2", World::Overworld).unwrap().0, World::Nether);
}

#[test]
fn unicode_whitespace_separates_words() {
    let item = parse_line("nether\u{3000}1\t2\u{2003}3", None).unwrap();
    assert_eq!(item, Item { from: World::Nether, coords: Coords { x: 1, y: Some(2), z: 3 } });
}

#[test]
fn parse_errors_of_names() {
    assert_eq!(
        McVersion::parse("1.18").unwrap_err(),
        "unknown MC version: \"1.18\" (expected old or new)"
    );
    assert_eq!(OutputFormat::parse("space-sep"), Ok(OutputFormat::Space));
    assert_eq!(OutputFormat::parse("comma-sep"), Ok(OutputFormat::Comma));
    assert_eq!(
        OutputFormat::parse("tabs").unwrap_err(),
        "unknown output format: \"tabs\" (expected space-sep or comma-sep)"
    );
    assert_eq!(OutputFormat::Space.sep(), " ");
    assert_eq!(OutputFormat::Comma.sep(), ",");
}

#[test]
fn render_variants() {
    let item = Item { from: World::Nether, coords: Coords { x: -1, y: Some(5), z: 2 } };
    let mut o = opts();
    o.add_from_dimension = true;
    o.add_dimension_to_output = true;
    o.output_format = OutputFormat::Comma;
    assert_eq!(render(&item, &o).unwrap(), "Nether -1,5,2 -> Overworld -8,5,16");
    let mut o = opts();
    o.add_dimension_to_output = true;
    o.no_y = true;
    assert_eq!(render(&item, &o).unwrap(), "overworld -8 16");
    let big = Item { from: World::Nether, coords: Coords { x: i64::MAX, y: None, z: 0 } };
    assert_eq!(render(&big, &opts()).unwrap_err(), "X * 8 overflows i64: 9223372036854775807");
}

#[test]
fn render_items_one_line_each_and_first_error() {
    let items = vec![
        Item { from: World::Nether, coords: Coords { x: 1, y: None, z: 1 } },
        Item { from: World::Overworld, coords: Coords { x: 16, y: Some(70), z: -16 } },
    ];
    assert_eq!(render_items(&items, &opts()).unwrap(), vec!["8 8", "2 70 -2"]);
    let mut o = opts();
    o.mc_version = McVersion::Old;
    let items = vec![
        Item { from: World::Overworld, coords: Coords { x: 0, y: Some(10), z: 0 } },
        Item { from: World::Nether, coords: Coords { x: 0, y: Some(128), z: 0 } },
        Item { from: World::Nether, coords: Coords { x: i64::MAX, y: None, z: 0 } },
    ];
    assert_eq!(
        render_items(&items, &o).unwrap_err(),
        "invalid coords for nether (0 128 0) with mc-version old: Y out of range [0, 127]"
    );
    o.ignore_invalid_coords = true;
    assert_eq!(
        render_items(&items, &o).unwrap_err(),
        "X * 8 overflows i64: 9223372036854775807"
    );
    assert_eq!(render_items(&[], &o).unwrap(), Vec::<String>::new());
}

#[test]
fn convert_flags_read() {
    let (o, pos) = parse_convert_flags(&args(&[
        "-i", "in.txt", "n", "-o", "-", "--no-y", "--add-dimension-to-output",
        "--add-from-dimension", "--mc-version", "old", "--ignore-invalid-coords",
        "--output-format", "comma-sep", "1", "2",
    ]))
    .unwrap()
    .unwrap();
    assert_eq!(o.input, Some("in.txt".to_string()));
    assert_eq!(o.output, Some("-".to_string()));
    assert!(o.no_y && o.add_dimension_to_output && o.add_from_dimension && o.ignore_invalid_coords);
    assert_eq!(o.mc_version, McVersion::Old);
    assert_eq!(o.output_format, OutputFormat::Comma);
    assert_eq!(pos, args(&["n", "1", "2"]));
    assert!(parse_convert_flags(&args(&["1", "--help", "--bogus-value-for"])).unwrap().is_none());
    assert_eq!(parse_convert_flags(&args(&["-i"])).unwrap_err(), "missing value for -i");
    assert_eq!(parse_convert_flags(&args(&["-o"])).unwrap_err(), "missing value for -o");
    assert_eq!(parse_convert_flags(&args(&["--mc-version"])).unwrap_err(), "missing value for --mc-version");
    assert_eq!(
        parse_convert_flags(&args(&["--output-format"])).unwrap_err(),
        "missing value for --output-format"
    );
    assert_eq!(
        parse_convert_flags(&args(&["--mc-version", "x", "-h"])).unwrap_err(),
        "unknown MC version: \"x\" (expected old or new)"
    );
}

#[test]
fn validate_flags_read() {
    let (o, pos) = parse_validate_flags(&args(&["--dimension", "N", "--mc-version", "new", "5", "6"]))
        .unwrap()
        .unwrap();
    assert_eq!(o.dimension, Some(World::Nether));
    assert_eq!(o.mc_version, McVersion::New);
    assert_eq!(pos, args(&["5", "6"]));
    assert_eq!(parse_validate_flags(&args(&["1", "2"])).unwrap_err(), "missing --mc-version old|new");
    assert!(parse_validate_flags(&args(&["-h"])).unwrap().is_none());
    assert_eq!(
        parse_validate_flags(&args(&["--dimension", "end"])).unwrap_err(),
        "invalid dimension: \"end\" (expected n/nether/o/ow/overworld)"
    );
    assert_eq!(parse_validate_flags(&args(&["--dimension"])).unwrap_err(), "missing value for --dimension");
}

#[test]
fn split_world_cases() {
    assert_eq!(
        split_world(&args(&["1", "ow", "2"])).unwrap(),
        (Some(World::Overworld), args(&["1", "2"]))
    );
    assert_eq!(split_world(&args(&["1", "2"])).unwrap(), (None, args(&["1", "2"])));
    assert_eq!(split_world(&args(&["n", "O"])).unwrap_err(), "unexpected world: \"O\"");
}

#[test]
fn run_convert_steps() {
    match run_convert(&args(&["n", "100", "64", "200"]), None).unwrap() {
        Step::Write(None, out) => assert_eq!(out, vec!["800 64 1600"]),
        _ => panic!("expected output"),
    }
    match run_convert(&args(&["-i", "-"]), None).unwrap() {
        Step::ReadInput(None) => {},
        _ => panic!("expected a read of stdin"),
    }
    match run_convert(&args(&["-i", "f.txt", "-o", "g.txt", "o"]), None).unwrap() {
        Step::ReadInput(Some(p)) => assert_eq!(p, "f.txt"),
        _ => panic!("expected a read of a file"),
    }
    let input = lines(&["", "800,800", "  ", "n 1 2 3"]);
    match run_convert(&args(&["-o", "g.txt", "o"]), Some(&input)).unwrap() {
        Step::Write(Some(p), out) => {
            assert_eq!(p, "g.txt");
            assert_eq!(out, vec!["100 100", "8 2 24"]);
        },
        _ => panic!("expected output"),
    }
    assert!(matches!(run_convert(&args(&["--help"]), None).unwrap(), Step::Help));
    assert_eq!(
        run_convert(&args(&["1", "2"]), None).unwrap_err(),
        "missing source world (use n/nether/o/ow/overworld)"
    );
    assert_eq!(run_convert(&args(&[]), Some(&lines(&["", " "]))).unwrap_err(), "no input");
    match run_convert(&args(&["n", "0", "320", "0"]), None).unwrap() {
        Step::Failed(m) => assert_eq!(
            m,
            "invalid coords for nether (0 320 0) with mc-version new: Y out of range [-64, 319]"
        ),
        _ => panic!("expected a failure"),
    }
}

#[test]
fn run_validate_steps() {
    match run_validate(&args(&["--mc-version", "old", "n", "0", "128", "0"]), None).unwrap() {
        Step::Write(None, out) => assert_eq!(out, vec!["0"]),
        _ => panic!("expected output"),
    }
    let input = lines(&["0 64 0", "", "nether 0 128 0", "30000001 0"]);
    match run_validate(&args(&["--mc-version", "old"]), Some(&input)).unwrap() {
        Step::Write(None, out) => assert_eq!(out, vec!["1", "0", "0"]),
        _ => panic!("expected output"),
    }
    assert_eq!(
        run_validate(&args(&["--mc-version", "new", "--dimension", "n", "o"]), None).unwrap_err(),
        "conflicting dimensions: --dimension \"nether\" and positional \"overworld\""
    );
    match run_validate(&args(&["--mc-version", "new", "--dimension", "n", "N", "1", "2"]), None).unwrap() {
        Step::Write(None, out) => assert_eq!(out, vec!["1"]),
        _ => panic!("expected output"),
    }
    match run_validate(&args(&["--mc-version", "new", "-i", "in"]), None).unwrap() {
        Step::ReadInput(Some(p)) => assert_eq!(p, "in"),
        _ => panic!("expected a read"),
    }
    assert_eq!(run_validate(&args(&["--mc-version", "new"]), Some(&lines(&[]))).unwrap_err(), "no input");
}

#[test]
fn output_lines_read_back() {
    let out = lines(&["800 64 1600", "", "1,2"]);
    let content = output_content(&out).unwrap();
    assert_eq!(content, "800 64 1600\n\n1,2\n");
    assert_eq!(split_lines(&content), out);
    assert_eq!(output_content(&Vec::new()), None);
}

#[test]
fn split_lines_cases() {
    assert_eq!(split_lines(""), Vec::<String>::new());
    assert_eq!(split_lines("\n"), lines(&[""]));
    assert_eq!(split_lines("a\r\nb\n"), lines(&["a", "b"]));
    assert_eq!(split_lines("a\r"), lines(&["a\r"]));
    assert_eq!(split_lines("a\n\nb"), lines(&["a", "", "b"]));
    assert_eq!(split_lines("x\r\r\n"), lines(&["x\r"]));
}

#[test]
fn usage_texts() {
    let mut s = String::from(">");
    print_usage_to(&mut s);
    assert_eq!(
        s,
        ">usage: mccoords <command> [OPTIONS]\n\ncommands:\n  convert   convert coordinates between the overworld and the nether\n  validate  check coordinates against the world limits of an MC version\n\nrun 'mccoords <command> --help' for details\n"
    );
    let mut c = String::new();
    print_convert_usage_to(&mut c);
    assert!(c.starts_with("usage: mccoords convert [OPTIONS] [WORLD] [X [Y] Z]\n\n"));
    assert!(c.ends_with("  -h, --help                     show this help\n"));
    assert_eq!(c.lines().count(), 25);
    let mut v = String::new();
    print_validate_usage_to(&mut v);
    assert!(v.starts_with("usage: mccoords validate [OPTIONS] [DIMENSION] [X [Y] Z]\n"));
    assert!(v.contains("  new  both       X/Z in [-29,999,984, 29,999,984],  Y in [-64, 319]\n"));
    assert_eq!(v.lines().count(), 23);
}

#[test]
fn output_format_affects_output_only() {
    let bad = Item { from: World::Overworld, coords: Coords { x: 40_000_000, y: None, z: 0 } };
    let good = Item { from: World::Overworld, coords: Coords { x: 80, y: Some(3), z: 8 } };
    let space = opts();
    let mut comma = opts();
    comma.output_format = OutputFormat::Comma;
    assert_eq!(
        render_items(&[bad], &space).unwrap_err(),
        render_items(&[bad], &comma).unwrap_err()
    );
    assert_eq!(render_items(&[good], &space).unwrap(), vec!["10 3 1"]);
    assert_eq!(render_items(&[good], &comma).unwrap(), vec!["10,3,1"]);
}

#[test]
fn first_bad_input_line_is_reported() {
    let input = lines(&["o 1 2", "o x 2", "q 1 2"]);
    assert_eq!(
        run_convert(&args(&[]), Some(&input)).unwrap_err(),
        "invalid coordinate: \"x\""
    );
    let input = lines(&["1 2", "1"]);
    assert_eq!(
        run_validate(&args(&["--mc-version", "old"]), Some(&input)).unwrap_err(),
        "expected 2 or 3 coordinates, got 1"
    );
}
