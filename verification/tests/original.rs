use mccoords::{
    parse_line, parse_validate_line, render, render_items, ConvertOpts, Coords, Item, McVersion,
    OutputFormat, World,
};

fn convert_opts() -> ConvertOpts {
    ConvertOpts {
        input: None,
        output: None,
        no_y: false,
        add_dimension_to_output: false,
        add_from_dimension: false,
        output_format: OutputFormat::Space,
        mc_version: McVersion::New,
        ignore_invalid_coords: false,
    }
}

#[test]
fn nether_to_overworld() {
    let c = Coords {
        x: 100,
        y: Some(64),
        z: 200,
    };
    assert_eq!(
        c.convert(World::Nether).unwrap(),
        Coords {
            x: 800,
            y: Some(64),
            z: 1600,
        }
    );
}

#[test]
fn overworld_to_nether() {
    let c = Coords {
        x: 800,
        y: Some(64),
        z: 1600,
    };
    assert_eq!(
        c.convert(World::Overworld).unwrap(),
        Coords {
            x: 100,
            y: Some(64),
            z: 200,
        }
    );
}

#[test]
fn overworld_to_nether_truncates_toward_zero() {
    assert_eq!(
        Coords {
            x: 100,
            y: None,
            z: 200,
        }
        .convert(World::Overworld)
        .unwrap(),
        Coords {
            x: 12,
            y: None,
            z: 25,
        }
    );
    assert_eq!(
        Coords {
            x: -100,
            y: None,
            z: -200,
        }
        .convert(World::Overworld)
        .unwrap(),
        Coords {
            x: -12,
            y: None,
            z: -25,
        }
    );
}

#[test]
fn world_aliases() {
    assert_eq!(World::parse("n"), Some(World::Nether));
    assert_eq!(World::parse("nether"), Some(World::Nether));
    assert_eq!(World::parse("NETHER"), Some(World::Nether));
    assert_eq!(World::parse("o"), Some(World::Overworld));
    assert_eq!(World::parse("ow"), Some(World::Overworld));
    assert_eq!(World::parse("Overworld"), Some(World::Overworld));
    assert_eq!(World::parse("x"), None);
}

#[test]
fn coords_spaced() {
    assert_eq!(
        Coords::parse(&["100", "64", "200"]).unwrap(),
        Coords {
            x: 100,
            y: Some(64),
            z: 200,
        }
    );
    assert_eq!(
        Coords::parse(&["100", "200"]).unwrap(),
        Coords {
            x: 100,
            y: None,
            z: 200,
        }
    );
}

#[test]
fn coords_comma() {
    assert_eq!(
        Coords::parse(&["100,64,200"]).unwrap(),
        Coords {
            x: 100,
            y: Some(64),
            z: 200,
        }
    );
    assert_eq!(
        Coords::parse(&["100,200"]).unwrap(),
        Coords {
            x: 100,
            y: None,
            z: 200,
        }
    );
}

#[test]
fn coords_invalid() {
    assert!(Coords::parse(&["100"]).is_err());
    assert!(Coords::parse(&["100", "64", "200", "1"]).is_err());
    assert!(Coords::parse(&["abc", "64", "200"]).is_err());
}

#[test]
fn parse_line_with_world() {
    let item = parse_line("nether 100 64 200", None).unwrap();
    assert_eq!(item.from, World::Nether);
    assert_eq!(
        item.coords,
        Coords {
            x: 100,
            y: Some(64),
            z: 200,
        }
    );
}

#[test]
fn parse_line_default_world() {
    let item = parse_line("800,800", Some(World::Overworld)).unwrap();
    assert_eq!(item.from, World::Overworld);
    assert_eq!(
        item.coords,
        Coords {
            x: 800,
            y: None,
            z: 800,
        }
    );
}

#[test]
fn render_default() {
    let item = Item {
        from: World::Nether,
        coords: Coords {
            x: 100,
            y: Some(64),
            z: 200,
        },
    };
    assert_eq!(render(&item, &convert_opts()).unwrap(), "800 64 1600");
}

#[test]
fn render_no_y() {
    let item = Item {
        from: World::Nether,
        coords: Coords {
            x: 100,
            y: Some(64),
            z: 100,
        },
    };
    let mut o = convert_opts();
    o.no_y = true;
    assert_eq!(render(&item, &o).unwrap(), "800 800");
}

#[test]
fn render_add_dimension_to_output() {
    let item = Item {
        from: World::Overworld,
        coords: Coords {
            x: 800,
            y: None,
            z: 800,
        },
    };
    let mut o = convert_opts();
    o.add_dimension_to_output = true;
    assert_eq!(render(&item, &o).unwrap(), "nether 100 100");
}

#[test]
fn render_add_from_dimension() {
    let item = Item {
        from: World::Overworld,
        coords: Coords {
            x: 800,
            y: Some(64),
            z: 800,
        },
    };
    let mut o = convert_opts();
    o.add_from_dimension = true;
    assert_eq!(
        render(&item, &o).unwrap(),
        "Overworld 800 64 800 -> Nether 100 64 100"
    );
}

#[test]
fn render_comma_sep() {
    let item = Item {
        from: World::Overworld,
        coords: Coords {
            x: 800,
            y: Some(64),
            z: 100,
        },
    };
    let mut o = convert_opts();
    o.output_format = OutputFormat::Comma;
    assert_eq!(render(&item, &o).unwrap(), "100,64,12");
}

#[test]
fn cli_example_comma_sep_batch() {
    let lines = ["o 800,800", "n 100 64 100"];
    let items: Vec<Item> = lines.iter().map(|l| parse_line(l, None).unwrap()).collect();
    let mut o = convert_opts();
    o.output_format = OutputFormat::Comma;
    let out: Vec<String> = items.iter().map(|item| render(item, &o).unwrap()).collect();
    assert_eq!(out, vec!["100,100", "800,64,800"]);
}

#[test]
fn convert_valid_coords() {
    let opts = convert_opts();
    let items = vec![Item {
        from: World::Nether,
        coords: Coords {
            x: 100,
            y: Some(64),
            z: 200,
        },
    }];
    assert_eq!(
        render_items(&items, &opts).unwrap(),
        vec!["800 64 1600"]
    );
}

#[test]
fn convert_invalid_default_errors() {
    let opts = ConvertOpts {
        mc_version: McVersion::Old,
        ..convert_opts()
    };
    let items = vec![Item {
        from: World::Nether,
        coords: Coords {
            x: 0,
            y: Some(128),
            z: 0,
        },
    }];
    let err = render_items(&items, &opts).unwrap_err();
    assert!(err.contains("invalid coords"));
}

#[test]
fn convert_invalid_out_of_bounds_x_errors() {
    let opts = convert_opts();
    let items = vec![Item {
        from: World::Overworld,
        coords: Coords {
            x: 30_000_000,
            y: None,
            z: 0,
        },
    }];
    assert!(render_items(&items, &opts).is_err());
}

#[test]
fn convert_invalid_ignored_ok() {
    let opts = ConvertOpts {
        mc_version: McVersion::Old,
        ignore_invalid_coords: true,
        ..convert_opts()
    };
    let items = vec![Item {
        from: World::Nether,
        coords: Coords {
            x: 0,
            y: Some(128),
            z: 0,
        },
    }];
    assert_eq!(render_items(&items, &opts).unwrap(), vec!["0 128 0"]);
}

#[test]
fn convert_overflow_errors() {
    let c = Coords {
        x: i64::MAX / 4,
        y: None,
        z: 0,
    };
    assert!(c.convert(World::Nether).is_err());
}

#[test]
fn mc_version_parse() {
    assert_eq!(McVersion::parse("old"), Ok(McVersion::Old));
    assert_eq!(McVersion::parse("new"), Ok(McVersion::New));
    assert!(McVersion::parse("1.18").is_err());
}

#[test]
fn validate_new_limits() {
    let v = McVersion::New;
    let c = |x: i64, y: i64, z: i64| Coords { x, y: Some(y), z };
    assert!(v.is_valid(World::Overworld, &c(29_999_984, 64, 29_999_984)));
    assert!(!v.is_valid(World::Overworld, &c(30_000_000, 64, 0)));
    assert!(!v.is_valid(World::Overworld, &c(0, -65, 0)));
    assert!(v.is_valid(World::Overworld, &c(0, -64, 0)));
    assert!(!v.is_valid(World::Overworld, &c(0, 320, 0)));
    assert!(v.is_valid(World::Overworld, &c(0, 319, 0)));
}

#[test]
fn validate_old_limits() {
    let v = McVersion::Old;
    let c = |x: i64, y: i64, z: i64| Coords { x, y: Some(y), z };
    assert!(v.is_valid(World::Overworld, &c(30_000_000, 255, 30_000_000)));
    assert!(!v.is_valid(World::Overworld, &c(30_000_001, 0, 0)));
    assert!(!v.is_valid(World::Overworld, &c(0, -1, 0)));
    assert!(v.is_valid(World::Overworld, &c(0, 0, 0)));
    assert!(!v.is_valid(World::Overworld, &c(0, 256, 0)));
}

#[test]
fn validate_old_nether_y_ceiling() {
    let v = McVersion::Old;
    let c = |y: i64| Coords { x: 0, y: Some(y), z: 0 };
    assert!(v.is_valid(World::Nether, &c(0)));
    assert!(v.is_valid(World::Nether, &c(127)));
    assert!(!v.is_valid(World::Nether, &c(128)));
    assert!(!v.is_valid(World::Nether, &c(-1)));
}

#[test]
fn validate_without_y() {
    assert!(McVersion::New.is_valid(World::Overworld, &Coords {
        x: 0,
        y: None,
        z: 29_999_984
    }));
    assert!(!McVersion::New.is_valid(World::Overworld, &Coords {
        x: 29_999_985,
        y: None,
        z: 0
    }));
}

#[test]
fn parse_validate_line_with_dimension() {
    let (dim, coords) = parse_validate_line("nether 0 128 0", World::Overworld).unwrap();
    assert_eq!(dim, World::Nether);
    assert_eq!(
        coords,
        Coords {
            x: 0,
            y: Some(128),
            z: 0,
        }
    );
}

#[test]
fn parse_validate_line_default_dimension() {
    let (dim, coords) = parse_validate_line("800 800", World::Nether).unwrap();
    assert_eq!(dim, World::Nether);
    assert_eq!(
        coords,
        Coords {
            x: 800,
            y: None,
            z: 800,
        }
    );
}
