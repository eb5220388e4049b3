//! The two worlds, the Minecraft versions whose limits coordinates are held
//! to, and the output formats.
use vstd::prelude::*;
use crate::coords::Coords;
use crate::text::{chars_are, debug_text, lower_chars, lower_text, push_debug_str, same_text, string_from, to_chars};

verus! {

/// The world that coordinates belong to.
#[derive(Clone, Copy, PartialEq, Eq, Debug, Structural)]
pub enum World {
    Overworld,
    Nether,
}

/// The world that a name stands for: `n` or `nether`, `o`, `ow` or
/// `overworld`, in any ASCII case.
pub open spec fn world_named(s: Seq<char>) -> Option<World> {
    let l = lower_text(s);
    if l == "n"@ || l == "nether"@ {
        Some(World::Nether)
    } else if l == "o"@ || l == "ow"@ || l == "overworld"@ {
        Some(World::Overworld)
    } else {
        None
    }
}

impl World {
    pub open spec fn name_text(self) -> Seq<char> {
        match self {
            World::Overworld => "overworld"@,
            World::Nether => "nether"@,
        }
    }

    pub open spec fn display_text(self) -> Seq<char> {
        match self {
            World::Overworld => "Overworld"@,
            World::Nether => "Nether"@,
        }
    }

    pub open spec fn other(self) -> World {
        match self {
            World::Overworld => World::Nether,
            World::Nether => World::Overworld,
        }
    }

    /// The world that the characters `s` name.
    pub fn parse_chars(s: &[char]) -> (r: Option<World>)
        ensures
            r == world_named(s@),
    {
        let l = lower_chars(s);
        if chars_are(&l, "n") || chars_are(&l, "nether") {
            Some(World::Nether)
        } else if chars_are(&l, "o") || chars_are(&l, "ow") || chars_are(&l, "overworld") {
            Some(World::Overworld)
        } else {
            None
        }
    }

    /// The world that `s` names, ignoring ASCII case.
    pub fn parse(s: &str) -> (r: Option<World>)
        ensures
            r == world_named(s@),
    {
        let v = to_chars(s);
        World::parse_chars(&v)
    }

    /// The lower-case name of the world.
    pub fn name(self) -> (r: &'static str)
        ensures
            r@ == self.name_text(),
    {
        match self {
            World::Overworld => "overworld",
            World::Nether => "nether",
        }
    }

    /// The capitalised name of the world.
    pub fn display_name(self) -> (r: &'static str)
        ensures
            r@ == self.display_text(),
    {
        match self {
            World::Overworld => "Overworld",
            World::Nether => "Nether",
        }
    }

    /// The world that coordinates are converted into.
    pub fn target(self) -> (r: World)
        ensures
            r == self.other(),
    {
        match self {
            World::Overworld => World::Nether,
            World::Nether => World::Overworld,
        }
    }
}

/// How the numbers of the output are separated.
#[derive(Clone, Copy, PartialEq, Eq, Debug, Structural)]
pub enum OutputFormat {
    Space,
    Comma,
}

/// The output format named `s`, or the error message.
pub open spec fn output_format_named(s: Seq<char>) -> Result<OutputFormat, Seq<char>> {
    if s == "space-sep"@ {
        Ok(OutputFormat::Space)
    } else if s == "comma-sep"@ {
        Ok(OutputFormat::Comma)
    } else {
        Err("unknown output format: "@ + debug_text(s) + " (expected space-sep or comma-sep)"@)
    }
}

impl OutputFormat {
    pub open spec fn sep_text(self) -> Seq<char> {
        match self {
            OutputFormat::Space => " "@,
            OutputFormat::Comma => ","@,
        }
    }

    /// The output format named `s` (`space-sep` or `comma-sep`).
    pub fn parse(s: &str) -> (r: Result<OutputFormat, String>)
        ensures
            match r {
                Ok(f) => output_format_named(s@) == Ok::<OutputFormat, Seq<char>>(f),
                Err(e) => output_format_named(s@) == Err::<OutputFormat, Seq<char>>(e@),
            },
    {
        if same_text(s, "space-sep") {
            Ok(OutputFormat::Space)
        } else if same_text(s, "comma-sep") {
            Ok(OutputFormat::Comma)
        } else {
            let mut e = string_from("unknown output format: ");
            push_debug_str(&mut e, s);
            e.append(" (expected space-sep or comma-sep)");
            Err(e)
        }
    }

    /// The separator written between numbers.
    pub fn sep(self) -> (r: &'static str)
        ensures
            r@ == self.sep_text(),
    {
        match self {
            OutputFormat::Space => " ",
            OutputFormat::Comma => ",",
        }
    }
}

/// The Minecraft version whose world limits apply.
#[derive(Clone, Copy, PartialEq, Eq, Debug, Structural)]
pub enum McVersion {
    Old,
    New,
}

/// The version named `s`, or the error message.
pub open spec fn version_named(s: Seq<char>) -> Result<McVersion, Seq<char>> {
    if s == "old"@ {
        Ok(McVersion::Old)
    } else if s == "new"@ {
        Ok(McVersion::New)
    } else {
        Err("unknown MC version: "@ + debug_text(s) + " (expected old or new)"@)
    }
}

impl McVersion {
    /// The largest `|x|` and `|z|` inside the world border.
    pub open spec fn xz_bound(self) -> i64 {
        match self {
            McVersion::Old => 30_000_000,
            McVersion::New => 29_999_984,
        }
    }

    /// The lowest and highest `y` of the world `dim`.
    pub open spec fn y_bounds(self, dim: World) -> (i64, i64) {
        match (self, dim) {
            (McVersion::Old, World::Overworld) => (0i64, 255i64),
            (McVersion::Old, World::Nether) => (0i64, 127i64),
            (McVersion::New, _) => (-64i64, 319i64),
        }
    }

    pub open spec fn name_text(self) -> Seq<char> {
        match self {
            McVersion::Old => "old"@,
            McVersion::New => "new"@,
        }
    }

    /// Whether `c` lies inside the limits of the world `dim` in this
    /// version: `x` and `z` within the border, `y`, where given, within the
    /// height range.
    pub open spec fn within(self, dim: World, c: Coords) -> bool {
        let xz = self.xz_bound();
        let (lo, hi) = self.y_bounds(dim);
        &&& -xz <= c.x <= xz
        &&& -xz <= c.z <= xz
        &&& c.y matches Some(y) ==> lo <= y <= hi
    }

    /// The version named `s` (`old` or `new`).
    pub fn parse(s: &str) -> (r: Result<McVersion, String>)
        ensures
            match r {
                Ok(v) => version_named(s@) == Ok::<McVersion, Seq<char>>(v),
                Err(e) => version_named(s@) == Err::<McVersion, Seq<char>>(e@),
            },
    {
        if same_text(s, "old") {
            Ok(McVersion::Old)
        } else if same_text(s, "new") {
            Ok(McVersion::New)
        } else {
            let mut e = string_from("unknown MC version: ");
            push_debug_str(&mut e, s);
            e.append(" (expected old or new)");
            Err(e)
        }
    }

    /// The largest `|x|` and `|z|` inside the world border.
    pub fn xz_limit(self) -> (r: i64)
        ensures
            r == self.xz_bound(),
    {
        match self {
            McVersion::Old => 30_000_000,
            McVersion::New => 29_999_984,
        }
    }

    /// The name of the version.
    pub fn name(self) -> (r: &'static str)
        ensures
            r@ == self.name_text(),
    {
        match self {
            McVersion::Old => "old",
            McVersion::New => "new",
        }
    }

    /// The lowest and highest `y` of the world `dim`.
    pub fn y_range(self, dim: World) -> (r: (i64, i64))
        ensures
            r == self.y_bounds(dim),
    {
        match (self, dim) {
            (McVersion::Old, World::Overworld) => (0, 255),
            (McVersion::Old, World::Nether) => (0, 127),
            (McVersion::New, _) => (-64, 319),
        }
    }

    /// Whether `c` lies inside the limits of the world `dim`.
    pub fn is_valid(self, dim: World, c: &Coords) -> (r: bool)
        ensures
            r == self.within(dim, *c),
    {
        let xz = self.xz_limit();
        let (y_lo, y_hi) = self.y_range(dim);
        let y_ok = match c.y {
            Some(y) => y >= y_lo && y <= y_hi,
            None => true,
        };
        -xz <= c.x && c.x <= xz && -xz <= c.z && c.z <= xz && y_ok
    }
}

} // verus!
