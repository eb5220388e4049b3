//! Block coordinates: reading them from text, converting them between the
//! overworld and the nether, and listing their parts.
use vstd::prelude::*;
use crate::number::{int_decimal, parse_i64, parse_i64_spec, push_count, push_decimal};
use crate::text::{
    has_char, push_debug, split_chars, split_on, text_result, to_chars, trim, trim_chars, views,
    debug_text, string_from,
};
use crate::world::World;

verus! {

/// A position: `x` and `z` always, the height `y` where it was given.
#[derive(Clone, Copy, PartialEq, Eq, Debug, Structural)]
pub struct Coords {
    pub x: i64,
    pub y: Option<i64>,
    pub z: i64,
}

/// The pieces left of a comma-separated token: each piece trimmed, empty
/// pieces dropped.
pub open spec fn kept_pieces(ps: Seq<Seq<char>>) -> Seq<Seq<char>>
    decreases ps.len(),
{
    if ps.len() == 0 {
        seq![]
    } else {
        let r = kept_pieces(ps.drop_last());
        let t = trim(ps.last());
        if t.len() > 0 {
            r.push(t)
        } else {
            r
        }
    }
}

/// The fields that the numbers are read from: the pieces of a lone token
/// that holds a comma, else the tokens themselves.
pub open spec fn coord_fields(tokens: Seq<Seq<char>>) -> Seq<Seq<char>> {
    if tokens.len() == 1 && tokens[0].contains(',') {
        kept_pieces(split_on(tokens[0], ','))
    } else {
        tokens
    }
}

/// The numbers of the fields, each read after trimming it, or the first
/// field that is no `i64`.
pub open spec fn field_values(fs: Seq<Seq<char>>) -> Result<Seq<i64>, Seq<char>>
    decreases fs.len(),
{
    if fs.len() == 0 {
        Ok(seq![])
    } else {
        match field_values(fs.drop_last()) {
            Err(bad) => Err(bad),
            Ok(vs) => match parse_i64_spec(trim(fs.last())) {
                Some(v) => Ok(vs.push(v)),
                None => Err(fs.last()),
            },
        }
    }
}

/// The coordinates that the tokens spell, or the error message: two numbers
/// are `x z`, three are `x y z`.
pub open spec fn coords_from_tokens(tokens: Seq<Seq<char>>) -> Result<Coords, Seq<char>> {
    match field_values(coord_fields(tokens)) {
        Err(bad) => Err("invalid coordinate: "@ + debug_text(bad)),
        Ok(vs) => if vs.len() == 2 {
            Ok(Coords { x: vs[0], y: None, z: vs[1] })
        } else if vs.len() == 3 {
            Ok(Coords { x: vs[0], y: Some(vs[1]), z: vs[2] })
        } else {
            Err("expected 2 or 3 coordinates, got "@ + int_decimal(vs.len() as int))
        },
    }
}

/// Division by 8 that rounds toward zero, as `/` on `i64` does.
pub open spec fn div8(a: int) -> int {
    if a >= 0 {
        a / 8
    } else {
        -((-a) / 8)
    }
}

/// Whether `a * 8` fits in an `i64`.
pub open spec fn times8_fits(a: i64) -> bool {
    i64::MIN <= a * 8 <= i64::MAX
}

/// Where the coordinates `c` of the world `from` lead in the other world:
/// overworld to nether divides `x` and `z` by 8 (toward zero), nether to
/// overworld multiplies them by 8; `y` is kept.
pub open spec fn converted(c: Coords, from: World) -> Result<Coords, Seq<char>> {
    match from {
        World::Overworld => Ok(Coords { x: div8(c.x as int) as i64, y: c.y, z: div8(c.z as int) as i64 }),
        World::Nether => if !times8_fits(c.x) {
            Err("X * 8 overflows i64: "@ + int_decimal(c.x as int))
        } else if !times8_fits(c.z) {
            Err("Z * 8 overflows i64: "@ + int_decimal(c.z as int))
        } else {
            Ok(Coords { x: (c.x * 8) as i64, y: c.y, z: (c.z * 8) as i64 })
        },
    }
}

/// The numbers that are written out: `x y z`, or `x z` where `y` is absent
/// or left out.
pub open spec fn parts_of(c: Coords, no_y: bool) -> Seq<i64> {
    match c.y {
        Some(y) if !no_y => seq![c.x, y, c.z],
        _ => seq![c.x, c.z],
    }
}

proof fn lemma_field_values_error_persists(fs: Seq<Seq<char>>, k: int)
    requires
        0 <= k <= fs.len(),
        field_values(fs.take(k)) is Err,
    ensures
        field_values(fs) == field_values(fs.take(k)),
    decreases fs.len(),
{
    if k == fs.len() {
        assert(fs.take(k) =~= fs);
    } else {
        assert(fs.drop_last().take(k) =~= fs.take(k));
        lemma_field_values_error_persists(fs.drop_last(), k);
    }
}

/// The pieces `ps`, each trimmed, the empty ones dropped.
fn keep_pieces(ps: &Vec<Vec<char>>) -> (r: Vec<Vec<char>>)
    ensures
        views(r@) == kept_pieces(views(ps@)),
{
    let mut out: Vec<Vec<char>> = Vec::new();
    let mut i: usize = 0;
    assert(views(ps@).take(0) =~= Seq::<Seq<char>>::empty());
    assert(views(out@) =~= Seq::<Seq<char>>::empty());
    while i < ps.len()
        invariant
            i <= ps@.len(),
            views(out@) == kept_pieces(views(ps@).take(i as int)),
        decreases ps@.len() - i,
    {
        let t = trim_chars(&ps[i]);
        let ghost pre = views(ps@).take(i + 1);
        assert(pre.drop_last() =~= views(ps@).take(i as int));
        assert(pre.last() == ps@[i as int]@);
        if t.len() > 0 {
            let ghost before = views(out@);
            out.push(t);
            assert(views(out@) =~= before.push(t@));
        }
        i += 1;
    }
    assert(views(ps@).take(ps@.len() as int) =~= views(ps@));
    out
}

/// The coordinates read from the fields `fs`.
fn coords_of_fields(fs: &Vec<Vec<char>>) -> (r: Result<Coords, String>)
    ensures
        match field_values(views(fs@)) {
            Err(bad) => text_result(r) == Err::<Coords, Seq<char>>(
                "invalid coordinate: "@ + debug_text(bad),
            ),
            Ok(vs) => if vs.len() == 2 {
                r == Ok::<Coords, String>(Coords { x: vs[0], y: None, z: vs[1] })
            } else if vs.len() == 3 {
                r == Ok::<Coords, String>(Coords { x: vs[0], y: Some(vs[1]), z: vs[2] })
            } else {
                text_result(r) == Err::<Coords, Seq<char>>(
                    "expected 2 or 3 coordinates, got "@ + int_decimal(vs.len() as int),
                )
            },
        },
{
    let mut nums: Vec<i64> = Vec::new();
    let mut i: usize = 0;
    assert(views(fs@).take(0) =~= Seq::<Seq<char>>::empty());
    while i < fs.len()
        invariant
            i <= fs@.len(),
            field_values(views(fs@).take(i as int)) == Ok::<Seq<i64>, Seq<char>>(nums@),
        decreases fs@.len() - i,
    {
        let t = trim_chars(&fs[i]);
        let ghost pre = views(fs@).take(i + 1);
        assert(pre.drop_last() =~= views(fs@).take(i as int));
        assert(pre.last() == fs@[i as int]@);
        match parse_i64(&t) {
            Some(v) => {
                nums.push(v);
            },
            None => {
                proof {
                    lemma_field_values_error_persists(views(fs@), i + 1);
                }
                let mut e = string_from("invalid coordinate: ");
                push_debug(&mut e, &fs[i]);
                return Err(e);
            },
        }
        i += 1;
    }
    assert(views(fs@).take(fs@.len() as int) =~= views(fs@));
    if nums.len() == 2 {
        Ok(Coords { x: nums[0], y: None, z: nums[1] })
    } else if nums.len() == 3 {
        Ok(Coords { x: nums[0], y: Some(nums[1]), z: nums[2] })
    } else {
        let mut e = string_from("expected 2 or 3 coordinates, got ");
        push_count(&mut e, nums.len());
        Err(e)
    }
}

/// The coordinates that the tokens spell.
pub fn coords_of_tokens(tokens: &Vec<Vec<char>>) -> (r: Result<Coords, String>)
    ensures
        text_result(r) == coords_from_tokens(views(tokens@)),
{
    if tokens.len() == 1 && has_char(&tokens[0], ',') {
        let pieces = split_chars(&tokens[0], ',');
        let fields = keep_pieces(&pieces);
        coords_of_fields(&fields)
    } else {
        coords_of_fields(tokens)
    }
}

/// The characters of each token.
pub open spec fn str_views(tokens: Seq<&str>) -> Seq<Seq<char>> {
    tokens.map_values(|t: &str| t@)
}

impl Coords {
    /// Reads coordinates from tokens: `X Y Z` or `X Z` as separate tokens,
    /// or one token `X,Y,Z` or `X,Z`; each number may carry a sign.
    pub fn parse(tokens: &[&str]) -> (r: Result<Coords, String>)
        ensures
            text_result(r) == coords_from_tokens(str_views(tokens@)),
    {
        let mut v: Vec<Vec<char>> = Vec::new();
        let mut i: usize = 0;
        while i < tokens.len()
            invariant
                i <= tokens@.len(),
                views(v@) == str_views(tokens@).take(i as int),
            decreases tokens@.len() - i,
        {
            let ghost before = views(v@);
            let w = to_chars(tokens[i]);
            let ghost wv = w@;
            v.push(w);
            assert(views(v@) =~= before.push(wv));
            assert(wv == str_views(tokens@)[i as int]);
            assert(views(v@) =~= str_views(tokens@).take(i + 1));
            i += 1;
        }
        assert(str_views(tokens@).take(tokens@.len() as int) =~= str_views(tokens@));
        coords_of_tokens(&v)
    }

    /// The coordinates in the other world, seen from `from`: overworld to
    /// nether divides `x` and `z` by 8, rounding toward zero; nether to
    /// overworld multiplies them by 8 and fails where that overflows.
    pub fn convert(self, from: World) -> (r: Result<Coords, String>)
        ensures
            text_result(r) == converted(self, from),
    {
        match from {
            World::Overworld => Ok(Coords { x: self.x / 8, y: self.y, z: self.z / 8 }),
            World::Nether => {
                let x = match self.x.checked_mul(8) {
                    Some(v) => v,
                    None => {
                        let mut e = string_from("X * 8 overflows i64: ");
                        push_decimal(&mut e, self.x);
                        return Err(e);
                    },
                };
                let z = match self.z.checked_mul(8) {
                    Some(v) => v,
                    None => {
                        let mut e = string_from("Z * 8 overflows i64: ");
                        push_decimal(&mut e, self.z);
                        return Err(e);
                    },
                };
                Ok(Coords { x, y: self.y, z })
            },
        }
    }

    /// The numbers that are written out for these coordinates.
    pub fn parts(self, no_y: bool) -> (r: Vec<i64>)
        ensures
            r@ == parts_of(self, no_y),
    {
        match (self.y, no_y) {
            (Some(y), false) => vec![self.x, y, self.z],
            _ => vec![self.x, self.z],
        }
    }
}

} // verus!
