//! Reading one input line: an optional world name, then coordinates.
use vstd::prelude::*;
use crate::coords::{coords_from_tokens, coords_of_tokens, Coords};
use crate::text::{debug_text, push_debug, split_words, string_from, text_result, to_chars, views, words};
use crate::world::{world_named, World};

verus! {

/// Coordinates together with the world they were given in.
#[derive(Clone, Copy, PartialEq, Eq, Debug, Structural)]
pub struct Item {
    pub from: World,
    pub coords: Coords,
}

/// The item that a line of the `convert` input spells, or the error
/// message: a leading world name takes precedence over `default_world`;
/// without either, the line is refused.
pub open spec fn item_from_line(line: Seq<char>, default_world: Option<World>) -> Result<Item, Seq<char>> {
    let tokens = words(line);
    if tokens.len() == 0 {
        Err("empty line"@)
    } else {
        match world_named(tokens[0]) {
            Some(w) => if tokens.len() == 1 {
                Err("missing coordinates"@)
            } else {
                match coords_from_tokens(tokens.drop_first()) {
                    Ok(c) => Ok(Item { from: w, coords: c }),
                    Err(e) => Err(e),
                }
            },
            None => match default_world {
                Some(w) => match coords_from_tokens(tokens) {
                    Ok(c) => Ok(Item { from: w, coords: c }),
                    Err(e) => Err(e),
                },
                None => Err("unknown world: "@ + debug_text(tokens[0])),
            },
        }
    }
}

/// The world and coordinates that a line of the `validate` input spells,
/// or the error message: a leading world name overrides `default_dim`.
pub open spec fn check_from_line(line: Seq<char>, default_dim: World) -> Result<(World, Coords), Seq<char>> {
    let tokens = words(line);
    if tokens.len() == 0 {
        Err("empty line"@)
    } else {
        match world_named(tokens[0]) {
            Some(d) => match coords_from_tokens(tokens.drop_first()) {
                Ok(c) => Ok((d, c)),
                Err(e) => Err(e),
            },
            None => match coords_from_tokens(tokens) {
                Ok(c) => Ok((default_dim, c)),
                Err(e) => Err(e),
            },
        }
    }
}

/// Reads a line of the `convert` input: `[WORLD] coordinates`.
pub fn parse_line(line: &str, default_world: Option<World>) -> (r: Result<Item, String>)
    ensures
        text_result(r) == item_from_line(line@, default_world),
{
    let chars = to_chars(line);
    let mut tokens = split_words(&chars);
    if tokens.len() == 0 {
        return Err(string_from("empty line"));
    }
    let ghost all = views(tokens@);
    match World::parse_chars(&tokens[0]) {
        Some(world) => {
            let rest = tokens.split_off(1);
            assert(views(rest@) =~= all.drop_first());
            if rest.len() == 0 {
                return Err(string_from("missing coordinates"));
            }
            match coords_of_tokens(&rest) {
                Ok(coords) => Ok(Item { from: world, coords }),
                Err(e) => Err(e),
            }
        },
        None => match default_world {
            Some(world) => match coords_of_tokens(&tokens) {
                Ok(coords) => Ok(Item { from: world, coords }),
                Err(e) => Err(e),
            },
            None => {
                let mut e = string_from("unknown world: ");
                push_debug(&mut e, &tokens[0]);
                Err(e)
            },
        },
    }
}

/// Reads a line of the `validate` input: `[DIMENSION] coordinates`.
pub fn parse_validate_line(line: &str, default_dim: World) -> (r: Result<(World, Coords), String>)
    ensures
        text_result(r) == check_from_line(line@, default_dim),
{
    let chars = to_chars(line);
    let mut tokens = split_words(&chars);
    if tokens.len() == 0 {
        return Err(string_from("empty line"));
    }
    let ghost all = views(tokens@);
    match World::parse_chars(&tokens[0]) {
        Some(dim) => {
            let rest = tokens.split_off(1);
            assert(views(rest@) =~= all.drop_first());
            match coords_of_tokens(&rest) {
                Ok(coords) => Ok((dim, coords)),
                Err(e) => Err(e),
            }
        },
        None => match coords_of_tokens(&tokens) {
            Ok(coords) => Ok((default_dim, coords)),
            Err(e) => Err(e),
        },
    }
}

} // verus!
