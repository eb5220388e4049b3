# mccoords

Converts Minecraft block coordinates between the overworld and the nether,
and checks coordinates against the world limits of old and new game
versions. The library under `src/` is written in Verus; its contracts state
what every operation returns, and `src/laws.rs` proves properties that span
operations (conversions that undo each other, text that reads back, limits
that agree with the reasons given for refusing coordinates).

- `src/text.rs`: whitespace, trimming, splitting, case folding, strings.
- `src/number.rs`: reading and writing decimal `i64` values.
- `src/world.rs`: worlds, versions and their limits, output formats.
- `src/coords.rs`: coordinates: reading, converting, listing parts.
- `src/line.rs`: input lines of the two commands.
- `src/render.rs`: output lines and the limit check of `convert`.
- `src/cli.rs`: flags and the decisions of a `convert` or `validate` run.
- `src/usage.rs`: the usage messages.
- `app/main.rs`: the command line program, which reads and writes files and
  the standard streams and follows the steps the library decides.
