# sxo

Dialect core of a symbolic-math front end, written in Verus. Every function in
`src/` carries a `requires`/`ensures` contract that Verus proves.

## Library (`src/`)

| Module | Contents |
|--------|----------|
| `dialect`, `options`, `frontend`, `host` | explicit dialect tags, evaluate strategies, frontend/engine handles, host invocation text and bindings |
| `error`, `summary` | product error, condition and evidence summaries, evaluation outcomes |
| `number`, `wolfram_number` | number literals (integers via num-bigint, machine reals as text, exact rationals in lowest terms) and their text |
| `wexpr`, `term`, `request` | Mathematica forms, session terms, dialect-neutral requests, with their views |
| `wolfram_tree`, `wolfram_parse` | Wolfram concrete syntax trees and their lowering into forms by byte span |
| `wolfram_lower`, `wolfram_request`, `wolfram_render` | forms ↔ session terms, `Set`/`SetDelayed`/`Table` requests, Wolfram text |
| `matlab_ast`, `matlab_lower`, `matlab_request`, `matlab_render` | MATLAB syntax trees, their lowering, control requests, MATLAB text |
| `semantic` | closed semantic operators and their surface names |
| `bridge`, `bridge_render`, `rules` | bridge terms, their MATLAB text, and the structural evaluator rules (rule pairs, replacement, slots, parts, Pythagorean identity) |
| `strings` | string helpers with exact contracts |

Laws stand beside the functions they relate, as public proof functions
(`lemma_…`): name round trips, read-back of lowered forms, progressions of
`Table` ranges, integer text round trips, the Pythagorean identity's symmetry.

Four functions are trusted rather than proved: `str::trim`, `str::get` on a
byte range, `str::trim_matches('"')`, and num-bigint's `BigInt` parse and
print. Their doc comments say what is assumed.

## Host glue (`app/`)

The oak parsers (concrete Wolfram trees, MATLAB statement trees) feed the
library's lowering; JSON marshalling and the floating-point simple-math
expression pipeline (differentiation, simplification, rendering) live there
too, since the library holds no floating-point values.
