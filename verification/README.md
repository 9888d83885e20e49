# front

A weather radar for the terminal. It draws European radar images, warnings,
readings of weather stations and lightning strikes over a map, plays the radar
back over the last hours, and keeps what it fetched for the next start.

## Layout

- `src/` is the library, written in Verus: the program's state and the rules
  that can be stated without input, output or floating-point arithmetic, with
  contracts that are proved from what the outside crates are trusted to do.
- `app/` is the program around it: the terminal, the network, the files, and
  what is floating-point arithmetic (map projections, distances, the mean of
  radar cells, the simplification of lines, easing). Nothing is proved of it.
- `tests/` runs the library on concrete values.

## The library

| Part | Modules |
| --- | --- |
| The program's state, its keys, and what the background sends | `app`, `controls`, `arrivals`, `keys`, `rhythm`, `tasks` |
| Time: slots, playback, the calendar, retries | `timeline`, `slots`, `calendar`, `retry` |
| Radar: frames, the cache, downloads, grids on disk | `radar`, `frames`, `download`, `store`, `frd`, `geotiff`, `directory`, `dbz`, `flow` |
| The map: tiles, borders, layers, the view | `geo`, `maps`, `borders`, `border_cache`, `layers`, `viewport` |
| Stations: reports, the backdrop, the request budget | `stations`, `observations`, `viewport_obs`, `backdrop`, `budget`, `cities`, `eumetnet`, `features` |
| Warnings, lightning, places, positions | `meteoalarm`, `warnings`, `lightning`, `geocode`, `search`, `location` |
| Configuration and saved state | `config`, `document`, `settings`, `modal`, `state`, `verify` |
| Foundations | `double`, `text`, `json`, `order` |

A number with a fraction is a `Double`: the bit pattern of an IEEE double, with
its comparisons and its exact value in units of the smallest one. What rounds is
left to `app/`, which hands the results in.

Time on the program's clock is a `u64` of nanoseconds that the caller passes in,
so that nothing in the library depends on when it runs. The one exception is the
list of slots, which follows the system clock.

Public proof functions state what holds of several functions together, for
instance that a saved grid is read back as it was, that the request budget is
never overrun, or that stepping through the slots goes round the ring.

## What is trusted

JSON, TOML, zstd, TIFF and the calendar come from outside crates. Each call
stands in a small function whose doc comment names what it calls and says what
is taken for granted of it; everything else follows from those statements.
