# omatide

Tides and currents for Omahoy, predicted offline from NOAA's harmonic
constants, with a model of San Francisco Bay.

The crate is written in Verus. `src/` is the verified library: the logic
that needs no floating point, each function with a contract that Verus
proves.

- `station`, `tides`, `bay`: the catalog's index of stations, which
  stations can be predicted and from which constants, and the bay's named
  places.
- `coops`, `fetch`, `http`, `json`: NOAA's URLs, the order a listing is
  kept in, which station a subordinate follows, the references a catalog
  still lacks, what a finished download comes to.
- `predict`, `subordinate`: the times of a curve, the bisection that finds
  a turn to the second, which weak turns are dropped, which offset each
  turn of a stream takes.
- `engine`: the socket protocol's decisions: lines cut from an app's
  bytes, requests routed, curves sized, and the engine loop's step.
- `time`, `cli`, `config`, `cache`, `order`, `strings`: the calendar and
  ISO 8601, the command line, the settings file's lines, where files
  live, stable sorting, and text.

`app/` is the program around it: the harmonic arithmetic and astronomy
(floating point), the files, `curl`, the JSON documents and the tokio
engine. `tests/` runs the library on concrete values.
