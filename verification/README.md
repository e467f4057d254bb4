# taiko

The core of a taiko drumming rhythm game, written in Verus: reading song charts in the TJA
format, working out the notes and drum rolls of each course, judging key presses, keeping the
record of a play and the soul gauge. The functions of the library carry contracts that Verus
proves; the one exception is a small wrapper around `String::push`, whose contract is trusted.

## Layout

- `src/` — the verified library
  - `text.rs`: characters, lines, comments and whitespace of a chart file
  - `numbers.rs`: integers, time signatures, balloon lists and float literals as written in charts
  - `course.rs`: the line grammar of a chart (metadata, `#START`, course items)
  - `metadata.rs`: the metadata map, later definitions replacing earlier ones
  - `chart.rs`: the note sequence of a course, balloon hit counts, drum roll ends, measures, combo
  - `tja.rs`: reading a whole chart file into a song with up to five courses
  - `grammar.rs`, `track.rs`: the one-pass grammar that reads a chart file into a list of items
  - `scoring.rs`: judgements, combos, the record of a play, the soul gauge, key press reactions
  - `input.rs`: the state of the keyboard
  - `settings.rs`, `error.rs`: visual settings and parse errors
- `app/` — a command line program around the library: it reads the settings file and the
  `songs` directory, times the notes of every course (floating point work that the library
  leaves out) and lists the songs.
- `tests/` — tests of the library on concrete charts, key presses and plays.
