# zusi_fahrplan_generator

Generates timetables for [Zusi 3](https://www.zusi.de/) (`.fpn`, `.trn` and
`.timetable.xml` files) from a configuration file: routes are joined from parts of
existing train files, schedules move their times, and trains are copied with later
times and higher numbers.

## Layout

- `src/` is the library, written in Verus. Every function carries a contract that
  Verus proves, but for three small wrappers (of `String::push`, of `str`'s `==` and of
  `time`'s text of a date-time) whose contracts are trusted:
  - `zusi.rs`: timetable entries and timetable-book lines, with date-times as seconds
    (`zeit.rs`), and how they move in time;
  - `kern/schedules`: applying and generating schedules, the longest common run of
    stations, updating a timetable book;
  - `kern/generate_fahrplan`: making route parts ready, joining them, ordering trains by
    number; `kern/fahrplan_generator` joins whole routes;
  - `kern/copy_delay`: train numbers; `kern/shared`: copies of trains and time shifts;
  - `serde_helpers.rs`: durations as `HH:MM:SS`; `input.rs` and `cli.rs`: the
    configuration and the command line.
- `app/` is the command-line program around the library: reading and writing the XML
  files, the command line, and the parts that work on `zusi_xml_lib`'s types or on
  floating-point values.
- `tests/` holds the tests of the library.
