# citygen

A procedural city simulator whose logic is verified with Verus.

- `src/` is the library. Dictionaries of words (`language`, `language2`)
  and names (`names`, `name_formats`), read from comma-separated data lines
  (`parser`); templates that fill tags with words (`templater`,
  `language2::templater2`); cultures (`culture`); and the city itself
  (`city`): buildings and locations, institutions and their staff, the
  population with its relations, homes, shopping and yearly steps, which
  `city::year::simulate_year` runs in order, each after its checks. Every
  function states its result in `ensures`; chance comes from a few trusted
  wrappers around `rand` and `uuid` in `random`.
- `app/` reads the data files, draws the spread of ages, calls
  `simulate_year` once a year and writes the text and HTML reports.
- `tests/` runs the library on concrete data.
