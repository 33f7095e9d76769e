# restie

A transparent REST client: `restie <module> <command> --param value` calls an
HTTP API whose commands come from a site configuration, generated from an
OpenAPI description or from a platform preset.

The crate is verified with Verus.

- `src/` is the library, every function of it with a contract; Verus proves
  them all except those of the few small wrappers around std, serde_json and
  reqwest calls, which it takes on trust:
  argument routing (`cli`), authentication planning and header handling (`auth`),
  site configurations (`config`), command naming and configuration generation
  from OpenAPI documents (`naming`, `json`, `generator`), preset catalogs
  (`presets`), help texts (`help`), the decisions of the commands (`commands`,
  `sites`), request and response handling (`http`), and the string and ordered
  map helpers they share (`text`, `ordmap`). Public proof functions named
  `law_*` state properties that hold across calls.
- `tests/` runs the library on concrete values.
- `app/` is the command-line program around the library: argument parsing,
  files, environment, network and YAML.
