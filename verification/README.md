# crabbyconsole

The verified core of an in-game developer console: what it does with the text
typed into it and with the results it gets back, proved with Verus.

- `src/` is the library. Every function in it carries a contract. Verus
  checks them all except those of the few wrappers (marked
  `#[verifier::external_body]`) that call `indexmap`, `http` and std's string
  functions, whose contracts are assumed. The modules: text handling (`text`), the call-chain reader and the script
  builder for expressions (`expr`), stable ordering of suggestions
  (`sorting`, `autocomplete`, `suggestions`), the history (`history`),
  numbers, templates and `:for` ranges (`numbers`), names (`names`), the
  custom command, watch and remote client registries (`registry`), key
  bindings (`bindings`), the log
  hook (`logfilter`), the command reference (`docs`), lockdown mode
  (`lockdown`), plot layout (`plot`) and the console's own commands
  (`commands`).
- `app/` is ordinary Rust around it: clap definitions for the library's own
  action types (the `:cmd` subcommands, `:delta`'s arguments), the history file,
  writing the reference to disk, the clock, and the parsers that read
  floating-point numbers.
- `tests/` exercises the library on concrete values.
