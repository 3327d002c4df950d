# minework

The verified core of a command-line manager for Minecraft profiles.

- `src/` is the library, verified with Verus: the parsing of non-interactive
  input (`utils`), the validation of entries (`utils::validators`), the
  config model (`config`) and the logic of the `profile` subcommands
  (`cli::profile`): which profiles a request names, how the list and the
  active profile change when profiles are added or deleted, and what is shown
  of a profile.
- `app/` is the program around it: argument parsing, prompts, the config file
  on disk, network queries, colored output and tables.
- `tests/` runs the library on concrete values.
