# ezr

Batch renaming of files. The library (`src/`) holds what decides the new
names and the files to rename, with its contracts proved by Verus:

- `name_processing`: bracket removal, space fixing, phrase deletion,
  clean-up, the split of a name into stem and extension, and their
  composition `process_name`;
- `trim`: trimming a name at markers;
- `pattern`: regular expressions of the `regex` crate (compiling, matching,
  named groups, replacing) behind trusted wrappers, and the escaping of
  literal text;
- `args_parser`: the run's options and the file pattern;
- `init`: the walk through directories and the choice of entries;
- `text`: character helpers.

`app/` is the command-line program: option parsing, directory reading,
the confirmation prompt and the renaming itself.
