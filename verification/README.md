# alba

The library behind a task runner for Beamfiles, verified with Verus. A
Beamfile declares beams: what they need, which files they read and write, and
the commands they run. The library loads such a project, plans a run of
beams and what they need, decides what the cache answers and when each beam may
start, and words what the user sees.

- `src/` holds the library. Every function states what it returns; the modules
  that end in `_laws` hold what follows for the library as a whole.
- `app/` is the program around it: arguments, files, processes, git, the file
  watcher and the terminal. It takes the Beamfile parser, the embedded shell,
  plugins, watch sessions and the interactive interface as parts that a program
  links.
- `tests/` run the library with the crates that it calls.

The parts of the library, from the outside in:

| modules | what they do |
| --- | --- |
| `args`, `commands`, `run_command`, `exit` | command lines, what they decide, and exit codes |
| `render`, `renderers`, `json` | text and JSON output |
| `plan`, `schedule`, `beam_task` | what runs, when, and how it ends |
| `cache`, `fingerprint`, `store` | what is remembered of a beam |
| `loader`, `project`, `check`, `eval`, `scope`, `graph` | Beamfiles to a checked project |
| `affected`, `git`, `hooks`, `watch_set`, `files`, `globs` | what a change touches, and git hooks |
| `plugin_check`, `example_plugin` | both ends of the plugin protocol |
| `text`, `paths`, `numbers`, `sort`, `suggest` | what the others are made of |
