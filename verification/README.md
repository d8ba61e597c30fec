# releez

A tool that runs an application's release checklist (`releez.yml`): manual
tasks show instructions one by one, auto tasks run shell commands, and the
last checked sub task is recorded so that an interrupted release can be
resumed where it stopped.

- `src/` is the verified library: the checklist model, values that differ by
  operating system, variable substitution, the release version, where a run
  starts and which sub tasks it goes through, and the answers at prompts.
  The laws that tie these together are proof functions named `law_*`.
- `app/` is the command-line program: arguments, files, the terminal and the
  shell, and the serde forms of the configuration files.
- `tests/` runs the library on concrete checklists.
