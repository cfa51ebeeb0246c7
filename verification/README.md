# cbacon

Reads the locations file that bacon writes (`warning path:line:column message`
per line) and opens the first warning location in VSCode, waiting until the
editor tab is closed, then reads the file again.

- `src/` is the verified library: the location line format (`location`), text
  splitting as `str::lines` and `str::split_whitespace` do it (`text`), character
  classes (`chars`), splitting a target and remembering opened targets
  (`line_ref`), the VSCode command lines (`vscode`), the double-save watch
  (`watch`) and the step function that decides each round of the monitor
  loop (`monitor`).
- `app/` is the program: reading files, running VSCode, the file watcher and
  the async loop.
