# servicetray

A system-tray supervisor for a set of programs: it starts them, restarts them
when their watched files or their configuration change, and offers their
service pages, the configuration file and autostart from the tray menu.

- `src/` is the verified library (Verus): the configuration model and its path
  rules (`~` expansion, log files, configuration location), the table of
  running processes and launch plans, the plan that follows a configuration
  change, the debouncing of file changes, the watcher table, the menu layout
  and status dot, the log settings, and the login-entry contents per platform.
  Paths are strings under the platform's conventions (`PathStyle`): on Unix
  `/` separates components and a leading `/` is the root; on Windows `/` and
  `\` both separate, and a drive (`C:`) or a `\\server\share` prefix comes
  first. After a leading `~`, both `/` and `\` separate components.
- `app/` is the program around it: the tray and event loop (`tray-icon`,
  `winit`), file watching (`notify`), process spawning, the configuration file
  (`serde_json`), logging (`tracing`), translations (`rust-i18n`).
- `tests/` exercises the library on concrete values.
