# dozer_app

The logic of the dozer workspace panels, written in Verus. The functions in
`src/` carry contracts that Verus proves, except four small wrappers whose
contracts are taken on trust because their bodies call the standard library or
`uuid`: `text::to_lowercase` (`str::to_lowercase`), `text::push_char`
(`String::push`), `calendar::unix_time_millis` (the system clock) and
`ssh::new_host_id` (a random v4 UUID). `todo_model` also declares std's
`SystemTime` so that a task can carry its timestamps through.

- `todo_model`, `todo_state`, `todo_view`, `todo_laws`: tasks and categories,
  the task panel as a state machine (message in, new state and effects out),
  the list layout, card and navigation facts, and the laws the panel keeps.
- `calendar`: day indices and civil dates (both round trips proved), month
  lengths, weekdays, the date picker grid and the "MM-DD" plan dates.
- `usage`, `usage_view`, `chart`, `agent`: per-project usage totals, per-agent
  shares, daily totals, trend windows, the content plan of the usage panel and
  the grid steps of its bar chart.
- `ssh`, `ssh_view`, `sftp`: the host panel state machine, host card and
  editor facts, `/etc/os-release` reading, and the SFTP tab (remote tree,
  sorting, routing of its messages).
- `external_apps`, `font_style`, `fonts`: the "open with" table, the UI font
  sizes and the choice of font faces to drop.
- `text`, `kv`: string and small key/value helpers shared by the above.

`app/` holds what the library asks the outside world to do: files, the system
keychain, SSH and SFTP connections, and the `f32` number format of the charts.
`tests/` exercises the library from outside.
