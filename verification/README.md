# glazewm

The logic of a tiling window manager for Windows whose workspaces can span all monitors: a
spanning workspace (a "virtual desktop") has one instance per monitor, and switching to it
switches every monitor at once. When monitors are disconnected, their instances are browsed as
further pages of the workspace, and return to their monitor once it is back.

The library under `src/` is written in Verus. It keeps the state of the window manager as plain
values; each operation has a contract over a view of that state.

- `page_key`, `monitor_identity`, `orientation`, `geometry`: labels of pages, recognizing
  monitors, and shapes.
- `page_placement`: which monitor and page each instance gets. `page_laws`, `page_stability`,
  `page_dependence` and `page_permutation` prove what holds of every assignment, and
  `first_page_placement` what holds of the first page where homes are settled.
- `wm_state`, `monitor`, `workspace`, `container`, `focus_order`, `pending_sync`, `wm_event`,
  `wm_error`: the state. `invariants` and `untouched` prove what operations keep.
- `repage_spanning_desktops`, `activate_workspace`, `focus_workspace`,
  `focus_spanning_workspace`, `merge_spanning_instances`, `remove_monitor`: the commands.
  `page_display` proves what focusing a page displays. `workspace_map` and `repage_laws` say
  what distributing instances anew does to each workspace; `packing_laws`, `page_keeping`,
  `settled_homes` and `first_page_laws` prove what follows for pages, homes and what the monitors
  display.
- `handle_*`, `ignore_uncontrollable_window`, `window_recovery`: decisions on platform events.
  They take what the platform knows as arguments and return what is to be done.
- `user_config`, `config`, `workspace_config`, `window_rules`: the config, and what follows
  from it.
- `error`, `text`, `stable_sort`: errors of the platform, texts, and sorting.

`app/` reads and writes files, and carries out what the library decides.
