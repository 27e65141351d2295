# hk_operator

Host-side logic for the Cyberdeck macro pad and its S3 USB dongle, with
contracts checked by Verus.

`src/` is the library:

- `slots` — the 27-byte slot record, 18-slot pages, bank pages, binding keys,
  macro events, pad status.
- `dongle`, `dongle_link` — the dongle's line protocol (complete replies,
  version and status records, base64 bank pages, macro polls), finding the
  dongle and its CDC endpoints, and the reader's step.
- `pad_sync` — which transport serves a request, multi-bank write reports,
  the macro listener's poll step, choosing the pad among BlueZ devices.
- `store`, `strmap` — actions, bindings and their migration to bank-scoped
  keys, command approvals bound to exact text, applying and exporting
  profiles, saving the store.
- `actions`, `gate`, `dispatch` — what running an action decides, binding
  resolution, the dispatch gate and startup drain, URL and command gates.
- `composer`, `composer_write`, `space_keys` — the slash composer session,
  the field writer's state, the Space-commit keyboard watch.
- `fire_api` — the localhost fire API's request rules and KDE shortcuts.
- `git_sync`, `paths`, `ydotool_sock`, `text` — profile sync decisions,
  path rules, the ydotool socket, text helpers.

`app/` is the command-line program around it: devices, sockets, files,
processes. `tests/` exercise the library.
