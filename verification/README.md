# Workbench core

The verified core of Workbench, a menu-bar app that shows the pull requests
that want you and keeps one note per day.

- `src/` is the library, proved with Verus: the pull-request diff engine that
  decides which transitions enter the event log (`db`), the lanes and unread
  markers of the Desk (`db`, `commands`), the notification rules and their
  coalescing (`notify`), the daily note's carry-forward and the folder of
  dated notes (`notes`), the polling cadence and the token cache (`state`),
  the device-flow sign-in decisions (`auth`), reading GitHub's answers
  (`github`, `sync`), hosts and URLs (`config`), and the tray badge (`tray`).
- `app/` is the Tauri shell around it: the SQLite file, the network, the
  keychain, the window, the tray and the notifications.
- `tests/` exercise the library.
