# creembar

A tray app that polls the creem.io transaction API and announces every new
paid transaction once, with a notification and a sound.

- `src/` is the verified library (Verus): the notification ledger, the
  stable time ordering of transactions, the reading of API answers, the
  poll loop's decisions, the tray and notification texts, the settings
  rules and the keychain access. `src/laws.rs` holds the properties that
  span several polls.
- `app/` is the Tauri shell: window, tray, store, HTTP, sound and the
  async poll loop, all calling into the library.
- `tests/` exercises the library on concrete values.
