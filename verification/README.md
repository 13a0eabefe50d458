# connect_sync

ConnectSync keeps local folders in sync with end-to-end encrypted folders on
Google Drive. Files are cut into content-defined chunks, each chunk is named
by its HMAC and sealed with AES-256-GCM under keys derived (Argon2id, HKDF)
from the folder's sync code, and an encrypted manifest on Drive lists which
chunks make up which file.

## Layout

- `src/` — the verified library (Verus). Every decision of the sync engine
  lives here with its contract: what a push uploads, drops or repairs, the
  mass-delete guard, what a pull restores or leaves alone, which orphan
  chunks garbage collection deletes, the retry policy of Drive requests,
  sync codes, the per-device sync state and conflict bookkeeping, update
  checks, settings and translations. Calls into cryptography, chunking,
  hashing, hex, URL encoding and date parsing crates go through small
  wrappers whose contracts state what those crates do.
  - `chunker` — streaming content-defined chunking; the chunks always join
    back into the file.
  - `crypto`, `engine` — keys, chunk sealing, push/pull/GC planning, the
    manifest and the vault salt.
  - `drive` — the Drive index, request addresses, upload bodies and the
    request retry loop as a state machine.
  - `sync_state`, `conflicts`, `sync_ctl`, `drive_missing` — the three-way
    pull decision, conflict prompts, sync loop generations and sync codes.
  - `desktop`, `update_ui`, `updater`, `config`, `i18n`, `progress` — what
    the application shows and stores.
- `app/` — a command-line program around the library: Drive over HTTP,
  sign-in, the key ring, the file system, the change watcher, and the sync
  loop that performs the steps the library's loop asks for. Commands:
  `run` (default), `login`, `logout`, `scan`, `create`, `connect`, `remove`,
  `update`; `--full` selects full-Drive access, `--autostart` waits for a
  Drive token before the loops start, as a program started at login does.
- `tests/` — tests of the library's behaviour on concrete values.
