# Synclock

Synclock logs time entries of [Early](https://early.app) or
[Toggl Track](https://toggl.com) as Jira worklogs or YouTrack work items. It
lives in the menu bar, shows the entries of a day, and logs each entry once for
each issue key that it names.

The logic is a library that [Verus](https://github.com/verus-lang/verus)
verifies. The program around it sends the requests, keeps the settings on disk
and draws the window.

## Layout

- `src/` is the verified library.
  - `issue_keys` finds issue keys such as `PROJ-123` and removes mention markup.
  - `early`, `toggl` read time entries; `entries` brings them into one form.
  - `jira`, `youtrack` say what is asked of each tracker, what its replies mean,
    and whether an entry is logged there already.
  - `preview` and `sync` decide what is shown, skipped and added; `auto_sync`
    decides when the daily sync runs; `panel` holds the rest of what the window
    shows.
  - `config` holds the settings.
  - `clock`, `minutes`, `text`, `sorting`, `percent`, `string_map`, `http` are
    what these are built on.
- `tests/` runs the library on concrete values.
- `app/` is the program. It needs `tauri` 2 with its notification and opener
  plugins for the window and the tray icon (`app/desktop.rs`), and the icons in
  `icons/`.

## How a sync goes

`sync::SyncRun` plans one task for each entry and issue key. For each task the
caller looks up what the tracker holds for the issue and hands it to
`looked_up`. An entry that is there already is skipped; else `looked_up` returns
what is to be added, and the caller reports back with `added`. Jira worklogs are
recognised by their start (within two minutes) and duration (within one
minute), YouTrack work items by the marker `[synclock:{provider}-{entry_id}]`
in their text. A sync can therefore be repeated: `sync` proves that a second one
skips every task, where it finds what the first one found and added. For Jira
the start of the entry must be readable; one that is not is never taken for
logged.

An entry without an issue key is logged for the fallback key of the settings,
and skipped where that is empty.

## What is trusted

Calls into `base64`, `chrono`, `regex-lite` and `reqwest`, and a few functions
of the standard library, stand behind small functions whose contracts are not
proved. Each says in its documentation what it claims of the outside function.
