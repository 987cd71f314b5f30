# fbd

A read-only dashboard over many issue repositories at once. Every repository is
exported, a hub workspace of the `bd` issue tracker is synced from the exports,
and what is ready to work on is shown as one list, each issue attributed to the
repository that it comes from.

## Layout

- `src/` is the library: what the program decides and computes, proved with
  Verus.
  - `text`, `path`, `time`, `io`: the plain values everything else is made of;
    `disk`: what lies on a disk, as the laws about files speak of it; `replace`,
    `publish`: replacing a file as a whole, and putting one in place that replaces
    nothing
  - `bd`: command lines, payloads and errors of the `bd` program, and the client
    trait through which it is called
  - `config`, `migration`: where files live, and taking over those of the
    application's former name
  - `hub`, `refresh`: making the hub ready, exporting, syncing, and the map from
    issue ids to repositories
  - `snapshot`, `cache`, `ui_state`: the ready list, its copy on disk, and the
    stored preferences
  - `app`: the terminal interface as a state machine, its keys, its screen, and
    the texts it copies
  - `runtime`, `search`, `cli`: a session of the interface, its searches, and the
    commands without one
  - `measure`: what many refreshes took, as middle and high values
- `app/` is the program around it: processes, files, threads and the terminal.
- `tests/` runs the library on concrete values, against files kept in memory.

Work that goes back and forth between decisions and the outside is split in two.
The library offers a type of steps, such as `HubStep` or `ExportStep`, and one
function for each outcome that leads to the next step. The caller performs what a
step asks for and reports how it went.
