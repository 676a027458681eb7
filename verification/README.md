# qctl

`qctl` manages Podman quadlet files for `systemd --user`: it links the
quadlets of a project into `$HOME/.config/containers/systemd`, starts, stops
and restarts their units, shows their status, and removes the volumes that
`.volume` quadlets declare.

## Layout

- `src/` is the verified library (Verus). Every decision the tool makes is
  there with its contract:
  - `text`: whitespace, trimming, words, joining, decimal numbers, text order;
  - `names`: stems, extensions and systemd unit names;
  - `paths`: Unix paths as text: components, file name, extension, joining
    and the order paths sort in;
  - `quadlets`: which directory entries are quadlets, the duplicate-name
    check, their order, and the units they define;
  - `volume`: the `VolumeName=` a `.volume` file declares;
  - `menu`: reading a menu selection and what it asks for;
  - `command`: the commands run and how failures are reported;
  - `context`: source and target directories;
  - `plan`: the steps of install, uninstall, start/stop/restart and volume
    cleaning, for real runs and dry runs;
  - `table`, `status`: the status and menu tables and summary;
  - `laws`: properties that span several functions.
- `app/` is the command line around it: argument parsing, files, processes and
  the terminal.
- `tests/` exercises the library.
