# alt

The verified core of `alt`, a GTK launcher with fuzzy application search, a
quick-launch bar, marker notes and an assistant chat.

- `src/` is the library, verified with Verus:
  - `text`: whitespace, `trim`, `lines`, `split_whitespace`, prefix stripping
    and pattern deletion over characters, with their specifications;
  - `fuzzy`: case-insensitive subsequence matching;
  - `markdown`: removal of markdown symbols from replies;
  - `desktop`: reading `.desktop` entries (listed name, quick-launch command
    and icon, how an entry is started);
  - `listing`: what the search entry lists;
  - `quicklaunch`: the quick-launch file and its toggling;
  - `marker`: the styled ranges of the notes;
  - `info`, `keys`, `chat`: the info card, key decisions and the chat;
  - `clock`: the time card and note timestamp, formatted by chrono.
- `app/` is the GTK program around it: windows, files, processes, the
  terminal and the network client.
- `tests/` runs the library on concrete values.
