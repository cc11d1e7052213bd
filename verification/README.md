# fretboard

The chord logic of a guitar chord finder, verified with Verus, and the GTK
application around it.

- `src/` is the verified library:
  - `chord_ops`: chord-name display and storage forms, enharmonic roots,
    barre length, neck position and shifting of fingerings;
  - `chord_name_algorithm`: naming a fingering from its notes;
  - `chord_file`, `chords`, `database`: the chord file format and lookups
    by name and by fingering;
  - `chord_diagram`, `chord_preview`, `chord_name_entry`, `session`,
    `bookmarks`: the decisions of the diagram, the preview, the name entry
    and the main window;
  - `text`: character-level helpers.
- `tests/` runs the library on concrete values.
- `app/` holds the GTK/libadwaita widgets, settings and file storage.
