# lazycard

A terminal flash-card program: cards are written in a small markup language
(bold and italic spans, centred and right-aligned paragraphs, lists,
comments, images and fenced code blocks), kept in SQLite, filtered by tags,
searched, and reviewed.

The library in `src/` is written in Verus. Its functions carry `requires` and
`ensures` contracts over mathematical models (`Seq`, `Set`, `Map`, `int`), and
its laws are public proof functions whose names begin with `law_`.

- `blocks`, `inline`, `markup*`, `rich`, `highlight`: parsing markup into
  blocks and inline spans, turning them into ANSI-styled text, syntax
  highlighting of code with syntect's default sets, and laying the result out.
- `ansi`, `ansi_laws`, `style`: writing and reading ANSI escape sequences;
  what is read back of what was written.
- `text*`, `graphemes`, `words`, `byte_pos`, `iter`, `formatting`: text
  handling — grapheme clusters, display widths, byte offsets into UTF-8 text.
- `text_input`, `text_editor`, `text_editor2`, `list`, `scroll`,
  `token_list`, `shortcut`: widgets as state machines from keys to states.
- `*_page`, `page_frames`, `nav`, `review`, `settings`, `color_names`: the
  pages of the program, what each draws, and the navigation between them.
- `kitty`, `kitty_cmd`, `image_frames`: the kitty graphics protocol, base64
  and zlib framing, and reading an image's frames with the image crate.
- `typemap`, `hash`, `id_set`, `time`, `data`, `queries`, `decimal`:
  supporting pieces.

Calls into outside crates (syntect, ratatui, textwrap, unicode-width,
unicode-segmentation, zlib-rs, base64, seahash, ahash, image) go through small
trusted wrappers whose contracts state what those crates document.

`app/` holds what stays outside the verified library: the terminal loop,
drawing with ratatui, the database, the settings file, reading image files
and the review scheduler.
