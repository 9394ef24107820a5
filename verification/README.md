# zapfast

The logic behind a few features of the ZapFast desktop client, with its
contracts proved by Verus:

- `chat_index`: which chats a desktop launcher sees (the most recent unlocked,
  unarchived chats, as JSON), when the index file is rewritten, and which
  `open-chat:<id>` requests are accepted.
- `emoji_words`: the Spanish CLDR emoji table (parsing, accent folding,
  lookup, search ranking and `:shortcodes:`).
- `i18n`, `i18n_extra`: interface languages, the Spanish message catalog,
  and the translation of interface texts and message summaries kept in
  English.
- `desktop_background`: what to load, keep and drop of Omarchy's desktop
  background, and its decoding, scaled down to one texture.
- `text`, `json`: character-level helpers, and the JSON framing of the index.

`app/` holds what touches the outside world: the process-wide state, the
index file, reading the background file and the loading thread.
