# yomiage_bot

A Discord bot that reads chat messages aloud with the VOICEVOX engine and plays music in voice
channels.

- `src/` is the library: the rules of the bot, verified with Verus. Each function states in
  `requires` and `ensures` what it takes and gives; the public proof functions state what holds of
  several of them together.
- `tests/` runs the library on concrete values.
- `app/` is the bot: Discord, the voice connections, the engine, yt-dlp and SQLite around the
  library.

## The library

| Module | What it holds |
| --- | --- |
| `chars`, `clock`, `scale` | texts, lengths of time, and single-precision numbers by their bits |
| `pattern`, `text`, `text_laws` | from a chat message to the text that is read |
| `voicevox`, `speech`, `exvoice` | the engine's protocol, the reading queue, recorded phrases |
| `nicovideo`, `music`, `import`, `volume` | where music comes from, the track table, whole playlists, the volume |
| `timesignal`, `session`, `announce` | reading the time, time in a channel, track changes |
| `table`, `rank`, `db`, `db_laws` | settings, voices, dictionaries, favourites and statistics |
| `events` | what a message or a voice state leads to |
| `commands` | what each slash command and button does and answers |

Calls into `regex`, `serde_json` and parts of the standard library go through items whose contracts
are taken for granted. Each of them says in its documentation what it claims.
