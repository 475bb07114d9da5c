# tslib

A TeamSpeak client library whose logic is written in Verus and proved against its
contracts: BBCode and Markdown rendering of chat, chat history, the channel tree,
server-state queries, bot commands and configuration, advertised stream metadata, the
client session's reaction to server notifications, client configuration, and the
integer side of audio playback.

Layout:

- `src/` — the verified library. `text`, `scan`, `markup`, `passes`, `render`, `bbcode`:
  chat formatting; `message`, `history`: chat messages and their history; `state`,
  `tree`, `manager`: server state, the channel tree and the channel builder; `command`,
  `bot_config`: bot commands, their registry and the bot's configuration; `streams`,
  `signaling`: advertised streams and what viewers relay about them; `session`,
  `convert`, `events`, `connection`: what the client does with each notification from
  the server; `config`, `timing`: the client configuration, server addresses, hex ids
  and time spans; `mixing`: per-user sample rings and clamped mixing; `error`, `audio`,
  `broadcast`, `ffi`: errors, capture packet numbering and plain data types.
- `tests/` — tests run against the compiled library.
- `app/` — what stays outside the proofs: channel and connection state shared between
  tasks, event and command handlers that await, command replies, the serialized form of
  the client configuration, and the floating-point side of audio (volumes, voice
  detection, the audio settings, the mixer's user table).
