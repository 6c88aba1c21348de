# quotis

The verified core of Quotis, a small always-on-top desktop widget that shows
how much is left of the usage limits of AI coding tools (Anthropic's coding
agent, Codex, Gemini CLI, Qwen, opencode, GitHub Copilot and Cursor).

`src/` is the library, proved with Verus:

- `timestamp`: RFC 3339 timestamps to UNIX seconds, with the calendar laws of
  the day count it uses.
- `base64url`: the lenient Base64 decoder for JWT segments, with its laws
  (padding ignored, both alphabets, whole groups decode on their own, and
  what an encoder writes decodes back).
- `json`: JSON documents as plain data, member lookup, and the one trusted
  item of the library: the call into `serde_json` that reads a document.
- `usage`: the rows of the widget and how each report (Anthropic usage
  endpoint, Codex logs, Copilot, Cursor, Gemini/Qwen token logs, opencode)
  becomes a row.
- `text`: the lines of JSON-lines logs that hold a given text; what follows a
  line break leaves the lines before it alone.
- `settings`: settings, their defaults and ranges, and folder settings.
- `poll`: what a reply or an error does to a row, back-off, which tool is due
  (no tool at all while the Anthropic tool is turned off),
  token counts over time windows, which rows are shown when settings are
  applied (a tool that is off shows nothing), and what a batch of log changes
  updates.
- `net`: what an HTTP status and a reply's body mean for a row.
- `auth`: which login token is sent, and trying Copilot tokens in turn.
- `backdrop`: the geometry of the blurred backdrop (only patches inside the
  widget's own window are copied), when the screen is copied and when a frame
  is sent.

`app/` is the desktop program around it: Tauri windows and commands, files,
the network, the SQLite database of opencode, file watching, threads, the
screen copies on Windows, and the floating-point shares that the widget shows.

`tests/` runs the library on concrete inputs.
