# GetCat

The logic of an HTTP API client, written in Verus: requests are edited in tabs,
sent, and their responses shown; requests, drafts and variables are kept as JSON
documents. The functions of the library carry contracts that Verus proves; the
calls into other crates below them are believed.

## Layout

- `src/` is the library. `model` holds the data, `url`, `vars`, `variables` and
  `ops` turn a draft into what is sent and take values out of what comes back,
  `http` prepares a request and receives its response, `body` and `response` get
  a body ready for display, `request_tab`, `workspace`, `kv_table`, `form_table`,
  `saved_filter`, `panes`, `lists`, `labels` and `format` are the state and the
  contents of the window, `store` and `postman_env` are what is read and written.
- `app/` is the program around it: a terminal front end, the network, the files.
- `tests/` run the library on concrete values.

## What is proved and what is believed

Contracts speak of mathematical views: a text is a sequence of characters, a table
a sequence of rows, a document a tree. What relates several functions stands as a
public proof function beside them: pretty-printing keeps the content and changes
nothing the second time, what is written to a tab is read back from it, a restart
restores the workspace, a body that moves to disk loses no byte, a change that
takes the place of an earlier one leads to the same files, later times have later
texts. Of what is left to chance and to the clock, only what holds of every outcome
is stated; a new identifier carries no contract at all.

Calls into other crates (`serde_json`, `url`, `reqwest`'s header types, `bytes`,
`memchr`, `ulid`, `uuid`) go through small wrappers and assumed specifications.
Their doc comments say what is believed of each call.
