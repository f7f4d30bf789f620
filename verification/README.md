# kaku

The logic of an AI chat in a terminal pane, of a scrollbar and of a splash line, written in Verus:
each function states what it returns, and the verifier proves it.

- `src/` is the verified library. It does no input or output.
  - `text`, `measure`: strings, and the columns that they take in a terminal.
  - `markdown`, `wrap`, `display`: from the text of a message to the lines of the pane.
  - `message`, `conversation`, `context`, `prompt`, `attachment`, `listing`: what is said, what is
    kept of it, and what the model is sent.
  - `shell`, `agent`: the turn of the agent, and which operations the user is asked about.
  - `app`, `stream`, `picker`, `turn`, `selection`, `keys`: the state of the chat, and what events
    do to it.
  - `palette`, `paint`, `frame`: the pane as changes of the screen.
  - `scrollbar`, `splash`.
- `app/` connects the library to a terminal, to the model and to the file system.
- `tests/` runs the library on concrete values.

Functions named `law_..` state what holds of several functions together.

Some results come from other crates: the width of a text and its grapheme clusters, the words of a
shell command, the members of a JSON object, the text of a time and text from bytes. Their contracts
are not proved; the comment above each says what it claims.
