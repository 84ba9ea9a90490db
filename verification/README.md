# tact

A terminal agent: the user types a task, a language model plans it as a list
of tool steps (read a file, write a file, run a command), and the steps run
one by one inside a workspace sandbox, some only after the user approves them.
The terminal interface shows the plan, a scrolling log of the conversation
(with streamed Markdown output and folded reasoning blocks), and an input box.

## Layout

- `src/` — the library, verified with Verus. Each module states its contracts
  over mathematical models (`Seq`, `int`, spec functions) and proves them.
  - `agent` — shared types, the plan request and its parsing, and the task
    runner: a state machine from events to the next piece of work.
  - `sandbox` — path cleaning and containment, and the command allow-list.
  - `session` — plan, status, task history and diff popups of the interface.
  - `input`, `cursor`, `text`, `keys` — the multi-line input box with byte
    cursors over UTF-8 text, and its history.
  - `modes` — normal, search, palette and selection keys, global keys.
  - `log_view`, `viewport`, `wrap`, `highlight` — which log lines are shown,
    how they wrap by display width, where the viewport stands, and how search
    hits and selections are drawn.
  - `stream`, `thinking`, `markdown`, `messages`, `strutil` — streamed output,
    reasoning blocks, table layout, message lines and string helpers.
  - `transcript` — the log's styled and raw lines in lockstep: applying
    streamed output to them and ending a reply, with drawing left to a
    renderer that the front end supplies.
- `tests/` — tests of the library on concrete values.
- `app/` — the terminal program: event loop, rendering with ratatui, the
  model client, clipboard and file input/output.
