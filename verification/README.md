# tmux-ai-titles

A daemon that titles tmux panes and windows with the help of a language model, with its logic
verified by Verus.

`src/` is the library, with contracts that Verus proves. Three items are trusted and not proved:
what is said of `String::push`, of `String::from_utf8_lossy` (`text::lossy_text`, with the name
`text::lossy` for its result) and of `format!("{:.2}")` on a span's seconds
(`stats::two_decimals`, with the name `stats::seconds_text`). The modules:

| Module | What it holds |
|---|---|
| `protocol` | the request lines of the control socket |
| `control` | what the daemon was asked to do, and its answers |
| `socket` | where the socket lies, how the daemon comes by it, what a client reports |
| `tracker` | when content changed and when its title was made |
| `daemon` | which panes and windows get a title in a polling cycle |
| `windows` | windows as groups of titled panes |
| `tmux` | what tmux is asked, and what its answers say |
| `generation` | what the model is asked, and what becomes of its answer |
| `hash` | hashes by which a change is noticed |
| `stats` | generation statistics |
| `messages` | what the daemon reports of its own work |
| `ids`, `text`, `time` | sets and maps of ids, text, points and spans of time |
| `options` | the defaults of the options |

The public proof functions whose names start with `law_` state what holds of several functions
together.

`app/` is the program around the library: arguments, processes, the socket, threads and the clock.
`start` takes the command line tool that asks the model as `--tool`, or from the environment
variable `TMUX_AI_TITLES_TOOL`, and what the tool is called in prompts as `--tool-name`, or from
`TMUX_AI_TITLES_TOOL_NAME`.

`tests/` holds the tests of the library.
