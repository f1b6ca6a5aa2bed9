# Lex Code

A coding agent for the terminal. It talks to a model, runs the tools that the model asks for under
rules that the user sets, keeps the conversation short enough for the model's context, and can hand
parts of the work to child agents.

The logic is a library, `src/`, verified with [Verus](https://github.com/verus-lang/verus): every
function states what it returns or changes, and the laws that hold across functions stand beside them
as proof functions named `law_…`. The program around it, `app/`, reads and writes: files, the
network, the terminal, other processes.

## The library

| module | what it holds |
| --- | --- |
| `agent` | the turns of a conversation as steps; child agents and their budget |
| `security` | the rules on calls, the decision on one, and what is asked of the user |
| `context` | the project's own instructions; when and where a conversation is cut and summed up |
| `provider` | requests in two wire formats, event streams, failures, the watch on the cached prefix |
| `tools` | the tools: what they take, what they plan, what they report |
| `config`, `prompt`, `session` | settings, the system prompt, and how a session is put together |
| `ui` | the interface line by line: input, Markdown, the page of settings and its file |
| `tui` | the full screen: its state, what a key does, what is drawn |
| `json`, `message`, `pattern`, `text`, `error`, `render`, `confirm` | what the others share |

What the library takes from other crates (`serde_json`, `regex`, `toml`, `unicode-width`) and from
`std` stands behind small functions whose contracts are believed and not proved. Each says in its
comment which function it calls and what it claims of it.

## The program

| file | what it does |
| --- | --- |
| `main.rs` | arguments, the environment, the two ways to run |
| `config_file.rs` | reads `lex-code.toml` |
| `provider.rs` | sends requests and reads streams, a few at a time |
| `wire.rs` | reads the data of events as frames |
| `driver.rs`, `spawn.rs`, `host.rs` | run turns, children and tools |
| `confirm.rs` | asks the user |
| `line_ui.rs`, `tui.rs`, `screen.rs` | the two interfaces |
