# csloop

A bounded author/review coding-agent loop, driven by Anthropic models, whose logic is
verified with Verus.

## Layout

- `src/` is the verified library. Each function states in its contract what it returns
  or changes; the `law_` functions state what holds of several of them together.
  - `text`, `numbers`, `ordered`, `path_text`, `std_text`: texts, numbers, ordered maps
    and sets, and paths as texts
  - `json`, `json_codec`, `toml_doc`, `shell`: the values and texts of other crates
  - `schema`, `tools`: what a tool takes, what it refuses, and what it answers
  - `model`: requests to the provider, and its replies, whole or streamed
  - `agent`: the loop of replies and tool calls, with its limits
  - `chat_template`, `cli`, `paths`: the task file, the command line, and where files lie
  - `logging`, `telemetry`, `observer`, `usage`, `summary`: what is recorded and shown
  - `loop_runner`: author and review in turn, and when the run ends
- `app/` is the program: files, processes, the network, the clock and the console.
- `tests/` runs the library on concrete values.

## Usage

```sh
export ANTHROPIC_API_KEY=...

csloop <task_file> -m <model> [OPTIONS]
```

`csloop --help` lists the options. What a run leaves behind lies under `.csloop/loop/`
in the working directory.
