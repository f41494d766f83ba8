# dsv4_prompt

DeepSeek-V4 has no chat template: the text of a prompt is built in code. This library
builds it, verified with Verus: from the messages and tools of a chat request to the
exact prompt, in chat and in thinking mode.

- `src/json.rs`, `src/pyjson.rs`, `src/parse.rs`, `src/reading.rs`: JSON values, their
  text in the layout of Python's `json.dumps`, the way back, and that the text determines
  the value.
- `src/turns.rs`, `src/merge.rs`, `src/order.rs`, `src/thinking.rs`: messages become
  turns; tool results fold into user turns and follow the order of the calls; thinking
  that no longer counts is dropped.
- `src/dsml.rs`, `src/tools.rs`, `src/markers.rs`, `src/render.rs`: turns, tool calls and
  tools as text.
- `src/options.rs`, `src/request.rs`: the options of a request, its task, and a trailing
  assistant message.
- `src/prompt_laws.rs`, `src/request_laws.rs`: what holds of every prompt and of every
  request; laws of single steps stand beside them.
- `app/`: the same on `serde_json` values, with defaults from the environment.
