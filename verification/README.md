# completions

The logic of a chat client for a provider that answers with server-sent events, written and
verified with Verus.

A request is planned by the length of its prompt and its model: it is sent as it is, with its
history uploaded as a file, or in segments. What is then done, call by call, is decided by state
machines that perform nothing themselves; `app/` performs their actions and hands back the events.

- `text`: text as sequences of characters, with searching, splitting, trimming and decimals
- `prompt`, `prompt_laws`: cutting prompts, wrapping segments, splitting off the history
- `sse`, `watch`, `watch_laws`, `opening`: events, errors, and reading a response stream
- `action`, `direct`, `segmented`, `upload`, `run_laws`: the runs and what holds of them
- `chat`, `chat_laws`, `completions`: whole requests, their plans and their retries
- `sessions`, `guard`: the sessions that are under way, and how they are cleaned up
- `request`, `error`: the data
- `outside`: what is taken from `std` and `serde_json` without proof
- `app/`: the asynchronous shell
