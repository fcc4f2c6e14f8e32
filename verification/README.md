# codex-telegram-notify

Notifies a Telegram chat when Codex finishes a turn (its `Stop` hook) and when a
`/review` session completes.

- `src/` is the library, verified with Verus: what is read out of a message, what is
  sent, to whom, when and how often, and what is saved.
- `app/` is the program around it: the command line, files, HTTP, the prompts at the
  terminal, and the service managers of Linux and Windows, with the errors that these
  can end in.
- `tests/` runs the library on concrete values.

## The library

| module | what it holds |
| --- | --- |
| `text`, `number`, `order`, `lines` | texts, numbers, the order of texts, the lines of a growing file |
| `json`, `toml_value` | values of `serde_json` and `toml` as plain data |
| `answer` | the answer in an assistant message that may be JSON |
| `message` | the texts of notifications |
| `config`, `cli` | the configuration, the environment over it, and the commands on it |
| `telegram` | requests to the bot API, replies, and when to send again |
| `setup` | which chats wrote to the bot, how long to wait, what is saved |
| `hook` | what a hook event leads to |
| `codex_hook` | the `Stop` hook in the configuration of Codex |
| `review_watcher` | session files, complete reviews, and which of them are notified |
| `daemon` | the watcher as a service |

What each function returns is stated in its `ensures`. What holds of several
functions together stands in public proof functions whose names begin with `law_`.

Calls into `serde_json`, `toml` and `std::path` stand behind small functions marked
`external_body`; each says above it what is believed of the call.
