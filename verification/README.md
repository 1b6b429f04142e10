# tanzim

Layered configuration: load raw bytes from environment variables, files and HTTP, parse them
from env, JSON, TOML or YAML into values that remember where they came from, and merge them
with clear precedence. Sources are declared with short strings such as `env(prefix=APP_)` or
`file(lowercase=false):/etc/app`.

The library under `src/` is written in Verus: its functions carry `requires`/`ensures`
contracts over mathematical models of the data and are proved.

- `source`, `source_parse`, `source_text`, `source_laws`: source declarations, their grammar,
  their canonical text, and the round trip between the two.
- `value`: located values, comments, insertion-ordered maps.
- `parse_env`, `parse_json`, `parse_toml`, `parse_yaml`, `span`, `text`: the parsers and the
  text arithmetic they use; `located_laws` proves that every parsed value is located in its
  source, and `env_laws` that parsing reads back what the env writer wrote.
- `load`, `load_env`, `load_file`, `load_http`: what the loaders decide (settings, entry names,
  failures, payloads).
- `merge`, `merge_laws`, `plan`: last-wins and deep merging, array strategies, merge trees.
- `environment`: path rules of the sandboxed test environment.

`app/` holds the parts that perform I/O or implement outside traits: the loaders' reads, the
`Load` and `Parse` traits, `Display` for the errors, serde for sources, and the sandbox.
