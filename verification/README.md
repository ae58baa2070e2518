# ritz

A launch wrapper for games on Linux. It is put in front of a game's command in
Steam, reads the settings of that game, and builds the command that is run: the
environment, the wrappers, the game's own variables and its arguments. What can be
set is described by extensions, small JSON files.

`src/` is the library. What its functions return and change is stated in contracts
and proved with [Verus](https://github.com/verus-lang/verus); properties of the whole
stand as public proof functions whose names begin with `law_`.

| module | what it is about |
|---|---|
| `schema`, `extension`, `data` | what an extension holds, how it is checked, which ones are loaded |
| `config`, `paths`, `context` | stored settings, where they lie, profiles and what they inherit |
| `condition`, `template`, `variables` | the conditions and templates that extensions are written in |
| `resolve` | which value a field has: game, profile, global scope, default |
| `builder`, `hooks` | the command that is run, and the hooks around it |
| `remap` | settings that follow an extension when it is renamed or copied |
| `supervisor` | when the game counts as ready, and what runs when it changes |
| `cli`, `splash`, `steam` | invocations, the splash with its wizard, the name of a game |
| `backends`, `lsfg_toml` | frame generation and monitor setups outside of the command |
| `theme`, `image`, `icon_center`, `notify`, `resources` | colors, the logo, notices, bundled files |
| `value`, `ordered`, `number`, `text`, `sorting`, `error` | what the rest is built from |

`app/` is the program around it: arguments, files, processes, the window.
`tests/` runs the library.

What the library takes from other crates without proof stands behind small
functions whose doc comments say what is claimed: `indexmap` for maps that keep
their order, `shlex` for splitting a command, `serde_json` for quoting a string and
reading an answer, `toml` for reading and writing a document, `png` for decoding the logo.
