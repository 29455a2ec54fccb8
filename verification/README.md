# dotling

A dotfiles manager: it keeps configuration files in a git repository and
deploys them into the home directory as symlinks or copies, syncs them in
both directions, renders templates with machine-local variables, and keeps
secrets in a password-protected vault.

The library in `src/` holds the decisions and formats of the tool, each
function with a contract proved by Verus:

- `config`, `vars`, `fingerprint`, `links`: the `dotling.toml`, `vars.toml`
  and fingerprint files, parsed and written, with read-back laws;
- `path`, `repo`, `store`, `platform`: path mapping between the home
  directory and the repository;
- `sync`, `deploy`, `merge`, `backup`: the direction of each entry, the plan
  of a sync run, the three-way merge, backup sessions;
- `template`: the `{{ ... }}` template language;
- `crypto`, `vault`: encrypted files and the vault, on top of
  `chacha20poly1305`, `argon2`, `base64` and `blake2`;
- `hooks`: the hook trust store and what becomes of each hook;
- the `*_cmd`, `ui` and `printer` modules: what each command reports.

`app/` is the command-line program around the library: argument parsing,
files, prompts and running hook commands. `tests/` runs the library on
concrete values.
