# dsh_host

The host-side logic of the agent harness plugins, written in Verus: the
functions in `src/` carry `requires`/`ensures` contracts that Verus proves,
except five small wrappers around std and `serde_yaml` calls
(`#[verifier::external_body]`: `lossy_text`, `own_path`, `push_char`,
`debug_quote`, `parse_yaml_mapping`), whose contracts are trusted. The traits
that users implement (`SkillProvider`, `ProcessInspectorInternals`) name their
answers with relations; what the library states of a provider's or host's
answer holds of whatever those implementations return.

- `src/` is the verified library: prompt interpolation and assembly order,
  terminal output sanitizing, skill files, registry and catalog, process-table
  parsing and process trees, the PTY session registry and send lifecycle,
  subagent depth and settlement, token estimates, the surface fold and the
  replay of a session log (step pairing and the running surface total), time
  context rendering, output collection and executable lookup.
- `app/` is the host around it: files, processes, PTYs, JSON configuration and
  async plumbing. It hands the library plain values and carries out the steps
  the library decides. The interactive PTY session driver (output pump, polls,
  writes) is not part of `app/`: the library holds its send lifecycle, input
  and readiness decisions, but nothing here runs them against a live PTY yet.
- `tests/` runs the library on concrete values.

Outside crates: `serde_yaml` is called from the library behind a trusted
wrapper (frontmatter parsing); `serde_json`, `thiserror`, `tokio`, `libc` and
`portable-pty` are used by `app/` only.
