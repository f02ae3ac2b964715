# sleipnir

The decision logic of Sleipnir, a supervisor that sits between autonomous
agents and the tools they call, verified with Verus.

- `src/models.rs`: the frames exchanged with agents and their views.
- `src/policy.rs`: tool risk tiers and threat patterns (matched with the
  `regex` crate) and the decision they imply.
- `src/handshake.rs`: one agent connection as a state machine, from frame
  to resolution, with the laws that every tool invocation is answered once.
- `src/dashboard.rs`: the operator dashboard: held transactions, the key
  bindings, the bounded telemetry log, and the frame's title and colour.
- `src/fuzz_pool.rs`: the lines written to the adversarial fuzz pool, and
  how they read back.
- `src/framing.rs`: cutting the bytes read from an agent into frames.
- `src/text.rs`: decimal rendering and line joining.
- `app/`: the daemon around the library: sockets, JSON, `Policy.toml`,
  the terminal.
