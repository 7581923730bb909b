# k-ruoka-mcp

Finnish grocery catalogues for agents: K-Ruoka, S-Kaupat and Alko behind one set of tools.

- `src/` is the verified library: what is asked of each service, what is made of the answers, and
  when a session or a query is tried again. Every function states what it returns in `ensures`;
  the proof functions whose names begin with `law_` state what holds across functions.
- `app/` performs what the library decides: HTTP and browser traffic, serialisation, tool routing.
- `tests/` runs the library with the outside crates linked.

What the library takes on trust of `serde_json`, `reqwest` and the standard library stands in
`src/json.rs`, `src/http.rs` and `src/text.rs`, each item under a comment that says what is claimed.

Checkout is out of scope: nothing here places an order or spends money.
