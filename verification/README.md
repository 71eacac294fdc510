# nexo-plugin-email

Multi-tenant IMAP/SMTP channel plugin for the Nexo agent framework, with
its configuration and tenant logic verified in Verus.

## Layout

- `src/` — the verified library.
  - `config` — tenant and account configuration types and their defaults.
  - `boot` — tenant label sanitising, per-tenant data directories
    (`<data_root>/email/<tenant>`) and the `plugin.configure` boot loop
    that resolves tenants and keeps the registry in step with them.
  - `instance_registry` — the tenant label → plugin handle registry.
  - `configured_state` — account and tenant queries over the configured
    state (credential list / issue / resolve, admin tenant rows).
  - `auto_discovery` — HTTP routing, the base64 reply envelope and the
    admin verbs.
  - `subprocess_dispatch` — the twelve `email_*` tools and name lookup.
  - `env_config` — decisions of the env-var boot (bootstrap tenant,
    declared account pairs, broker kind).
  - `text` — character helpers (trimming, comparison, building strings).
- `app/` — the subprocess binary: JSON-RPC adapter, YAML/JSON (de)serialising
  copies of the configuration types, env and file reading, broker
  subscribers, process-wide state cells.
- `tests/` — tests of the library.
