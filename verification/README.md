# ham_sync

Synchronization logic for a ham-radio logbook: offline mutation queues, LAN
peer discovery and pairing, event-chain replication, cloud pairing and
ingest, the hosted account client and server rules, and the projection of
the official event log. The library in `src/` is written in Verus; every
public function carries a contract proved against mathematical models of its
types, and the public `law_*` proof functions state properties that relate
several operations.

Layout:

- `src/` — the verified library, one module per concern (`offline`,
  `lan_trust`, `peers`, `replication`, `cloud`, `conflicts`, `account`,
  `account_reply`, `hosted_api`, `hosted_server`, `qso_payload`,
  `projector`, `sync_server`, `http_head`, `desktop`, `admin_http`), with
  shared text, query-string, event and identifier helpers (`text`, `query`,
  `events`, `ids`). Calls into `uuid`, `chrono` and `sha2` stand behind the
  small trusted wrappers in `ids`, and `String::push` behind one in `text`.
- `tests/` — scenario tests run against the compiled library.
- `app/` — the unverified shell: the sync server's socket loop, JSON wire
  types, the hosted account client's file and secret storage, and UDP
  discovery.

What is not here. The event store of the core logbook crate, the SurrealDB
projection store and the SQLite metadata store are not part of this crate, so:

- the hosted server is present as its rules (`hosted_api::classify_hosted_route`
  routes a request, `hosted_server::ServerState` decides accounts, sessions,
  devices, logbooks and memberships, and `ServerState::reply_status` gives
  the status a routed request is answered with), but no server binary runs
  them, and its
  QSO and sync routes, which need the event store, are absent;
- the projector is present as the verified `projector::ProjectionRun` steps
  (line accounting, chain check, replay, projection, batch commits, halting
  and its operator messages); the loop that reads the log and writes the
  projection store is absent, and the tests drive the steps themselves;
- pull and push are present as their verified decisions (`cloud::plan_pull`,
  `cloud::IngestTally`, `cloud::finish_pull`, `cloud::push_response`); the sync
  server in `app/` answers the routes that need the event store with "store
  unavailable", after `sync_server::route_step` has refused unknown routes,
  missing tokens and malformed logbook ids.
