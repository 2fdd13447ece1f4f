# che_rest

A REST framework on `che-orm`: installed apps, CRUD viewsets with filters and
pagination, an OpenAPI document, token and cookie-session authentication,
public WebSocket signals, and management commands for operation migrations
(`makemigrations`, `migrate`, `sqlmigrate`, `showmigrations`, merges).

The logic is a Verus library whose functions carry `requires`/`ensures`
contracts checked by the verifier.

## Layout

- `src/` — the verified library.
  - `module.rs`, `openapi.rs`, `openapi_doc.rs`, `extensions.rs`: app
    registration, viewset metadata and the OpenAPI document.
  - `filters.rs`, `views.rs`, `serializer.rs`, `serializers.rs`, `values.rs`:
    list filters, pagination, routes and field validation.
  - `auth.rs`, `session.rs`, `request_auth.rs`: permissions, bearer tokens,
    cookie sessions, CSRF checks, password hashing (argon2, sha2, rand), and
    the step-by-step authentication of a request.
  - `events.rs`: which handler an application command goes to.
  - `signals.rs`, `channels.rs`: declared signals and their access rules.
  - `management.rs`, `cli.rs`: the command grammar and the step each
    command takes.
  - `history.rs`, `batch.rs`, `generate.rs`: migration graphs, status,
    merges, the initial batch, `makemigrations` and `sqlmigrate` over
    `che-orm`'s migration state.
  - `project.rs`, `templates.rs`, `registry.rs`: `startproject` / `startapp`
    and the migration registry.
  - `config.rs`, `error.rs`, `json.rs`, `text.rs`, `num.rs`: configuration,
    errors, a JSON value and string helpers.
- `tests/` — tests of the library.
- `app/` — the program around it: the HTTP server (axum), the database and
  file I/O of the management commands, configuration loading, and the ORM
  models of the auth tables.
