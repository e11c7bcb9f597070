# ava_admin

The core of an administration back end, written in Verus: the rules of the
access catalogue and its policies, accounts and roles, console menus, storage
configuration and file uploads, each stated as `requires` / `ensures`
contracts over mathematical models and proved.

## Layout

- `src/` — the verified library.
  - `access/` — the permission catalogue (with laws such as normalising a
    role's access twice giving what once gives), route bindings and the
    route index (a `matchit` router behind trusted wrappers).
  - `authorization/` — policy facts, subjects, and the decisions of role and
    membership administration.
  - `accounts.rs`, `roles.rs`, `menus.rs`, `system/`, `metadata.rs` —
    accounts, roles, menus, dictionaries and system parameters.
  - `storages/` — storage records, the rules on enabling and choosing the
    default store, and the `opendal` operator settings.
  - `files/` — file listing, upload sessions, chunk and assembly checks, and
    the step function that decides each stage of completing an upload.
  - `sets.rs`, `text.rs`, `order.rs` — lemmas and helpers on sequences,
    strings and the `(sort, id)` ordering that the modules share.
- `tests/` — tests of the library on concrete values.
- `app/` — the services around the library: database queries, object
  storage, the policy enforcer and the loop that drives upload completion.

Calls into outside crates (`matchit`, `uuid`, `mime_guess`, `opendal`) stand
behind trusted wrappers whose doc comments say what their contracts claim.
