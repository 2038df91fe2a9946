# schedula

Schedula builds conflict-free weekly timetables for a university (courses,
lecturers, rooms and student batches) and carries the licensing and billing
rules of the Schedula hub and license server. The library is written in Verus:
every function in `src/` has a contract, and Verus proves the code meets it.

## Layout

- `src/timetable.rs` – the scheduler's input and output, the booking state
  derived from placed classes, and the hard constraints (no double booking,
  daily and weekly load limits, consecutive-hour runs, room fit), with the
  lemmas that placing a checked class, or removing one, keeps them.
- `src/scheduler.rs` – the greedy scheduler: needs, candidate ranking,
  placement, and the reports of what could not be placed.
- `src/csp.rs` – the constraint-satisfaction scheduler (most constrained need
  first, least-constraining slot, bounded backjumping).
- `src/rules.rs` – slot penalties, lecturer preferences and blackouts,
  consecutive-hour runs.
- `src/access.rs` – hub access rules, settings, pre-flight warnings, data
  health, CSV export, approvals.
- `src/import.rs` – the per-row decisions and the tally of bulk CSV imports.
- `src/credentials.rs`, `src/session.rs` – passwords, recovery, sessions.
- `src/licensing.rs`, `src/billing.rs`, `src/mail.rs` – license claims,
  expiry and refresh, activation codes, checkout and webhook rules, signature
  checks, and the customer mails.
- `src/models.rs`, `src/text.rs` – the data model and text helpers.
- `app/` – a command-line front end over a SQLite database: it loads data,
  calls the library and writes back what the library decides.
- `tests/` – tests of the library on concrete values.

Calls into outside crates (serde_json, bcrypt, hmac/sha2, hex, rand) sit
behind small trusted wrappers whose contracts say what the crate promises.
