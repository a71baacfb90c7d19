# f1clash_setup

A setup planner for F1 Clash: card-upgrade arithmetic, part and driver
statistics with boosts, a brute-force optimizer over the owned parts and
drivers, an upgrade advisor, shareable snapshots and the web forms around
them. The library in `src/` is written in Verus and its functions are
verified against their contracts, except a few small wrappers marked
`#[verifier::external_body]` that call outside code (SHA-256, hex, URL
parsing, `String::push`, font loading and PNG rendering): their contracts
are trusted, not proved, and each says in its doc comment what it claims.
`app/` is the axum web server (PostgreSQL, maud pages) that reads and
writes the data and calls the library.

Layout of `src/`:

- `data`, `drivers_data`, `models/` — the catalog model, rarities, upgrade
  costs and the stat arithmetic (boosts, totals, pit-stop points).
- `resolve`, `setup_stats`, `optimizer_core`, `optimize`, `upgrade_advisor`
  — effective stats, setup sums, the optimizer and the advisor.
- `catalog`, `bulk`, `export`, `forms` — catalog assembly and lookups, form
  and import parsing.
- `share`, `og_image` — share snapshots, content hash and preview card.
- `session`, `auth`, `analytics` — session ids, admin cookie, page-event
  classification.
- `display`, `compare` — view decisions (deltas, upgrade tags, best/worst).
- `binary64` — rounding of ratios to the nearest double, which the boost
  bonus follows step by step.
- `text`, `find` — string helpers and the "first index where" search.
