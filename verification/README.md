# dev-space-cleaner

The verified core of a desktop tool that finds and removes space that
development work leaves behind: `node_modules` directories, npm / pnpm / yarn
caches, and Docker data that can be pruned.

- `src/` is the library; its functions have proved contracts, except the
  clock reading, of which nothing can be promised:
  - `model` — requests, candidates and reports;
  - `text` — character-level text operations with exact specifications;
  - `patterns`, `roots` — ignore rules, scan roots, cache locations;
  - `scan` — the phases of a scan, per-entry decisions and the final report;
  - `items` — building, stable sorting and totalling of candidates;
  - `size` — reading sizes such as `1.5GB`;
  - `docker` — reading `docker image ls` and `docker system df` reports, Docker
    candidates, prune commands;
  - `tally`, `cleanup` — directory sizes, cleanup actions and summaries;
  - `clock` — the current time;
  - `laws` — properties that span several calls (uniqueness, idempotence and
    permutation of the sort, well-formed candidate lists, normalised patterns,
    sizes read back exactly, saturation of freed bytes, ...).
- `app/` is the Tauri shell: it walks the file system, runs `docker`, deletes
  directories and talks to the front end, calling the library for every decision.
- `tests/` exercise the library on concrete values.
