# sooth

The decision-making core of a web dashboard for Podman quadlets, written
in Verus: every function in `src/` carries a contract that the verifier
proves, and the library states the properties it relies on as proof
functions.

## Layout

- `src/` — the verified library.
  - `kind`, `naming`, `unit`: unit kinds and extensions, file-name and
    group-path rules, the parsed quadlet model.
  - `text`, `decimal`: character-level string helpers and decimal
    printing/parsing with their specifications.
  - `nav`, `status`, `display`, `sections`: URLs and sidebar items, live
    status badges and counts, labels, ETags, content types, and a unit
    list's rows: root units first, then one section per group in path
    order (each group directly followed by its subgroups).
  - `groups`: the checks and plans behind moving, renaming and creating
    units and group directories (including git-sync overlap).
  - `iniedit`, `pods`, `drafts`, `prepare`, `pod_rows`: the pod form —
    staged attachments, brand-new containers, networks and volumes and
    member edits checked (name, variables, the unit-file validator's
    verdict) before any write, and the `[Pod]` section they are folded into.
  - `logs`: journal line grouping into runs, timestamps, line-ending
    normalisation for server-sent events.
  - `handlers::*`: the form payloads of each page and the rules applied to
    them before anything touches disk, systemd or podman; the Ports
    table's rows (by host port, dynamic ports last, with owner and
    conflict links); the secrets page's plan.
- `tests/` — executable tests of the library.
- `app/` — ordinary Rust around it: serde request types, host access
  (environment variables, clock, socket addresses) and HTML rendering.

Verify with `verus` on `src/lib.rs`.
