# rproc

The view logic of a Linux resource and process monitor, written in Verus.
The functions in `src/` carry contracts and are proved against them, except
a few trusted wrappers (`#[verifier::external_body]`) around calls whose
code is not verified here: std's Unicode case mapping and
`char::is_alphanumeric`, `String::push`, and the `image` crate's decoding
and resizing (`src/icons/raster.rs`). Their contracts are assumed, and each
says in its doc comment what it claims of the call.

## Layout

- `src/` — the verified library.
  - `processes/` — the process table: grouping by name (`grouping`), the
    two sections for one refresh (`sections`), sort
    preferences and their file format (`sort`), visible rows, selection,
    expansion and filtering (`rows`), what each row shows (`table`),
    search URLs (`actions`) and the properties view (`properties`).
  - `ranking` — the stable sort by precomputed keys the tables use.
  - `menus`, `context_menu` — the right-click menus and what an activated
    entry resolves to.
  - `performance`, `perf_detail`, `hover`, `attribution`, `graph` — the
    performance view: card ids and titles, the detail panel of each
    section, the readout under the pointer and the per-process shares.
  - `services`, `startup`, `sheets` — the services and startup tables and
    the properties dialogs.
  - `icons/` — `.desktop` parsing, icon-theme lookup order, the icon cache
    and its file format, and raster icon decoding through the `image` crate.
  - `widgets`, `numfmt`, `settings`, `text`, `paths`, `order`, `assoc` —
    number and time formatting (including the decimal rounding of
    `{:.N}`), string and path helpers, and association lists.
- `tests/` — tests run against the compiled library.
- `app/` — the unverified rest: file and process I/O, the icon worker
  thread, SVG rendering and the floating-point formatting.
