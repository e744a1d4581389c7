# miso_lmp

A browser viewer of MISO locational marginal prices: the settled hourly
archive, the live 5-minute DataBroker feed, and a short ARIMA-GARCH forecast,
drawn on one canvas.

- `src/` is the verified library (Verus). Prices are carried as a type
  parameter; the library decides everything that turns on timestamps, hub
  names and counts:
  - `types`: hubs, snapshots, 5-minute interval flooring, per-hub series;
  - `live`: merging fetched snapshots into the 3-day live window, trimming it,
    and ordering stored snapshots;
  - `history`: expanding the archive's column-oriented wire form onto its
    hourly grid and looking up a hub's series;
  - `feed`: reducing a DataBroker payload to the tracked hubs;
  - `model`: choosing the series and method of a forecast, its instants and
    its tag;
  - `chart`: the time domain, visible samples, axis ticks, drawn segments and
    legend;
  - `text`: decimal and clock rendering, display names, status lines.
- `app/` is the Leptos/WebAssembly front end: network and IndexedDB I/O, the
  browser clock, canvas drawing, and the floating-point model fit.
- `tests/` exercises the library on concrete values.
