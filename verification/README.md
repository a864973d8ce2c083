# avin

Market data management for trading: instrument identifiers and their cache,
bar files stored per instrument, kind of data and year, requests of bars over
a time window, and technical indicators over bars. The library states and
proves its contracts; the input and output around it (parquet files, network sources)
is in `app/`.

- `src/indicator.rs`: bars and the indicators computed over them.
- `src/market.rs`: instruments, kinds of market data, sources, the instrument cache.
- `src/time.rs`: instants in UTC and their calendar years.
- `src/frame.rs`: bar tables held in `polars` data frames.
- `src/text.rs`: splitting, trimming, and decimal reading and writing.
- `src/data_file_bar.rs`: one stored year of bars and its file.
- `src/manager.rs`: finding instruments, requesting and downloading bars.
