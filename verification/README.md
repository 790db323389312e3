# tokemon

Token-usage tracking for AI coding tools: a verified library (`src/`) and the terminal
dashboard, SQLite cache and OpenCode reader built around it (`app/`).

`src/` holds the logic, each function with a contract proved by Verus:

- `date`: calendar dates and UTC instants as plain values, computed by chrono.
- `record`: usage records, their token sums, duplicate keys and time order.
- `cards`: token totals per day or since a date, daily and hourly sparklines.
- `scope`: the dashboard's time windows and start-up choices.
- `app`: the dashboard state and its reaction to keys and events.
- `detail`: the records of a date range grouped by model and provider.
- `history`: the records since a date split into days or Monday-based weeks.
- `table`: which rows the usage table shows, in history and in breakdown mode.
- `columns`, `theme`: the usage table's columns, cells and styles.
- `cache`: the cache's SQL text and parameters and its bookkeeping decisions.
- `opencode`: where OpenCode's message files live, which files count, and the record a
  message's JSON text gives (its fields read through serde_json).
- `text`: joining and counting in texts.

`app/` reads and writes the disk and the terminal, and handles the dollar costs, which are
floating-point amounts.
