# banqline

A terminal client for personal banking through the Enable Banking API:
bank connection, account and balance listings, transaction lists, spending
summaries, balance forecasts, category tagging, alert rules and an
interactive dashboard.

## Layout

- `src/` is the library, written in Verus. Every function carries a
  contract and is proved against it: transaction filtering and ordering,
  tagging rules, alert evaluation, summaries, forecasts, the dashboard's key
  handling and refresh steps, the texts and tables the commands print, the
  OAuth callback query, JWT framing and API pagination. Calls into
  `rust_decimal`, `chrono`, `tabled`, `base64`, `rsa` and `dirs` sit behind
  small trusted wrappers whose doc comments say what is assumed of them.
- `tests/` exercises the library on concrete values.
- `app/` is the program around it: command-line parsing, the configuration
  and session files, the SQLite cache, HTTP requests, the callback server and
  the terminal interface. It hands plain values to the library and prints
  what comes back.
