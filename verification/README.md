# tqm

A token quota monitor for API proxy services (new-api and sub2api), printed as
one line for a status bar.

- `src/` is the verified library:
  - `calendar`: Unix time to the UTC `YYYY-MM` month, against a direct
    statement of the Gregorian calendar, and the order of month labels;
  - `usage`: which month a sub2api usage report is summed over, and which of
    its daily rows fall in it;
  - `api`: the services' records and what is kept of their replies;
  - `config`: the account read from the environment, account names, the cache
    entry and its freshness, the cache file path;
  - `cli`: the widget's decisions and how errors are reported;
  - `error`: errors, their messages and their widget texts;
  - `text`: the std string operations the above rely on, stated and proved.
- `app/` is the program around it: command line, environment, HTTP, files,
  and the amounts in `f64`.
- `tests/` runs the library on concrete values.
