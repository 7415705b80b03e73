# cytt

A timetable service for CY Tech's Celcat calendars, verified with Verus.

- `src/` is the verified library: proleptic Gregorian date arithmetic
  (weeks, days, daylight-saving time, chrono formatting and parsing), the
  reading of Celcat event descriptions into teachers, classrooms and
  subject, the storage encoding of events, the configuration built from the
  `CYTT_*` variables, session cookies and login tokens, and the geometry of
  the weekly timetable image.
- `app/` is the server around it: environment, HTTP API, Celcat requests,
  SQLite store, JSON and PNG files.
- `tests/` runs the library on concrete values.

## Config

### Required
| Environment Variable           | Note
| :----------------------------- | :-
| `CYTT_GROUP_n_USERNAME`        | n in range (0-255) inclusive
| `CYTT_GROUP_n_PASSWORD`        | n in range (0-255) inclusive
| `CYTT_GROUP_n_NAME`            | n in range (0-255) inclusive <br/> must match `[A-Za-z0-9-_]`
| `CYTT_GROUP_n_STUDENTID`       | n in range (0-255) inclusive

### Optional
| Environment Variable           | Default Value  | Note
| :----------------------------- | :------------- | :-
| `CYTT_GROUP_n_DISPLAY_NAME`    |                | n in range (0-255) inclusive
| `CYTT_GROUP_n_GCALID`          |                | ^
| `CYTT_GROUP_n_GCALID_CM`       |                | ^
| `CYTT_GROUP_n_GCALID_TD`       |                | ^
| `CYTT_GROUP_n_GCALID_EXAMEN`   |                | ^
| `CYTT_GROUP_n_GCALID_AUTRE`    |                | ^
| `CYTT_HOST`                    | `127.0.0.1`    |
| `CYTT_PORT`                    | `8000`         |
| `CYTT_DATA_PATH`               | `./data`       | must have rw perms
| `CYTT_PUBLIC_PATH`             | `./public`     | ^
| `CYTT_CALENDAR_FETCH_INTERVAL` | `1800` (30min) | in seconds
| `CYTT_CALENDAR_FETCH_RANGE`    | `10`           | in weeks <br/> 0 = only current
