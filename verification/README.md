# chippytea

Finds local storage that can be reclaimed, keeps a durable index of what it
found, and offers only what its evidence supports. The decisions are a verified
library; the file system, the database and the processes around it are not.

- `src/` is the library. A scan, a storage overview and the last check before a
  removal are state machines: they say what they wait for and move on with each
  answer, so that every contract speaks of plain values.
- `app/` answers them on a real machine, keeps the tables in SQLite and shows
  results as JSON.
- `tests/` runs the library against disks that exist only in memory.
