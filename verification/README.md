# My Finances

A ledger of personal finances: balances are fetched from Akahu, once per account
and day, or entered by hand, stored, totalled, and reported as a dashboard,
histories and changes. Databases that were changed on several machines are
merged without loss, and backups are made on a schedule.

- `src/` is the ledger and its rules, verified with Verus. Every function states
  what it does in its contract; the proof functions whose names begin with `law_`
  state what holds across functions.
- `tests/` runs the library on concrete values.
- `app/` is the desktop app around it: windows and commands, SQLite, HTTP, the
  keychain, files, and arithmetic on floating point amounts.

| Module | What it holds |
| --- | --- |
| `ledger` | accounts, values, fetch log, settings, and their invariant |
| `totals` | the virtual total accounts |
| `manual` | manual accounts and values, hiding accounts |
| `akahu` | questions to Akahu, reading replies, storing what was fetched |
| `reports`, `changes` | dashboard, configuration list, history, changes |
| `merge` | conflict copies: merging, finding and archiving them |
| `integrity` | opening a ledger, and what all operations keep |
| `backup` | schedule, names, compression and retention of backups |
| `settings`, `paths` | settings, and where files live |
| `balance`, `dates`, `text`, `filters`, `model` | what the others are made of |

A balance is held as an integer that orders like the amount it stands for and
has the same bits, so the library compares amounts without floating point. What
adds balances up is handed in by the caller.
