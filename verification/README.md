# cPanel NAS backup

A runner that pulls a cPanel full backup onto a NAS volume: it starts the backup
through the cPanel UAPI, polls the FTP directory until the archive is there,
downloads it, writes a `.sha256` file beside it, checks that it holds the
expected entries, deletes it from the server and prunes old local archives.

The rules of the runner are in the library under `src/`, written in Verus and
proved against its contracts: the settings, the order of the steps, when a wait
ends, what a reply means, what an archive must hold and what pruning removes.
The program under `app/` carries them out: it reads the environment, talks FTP
and HTTP, touches the file system, and passes on what failed there.

| Module | Holds |
| --- | --- |
| `config` | the settings, read from environment variables |
| `run` | the order of the steps of one run |
| `uapi`, `json` | requests to the UAPI and the meaning of its replies |
| `listing`, `polling` | what a listing says, and how long to wait for what |
| `download`, `checksum` | the transfer of an archive and its checksum file |
| `archive` | the check for expected entries |
| `retention` | which local archives to remove, and their checksum files with them |
| `paths`, `text` | the operations on paths and texts that the others need |

The `law_` proof functions state what holds of the library as a whole, such as
that an archive is deleted from the server only after a verified download.

## Settings

Required: `CPANEL_BASE_URL`, `CPANEL_USERNAME`, `CPANEL_FTP_HOST`,
`CPANEL_FTP_USERNAME`, `CPANEL_FTP_PASSWORD`, and one of `CPANEL_API_TOKEN` and
`CPANEL_PASSWORD`, of which the token takes precedence.

| Variable | Default |
| --- | --- |
| `BACKUP_DIR` | `/backups` |
| `CPANEL_INCLUDE_HOME` | `true` |
| `CPANEL_BACKUP_EMAIL` | empty |
| `CPANEL_FTP_PORT` | `21` |
| `CPANEL_FTP_BACKUP_DIR` | empty |
| `DELETE_REMOTE_AFTER_DOWNLOAD` | `true` |
| `VERIFY_ARCHIVE` | `true` |
| `EXPECTED_ARCHIVE_ENTRIES` | `homedir/public_html,mysql/` |
| `RETENTION_KEEP_LAST` | `7` (`0` keeps all) |
| `POLL_INTERVAL_SECS` | `60` |
| `BACKUP_TIMEOUT_SECS` | `7200` |
| `RUN_MODE` | `once` (or `daemon`) |
| `SCHEDULE_INTERVAL_SECS` | `86400` |

An expected entry is a path prefix: it is found where the name of an entry of
the archive begins with it.

## What is taken on trust

Verus does not read the outside crates. What it is told about them stands in the
doc comments of the items that call them: SHA-256 (`download`), percent-encoding
and base64 (`uapi`), JSON parsing (`json`), and `String::push` (`text`).
