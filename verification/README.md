# CodexBot

A bridge between Codex and a QQ bot. It announces to one bound user how a Codex
turn ended, answers that user's commands, and lets them start, follow, steer and
stop Codex tasks from the chat.

The library under `src/` holds every decision of the bridge and is proved with
Verus. The program under `app/` runs it: files, SQLite, HTTP, the gateway
connection and child processes.

## Layout

| Modules | What they hold |
| --- | --- |
| `text`, `json`, `digest`, `clock`, `chance`, `ranking`, `file_path` | values and the calls into other crates |
| `security`, `formatting` | redaction, previews, pairing codes, message segments |
| `store`, `store_rows`, `store_ops`, `store_laws` | the state: its model, its operations, its laws |
| `hook_event`, `hooks`, `claude_hook` | lifecycle events of the assistants |
| `identity` | laws of the keys and names that tell sessions and accounts apart |
| `delivery`, `turn_monitor` | notifications, and the search for failed turns |
| `commands`, `account_commands` | commands of the chat |
| `control_session`, `codex_control`, `directories`, `qq_menu` | the control menu, its tasks and their directories |
| `codex_login`, `codex_app`, `account_switch` | the app server, its accounts, and their change |
| `qq_client`, `qq_runtime` | the chat's protocol and the loops around it |
| `processes`, `daemon`, `cli`, `desktop` | the companion process, the command line, the desktop view |

`store::StoreView` is the mathematical state. Operations are stated as functions
from one state to the next, and every operation keeps `store::consistent`.

Points in time are microseconds since the epoch. What depends on chance, on the
time zone or on the machine comes in as an argument; a thin function beside each
such rule draws the value and says what holds whatever it was.
