# DShell

A desktop window around the web interface of DeepSeek Harness (`dsh`): it examines what the
backend needs, installs what is missing, starts the backend, and takes the window to it.

`src/` is the library: what the program decides and computes, written in Verus and proved against
its contract. `app/` is the program around it: the window, the tray icon, processes, files and
sockets. It asks the library what to do, does it, and hands back what came of it; the order in
which it asks is its own.

| Module | What it decides |
| --- | --- |
| `doctor` | what the backend needs and what stands in the way of the start |
| `installer` | how missing programs are installed, and how an installation went |
| `handoff` | how the backend is started and how its address is found |
| `backend` | how the backend is stopped, restarted and replaced |
| `state` | what the shell remembers while it runs |
| `window`, `page` | where the window may go, and how text reaches a page unharmed |
| `picker`, `settings` | the two local services: who is heard, and what is answered |
| `update`, `version` | which versions there are, their order, and how to install an old one |
| `release_notes` | what of a release's text is shown |
| `plugin` | how the directory picker gets into a profile of the backend |
| `config`, `proc` | configured paths, command lines, output of commands |
| `lifecycle`, `close_dialog`, `tray`, `ui_text` | closing, the tray icon, and its texts |
| `auth_cookie`, `win32` | which cookies are stale; what answers of the system mean |
| `text`, `table`, `json` | texts, lists with keys, and documents |

What is believed without proof stands beside the functions that call outside code; each says so
in its comment. Properties that span several functions are the public proof functions whose names
begin with `law_`.
