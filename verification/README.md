# bitfun-sandbox

Rules for running commands in an OS-level sandbox, verified with Verus.

- `src/` is the library. From a policy and facts about the machine it decides which paths a command
  may write to, which commands are blocked outright, and how a command is run inside the sandbox of
  the platform (restricted tokens and access control lists on Windows, bubblewrap and Landlock on
  Linux, Seatbelt on macOS). Every function states its result; the laws that span functions are the
  proof functions whose names begin with `law_`.
- `app/` does the work around it: it reads the facts about the machine, starts programs, waits for
  them, and sets up what the library planned. On macOS it needs the two Seatbelt policy files
  `seatbelt_base_policy.sbpl` and `seatbelt_network_policy.sbpl` beside `app/platform/macos.rs`.
- `tests/` runs the library on examples.

## Modules of the library

| Module | What it decides |
|---|---|
| `policy` | policies, and the default ones |
| `guard` | whether a path may be written |
| `shell_parser` | which paths a command writes to, and whether it is dangerous |
| `rules`, `interpreter`, `args`, `expand`, `danger`, `pattern` | what the shell parser is made of |
| `manager` | which sandbox is used, and how a command is launched |
| `platform` | the plan for each platform |
| `common` | how a program is started and waited for |
| `host`, `env` | facts about the machine |
| `paths`, `path_order`, `dots`, `text` | paths and texts |

What the library takes from outside without proof stands in `pattern` (calls into the `regex`
crate) and in `text` (calls into the standard library), each with a comment that says what is
claimed.
