# agent-undo

Undo for coding agents: every change to a file of a project is recorded, attributed to the session
or the program that made it, and can be taken back: one event, one file, a whole session, a pinned
state, or the last burst of changes. Reports on the lines of a file (`blame`) are not made yet: the
request is refused.

The library under `src/` is verified with Verus. It works on a `Store`, an image of what a project
holds, and lists the changes that are to be carried out on disk (`Effect`). The program under
`app/` reads a project from disk, calls the library and carries its changes out.

| module        | what it holds                                                              |
|---------------|----------------------------------------------------------------------------|
| `image`       | what a project holds, and the single changes to it                         |
| `store`       | the timeline, the object store, sessions, pins and garbage collection      |
| `timeline`    | what is asked of the timeline, as mathematics                              |
| `restore`     | restores, what they promise, plans and previews                            |
| `daemon`      | the first scan, the watcher and its batches                                |
| `attribution` | who changed a file                                                         |
| `ignoring`    | which paths are left alone                                                 |
| `session`     | sessions and their metadata                                                |
| `hook`        | what an agent's hooks ask and do                                           |
| `ipc`         | the daemon's requests and answers                                          |
| `cli`         | what the commands decide and print                                         |
| `json`        | JSON documents                                                             |
| `outside`     | hashes, compression, differences, random names and the clock               |
| `paths`, `parts`, `text`, `table`, `rows`, `failure` | the ground that the rest stands on  |

Operations are specified by the list of effects that they have: `Store::did` says that a store
changed by exactly those. What holds of the library as a whole is proved in the functions whose
names begin with `law_`.

The hooks are `au hook pre` and `au hook post`, to be entered in the settings of an agent by hand:
the program does not write these settings, and `au init --install-hooks` says so. The agent whose
tools call the hooks is named in `.agent-undo/config.toml`:

```toml
[hooks]
title = "Some Agent"
short = "Agent"
id = "some-agent"
mark = "some-agent"
settings = "/home/me/.some-agent/settings.json"
```
