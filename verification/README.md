# yt-dlp-ui

A small web front-end for `yt-dlp`: it starts downloads, follows them, lists albums and
archives, and downloads albums again on a schedule.

- `src/` is the library: every rule of the application, stated in contracts and proved with
  Verus.
- `app/` is the web server around it: routes, files, processes.
- `tests/` runs the library.

The modules of the library:

| module     | what it holds                                                           |
| ---------- | ----------------------------------------------------------------------- |
| `text`     | trimming, searching, replacing, splitting and joining of text           |
| `paths`    | path strings, and which names may be used inside the storage folders    |
| `size`     | sizes as people read them                                               |
| `order`    | stable sorting                                                          |
| `clock`    | points in time and how they are written                                 |
| `links`    | the addresses of the pages                                              |
| `error`    | errors and the replies they give                                        |
| `form`     | the download form                                                       |
| `config`   | directories, state files, and what the environment says                 |
| `sources`  | the playlist that each album comes from                                 |
| `schedule` | schedules, when they are due, and what they download                    |
| `command`  | the `yt-dlp` command lines                                              |
| `jobs`     | jobs, their logs, and the job store                                     |
| `runner`   | how a request becomes a job, and the steps of a run                     |
| `catalog`  | the listings of albums, files and archives                              |

The server listens on `BIND_ADDR` (`0.0.0.0:8090` unless given). State lives under `DATA_DIR`
(`./data` unless given); `DOWNLOADS_DIR` and `ARCHIVES_DIR` override the storage folders.
