# octopod

A command line podcast manager backed by SQLite, split in two:

- `src/` is the verified library. It reads fetched RSS bodies into podcast
  records (`feed`, `models`, `schema`), names the files episodes are saved
  under, chooses which records are new, plans downloads (`common`) and makes
  the command line's decisions (`cli`, `text`). Calls into `url`, `rss`,
  `mime` and std's UTF-8 decoding stand behind the trusted items of
  `outside`.
- `app/` is the program around it: argument handling with clap, the SQLite
  tables through diesel and rusqlite, fetching feeds with reqwest and files
  with curl, and the terminal output.

Workflow:

    octopod subscribe -d https://my.podcast.com/rss/feed/
    octopod list
    octopod download-dir ~/podcast/
    octopod update
    octopod pending
    octopod download
