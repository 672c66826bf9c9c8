# clipwin

The core of a clipboard manager for Windows, written in Verus: the clipboard history, the todo
list beside it, and every decision that the program around them makes. The program itself is in
`app/`: it reads the clipboard, keeps the database file and draws the window, and asks the library
what to do.

## The library

- `store` holds the rows of the two tables and the settings. `store::clips` takes events into the
  history and searches it, `store::todos` keeps the todo list, `store::blobs` knows which files
  rows refer to, `store::deletion` which of them deleting rows leaves over. `store::migrate` brings
  older databases up to date, and `store::laws` states what holds of the store as a whole.
- `content` turns an event into a row: its content, its content address and its blob files.
- `cf_html` and `dib` read and write the clipboard's formats for documents and bitmaps; `wide` is
  its UTF-16.
- `watcher`, `paste`, `window` and `tray` are decisions: what to capture and when to try again,
  which keys make a window paste, where the main window appears and when it hides, what a menu
  item does.
- `commands` is what the page and the tray ask for.
- `order`, `like`, `tags`, `json`, `decimal`, `digest`, `text`, `unicode`, `clock`, `rows` and
  `seqs` are what the others are made of.

A contract speaks of views: sequences of characters and bytes, rows with such texts, and a
`StoreView` for a whole store. Operations that read the clock come in pairs:
one that takes the time and is exact, and one whose time is one that the clock gave.

## What is trusted

Functions of the standard library, `sha2`, `serde_json`, `image` and `chrono` stand behind
declarations whose contracts are taken as they are. Each of them says in its comment which
function it stands for and what it claims.

## The database

The library works on rows in memory. `app/db.rs` reads them from SQLite, writes back what changed,
and runs the full-text index, whose ranking a search takes as an argument.
