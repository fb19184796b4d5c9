# ffs

Fast file suggestion with typo tolerance, verified with Verus.

`src/` is the verified library:

- `input`, `guard`: the request, and which project directories may be indexed
- `naming`, `freshness`: where an index is kept, and when it is out of date
- `files`, `trigram`, `tolerance`: what is recorded of a file, its trigrams, and how many of them a
  misspelt query still shares with it
- `statements`, `database`: the SQL of the index, and the connection to SQLite
- `index`, `search`: the script that fills an index, and the search in three tiers
- `rebuild`, `session`: the course of a rebuild under its lock, and of a request from start to end
- `text`: characters and strings

`app/` is the program around it: it reads the request from standard input, walks the project, and
performs the steps that the library decides on. The project directory is taken from the environment
variable `CLAUDE_PROJECT_DIR`, and the indexes are kept in `.cache/ffs/file-index` below the home
directory.

    echo '{"query": "main", "limit": 10}' | ffs

The contracts of `index` and `search` speak of the transcript of a connection: which commands are
run over it, in which order, and what is made of the replies. Which rows SQLite selects is not part
of them; the tests run the statements against a real database.
