# dbpedia_abstracts

Fetches the English abstract of every entity in `entity2id.json` from DBpedia and writes
`item_texts.json`, one JSON object with the text of each entity under its identifier.

    <program> [number of entities to work on at the same time]

- `src/` is the library, verified with Verus: what a key of the entity list names
  (`entity`), where the documents of a resource are and what abstract a data document has
  (`document`, `json`), what abstract a page has (`page`), how a task retries, pauses and
  ends (`task`), what holds of all its runs (`run`, `harvest`), and how the result file is
  written (`output`, `quote`). `text`, `number` and `options` are small helpers.
  A task looks for the abstract in the data document of a resource first; the page is the
  fallback where that has none.
- `app/` is the program around it: arguments, files, network, concurrency.
- `tests/` runs the library on examples.
