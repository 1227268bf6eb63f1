# budgy

The verified core of Budgy, a local-first budget tracker with a local
language model.

- `src/` is the library, checked by Verus:
  - `text`: whitespace, trimming, substring search, prefix and suffix
    stripping, splitting into words, decimal rendering;
  - `ranking`: the top-`k` ranking of scored items (highest score first,
    ties in their original order), with its laws;
  - `rag`: the financial-tips knowledge base and keyword retrieval;
  - `llm`: the language-model server's address and command line, the wait
    for it to come up, the prompts and the cleaning of receipt answers;
  - `subscription`: payment periods, next payment dates and receipts
    grouped by vendor;
  - `receipt`: base64 encoding of receipt images and their file names;
  - `db`: the default categories.
- `tests/` runs the library on concrete values.
- `app/` is the backend around it: the SQLite database, the HTTP client of
  the language-model server, file access, and the computations on
  floating-point amounts.
