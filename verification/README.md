# teketeke

Order bookkeeping for a small izakaya, served over HTTP.

- `src/` is the verified library: the grammar of request targets
  (`grammar`), routing of a request to its handling (`routes`), the tables
  and their orders (`store`), the answers sent back (`replies`), decimal
  text (`decimal`), errors (`errors`), and the properties that span the
  order book's operations (`laws`).
- `app/` is the server: sockets, request bodies, JSON, locks and files.
- `tests/` runs the library on concrete values.

The client pages `index.html` and `button.js` are served from `client/`.
