# dmarc_explorer

Collects DMARC aggregate reports from a mailbox, stores them in SQLite and
shows them on a small web site.

- `src/` is the verified library (Verus):
  - `extract` finds the report documents a message carries: the `.xml`
    entries of ZIP attachments and gzip-compressed attachments, leaf parts in
    depth-first order, the first failure failing the message; with the laws
    that hold of it;
  - `report` turns a feedback document into the stored report;
  - `mailbox` holds the watcher's decisions (reconnect delay, what to do with
    a message);
  - `mime` and `archive` are the trusted boundary to `mailparse`, `zip` and
    `flate2`; `text` holds byte-string predicates; `pages` the rows the web
    pages show.
- `app/` is the program: IMAP session, SQLite storage, XML deserialisation
  (serde, quick-xml) and the web server.
