# metaboard-subgraph-report

Reports which deployed versions of the `metaboard` subgraphs on Goldsky have
been superseded: replaced by a newer version of the same name, not the target
of any tag, not pinned, and older than an age window. Goldsky exposes no usage
metrics, so "superseded" is what is reported, never "unused"; the tool never
deletes anything.

Layout:

- `src/` is the library, verified with Verus:
  - `text.rs`: string building blocks (decimals, joins, padding, prefixes,
    trimming, the byte-wise order of strings), each with the text it yields;
  - `classify.rs`: filtering by name prefix and the classification of a
    listing into verdicts, with its properties (aliases are never assessed,
    pins and tags always retain, the newest version of each name is retained,
    filtering never changes a verdict);
  - `goldsky.rs`: the reduction of listing rows, the read-only client and the
    meaning of a listing reply;
  - `report.rs`: the reason codes and texts, the candidate list, the human
    table and the document model of the JSON report.
- `app/` is the command line: argument parsing, the clock, the HTTP request,
  JSON decoding and encoding.
- `tests/` runs the library on concrete listings.
