# arxiv_query

An arXiv search tool for MCP hosts, split in two:

- `src/` is the verified library (Verus). It holds the tool's logic: the
  query parameters and request URL built from the tool arguments, the
  judgement of the API's reply, the transformation of the Atom feed into
  structured results (ids, normalised text, authors, categories, DOIs paired
  with their links, well-formed URLs only), the detection of arXiv error
  feeds, the choice of e-print URLs to check, and the retry policy.
  Each public function states its result exactly in its `ensures`; the laws
  (idempotent trimming and whitespace normalisation, exact DOI pairing, id
  recovery from abstract URLs, well-formed URLs only, source URLs only after
  a successful check) are proof functions beside the code they speak of.
- `app/` is the plugin around it: JSON arguments and output (serde,
  schemars), the Atom parse (quick-xml), HTTP requests and sleeping between
  retries (extism-pdk).
- `tests/` exercise the library on concrete values.
