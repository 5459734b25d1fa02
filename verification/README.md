# mcp_browser

Web reading tools for agents, served over MCP: read a page as clean text,
list its links, read its metadata, query it with CSS selectors, capture it
as an image or PDF, and act on it in headless Chrome.

- `src/` is the library, verified with Verus:
  - `text`: Unicode whitespace, words, trimming and whitespace collapsing,
    with the laws that collapsing keeps the words and is idempotent;
  - `dom`: the CSS selection of `scraper` and URL resolution of
    `reqwest::Url`, reached through trusted functions whose results are
    named;
  - `page`: page text, links, metadata, selector queries and structured
    extraction;
  - `encoding`: base64 of captured bytes (with the law that the text
    determines the bytes) and decimal numerals;
  - `reply`: the answer each tool gives, success or `Error: ...`;
  - `input`: the tool parameters.
- `app/` is the server: the Chrome session (`headless_chrome`), the HTTP
  fetches (`reqwest`), the MCP plumbing (`rmcp`, `tokio`) and JSON output.
- `tests/` runs the library on concrete pages.
