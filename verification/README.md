# fire_ctrl

A self-hosted scraping service: it scrapes pages, crawls sites, lists the URLs of a
site, searches, and has a language model extract data from pages.

- `src/` is the library: what the service decides and computes, written in Verus. Every
  function states what it returns, and Verus proves it. What touches the network, the
  database or the clock is split into steps: a function says what is to be done next,
  and another one takes what came of it.
- `app/` is the program around the library: the HTTP server, the workers, the database,
  the browser, and the types as they are written on the wire.
- `tests/` runs the library with its outside crates.

## Modules

| module | what it holds |
| --- | --- |
| `config` | the settings, read from the environment |
| `models` | requests, responses, jobs, results and errors |
| `database` | the queries, and what is made of their rows |
| `weburl` | URLs, local addresses, percent encoding |
| `html` | titles, texts, links and summaries of pages |
| `robots`, `sitemaps` | the rules and the sitemaps of sites |
| `crawl`, `scraper` | scraping one page, crawling a site, listing its URLs |
| `llm`, `extracting` | what the language model is asked and what is read of its answers |
| `search` | queries to search engines and what they find |
| `api` | what each request of the HTTP interface is answered |
| `worker` | what the background workers do with a job, and how webhooks are sent |
| `json`, `ident`, `text` | JSON values, identifiers and times, and texts |

Functions named `law_*` state what holds of several functions together: that a crawl
scrapes no page twice, that it goes no deeper than it may, that ranking loses no result.

## What is trusted

Calls into outside crates stand behind small functions whose contracts are not proved.
Each says in its comment which function it calls and what it claims of it.
