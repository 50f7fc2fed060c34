# news_lab

Technology news and a technology radar on a terminal: news, open source projects, papers,
podcasts, models, releases and documentation pages are fetched, summarised by a language model
and shown; a radar and a graph of knowledge are drawn from what was found.

The rules of the program are a library whose behaviour is stated in contracts and proved with
[Verus](https://github.com/verus-lang/verus). Everything that reads or writes (the network, the
cache's files, the terminal) stands around it.

- `src/` – the library.
  - `text`, `number`, `unicode`, `percent`, `lists`, `order`, `time`, `pattern`, `xml`, `json`:
    texts, numbers, lists, dates and formats.
  - `fetcher`: addresses of the sources, reading their replies, choosing among what was found.
  - `radar`, `knowledge`, `analysis`: the radar, the graphs of knowledge and the analysis of
    rivals.
  - `llm`, `config`, `cache`: asking a language model, settings, keys and ages of cached entries.
  - `digest`, `report`, `menu`, `prompts`, `ui`: what is shown, what is chosen, what is asked.
- `tests/` – tests of the library on concrete values.
- `app/` – the program around the library.

What the library takes on trust from other crates and from the standard library is marked
`external_body` or `assume_specification`, each with a comment that says what is claimed.
