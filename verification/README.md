# nci — Narrative Credibility Index

A command-line tool that scores a Markdown article against a rubric of twenty
manipulation categories (each scored 1 to 5, total 0–100), either through an
OpenAI-compatible language model, through a small REST service that fetches a
web page first, or by hand in a terminal screen.

Layout:

- `src/` — the library, verified with Verus:
  - `text.rs`: whitespace, trimming, fence stripping, decimal notation,
    word and line splitting, joining;
  - `rubric.rs`: the twenty categories and the system prompt built from them;
  - `score.rs`: category scores, totals, interpretation bands, score bars and
    the greedy wrapping of reasoning text;
  - `llm.rs`: endpoint URL, user message, cleaning of the model's reply,
    turning its entries into scores, choice of the API key;
  - `server.rs`: the scan pipeline (HTML to Markdown, file naming, response);
  - `tui.rs`: the state of the manual scoring screen and its key handling.
- `app/` — the program around it: command line, HTTP, files, terminal
  drawing, JSON.
- `tests/` — tests of the library.
