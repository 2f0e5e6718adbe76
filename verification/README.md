# sit

`sit` searches for Linux software (GitHub releases, the web, or a page given by
URL), picks the download that suits the distribution, checks it and installs it.

The decisions are a library verified with Verus; the command around it does the
network, file-system and terminal work.

- `src/` — the verified library:
  - `assets` — which files suit a distribution, their order, the default pick,
    launcher entries, distribution detection from `/etc/os-release`;
  - `scrape` — download links, install scripts and GitHub repositories in a page;
  - `search` — DuckDuckGo and Bing result pages, scored and filtered;
  - `direct` — installing from a URL, as a state machine that is handed each
    fetched page and answers with the next action;
  - `github` — GitHub search answers and release assets;
  - `install` — the install menu, paths, checksums, archive handling, package
    commands;
  - `cli` — what the command line asks for, search URLs, result lines;
  - `text`, `urls`, `pattern`, `html` — text operations, and the `url`,
    `base64`, `urlencoding`, `regex`, `scraper` and `sha2` crates behind
    trusted contracts;
  - `laws` — properties of the library as a whole.
- `app/` — the `sit` command: HTTP (`reqwest`, `tokio`), prompts (`dialoguer`),
  progress bars (`indicatif`), processes and files.
- `tests/` — tests of the library on concrete inputs.
