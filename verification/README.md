# unbrowser

A browser for programs: it fetches pages with the look of a real browser, runs
their scripts in an embedded JS engine, and answers requests about them, one
line of JSON each.

`src/` is the library. It holds every decision of the program as a function
with a contract, proved with [Verus](https://github.com/verus-lang/verus):

- `policy`, `policy_list`, `prefit`: which URLs are never fetched, and what is
  known of a domain before it is visited
- `html`, `scripts`: the tree of a page, its scripts, which of them run and in
  what order
- `navigation`, `settle`, `interact`, `page_code`: the steps of a navigation,
  how a page comes to rest, clicks and forms, and the code that asks a page
- `challenge`, `cookies`, `fetches`, `urls`: pages that are none, cookies, the
  fetches of pages, links
- `bytecode_cache`: keys, files and steps of the cache for compiled scripts
- `rpc`, `mcp`, `outcome`, `events`, `cli`: what is asked, what is answered and
  what is told
- `json`, `json_text`, `text`: values, their text, and texts

What holds of several functions together stands in each module as proof
functions whose names begin with `law_`. Calls into other crates stand behind
functions marked `external_body`; their contracts say what is believed of those
crates.

`app/` is the program around the library: arguments, files, the network, the JS
engine and the loops that serve requests. It expects the JS of the page
environment under `js/` and the bundle of known domains under `prefit/`, below
the directory that `UNBROWSER_ASSETS` names.
