# rashamon

The core of the Rashamon Arc browser as a verified library: the browser
state machine (tabs, history, address bar, bookmarks, hover regions),
hit-testing of the chrome and the action layer that turns keys, clicks and
other platform events into browser actions, how engine replies become
events and events change the browser state, the omnibox, the built-in ad
blocker, site permissions and permission prompts, the persistence file
formats, a small HTML-to-text page reader, the framebuffer and its line-art
icons, the PPM frame writer and the capability sets of the sandbox. Every
function in `src/` carries a contract that Verus proves, except six small
wrappers in `text` around `String::push`, `String::pop` and `char` methods of
std, whose contracts are trusted; the `law_*` proof
functions state properties that span several calls (what saving and loading
give back, what one operation undoes of another).

Layout:

- `src/` — the library, one module per subsystem; `text` and `json` hold the
  character-level helpers the parsers share.
- `tests/` — tests of the library on concrete values.
- `app/` — a headless shell: it opens what the command line names through
  the omnibox and runs the frame loop (fetch threads, the library's
  per-frame decisions, repaints written as PPM frames), reads and writes the
  data directory and fetches pages with `curl`. Drawing that needs floating
  point (rounded fills, circles, the spinner) lives here too.
