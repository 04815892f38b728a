# geoguessr_bot

A Matrix bot that posts street-level photos and lets the members of a room guess
where they were taken. Rounds run at fixed times or on request; guesses are typed
or placed on a map page, scored by distance, and kept in a database.

`src/` is the library: the rules, texts and decisions of the bot, proved with Verus
against the contracts in the source. `app/` is the program around it: Matrix, HTTP,
SQLite, files, drawing, and most of what needs floating-point numbers.

## Library

| Module | What it is about |
|---|---|
| `round`, `guess` | the course of a round and of a single guess, scores, resuming after a restart |
| `scheduling`, `clock` | when rounds start, durations, local time |
| `commands`, `inbox`, `lang` | commands, messages and reactions, languages |
| `web`, `map_page` | personal links, submissions, the map page |
| `results`, `urls`, `zoom`, `stats` | reveal, result pages and maps, leaderboards |
| `prefetch`, `sources`, `imaging`, `media`, `random` | finding, judging and handling photos |
| `config`, `state`, `countries`, `geocode` | configuration, saved state, the map of countries, place names |
| `format`, `text`, `sort`, `str_map` | markup, strings, sorting, maps with text keys |
| `bits`, `binary64` | floating-point bit patterns, their order and their arithmetic |

Floating-point numbers reach the library as their bit patterns. It compares them,
and computes ratings, bars and grid cells from them, rounding as the hardware does.
Calls into other crates stand behind small trusted functions,
each of which says in its comment what is believed of the call.
