# rusty_proxy

A reverse proxy that serves several sites under one address, each below a path of its own, written
in Verus. What the library computes and decides is verified; reading, writing and connecting is left
to the program around it.

## Layout

- `src/proxy.rs` and `src/proxy/`: the proxy that takes the first part of a path for the name of a
  site. `site` finds and removes the name, `forward` rewrites a request for its site, `session`
  decides what a connection does next, and `laws` states what holds of every session.
- `src/line_proxy.rs`: the proxy that handles the first line of a connection and then joins the
  client and the site for good.
- `src/buffered_proxy.rs` and `src/buffered_proxy/`: the proxy that checks a request's headers one by
  one on their way to the site.
- `src/named_sites.rs`, `src/server.rs`: the sites, and the page that lists them.
- `src/sync_map.rs`, `src/atomic_value.rs`: the map that holds the sites, and the cells it is made of.
- `src/req_header.rs`, `src/request.rs`, `src/response.rs`, `src/text.rs`: marks, headers, answers and
  byte strings.
- `app/`: the program. It runs sessions on sockets: it does what a session asks for and hands back
  what came of it.
- `tests/`: the library on concrete values.

## Sessions

A session is a state with a `step` function: an event goes in, an action comes out. Each event that a
session can be handed is one that can come of its last action; `session_expects_what_comes` proves
that the two match, so that whoever runs a session need not keep track of its state.
