# ferrumview

A local viewer for IP cameras. Streams that a browser can play are handed to it as they are;
streams of DSI, whose servers speak an old TLS and whose addresses expire, are relayed through
ffmpeg as HLS.

The library (`src/`) holds what the viewer decides and computes, with contracts proved by Verus:

- `text`: the string operations everything else is written with;
- `uri`, `json`: addresses and JSON members, as `axum::http` and `serde_json` read them;
- `dsi`: the list of account cameras, the session cookie, requests to the account's API and
  the stream addresses it hands out;
- `relay`: which addresses are relayed, the table of relays, which files are served and how;
- `worker`: when a relay's worker connects, retries, gives up a stalled stream and stops;
- `config`: the list of streams and the configuration that the viewer is given.

`app/` is the program around it: the web server, the files, and the processes of curl and
ffmpeg. It expects `static/index.html` and `config/dsi-openssl.cnf` below its working directory.
