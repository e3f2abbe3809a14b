# whatports

A server that listens on many TCP and UDP ports at once and tells each
client which port it reached, so that one can find out which outbound ports
a network lets through. Raw TCP and UDP clients get a one-line banner; HTTP
clients get a plain-text or JSON report, or a web page with the details
filled in.

- `src/` is the verified library (Verus): listener specifications
  (`config`), decimal port numbers (`number`), the table of mapped ports
  (`portmap`), client reports (`report`), HTTP routing, text responses and
  page templating (`http`), detection of HTTP traffic (`detect`), and
  character-level helpers (`text`).
- `app/main.rs` is the program: argument handling, sockets, files, the clock
  and the HTTP stack (tokio and hyper), driven by the library's decisions.
- `tests/` exercises the library on concrete inputs.
