# webserver

A modular HTTP/HTTPS web server (virtual hosts, static files, gzip, caching, URL rewriting,
reverse proxy, firewall, rate limiting, security headers, Basic authentication), whose request
logic is written in Verus and proved against its contracts.

- `src/` is the verified library: configuration and its defaults, virtual hosts and locations,
  the request handler's decisions, the module pipeline, the modules, and the security rules. Work
  that needs the file system, the network or the modules' own I/O is expressed as steps: the
  library says what to do next and decides from the outcome (see `pipeline_start` /
  `pipeline_step`, `handle_get_start` / `handle_get_step` and `resolve_start` / `resolve_step`).
  Calls into outside crates (regex, http, cidr, base64, ring, flate2, mime_guess, httpdate,
  rustls-pemfile, rand, num_cpus) stand behind small trusted wrappers whose doc comments say what
  is claimed of them.
- `app/` is the server around it: command line, TOML configuration, the hyper/tokio servers, TLS
  setup, logging, and the file system and network work the library asks for.
- `tests/` runs the library on concrete requests and configurations.
