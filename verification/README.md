# ostool_boot

The verified core of a LoongArch64 UEFI network boot loader and of the
static HTTPS server that feeds it.

`src/` is verified with Verus:

- `manifest`, `pem`, `url`, `request_line`: parsers (boot manifest JSON,
  PEM certificates, HTTPS URLs, HTTP request lines).
- `http_wire`, `tls_record`: the HTTP/1.1 and TLS record framing the
  loader speaks over its own connection.
- `kernel`, `kernel_stream`, `manifest_fetch`: the download state
  machines; the caller performs each firmware call they ask for.
- `flow`: the step decisions of the firmware conversations (handshake
  rounds, polling, retries, kernel placement, leaving boot services, and
  the release of firmware resources).
- `console`, `memory`: the loader's log lines and the memory map probe.
- `boot_info`: the information block handed to the kernel.
- `boot_server`: the responses of the HTTPS boot server.
- `laws`: properties spanning modules (number text round trips, server
  replies read back by the loader).

`app/` is the unverified runtime: the UEFI firmware interface and entry
point, and the tokio/rustls server.
