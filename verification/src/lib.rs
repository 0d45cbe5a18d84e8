//! Verified core of a network boot loader: manifest parsing, URL and PEM
//! handling, HTTP and TLS record framing, kernel stream reassembly, and the
//! request handling of the static HTTPS boot server.

pub mod status;
pub mod url;
pub mod console;
pub mod tls_record;
pub mod http_wire;
pub mod manifest;
pub mod pem;
pub mod memory;
pub mod kernel;
pub mod kernel_stream;
pub mod manifest_fetch;
pub mod request_line;
pub mod boot_server;
pub mod laws;
pub mod flow;
pub mod boot_info;
