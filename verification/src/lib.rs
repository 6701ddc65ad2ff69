//! Keeps the certificates that a proxy has loaded in step with a directory of
//! PKI bundles: each bundle is loaded, summarised, compared with what the proxy
//! acknowledged last, and the difference is turned into requests.

pub mod svc;
