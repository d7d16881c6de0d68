//! Probes an HTTP server for request-smuggling vulnerabilities: builds
//! deliberately ambiguous CL.TE and TE.CL request templates, plans one
//! probe per template instance, and classifies each raw response (or its
//! absence) with a heuristic analyzer. Connecting, writing and reading
//! sockets is left to the surrounding program; everything here is the
//! logic in between, each function carrying its contract.

pub mod dispatch;
pub mod payloads;
pub mod response;
pub mod target;
pub mod text;
