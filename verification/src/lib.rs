//! A stdio JSON-RPC screen-bundle server, verified with Verus.
//!
//! The crate models the wire protocol and the decision logic of the server:
//! a two-mode frame transport, a JSON document model with its serializer and
//! parser, a request dispatcher with shared-secret authentication, the
//! capture/parse/annotate/bundle planning, a latest-bundle cache with
//! symbolic resource resolution, and a size-bounded base64 encoder.
//! Everything that talks to the outside world (stdio, files, HTTP, the
//! platform capture backend) lives in the unverified application shell,
//! which hands this crate plain values and carries its decisions out.
pub mod bytes;
pub mod bundle;
pub mod cache;
pub mod clients;
pub mod codec;
pub mod elements;
pub mod health;
pub mod json;
pub mod parse;
pub mod rpc;
pub mod ser;
