//! An image-staging and container-launch pipeline: resolves an OCI-style
//! image (a directory or a compressed archive), produces a filesystem bundle,
//! rewrites the bundle's runtime specification (hostname, bind-mount
//! volumes), assigns the container a fresh identity, and plans the external
//! runtime invocation. All decisions and document rewriting are verified; the
//! thin shell that touches the filesystem and spawns processes lives outside
//! this library and consults it for every decision.

pub mod err;
pub mod identity;
pub mod image;
pub mod json;
pub mod launch;
pub mod mutate;
pub mod parse;
pub mod util;
pub mod volume;
