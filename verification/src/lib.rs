//! A minimal service skeleton: an environment-variable store built once at
//! startup, and the pure request/response rules of a single-route HTTP
//! responder. Process wiring (the real listener, the real OS environment)
//! lives outside the library; everything here is verified.

pub mod api;
pub mod environment;
