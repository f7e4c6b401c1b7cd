//! Two-factor authentication core: a verification state machine with
//! exponential lockout, and a dual-layer secure token codec (authenticated
//! encryption wrapped in a signed envelope).

pub mod b64;
pub mod backoff;
pub mod codec;
pub mod datefmt;
pub mod dec;
pub mod errors;
pub mod frame;
pub mod record;
mod rng;
pub mod strings;
pub mod text;
pub mod token;
pub mod types;
pub mod validate;
pub mod wire;
