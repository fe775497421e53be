//! Core logic of an API-capture browser companion: noise filtering,
//! URL path normalization, capture admission and routing, session
//! extraction, endpoint cataloging, retention trimming, domain pruning,
//! and the file-protocol command bridge.
#[verifier::loop_isolation(false)]
pub mod bridge;
#[verifier::loop_isolation(false)]
pub mod catalog;
#[verifier::loop_isolation(false)]
pub mod config;
#[verifier::loop_isolation(false)]
pub mod event;
#[verifier::loop_isolation(false)]
pub mod noise;
#[verifier::loop_isolation(false)]
pub mod script;
#[verifier::loop_isolation(false)]
pub mod session;
#[verifier::loop_isolation(false)]
pub mod shape;
#[verifier::loop_isolation(false)]
pub mod strmap;
#[verifier::loop_isolation(false)]
pub mod pattern;
#[verifier::loop_isolation(false)]
pub mod router;
#[verifier::loop_isolation(false)]
pub mod text;
#[verifier::loop_isolation(false)]
pub mod trimmer;
#[verifier::loop_isolation(false)]
pub mod urlinfo;
