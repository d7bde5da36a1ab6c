//! Cloudflare Workers connector with plan-time URL propagation and apply-time identities.
//!
//! A component is a native Wrangler project. `authoring` derives its immutable context, `slice`
//! decodes the levels that core sends, `reconciler` plans them, and `passes`, `deploy` and `target`
//! say step by step what has to be done to observe, apply and retire them. Every step is a function
//! of what has happened so far; whoever calls it does what it asks for and calls it again.

use vstd::prelude::*;

pub mod arguments;
pub mod authoring;
pub mod bindings;
pub mod context;
pub mod deploy;
pub mod entries;
pub mod handler;
pub mod hexadecimal;
pub mod json;
pub mod lifecycle;
pub mod model;
pub mod outside;
pub mod passes;
pub mod paths;
pub mod reconciler;
pub mod retry;
pub mod review;
pub mod settings;
pub mod slice;
pub mod target;
pub mod text;
pub mod wire;
pub mod wrangler;

verus! {

/// Connector registry key.
pub const CONNECTOR_NAME: &'static str = "cloudflare";

} // verus!
