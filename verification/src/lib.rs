use vstd::prelude::*;

pub mod text;
pub mod skills;
pub mod markdown;
pub mod frontmatter;
pub mod keyed;
pub mod registry;
pub mod ratelimit;
pub mod config;
pub mod modules;
pub mod runtime;
pub mod naming;
pub mod tools;

verus! {

} // verus!
