use vstd::prelude::*;

pub mod text;
pub mod lines;
pub mod util;
pub mod model;
pub mod ids;
pub mod frontmatter;
pub mod document;
pub mod order;
pub mod journal;
pub mod flags;
pub mod numbers;
pub mod cli;
pub mod store;
pub mod calendar;
pub mod review;
pub mod search;
pub mod skill;
pub mod git;
pub mod workspace;
pub mod workflow;
pub mod roundtrip;
pub mod branding;
pub mod journal_laws;
pub mod supersession;
pub mod lifted;

verus! {
}
