//! The Tincan logo shown above interactive output.
use vstd::prelude::*;

verus! {

/// The logo, three lines of block characters.
pub const LOGO: &'static str = r#"▄▄▄ ▄ ▀▄ ▄ ▄▄▄ ▄▄▄ ▀▄ ▄
 █  █ █ ▀█ █ ▀ █▄█ █ ▀█
 ▀  ▀ ▀  ▀ ▀▀▀ ▀ ▀ ▀  ▀"#;

} // verus!
