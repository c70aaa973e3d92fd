//! Binary transformation passes for composed WebAssembly components.
//!
//! - [`dce`]: component-level dead-code elimination: which nested
//!   components one level keeps and how its component indices are renumbered,
//!   with the re-encoder's decisions and the laws they obey.
//! - [`abi`]: repair of a module's import ABI in the text format, so that
//!   imports returning through an out-pointer, or returning nothing, declare
//!   no result.
//! - [`wit`]: which imported interface functions need that repair.
//! - [`moonbit`], [`project`]: MoonBit-to-WIT type mapping and checks, and
//!   project conventions.
//! - [`text`], [`tokens`]: byte-level text operations and the text-format
//!   tokens that the passes look for.

pub mod abi;
pub mod dce;
pub mod mbti;
pub mod moonbit;
pub mod project;
pub mod text;
pub mod tokens;
pub mod wit;
