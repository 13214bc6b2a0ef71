//! A registry of non-fungible tokens: who owns which token, and what each
//! token describes.
pub mod assoc;
pub mod types;
pub mod registry;
