//! What holds of the library as a whole: how its results relate to its inputs and
//! to each other.

pub mod arguments;
pub mod backends;
pub mod cli;
pub mod conditions;
pub mod environment;
pub mod extensions;
pub mod files;
pub mod hooks;
pub mod launch;
pub mod layers;
pub mod looks;
pub mod lsfg;
pub mod ordering;
pub mod session;
pub mod settings;
pub mod steam;
pub mod text;
pub mod values;
pub mod wrappers;
