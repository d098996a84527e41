//! What the library promises as a whole, stated over inputs and results alone:
//! characters, rows, bytes and the relations between calls.
pub mod addresses;
pub mod bodies;
pub mod checks;
pub mod dates;
pub mod documents;
pub mod editing;
pub mod formats;
pub mod json_paths;
pub mod printing;
pub mod requests;
pub mod showing;
pub mod substitution;
pub mod text;
pub mod updates;
pub mod workspaces;
