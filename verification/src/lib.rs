//! Branch ancestry resolution: for each local branch of a repository, the branch it grew
//! from, and the text form of the forest that these edges make.
//!
//! The library never touches a repository itself. `resolver` is a machine that names the
//! lookup it needs next and takes the answer; `lookup` holds the lookups, their answers and
//! how they are read; `forest` holds the edges and their text form; `repository` states what
//! a resolution comes to against a repository as a whole; `text` holds the handling of white
//! space; `project` holds the rules of the project registry that supplies the repository path.

pub mod forest;
pub mod lookup;
pub mod project;
pub mod repository;
pub mod resolver;
pub mod text;
