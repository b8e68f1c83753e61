//! Batch renaming through a text editor: the names of a set of files are laid
//! out as lines of text, the user edits them, and the edited text is read back
//! into a mapping from each old name to its new name.

pub mod laws;
pub mod mapping;
pub mod name_file;
pub mod pairing;
pub mod text;
