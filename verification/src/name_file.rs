//! The name file: the old names laid out as text for an editor, and the
//! edited text read back into a mapping.

use crate::mapping::NameMapping;
use crate::pairing::{pair_names, pairing, LineCountChanged};
use crate::text::{edited_names, name_views, parse_names, render_names, rendered};
use vstd::prelude::*;

verus! {

/// The names of a set of files, staged for editing as text.
pub struct NameFile<'a> {
    file_names: &'a [String],
}

impl<'a> NameFile<'a> {
    /// The old names, in order, each as the sequence of its characters.
    pub closed spec fn names(&self) -> Seq<Seq<char>> {
        name_views(self.file_names@)
    }

    /// Stages the given file names.
    pub fn new(file_names: &'a [String]) -> (name_file: Self)
        ensures
            name_file.names() == name_views(file_names@),
    {
        NameFile { file_names }
    }

    /// The text to hand to the editor: each old name on a line of its own,
    /// in order.
    pub fn contents(&self) -> (text: String)
        ensures
            text@ == rendered(self.names()),
    {
        render_names(self.file_names)
    }

    /// Reads the edited text back and maps the old names to the new names:
    /// each line of `contents` that holds more than whitespace is a new
    /// name, and the new names are paired with the old names by position.
    /// Fails where the text does not hold as many names as there are old
    /// names.
    pub fn read_back(self, contents: &str) -> (result: Result<NameMapping, LineCountChanged>)
        ensures
            match result {
                Ok(mapping) => {
                    &&& edited_names(contents@).len() == self.names().len()
                    &&& mapping@ == pairing(self.names(), edited_names(contents@))
                },
                Err(error) => {
                    &&& edited_names(contents@).len() != self.names().len()
                    &&& error.expected == self.names().len()
                    &&& name_views(error.new_names@) == edited_names(contents@)
                },
            },
    {
        pair_names(self.file_names, parse_names(contents))
    }
}

} // verus!
