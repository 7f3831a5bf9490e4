use vstd::prelude::*;

verus! {

/// The validated set of options that parameterizes one run.  The caller
/// validates the paths and the extension list before the pipeline runs;
/// the components only read the struct.
pub struct Args {
    /// Report intended filesystem operations instead of performing them.
    pub dry: bool,
    /// Compare the media durations of source and target before overwriting.
    pub check: bool,
    /// Folder whose files are renamed and copied.
    pub source: String,
    /// Folder whose file names are applied and whose files are overwritten.
    pub target: String,
    /// Accepted file extensions, lower case, without the leading dot.
    pub extensions: Vec<String>,
    /// Rename files without asking for each one.
    pub rename: bool,
    /// Overwrite target files without asking for each one.
    pub overwrite: bool,
}

/// A file entry: the parent directory and the file name within it.
/// The full path is the parent, a separator, and the name.
pub struct FileEntry {
    pub parent: String,
    pub name: String,
}

impl FileEntry {
    /// The full path of the entry, as character sequence.
    pub open spec fn path_view(&self) -> Seq<char> {
        self.parent@ + seq!['/'] + self.name@
    }

    pub fn new(parent: String, name: String) -> (e: FileEntry)
        ensures
            e.parent@ == parent@,
            e.name@ == name@,
    {
        FileEntry { parent, name }
    }
}

/// The names of a sequence of entries, in order.
pub open spec fn names_of(s: Seq<FileEntry>) -> Seq<Seq<char>> {
    s.map_values(|e: FileEntry| e.name@)
}

/// The character sequences of a sequence of strings, in order.
pub open spec fn strings_view(s: Seq<String>) -> Seq<Seq<char>> {
    s.map_values(|x: String| x@)
}

impl Clone for FileEntry {
    fn clone(&self) -> (e: FileEntry)
        ensures
            e == *self,
    {
        FileEntry { parent: self.parent.clone(), name: self.name.clone() }
    }
}

} // verus!
