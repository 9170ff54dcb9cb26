//! What the command line settles: the file to read.

use vstd::prelude::*;

verus! {

/// The arguments of a run.
#[derive(Debug)]
pub struct Args {
    file_name: Option<String>,
}

/// The arguments as the contracts speak of them.
pub struct ArgsModel {
    /// The name of the input file, where one was given.
    pub file_name: Option<Seq<char>>,
}

impl View for Args {
    type V = ArgsModel;

    closed spec fn view(&self) -> ArgsModel {
        ArgsModel {
            file_name: match self.file_name {
                Some(name) => Some(name@),
                None => None,
            },
        }
    }
}

/// The name of the file that is read where none was given.
pub open spec fn default_file_name() -> Seq<char> {
    "input"@
}

impl Args {
    /// Arguments with the file name `file_name`, or with none.
    pub fn new(file_name: Option<String>) -> (args: Args)
        ensures
            args@.file_name == match file_name {
                Some(name) => Some(name@),
                None => None,
            },
    {
        Args { file_name }
    }

    /// The name of the input file, where one was given.
    pub fn file_name(&self) -> (name: Option<&str>)
        ensures
            match name {
                Some(n) => self@.file_name == Some(n@),
                None => self@.file_name is None,
            },
    {
        match &self.file_name {
            Some(file_name) => Some(file_name.as_str()),
            None => None,
        }
    }

    /// The name of the file to read: the one that was given, or "input".
    pub fn input_path(&self) -> (path: &str)
        ensures
            path@ == match self@.file_name {
                Some(name) => name,
                None => default_file_name(),
            },
    {
        match &self.file_name {
            Some(file_name) => file_name.as_str(),
            None => "input",
        }
    }
}

} // verus!
