//! The rendered output of a project: a list of files to be written under
//! the output directory.

use vstd::prelude::*;

use crate::config::Config;

verus! {

/// A rendered file.
#[derive(Debug, PartialEq)]
pub struct File {
    /// The location of the output file relative to the output directory.
    pub path: String,
    /// The raw contents of the file.
    pub contents: String,
}

/// The entire output of a project build.
#[derive(Debug)]
pub struct Output {
    /// The configuration used to control how the project was built.
    pub config: Config,
    /// Each of the output files, in the order they are written.
    pub files: Vec<File>,
}

impl File {
    pub fn new(path: String, contents: String) -> (r: File)
        ensures
            r.path == path,
            r.contents == contents,
    {
        File { path, contents }
    }

    pub fn path(&self) -> (r: &String)
        ensures
            r == &self.path,
    {
        &self.path
    }

    pub fn contents(&self) -> (r: &String)
        ensures
            r == &self.contents,
    {
        &self.contents
    }
}

impl Output {
    /// An output with no files yet.
    pub fn new(config: Config) -> (r: Output)
        ensures
            r.config == config,
            r.files@ == Seq::<File>::empty(),
    {
        Output { config, files: Vec::new() }
    }

    /// The configuration the project was built with.
    pub fn config(&self) -> (r: &Config)
        ensures
            r == &self.config,
    {
        &self.config
    }

    /// The output files, in write order.
    pub fn files(&self) -> (r: &Vec<File>)
        ensures
            r == &self.files,
    {
        &self.files
    }

    /// Add one file to the output.
    pub fn push_file(&mut self, file: File)
        ensures
            final (self).config == old(self).config,
            final (self).files@ == old(self).files@.push(file),
    {
        self.files.push(file);
    }
}

} // verus!
