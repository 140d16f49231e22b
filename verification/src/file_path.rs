//! Paths of files, as a base and the parts below it.
use vstd::prelude::*;
use crate::text;

verus! {

/// A path: a base that the system gave and the parts below it.
#[derive(Debug, PartialEq, Eq)]
pub struct FilePath {
    pub base: String,
    pub parts: Vec<String>,
}

/// What a path is.
#[verifier::ext_equal]
pub struct PathView {
    pub base: Seq<char>,
    pub parts: Seq<Seq<char>>,
}

/// The path with one part more.
pub open spec fn joined_path(path: PathView, part: Seq<char>) -> PathView {
    PathView { base: path.base, parts: path.parts.push(part) }
}

impl FilePath {
    pub open spec fn view(&self) -> PathView {
        PathView { base: self.base@, parts: text::texts(self.parts@) }
    }

    /// The path that is its base.
    pub fn new(base: &str) -> (result: FilePath)
        ensures
            result@ == (PathView { base: base@, parts: Seq::empty() }),
    {
        let result = FilePath { base: base.to_owned(), parts: Vec::new() };
        assert(result@.parts =~= Seq::<Seq<char>>::empty());
        result
    }

    /// A copy of the path.
    pub fn copy(&self) -> (result: FilePath)
        ensures
            result@ == self@,
    {
        FilePath { base: self.base.clone(), parts: text::copied_list(&self.parts) }
    }

    /// The path with one part more.
    pub fn join(&self, part: &str) -> (result: FilePath)
        ensures
            result@ == joined_path(self@, part@),
    {
        let mut parts = text::copied_list(&self.parts);
        parts.push(part.to_owned());
        let result = FilePath { base: self.base.clone(), parts };
        assert(result@.parts =~= self@.parts.push(part@));
        result
    }
}

} // verus!
