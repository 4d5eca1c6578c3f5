//! File locations: a root folder chosen by the user and the names that lead
//! from it to a file. Separators are a matter of the platform and are left to
//! whoever opens the file.
use vstd::prelude::*;
use crate::text;

verus! {

/// A location below a root folder.
#[derive(Debug)]
pub struct FilePath {
    pub root: String,
    pub names: Vec<String>,
}

/// A [`FilePath`] by its characters.
pub struct PathModel {
    pub root: Seq<char>,
    pub names: Seq<Seq<char>>,
}

impl View for FilePath {
    type V = PathModel;

    open spec fn view(&self) -> PathModel {
        PathModel { root: self.root@, names: text::texts(self.names@) }
    }
}

impl PathModel {
    /// The location of `name` in this folder.
    pub open spec fn joined(self, name: Seq<char>) -> PathModel {
        PathModel { names: self.names.push(name), ..self }
    }
}

/// A copy of a list of strings.
pub fn copy_texts(v: &Vec<String>) -> (out: Vec<String>)
    ensures
        text::texts(out@) == text::texts(v@),
        out.len() == v.len(),
{
    let mut out: Vec<String> = Vec::new();
    let mut i: usize = 0;
    while i < v.len()
        invariant
            i <= v.len(),
            out.len() == i,
            forall|k: int| 0 <= k < i ==> (#[trigger] out[k])@ == v[k]@,
        decreases v.len() - i,
    {
        out.push(v[i].clone());
        i += 1;
    }
    assert(text::texts(out@) =~= text::texts(v@));
    out
}

impl FilePath {
    /// The root folder itself.
    pub fn new(root: &str) -> (p: Self)
        ensures
            p@ == (PathModel { root: root@, names: Seq::empty() }),
    {
        let p = FilePath { root: text::owned(root), names: Vec::new() };
        assert(text::texts(p.names@) =~= Seq::empty());
        p
    }

    /// The location of `name` in this folder.
    pub fn join(&self, name: &str) -> (p: Self)
        ensures
            p@ == self@.joined(name@),
    {
        let mut names = copy_texts(&self.names);
        let last = text::owned(name);
        proof {
            text::lemma_texts_push(names@, last);
        }
        names.push(last);
        FilePath { root: self.root.clone(), names }
    }
}

impl Clone for FilePath {
    fn clone(&self) -> (p: Self)
        ensures
            p@ == self@,
    {
        FilePath { root: self.root.clone(), names: copy_texts(&self.names) }
    }
}

} // verus!
