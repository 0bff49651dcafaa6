//! Which bytes of a source are code, as opposed to comments, strings and
//! other literal text. The map is computed from the parse tree outside the
//! library and handed in as one flag per byte.
use vstd::prelude::*;

verus! {

/// Per-byte classification of a source. Offsets past the end of a vector
/// read as `false`.
#[derive(Clone, Debug)]
pub struct CodeMap {
    /// The byte is code.
    pub code: Vec<bool>,
    /// The byte lies inside an interpolation of a heredoc.
    pub heredoc_interpolation: Vec<bool>,
    /// The byte lies in a heredoc interpolation but is not code there
    /// (a string or comment nested in the interpolation).
    pub non_code_in_heredoc_interpolation: Vec<bool>,
    /// The byte lies inside a string or heredoc body.
    pub string: Vec<bool>,
}

pub open spec fn flag_at(v: Seq<bool>, i: int) -> bool {
    0 <= i < v.len() && v[i]
}

impl CodeMap {
    pub open spec fn spec_is_code(&self, i: int) -> bool {
        flag_at(self.code@, i)
    }

    pub open spec fn spec_is_heredoc_interpolation(&self, i: int) -> bool {
        flag_at(self.heredoc_interpolation@, i)
    }

    pub open spec fn spec_is_non_code_in_heredoc_interpolation(&self, i: int) -> bool {
        flag_at(self.non_code_in_heredoc_interpolation@, i)
    }

    pub open spec fn spec_is_not_string(&self, i: int) -> bool {
        !flag_at(self.string@, i)
    }

    /// A map in which each of the first `len` bytes is code.
    pub fn all_code(len: usize) -> (r: CodeMap)
        ensures
            r.code@.len() == len,
            forall|i: int| 0 <= i < len ==> r.spec_is_code(i),
            r.heredoc_interpolation@.len() == 0,
            r.non_code_in_heredoc_interpolation@.len() == 0,
            r.string@.len() == 0,
    {
        let mut code: Vec<bool> = Vec::new();
        let mut k: usize = 0;
        while k < len
            invariant
                k <= len,
                code@.len() == k,
                forall|i: int| 0 <= i < k ==> code@[i],
            decreases len - k,
        {
            code.push(true);
            k = k + 1;
        }
        CodeMap { code, heredoc_interpolation: Vec::new(), non_code_in_heredoc_interpolation: Vec::new(), string: Vec::new() }
    }

    pub fn is_code(&self, i: usize) -> (r: bool)
        ensures
            r == self.spec_is_code(i as int),
    {
        i < self.code.len() && self.code[i]
    }

    pub fn is_heredoc_interpolation(&self, i: usize) -> (r: bool)
        ensures
            r == self.spec_is_heredoc_interpolation(i as int),
    {
        i < self.heredoc_interpolation.len() && self.heredoc_interpolation[i]
    }

    pub fn is_non_code_in_heredoc_interpolation(&self, i: usize) -> (r: bool)
        ensures
            r == self.spec_is_non_code_in_heredoc_interpolation(i as int),
    {
        i < self.non_code_in_heredoc_interpolation.len()
            && self.non_code_in_heredoc_interpolation[i]
    }

    /// The byte at `i` is not inside a string or heredoc body.
    pub fn is_not_string(&self, i: usize) -> (r: bool)
        ensures
            r == self.spec_is_not_string(i as int),
    {
        !(i < self.string.len() && self.string[i])
    }
}

} // verus!
