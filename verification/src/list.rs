use vstd::prelude::*;

verus! {

/// The names of the animation files a list asset enumerates. Filling it from
/// the list file belongs to the loading layer; the core only carries the
/// names.
pub struct AnimationList(pub Vec<String>);

impl AnimationList {
    /// An empty list.
    pub fn new() -> (r: AnimationList)
        ensures
            r.0@.len() == 0,
    {
        AnimationList(Vec::new())
    }

    /// How many names the list holds.
    pub fn len(&self) -> (n: usize)
        ensures
            n == self.0@.len(),
    {
        self.0.len()
    }
}

} // verus!
