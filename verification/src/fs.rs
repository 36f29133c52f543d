//! The registry of mounted file systems.
use vstd::prelude::*;

verus! {

/// The mounted file systems, in the order they were added.
pub struct FileSystemList<F>(Vec<F>);

impl<F> View for FileSystemList<F> {
    type V = Seq<F>;

    closed spec fn view(&self) -> Seq<F> {
        self.0@
    }
}

impl<F> FileSystemList<F> {
    /// An empty registry.
    pub fn new() -> (r: Self)
        ensures
            r@ == Seq::<F>::empty(),
    {
        FileSystemList(Vec::new())
    }

    /// Appends a mounted file system.
    pub fn add(&mut self, fs: F)
        ensures
            final(self)@ == old(self)@.push(fs),
    {
        self.0.push(fs);
    }

    /// The file system added first, if any.
    pub fn first(&self) -> (r: Option<&F>)
        ensures
            self@.len() == 0 ==> r is None,
            self@.len() > 0 ==> r == Some(&self@[0]),
    {
        if self.0.len() == 0 {
            None
        } else {
            Some(&self.0[0])
        }
    }
}

/// The file system added first is the one `first` returns, whatever is
/// added after it.
pub proof fn law_first_is_stable<F>(before: Seq<F>, fs: F)
    requires
        before.len() > 0,
    ensures
        before.push(fs)[0] == before[0],
{
}

} // verus!
