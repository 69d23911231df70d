//! Named units of work that the runtime starts, and the runtime's options.
use vstd::prelude::*;

verus! {

/// A named unit of work.
pub trait Node {
    spec fn name(&self) -> Seq<char>;

    fn set_name(&mut self, name: String)
        ensures
            final(self).name() == name@,
    ;

    fn get_name(&self) -> (r: &str)
        ensures
            r@ == self.name(),
    ;
}

/// A node whose work is the closure `f`.
pub struct FnNode<F> {
    name: String,
    f: F,
}

impl<F> FnNode<F> {
    /// The closure that does the node's work.
    pub closed spec fn work(&self) -> F {
        self.f
    }

    /// A node named `fn_node` that runs `f`.
    pub fn new(f: F) -> (r: Self)
        ensures
            r.name() == "fn_node"@,
            r.work() == f,
    {
        FnNode { name: "fn_node".to_owned(), f }
    }

    /// Takes the node apart into its closure.
    pub fn into_work(self) -> (r: F)
        ensures
            r == self.work(),
    {
        self.f
    }
}

impl<F> Node for FnNode<F> {
    closed spec fn name(&self) -> Seq<char> {
        self.name@
    }

    fn set_name(&mut self, name: String) {
        self.name = name;
    }

    fn get_name(&self) -> (r: &str) {
        self.name.as_str()
    }
}

/// Options of a run of the runtime.
pub struct RunOptions {
    pub runtime_name: String,
}

impl Default for RunOptions {
    fn default() -> (r: Self)
        ensures
            r.runtime_name@ == Seq::<char>::empty(),
    {
        RunOptions { runtime_name: String::new() }
    }
}

} // verus!
