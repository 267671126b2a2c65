use crate::layout::Layout;
use vstd::prelude::*;

verus! {

/// A predicate over layouts that decides where a request goes.
pub trait Choose {
    /// Whether `layout` goes to the first of two storages.
    spec fn spec_select(&self, layout: Layout) -> bool;

    /// Whether `layout` goes to the first of two storages.
    fn select(&self, layout: Layout) -> (r: bool)
        ensures
            r == self.spec_select(layout),
    ;
}

/// Layouts of at most `VALUE` bytes.
#[derive(Clone, Copy, Debug)]
pub struct MaxSize<const VALUE: usize>;

/// Layouts of at least `VALUE` bytes.
#[derive(Clone, Copy, Debug)]
pub struct MinSize<const VALUE: usize>;

/// Layouts aligned to at most `VALUE`.
#[derive(Clone, Copy, Debug)]
pub struct MaxAlign<const VALUE: usize>;

/// Layouts aligned to at least `VALUE`.
#[derive(Clone, Copy, Debug)]
pub struct MinAlign<const VALUE: usize>;

/// Layouts the inner predicate rejects.
#[derive(Clone, Copy, Debug)]
pub struct NotC<T>(pub T);

/// Layouts both predicates accept.
#[derive(Clone, Copy, Debug)]
pub struct AndC<A, B>(pub A, pub B);

/// Layouts either predicate accepts.
#[derive(Clone, Copy, Debug)]
pub struct OrC<A, B>(pub A, pub B);

impl<const VALUE: usize> Choose for MaxSize<VALUE> {
    open spec fn spec_select(&self, layout: Layout) -> bool {
        layout.spec_size() <= VALUE
    }

    fn select(&self, layout: Layout) -> (r: bool) {
        layout.size() <= VALUE
    }
}

impl<const VALUE: usize> Choose for MinSize<VALUE> {
    open spec fn spec_select(&self, layout: Layout) -> bool {
        layout.spec_size() >= VALUE
    }

    fn select(&self, layout: Layout) -> (r: bool) {
        layout.size() >= VALUE
    }
}

impl<const VALUE: usize> Choose for MaxAlign<VALUE> {
    open spec fn spec_select(&self, layout: Layout) -> bool {
        layout.spec_align() <= VALUE
    }

    fn select(&self, layout: Layout) -> (r: bool) {
        layout.align() <= VALUE
    }
}

impl<const VALUE: usize> Choose for MinAlign<VALUE> {
    open spec fn spec_select(&self, layout: Layout) -> bool {
        layout.spec_align() >= VALUE
    }

    fn select(&self, layout: Layout) -> (r: bool) {
        layout.align() >= VALUE
    }
}

impl<T: Choose> Choose for NotC<T> {
    open spec fn spec_select(&self, layout: Layout) -> bool {
        !self.0.spec_select(layout)
    }

    fn select(&self, layout: Layout) -> (r: bool) {
        !self.0.select(layout)
    }
}

impl<A: Choose, B: Choose> Choose for AndC<A, B> {
    open spec fn spec_select(&self, layout: Layout) -> bool {
        self.0.spec_select(layout) && self.1.spec_select(layout)
    }

    fn select(&self, layout: Layout) -> (r: bool) {
        self.0.select(layout) && self.1.select(layout)
    }
}

impl<A: Choose, B: Choose> Choose for OrC<A, B> {
    open spec fn spec_select(&self, layout: Layout) -> bool {
        self.0.spec_select(layout) || self.1.spec_select(layout)
    }

    fn select(&self, layout: Layout) -> (r: bool) {
        self.0.select(layout) || self.1.select(layout)
    }
}

} // verus!
