use vstd::prelude::*;

verus! {

/// A reference count.
pub trait Counter: Sized {
    /// The current count.
    spec fn spec_value(&self) -> usize;

    /// The counter after one reference is taken away.
    spec fn spec_dec(&self) -> Self;

    /// A counter holding the first reference.
    fn init() -> (r: Self)
        ensures
            r.spec_value() == 1,
    ;

    /// Takes one reference away; returns the count before.
    fn dec(&mut self) -> (r: usize)
        ensures
            r == old(self).spec_value(),
            *final(self) == old(self).spec_dec(),
    ;

    /// The current count.
    fn value(&self) -> (r: usize)
        ensures
            r == self.spec_value(),
    ;
}

/// A reference count that can also go up.
pub trait DynamicCounter: Counter {
    /// Adds a reference; `None`, with nothing changed, when the count would
    /// overflow. Returns the count before.
    fn inc(&mut self) -> (r: Option<usize>)
        ensures
            r is Some <==> old(self).spec_value() < usize::MAX,
            r is Some ==> r->0 == old(self).spec_value() && final(self).spec_value() == old(self).spec_value() + 1,
            r is None ==> *final(self) == *old(self),
    ;
}

/// A count that is always one: the single owner of a group.
#[derive(Clone, Copy, Debug)]
pub struct One;

impl Counter for One {
    open spec fn spec_value(&self) -> usize {
        1
    }

    open spec fn spec_dec(&self) -> One {
        One
    }

    fn init() -> (r: One) {
        One
    }

    fn dec(&mut self) -> (r: usize) {
        1
    }

    fn value(&self) -> (r: usize) {
        1
    }
}

/// A plain reference count.
#[derive(Clone, Copy, Debug)]
pub struct Count(pub usize);

impl Counter for Count {
    open spec fn spec_value(&self) -> usize {
        self.0
    }

    /// Counts down, wrapping below zero as the count of a dead group may.
    open spec fn spec_dec(&self) -> Count {
        Count(if self.0 == 0 {
            usize::MAX
        } else {
            (self.0 - 1) as usize
        })
    }

    fn init() -> (r: Count) {
        Count(1)
    }

    fn dec(&mut self) -> (r: usize) {
        let count = self.0;
        self.0 = count.wrapping_sub(1);
        count
    }

    fn value(&self) -> (r: usize) {
        self.0
    }
}

impl DynamicCounter for Count {
    fn inc(&mut self) -> (r: Option<usize>) {
        let count = self.0;
        match count.checked_add(1) {
            Some(next) => {
                self.0 = next;
                Some(count)
            },
            None => None,
        }
    }
}

/// Which reference count a handle holds on to.
pub trait Kind {
    /// Strong references own the value; weak ones only the memory.
    spec fn spec_is_strong() -> bool;

    /// Whether this is the strong kind.
    fn is_strong() -> (r: bool)
        ensures
            r == Self::spec_is_strong(),
    ;
}

/// A kind whose count can go up.
pub trait DynamicKind: Kind {}

/// References that own the value.
#[derive(Clone, Copy, Debug)]
pub struct StrongKind;

/// References that keep only the memory alive.
#[derive(Clone, Copy, Debug)]
pub struct WeakKind;

impl Kind for StrongKind {
    open spec fn spec_is_strong() -> bool {
        true
    }

    fn is_strong() -> (r: bool) {
        true
    }
}

impl DynamicKind for StrongKind {}

impl Kind for WeakKind {
    open spec fn spec_is_strong() -> bool {
        false
    }

    fn is_strong() -> (r: bool) {
        false
    }
}

impl DynamicKind for WeakKind {}

/// What a dropped reference leaves for its owner to do.
#[derive(Clone, Copy, Debug, PartialEq, Eq, Structural)]
pub enum Release {
    /// Other references remain; nothing to do.
    Nothing,
    /// The last strong reference went: run the value's destructor.
    Value,
    /// The last strong and the last weak reference went: run the value's
    /// destructor and free the memory.
    ValueAndMemory,
    /// The last weak reference went after the value: free the memory.
    Memory,
}

/// The counts kept in front of a reference-counted value: `init` counts
/// strong references, `alloc` weak ones, plus one for all the strong ones.
#[derive(Clone, Copy, Debug)]
pub struct Counters<I, A> {
    pub init: I,
    pub alloc: A,
}

/// What dropping a strong reference does: the strong count goes down; when
/// it was the last, the value is dropped and the weak reference held by the
/// strong group goes too, which frees the memory when it was the last.
pub open spec fn drop_strong_spec<I: Counter, A: Counter>(c: Counters<I, A>) -> (Counters<I, A>, Release) {
    if c.init.spec_value() == 1 {
        let post = Counters { init: c.init.spec_dec(), alloc: c.alloc.spec_dec() };
        if c.alloc.spec_value() == 1 {
            (post, Release::ValueAndMemory)
        } else {
            (post, Release::Value)
        }
    } else {
        (Counters { init: c.init.spec_dec(), alloc: c.alloc }, Release::Nothing)
    }
}

/// What dropping a weak reference does: the memory is freed when it was the
/// last.
pub open spec fn drop_weak_spec<I: Counter, A: Counter>(c: Counters<I, A>) -> (Counters<I, A>, Release) {
    let post = Counters { init: c.init, alloc: c.alloc.spec_dec() };
    if c.alloc.spec_value() == 1 {
        (post, Release::Memory)
    } else {
        (post, Release::Nothing)
    }
}

impl<I: Counter, A: Counter> Counters<I, A> {
    /// The counts of a fresh value: one strong reference, and the weak one
    /// it holds.
    pub fn new() -> (r: Self)
        ensures
            r.init.spec_value() == 1,
            r.alloc.spec_value() == 1,
    {
        Counters { init: I::init(), alloc: A::init() }
    }

    /// Drops a strong reference.
    pub fn drop_strong(&mut self) -> (r: Release)
        ensures
            (*final(self), r) == drop_strong_spec(*old(self)),
    {
        if self.init.dec() == 1 {
            if self.alloc.dec() == 1 {
                Release::ValueAndMemory
            } else {
                Release::Value
            }
        } else {
            Release::Nothing
        }
    }

    /// Drops a weak reference.
    pub fn drop_weak(&mut self) -> (r: Release)
        ensures
            (*final(self), r) == drop_weak_spec(*old(self)),
    {
        if self.alloc.dec() == 1 {
            Release::Memory
        } else {
            Release::Nothing
        }
    }
}

impl<I: DynamicCounter, A: Counter> Counters<I, A> {
    /// Adds a strong reference; `None`, with nothing changed, when the count
    /// would overflow, which the caller treats as fatal.
    pub fn clone_strong(&mut self) -> (r: Option<usize>)
        ensures
            r is Some <==> old(self).init.spec_value() < usize::MAX,
            r is Some ==> final(self).init.spec_value() == old(self).init.spec_value() + 1 && final(self).alloc
                == old(self).alloc,
            r is None ==> *final(self) == *old(self),
    {
        self.init.inc()
    }
}

impl<I: Counter, A: DynamicCounter> Counters<I, A> {
    /// Adds a weak reference; `None`, with nothing changed, when the count
    /// would overflow.
    pub fn clone_weak(&mut self) -> (r: Option<usize>)
        ensures
            r is Some <==> old(self).alloc.spec_value() < usize::MAX,
            r is Some ==> final(self).alloc.spec_value() == old(self).alloc.spec_value() + 1 && final(self).init
                == old(self).init,
            r is None ==> *final(self) == *old(self),
    {
        self.alloc.inc()
    }
}

/// What `k` strong drops in a row report, starting from `c`.
pub open spec fn strong_drops<I: Counter, A: Counter>(c: Counters<I, A>, k: nat) -> Seq<Release>
    decreases k,
{
    if k == 0 {
        Seq::empty()
    } else {
        seq![drop_strong_spec(c).1] + strong_drops(drop_strong_spec(c).0, (k - 1) as nat)
    }
}

/// With `n` strong references and no weak ones beyond the group's own,
/// dropping all `n` runs the destructor exactly once, at the last drop, and
/// frees the memory then and only then.
pub proof fn lemma_strong_drop_order(n: usize)
    requires
        n >= 1,
    ensures
        strong_drops(Counters { init: Count(n), alloc: Count(1) }, n as nat) == Seq::new(
            (n - 1) as nat,
            |i: int| Release::Nothing,
        ).push(Release::ValueAndMemory),
    decreases n,
{
    let c = Counters { init: Count(n), alloc: Count(1) };
    if n == 1 {
        assert(strong_drops(drop_strong_spec(c).0, 0) == Seq::<Release>::empty());
        assert(strong_drops(c, 1) =~= seq![Release::ValueAndMemory]);
        assert(Seq::new(0, |i: int| Release::Nothing).push(Release::ValueAndMemory) =~= seq![
            Release::ValueAndMemory,
        ]);
    } else {
        lemma_strong_drop_order((n - 1) as usize);
        assert(drop_strong_spec(c).0 == Counters { init: Count((n - 1) as usize), alloc: Count(1) });
        assert(strong_drops(c, n as nat) =~= seq![Release::Nothing] + Seq::new(
            (n - 2) as nat,
            |i: int| Release::Nothing,
        ).push(Release::ValueAndMemory));
        assert(seq![Release::Nothing] + Seq::new((n - 2) as nat, |i: int| Release::Nothing).push(
            Release::ValueAndMemory,
        ) =~= Seq::new((n - 1) as nat, |i: int| Release::Nothing).push(Release::ValueAndMemory));
    }
}

} // verus!
