//! The context registry: values that a component provides to everything
//! below it, found again by their kind.
//!
//! The registry is a stack. A component that is entered opens a frame, what
//! it provides lies in that frame, and leaving the component drops the frame
//! with all it holds. A lookup finds the value of the wanted kind that was
//! provided last, which is the one of the nearest ancestor.

use vstd::prelude::*;

verus! {

/// The kinds of value that components share.
#[derive(Clone, Copy, Debug, PartialEq, Eq, Structural)]
pub enum ContextKind {
    /// The playlists of the catalog, each with its identifier.
    PlaylistList,
    /// The activity feed.
    Feed,
}

/// A view asked for a kind of context that no ancestor provides. This is a
/// mistake in how the views are put together, and the view that meets it
/// cannot render.
#[derive(Clone, Copy, Debug, PartialEq, Eq, Structural)]
pub struct MissingContext {
    pub kind: ContextKind,
}

/// Where in `entries` the value of kind `kind` lies that was provided last.
pub open spec fn nearest<V>(entries: Seq<(ContextKind, V)>, kind: ContextKind) -> Option<int>
    decreases entries.len(),
{
    if entries.len() == 0 {
        None
    } else if entries.last().0 == kind {
        Some(entries.len() - 1)
    } else {
        nearest(entries.drop_last(), kind)
    }
}

/// What `nearest` finds: an entry of the kind with none of that kind behind
/// it, or nothing where no entry has the kind.
pub proof fn lemma_nearest<V>(entries: Seq<(ContextKind, V)>, kind: ContextKind)
    ensures
        match nearest(entries, kind) {
            Some(at) => {
                &&& 0 <= at < entries.len()
                &&& entries[at].0 == kind
                &&& forall|k: int| at < k < entries.len() ==> entries[k].0 != kind
            },
            None => forall|k: int| 0 <= k < entries.len() ==> entries[k].0 != kind,
        },
    decreases entries.len(),
{
    if entries.len() > 0 && entries.last().0 != kind {
        let front = entries.drop_last();
        lemma_nearest(front, kind);
        match nearest(front, kind) {
            Some(at) => {
                assert(entries[at] == front[at]);
                assert forall|k: int| at < k < entries.len() implies entries[k].0 != kind by {
                    if k < front.len() {
                        assert(entries[k] == front[k]);
                    }
                }
            },
            None => {
                assert forall|k: int| 0 <= k < entries.len() implies entries[k].0 != kind by {
                    if k < front.len() {
                        assert(entries[k] == front[k]);
                    }
                }
            },
        }
    }
}

/// Where the nearest value of a kind lies depends on the kinds only.
pub proof fn lemma_nearest_kinds<V>(
    one: Seq<(ContextKind, V)>,
    other: Seq<(ContextKind, V)>,
    kind: ContextKind,
)
    requires
        one.len() == other.len(),
        forall|k: int| 0 <= k < one.len() ==> one[k].0 == other[k].0,
    ensures
        nearest(one, kind) == nearest(other, kind),
    decreases one.len(),
{
    if one.len() > 0 {
        assert(one.last().0 == other.last().0);
        if one.last().0 != kind {
            let a = one.drop_last();
            let b = other.drop_last();
            assert forall|k: int| 0 <= k < a.len() implies a[k].0 == b[k].0 by {
                assert(a[k] == one[k]);
                assert(b[k] == other[k]);
            }
            lemma_nearest_kinds(a, b, kind);
        }
    }
}

/// The provider stack as a mathematical value.
pub struct Providers<V> {
    /// What was provided and is still in reach, the outermost first.
    pub entries: Seq<(ContextKind, V)>,
    /// For each open frame, how many entries there were when it was opened.
    pub frames: Seq<nat>,
}

impl<V> Providers<V> {
    /// Nothing provided, no frame open.
    pub open spec fn empty() -> Providers<V> {
        Providers { entries: Seq::empty(), frames: Seq::empty() }
    }

    /// Every frame begins within the entries, and no frame before an outer one.
    pub open spec fn wf(self) -> bool {
        &&& forall|i: int| 0 <= i < self.frames.len()
            ==> #[trigger] self.frames[i] <= self.entries.len()
        &&& forall|i: int, j: int|
            0 <= i <= j < self.frames.len() ==> self.frames[i] <= self.frames[j]
    }

    /// The value that a lookup of `kind` finds.
    pub open spec fn found(self, kind: ContextKind) -> Option<V> {
        match nearest(self.entries, kind) {
            Some(at) => Some(self.entries[at].1),
            None => None,
        }
    }

    /// The stack after a component was entered.
    pub open spec fn entered(self) -> Providers<V> {
        Providers { frames: self.frames.push(self.entries.len()), ..self }
    }

    /// The stack after `value` was provided as `kind`.
    pub open spec fn provided(self, kind: ContextKind, value: V) -> Providers<V> {
        Providers { entries: self.entries.push((kind, value)), ..self }
    }

    /// The stack after the innermost component was left: what was provided
    /// since it was entered is gone. With no frame open nothing changes.
    pub open spec fn left(self) -> Providers<V> {
        if self.frames.len() > 0 {
            Providers {
                entries: self.entries.take(self.frames.last() as int),
                frames: self.frames.drop_last(),
            }
        } else {
            self
        }
    }

    /// The stack with `value` in place of the value that a lookup of `kind`
    /// finds.
    pub open spec fn replaced(self, kind: ContextKind, value: V) -> Providers<V> {
        match nearest(self.entries, kind) {
            Some(at) => Providers { entries: self.entries.update(at, (kind, value)), ..self },
            None => self,
        }
    }

    /// The nearest provider wins: what was provided last is what a lookup of
    /// its kind finds, and lookups of the other kind find what they found
    /// before.
    pub proof fn law_nearest_provider_wins(self, kind: ContextKind, value: V, other: ContextKind)
        ensures
            self.provided(kind, value).found(kind) == Some(value),
            other != kind ==> self.provided(kind, value).found(other) == self.found(other),
    {
        let after = self.entries.push((kind, value));
        assert(after.drop_last() =~= self.entries);
        assert(after.last() == (kind, value));
        if other != kind {
            match nearest(self.entries, other) {
                Some(at) => {
                    lemma_nearest(self.entries, other);
                    assert(after[at] == self.entries[at]);
                },
                None => {},
            }
        }
    }

    /// A value changed in place is what a lookup of its kind finds
    /// afterwards, and lookups of the other kind find what they found
    /// before.
    pub proof fn law_replaced_is_found(self, kind: ContextKind, value: V, other: ContextKind)
        requires
            self.found(kind) is Some,
        ensures
            self.replaced(kind, value).found(kind) == Some(value),
            other != kind ==> self.replaced(kind, value).found(other) == self.found(other),
            self.wf() ==> self.replaced(kind, value).wf(),
    {
        let at = nearest(self.entries, kind)->0;
        lemma_nearest(self.entries, kind);
        lemma_nearest_kinds(self.entries, self.entries.update(at, (kind, value)), kind);
        lemma_nearest_kinds(self.entries, self.entries.update(at, (kind, value)), other);
        if other != kind {
            lemma_nearest(self.entries, other);
        }
    }

    /// What a component provides is seen below it and nowhere else: when
    /// the component is left, every lookup finds what it found before the
    /// component was entered.
    pub proof fn law_provision_ends_with_component(
        self,
        kind: ContextKind,
        value: V,
        wanted: ContextKind,
    )
        requires
            self.wf(),
        ensures
            self.entered().provided(kind, value).left() == self,
            self.entered().provided(kind, value).left().found(wanted) == self.found(wanted),
    {
        let inner = self.entered().provided(kind, value);
        assert(inner.frames.last() == self.entries.len());
        assert(inner.entries.take(self.entries.len() as int) =~= self.entries);
        assert(inner.frames.drop_last() =~= self.frames);
    }

    /// A lookup that finds nothing means that nothing of that kind is
    /// provided, and one that finds a value means that it is.
    pub proof fn law_missing_means_unprovided(self, kind: ContextKind)
        ensures
            self.found(kind) is None <==> forall|k: int|
                0 <= k < self.entries.len() ==> (#[trigger] self.entries[k]).0 != kind,
    {
        lemma_nearest(self.entries, kind);
    }
}

/// The provider stack of one mounted view tree.
pub struct Registry<V> {
    entries: Vec<(ContextKind, V)>,
    frames: Vec<usize>,
}

impl<V> View for Registry<V> {
    type V = Providers<V>;

    closed spec fn view(&self) -> Providers<V> {
        Providers {
            entries: self.entries@,
            frames: Seq::new(self.frames.len() as nat, |i: int| self.frames[i] as nat),
        }
    }
}

impl<V> Registry<V> {
    /// The registry's invariant: its provider stack is valid. Every
    /// function of the registry keeps it.
    pub open spec fn wf(&self) -> bool {
        self@.wf()
    }

    /// A registry in which nothing is provided.
    pub fn new() -> (registry: Registry<V>)
        ensures
            registry.wf(),
            registry@ == Providers::<V>::empty(),
    {
        let registry = Registry { entries: Vec::new(), frames: Vec::new() };
        assert(registry@.frames =~= Seq::<nat>::empty());
        registry
    }

    /// Enters a component: what is provided from now on lasts until the
    /// matching [`Registry::leave`].
    pub fn enter(&mut self)
        requires
            old(self).wf(),
        ensures
            final(self).wf(),
            final(self)@ == old(self)@.entered(),
    {
        self.frames.push(self.entries.len());
        assert(self@.frames =~= old(self)@.frames.push(old(self)@.entries.len()));
    }

    /// Provides `value` as the value of kind `kind` to the component that
    /// was entered last and to everything below it.
    pub fn provide(&mut self, kind: ContextKind, value: V)
        requires
            old(self).wf(),
        ensures
            final(self).wf(),
            final(self)@ == old(self)@.provided(kind, value),
    {
        self.entries.push((kind, value));
        assert(self@.frames =~= old(self)@.frames);
    }

    /// Leaves the component that was entered last and drops what was
    /// provided since. With no component entered nothing happens.
    pub fn leave(&mut self)
        requires
            old(self).wf(),
        ensures
            final(self).wf(),
            final(self)@ == old(self)@.left(),
    {
        match self.frames.pop() {
            Some(mark) => {
                proof {
                    assert(old(self)@.frames[old(self).frames.len() - 1] == mark);
                }
                self.entries.truncate(mark);
                proof {
                    assert(self@.frames =~= old(self)@.frames.drop_last());
                    assert(self@.entries =~= old(self)@.entries.take(mark as int));
                    assert forall|i: int| 0 <= i < self@.frames.len()
                        implies #[trigger] self@.frames[i]
                        <= self@.entries.len() by {
                        assert(old(self)@.frames[i]
                            <= old(self)@.frames[old(self).frames.len() - 1]);
                    }
                    assert forall|i: int, j: int| 0 <= i <= j < self@.frames.len()
                        implies self@.frames[i]
                        <= self@.frames[j] by {
                        assert(old(self)@.frames[i] <= old(self)@.frames[j]);
                    }
                }
            },
            None => {
                assert(self@.frames =~= old(self)@.frames);
            },
        }
    }

    /// Where the value of kind `kind` lies that was provided last.
    fn find(&self, kind: ContextKind) -> (at: Option<usize>)
        ensures
            match at {
                Some(i) => nearest(self.entries@, kind) == Some(i as int) && i < self.entries.len(),
                None => nearest(self.entries@, kind) is None,
            },
    {
        let mut i: usize = self.entries.len();
        proof {
            assert(self.entries@.take(i as int) =~= self.entries@);
        }
        while i > 0
            invariant
                i <= self.entries.len(),
                nearest(self.entries@, kind) == nearest(self.entries@.take(i as int), kind),
            decreases i,
        {
            proof {
                let front = self.entries@.take(i as int);
                assert(front.last() == self.entries[i - 1]);
                assert(front.drop_last() =~= self.entries@.take(i - 1));
            }
            if self.entries[i - 1].0 == kind {
                return Some(i - 1);
            }
            i -= 1;
        }
        None
    }

    /// The value of kind `kind` that the nearest ancestor provides, or
    /// `MissingContext` with that kind if none provides one.
    pub fn lookup(&self, kind: ContextKind) -> (found: Result<&V, MissingContext>)
        ensures
            match found {
                Ok(value) => self@.found(kind) == Some(*value),
                Err(missing) => self@.found(kind) is None && missing.kind == kind,
            },
    {
        match self.find(kind) {
            Some(at) => Ok(&self.entries[at].1),
            None => Err(MissingContext { kind }),
        }
    }

    /// As [`Registry::lookup`], but the value can be changed in place. Only
    /// the value found changes; which kinds are provided, and where, stays.
    pub fn lookup_mut(&mut self, kind: ContextKind) -> (found: Result<&mut V, MissingContext>)
        requires
            old(self).wf(),
        ensures
            match found {
                Ok(value) => {
                    &&& old(self)@.found(kind) == Some(*value)
                    &&& final(self)@ == old(self)@.replaced(kind, *final(value))
                    &&& final(self).wf()
                },
                Err(missing) => {
                    &&& old(self)@.found(kind) is None
                    &&& missing.kind == kind
                    &&& final(self)@ == old(self)@
                    &&& final(self).wf()
                },
            },
    {
        match self.find(kind) {
            Some(at) => {
                proof {
                    lemma_nearest(self.entries@, kind);
                }
                Ok(&mut self.entries[at].1)
            },
            None => Err(MissingContext { kind }),
        }
    }
}

} // verus!
