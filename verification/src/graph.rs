//! The subscription graph as a mathematical value.
//!
//! A [`Graph`] says which render scopes are subscribed to which cells and
//! which scopes are rendering right now. The runtime's contracts are stated
//! as steps of this graph, and the laws of the engine are proved about it.

use vstd::prelude::*;

verus! {

/// `list` with every occurrence of `scope` taken out, the rest in order.
pub open spec fn without(list: Seq<usize>, scope: usize) -> Seq<usize>
    decreases list.len(),
{
    if list.len() == 0 {
        list
    } else if list.last() == scope {
        without(list.drop_last(), scope)
    } else {
        without(list.drop_last(), scope).push(list.last())
    }
}

/// What `without` keeps: exactly the entries other than `scope`.
pub proof fn lemma_without_contains(list: Seq<usize>, scope: usize, other: usize)
    ensures
        without(list, scope).contains(other) <==> list.contains(other) && other != scope,
        without(list, scope).len() <= list.len(),
    decreases list.len(),
{
    if list.len() == 0 {
    } else {
        let front = list.drop_last();
        lemma_without_contains(front, scope, other);
        let kept = without(front, scope);
        assert(list =~= front.push(list.last()));
        if list.contains(other) {
            let i = choose|i: int| 0 <= i < list.len() && list[i] == other;
            if i < front.len() {
                assert(front[i] == other);
            }
        }
        if front.contains(other) {
            let i = choose|i: int| 0 <= i < front.len() && front[i] == other;
            assert(list[i] == other);
        }
        if list.last() == scope {
        } else {
            let out = kept.push(list.last());
            assert(out[out.len() - 1] == list.last());
            if kept.contains(other) {
                let i = choose|i: int| 0 <= i < kept.len() && kept[i] == other;
                assert(out[i] == other);
            }
            if out.contains(other) {
                let i = choose|i: int| 0 <= i < out.len() && out[i] == other;
                if i < kept.len() {
                    assert(kept[i] == other);
                } else {
                    assert(list[list.len() - 1] == other);
                }
            }
        }
    }
}

/// A list without `scope` is left as it is.
pub proof fn lemma_without_absent(list: Seq<usize>, scope: usize)
    requires
        !list.contains(scope),
    ensures
        without(list, scope) == list,
    decreases list.len(),
{
    if list.len() == 0 {
    } else {
        let front = list.drop_last();
        assert(list[list.len() - 1] != scope);
        assert forall|i: int| 0 <= i < front.len() implies front[i] != scope by {
            assert(list[i] == front[i]);
        }
        lemma_without_absent(front, scope);
        assert(list =~= front.push(list.last()));
    }
}

/// In a list that holds `scope` once, `without` removes that one entry.
pub proof fn lemma_without_removes(list: Seq<usize>, scope: usize, at: int)
    requires
        list.no_duplicates(),
        0 <= at < list.len(),
        list[at] == scope,
    ensures
        without(list, scope) == list.remove(at),
    decreases list.len(),
{
    let front = list.drop_last();
    if at == list.len() - 1 {
        assert forall|i: int| 0 <= i < front.len() implies front[i] != scope by {
            assert(list[i] == front[i]);
        }
        lemma_without_absent(front, scope);
        assert(list.remove(at) =~= front);
    } else {
        assert(front.no_duplicates());
        assert(front[at] == scope);
        lemma_without_removes(front, scope, at);
        assert(list.last() != scope);
        assert(list.remove(at) =~= front.remove(at).push(list.last()));
    }
}

/// Taking a scope out leaves no entry twice.
pub proof fn lemma_without_no_duplicates(list: Seq<usize>, scope: usize)
    requires
        list.no_duplicates(),
    ensures
        without(list, scope).no_duplicates(),
{
    if list.contains(scope) {
        let at = choose|i: int| 0 <= i < list.len() && list[i] == scope;
        lemma_without_removes(list, scope, at);
        let out = list.remove(at);
        assert forall|i: int, j: int| 0 <= i < out.len() && 0 <= j < out.len() && i != j
            implies out[i]
            != out[j] by {
            let si = if i < at { i } else { i + 1 };
            let sj = if j < at { j } else { j + 1 };
            assert(out[i] == list[si]);
            assert(out[j] == list[sj]);
        }
    } else {
        lemma_without_absent(list, scope);
    }
}

/// The subscriptions of a runtime and the scopes that are rendering.
///
/// Cells and scopes are numbered from zero in the order of their creation.
pub struct Graph {
    /// For each cell, the scopes subscribed to it, in subscription order.
    pub subscribers: Seq<Seq<usize>>,
    /// How many scopes were created.
    pub scopes: nat,
    /// The scopes that are rendering, the innermost last.
    pub stack: Seq<usize>,
}

impl Graph {
    /// The graph of a new runtime: no cell, no scope, nothing rendering.
    pub open spec fn empty() -> Graph {
        Graph { subscribers: Seq::empty(), scopes: 0, stack: Seq::empty() }
    }

    /// Every subscriber and every rendering scope exists, and no scope is
    /// subscribed to a cell twice.
    pub open spec fn wf(self) -> bool {
        &&& forall|c: int, i: int|
            0 <= c < self.subscribers.len() && 0 <= i < self.subscribers[c].len()
                ==> #[trigger] self.subscribers[c][i] < self.scopes
        &&& forall|c: int|
            0 <= c < self.subscribers.len() ==> #[trigger] self.subscribers[c].no_duplicates()
        &&& forall|i: int| 0 <= i < self.stack.len() ==> #[trigger] self.stack[i] < self.scopes
    }

    /// How many cells were created.
    pub open spec fn cells(self) -> nat {
        self.subscribers.len()
    }

    /// The scope whose render is running: the innermost one.
    pub open spec fn current(self) -> Option<usize> {
        if self.stack.len() > 0 {
            Some(self.stack.last())
        } else {
            None
        }
    }

    /// The scopes that a write to `cell` notifies, in the order in which
    /// they are notified. A number that no cell has notifies nobody.
    pub open spec fn notified(self, cell: int) -> Seq<usize> {
        if 0 <= cell < self.subscribers.len() {
            self.subscribers[cell]
        } else {
            Seq::empty()
        }
    }

    /// Whether a write to `cell` re-renders `scope`.
    pub open spec fn is_subscribed(self, scope: usize, cell: int) -> bool {
        self.notified(cell).contains(scope)
    }

    /// The graph after one more cell was created.
    pub open spec fn with_cell(self) -> Graph {
        Graph { subscribers: self.subscribers.push(Seq::empty()), ..self }
    }

    /// The graph after one more scope was created.
    pub open spec fn with_scope(self) -> Graph {
        Graph { scopes: self.scopes + 1, ..self }
    }

    /// The graph after `cell` was read: the current scope, if there is one
    /// and it was not subscribed yet, is now its last subscriber.
    pub open spec fn after_read(self, cell: int) -> Graph {
        if self.stack.len() > 0 && 0 <= cell < self.subscribers.len()
            && !self.subscribers[cell].contains(self.stack.last()) {
            Graph {
                subscribers: self.subscribers.update(
                    cell,
                    self.subscribers[cell].push(self.stack.last()),
                ),
                ..self
            }
        } else {
            self
        }
    }

    /// The graph after the cells of `cells` were read one after the other.
    pub open spec fn after_reads(self, cells: Seq<int>) -> Graph
        decreases cells.len(),
    {
        if cells.len() == 0 {
            self
        } else {
            self.after_reads(cells.drop_last()).after_read(cells.last())
        }
    }

    /// The graph after every subscription of `scope` was dropped.
    pub open spec fn torn_down(self, scope: usize) -> Graph {
        Graph {
            subscribers: Seq::new(
                self.subscribers.len(),
                |c: int| without(self.subscribers[c], scope),
            ),
            ..self
        }
    }

    /// The graph after a render of `scope` began: its earlier subscriptions
    /// are dropped and it is the current scope. A scope that does not exist
    /// changes nothing.
    pub open spec fn entered(self, scope: usize) -> Graph {
        if scope < self.scopes {
            Graph { stack: self.stack.push(scope), ..self.torn_down(scope) }
        } else {
            self
        }
    }

    /// The graph after the innermost render ended: the scope that was
    /// current before it is current again.
    pub open spec fn left(self) -> Graph {
        if self.stack.len() > 0 {
            Graph { stack: self.stack.drop_last(), ..self }
        } else {
            self
        }
    }

    /// How often a write to `cell` notifies `scope`.
    pub open spec fn times_notified(self, scope: usize, cell: int) -> nat {
        occurrences(self.notified(cell), scope)
    }

    /// A write re-renders each subscriber exactly once, and no other scope:
    /// `scope` is notified once if it is subscribed to `cell`, and not at
    /// all if it is not. The value written plays no part in this.
    pub proof fn law_write_notifies_each_subscriber_once(self, scope: usize, cell: int)
        requires
            self.wf(),
        ensures
            self.is_subscribed(scope, cell) ==> self.times_notified(scope, cell) == 1,
            !self.is_subscribed(scope, cell) ==> self.times_notified(scope, cell) == 0,
    {
        if 0 <= cell < self.subscribers.len() {
            assert(self.subscribers[cell].no_duplicates());
        }
        lemma_occurrences(self.notified(cell), scope);
    }

    /// A read subscribes the current scope behind the scopes subscribed
    /// before it: the order of notification is the order of subscription.
    pub proof fn law_subscription_order(self, cell: int)
        requires
            self.wf(),
            0 <= cell < self.cells(),
            self.current() is Some,
            !self.is_subscribed(self.current()->0, cell),
        ensures
            self.after_read(cell).notified(cell) == self.notified(cell).push(self.current()->0),
            self.after_read(cell).wf(),
    {
        let after = self.after_read(cell);
        let scope = self.stack.last();
        assert forall|c: int, i: int|
            0 <= c < after.subscribers.len() && 0 <= i < after.subscribers[c].len()
                implies #[trigger] after.subscribers[c][i]
            < after.scopes by {
            if c == cell && i == self.subscribers[cell].len() {
                assert(self.stack[self.stack.len() - 1] < self.scopes);
            } else {
                assert(after.subscribers[c][i] == self.subscribers[c][i]);
            }
        }
        assert forall|c: int| 0 <= c < after.subscribers.len()
            implies #[trigger] after.subscribers[c].no_duplicates() by {
            if c == cell {
                let list = self.subscribers[cell];
                let out = list.push(scope);
                assert(list.no_duplicates());
                assert forall|i: int, j: int|
                    0 <= i < out.len() && 0 <= j < out.len() && i != j implies out[i] != out[j] by {
                    if i < list.len() && j < list.len() {
                    } else if i < list.len() {
                        assert(list[i] != scope);
                    } else {
                        assert(list[j] != scope);
                    }
                }
            } else {
                assert(after.subscribers[c] == self.subscribers[c]);
            }
        }
    }

    /// A read keeps the graph valid.
    pub proof fn lemma_read_keeps_wf(self, cell: int)
        requires
            self.wf(),
        ensures
            self.after_read(cell).wf(),
    {
        if self.stack.len() > 0 && 0 <= cell < self.subscribers.len()
            && !self.subscribers[cell].contains(self.stack.last()) {
            self.law_subscription_order(cell);
        }
    }

    /// A teardown keeps the graph valid, and afterwards the scope is
    /// subscribed to nothing.
    pub proof fn lemma_teardown_keeps_wf(self, scope: usize)
        requires
            self.wf(),
        ensures
            self.torn_down(scope).wf(),
            forall|c: int| !self.torn_down(scope).is_subscribed(scope, c),
            forall|c: int| #[trigger]
                self.torn_down(scope).notified(c) == without(self.notified(c), scope),
    {
        let after = self.torn_down(scope);
        assert forall|c: int, i: int|
            0 <= c < after.subscribers.len() && 0 <= i < after.subscribers[c].len()
                implies #[trigger] after.subscribers[c][i]
            < after.scopes by {
            let v = after.subscribers[c][i];
            assert(after.subscribers[c].contains(v));
            lemma_without_contains(self.subscribers[c], scope, v);
            let j = choose|j: int| 0 <= j < self.subscribers[c].len() && self.subscribers[c][j]
                == v;
            assert(self.subscribers[c][j] < self.scopes);
        }
        assert forall|c: int| 0 <= c < after.subscribers.len()
            implies #[trigger] after.subscribers[c].no_duplicates() by {
            assert(self.subscribers[c].no_duplicates());
            lemma_without_no_duplicates(self.subscribers[c], scope);
        }
        assert forall|c: int| !after.is_subscribed(scope, c) by {
            if 0 <= c < self.subscribers.len() {
                lemma_without_contains(self.subscribers[c], scope, scope);
            }
        }
        assert forall|c: int| #[trigger] after.notified(c) == without(self.notified(c), scope) by {
            if 0 <= c < self.subscribers.len() {
            } else {
                assert(without(Seq::<usize>::empty(), scope) == Seq::<usize>::empty());
            }
        }
    }

    /// What a render does to the subscribers of one cell: the scope that
    /// rendered stands last among them if it read the cell, and is not
    /// among them if it did not; the other scopes keep their places. The
    /// render leaves the graph valid and the stack as it was.
    pub proof fn lemma_render_effect(self, scope: usize, cells: Seq<int>, cell: int)
        requires
            self.wf(),
            scope < self.scopes,
        ensures
            self.entered(scope).after_reads(cells).left().wf(),
            self.entered(scope).after_reads(cells).left().stack == self.stack,
            self.entered(scope).after_reads(cells).left().scopes == self.scopes,
            self.entered(scope).after_reads(cells).left().cells() == self.cells(),
            self.entered(scope).after_reads(cells).left().notified(cell) == if cells.contains(cell)
                && 0 <= cell < self.cells() {
                without(self.notified(cell), scope).push(scope)
            } else {
                without(self.notified(cell), scope)
            },
    {
        self.lemma_teardown_keeps_wf(scope);
        let begun = self.entered(scope);
        assert(begun.wf());
        assert(begun.notified(cell) == without(self.notified(cell), scope));
        assert(!begun.notified(cell).contains(scope)) by {
            assert(!self.torn_down(scope).is_subscribed(scope, cell));
        }
        begun.lemma_reads_in_render(scope, cells, cell);
        let read = begun.after_reads(cells);
        assert(read.left().stack =~= self.stack);
    }

    /// What the reads of a render do to the subscribers of one cell to
    /// which the rendering scope was not subscribed when the reads began.
    pub proof fn lemma_reads_in_render(self, scope: usize, cells: Seq<int>, cell: int)
        requires
            self.wf(),
            self.current() == Some(scope),
            !self.notified(cell).contains(scope),
        ensures
            self.after_reads(cells).wf(),
            self.after_reads(cells).stack == self.stack,
            self.after_reads(cells).scopes == self.scopes,
            self.after_reads(cells).cells() == self.cells(),
            self.after_reads(cells).notified(cell) == if cells.contains(cell) && 0 <= cell
                < self.cells() {
                self.notified(cell).push(scope)
            } else {
                self.notified(cell)
            },
        decreases cells.len(),
    {
        if cells.len() > 0 {
            let front = cells.drop_last();
            let last = cells.last();
            self.lemma_reads_in_render(scope, front, cell);
            let before = self.after_reads(front);
            before.lemma_read_keeps_wf(last);
            assert(cells =~= front.push(last));
            assert(cells[cells.len() - 1] == last);
            if front.contains(cell) {
                let i = choose|i: int| 0 <= i < front.len() && front[i] == cell;
                assert(cells[i] == cell);
            }
            if cells.contains(cell) && !front.contains(cell) {
                let i = choose|i: int| 0 <= i < cells.len() && cells[i] == cell;
                if i < front.len() {
                    assert(front[i] == cell);
                }
                assert(last == cell);
            }
            if 0 <= cell < self.cells() {
                if last == cell {
                    if front.contains(cell) {
                        let list = self.notified(cell).push(scope);
                        assert(list[list.len() - 1] == scope);
                        assert(before.subscribers[cell].contains(scope));
                    } else {
                    }
                } else {
                }
            }
        }
    }

    /// Reads of other cells leave the subscribers of `cell` as they are.
    pub proof fn lemma_reads_elsewhere(self, reads: Seq<int>, cell: int)
        requires
            !reads.contains(cell),
        ensures
            self.after_reads(reads).notified(cell) == self.notified(cell),
            self.after_reads(reads).stack == self.stack,
            self.after_reads(reads).scopes == self.scopes,
            self.after_reads(reads).subscribers.len() == self.subscribers.len(),
        decreases reads.len(),
    {
        if reads.len() > 0 {
            let front = reads.drop_last();
            assert forall|i: int| 0 <= i < front.len() implies front[i] != cell by {
                assert(reads[i] == front[i]);
            }
            self.lemma_reads_keep_shape(front);
            self.lemma_reads_elsewhere(front, cell);
            assert(reads[reads.len() - 1] != cell);
        }
    }

    /// Reading one cell is a read of that cell.
    pub proof fn lemma_read_one(self, cell: int)
        ensures
            self.after_reads(seq![cell]) == self.after_read(cell),
    {
        let cells = seq![cell];
        assert(cells.drop_last() =~= Seq::<int>::empty());
        assert(self.after_reads(cells.drop_last()) == self);
        assert(cells.last() == cell);
    }

    /// Reading one more cell is one more read.
    pub proof fn lemma_read_more(self, cells: Seq<int>, cell: int)
        ensures
            self.after_reads(cells.push(cell)) == self.after_reads(cells).after_read(cell),
    {
        assert(cells.push(cell).drop_last() =~= cells);
    }

    /// Reads change neither the scopes nor the stack nor the number of cells.
    pub proof fn lemma_reads_keep_shape(self, reads: Seq<int>)
        ensures
            self.after_reads(reads).stack == self.stack,
            self.after_reads(reads).scopes == self.scopes,
            self.after_reads(reads).subscribers.len() == self.subscribers.len(),
        decreases reads.len(),
    {
        if reads.len() > 0 {
            self.lemma_reads_keep_shape(reads.drop_last());
        }
    }

    /// A scope that renders again without reading `cell` is no longer
    /// subscribed to it: after a render of `scope` that reads the cells of
    /// `reads`, none of them `cell`, a write to `cell` does not notify
    /// `scope`, whatever it was subscribed to before.
    pub proof fn law_stale_subscription_pruned(self, scope: usize, cell: int, reads: Seq<int>)
        requires
            self.wf(),
            !reads.contains(cell),
        ensures
            !self.entered(scope).after_reads(reads).left().is_subscribed(scope, cell),
            self.entered(scope).after_reads(reads).left().times_notified(scope, cell) == 0,
    {
        let begun = self.entered(scope);
        assert(!begun.notified(cell).contains(scope)) by {
            if 0 <= cell < self.subscribers.len() {
                if scope < self.scopes {
                    lemma_without_contains(self.subscribers[cell], scope, scope);
                } else {
                    if self.subscribers[cell].contains(scope) {
                        let i = choose|i: int|
                            0 <= i < self.subscribers[cell].len() && self.subscribers[cell][i]
                                == scope;
                        assert(self.subscribers[cell][i] < self.scopes);
                    }
                }
            }
        }
        begun.lemma_reads_elsewhere(reads, cell);
        let done = begun.after_reads(reads).left();
        assert(done.notified(cell) == begun.notified(cell));
        lemma_occurrences(done.notified(cell), scope);
    }

    /// A scope that reads `cell` while it renders is subscribed to it
    /// afterwards, and a later read of the same cell changes nothing.
    pub proof fn law_read_subscribes(self, scope: usize, cell: int)
        requires
            self.wf(),
            0 <= cell < self.cells(),
            self.current() == Some(scope),
        ensures
            self.after_read(cell).is_subscribed(scope, cell),
            self.after_read(cell).after_read(cell) == self.after_read(cell),
    {
        let after = self.after_read(cell);
        if self.subscribers[cell].contains(scope) {
        } else {
            let out = self.subscribers[cell].push(scope);
            assert(out[out.len() - 1] == scope);
            assert(after.subscribers[cell] == out);
        }
    }
}

/// How often `scope` stands in `list`.
pub open spec fn occurrences(list: Seq<usize>, scope: usize) -> nat
    decreases list.len(),
{
    if list.len() == 0 {
        0
    } else {
        occurrences(list.drop_last(), scope) + if list.last() == scope {
            1nat
        } else {
            0nat
        }
    }
}

/// A scope occurs in a list if and only if it is counted there, and in a
/// list with no entry twice it is counted at most once.
pub proof fn lemma_occurrences(list: Seq<usize>, scope: usize)
    ensures
        list.contains(scope) <==> occurrences(list, scope) > 0,
        list.no_duplicates() ==> occurrences(list, scope) <= 1,
    decreases list.len(),
{
    if list.len() > 0 {
        let front = list.drop_last();
        lemma_occurrences(front, scope);
        if front.contains(scope) {
            let i = choose|i: int| 0 <= i < front.len() && front[i] == scope;
            assert(list[i] == scope);
        }
        if list.last() == scope {
            assert(list[list.len() - 1] == scope);
        }
        if list.contains(scope) {
            let i = choose|i: int| 0 <= i < list.len() && list[i] == scope;
            if i < front.len() {
                assert(front[i] == scope);
            }
        }
        if list.no_duplicates() {
            assert(front.no_duplicates());
            if list.last() == scope && front.contains(scope) {
                let i = choose|i: int| 0 <= i < front.len() && front[i] == scope;
                assert(list[i] == list[list.len() - 1]);
            }
        }
    }
}

/// One step of a runtime, as far as the graph goes.
pub enum Step {
    /// A cell is created.
    NewCell,
    /// A scope is created.
    NewScope,
    /// The cell with this number is read.
    Read(int),
    /// A render of this scope begins.
    Enter(usize),
    /// The innermost render ends.
    Leave,
    /// The subscriptions of this scope are dropped.
    Teardown(usize),
}

impl Graph {
    /// The graph after `step`.
    pub open spec fn after(self, step: Step) -> Graph {
        match step {
            Step::NewCell => self.with_cell(),
            Step::NewScope => self.with_scope(),
            Step::Read(cell) => self.after_read(cell),
            Step::Enter(scope) => self.entered(scope),
            Step::Leave => self.left(),
            Step::Teardown(scope) => self.torn_down(scope),
        }
    }

    /// The graph after the steps of `steps`, one after the other.
    pub open spec fn after_all(self, steps: Seq<Step>) -> Graph
        decreases steps.len(),
    {
        if steps.len() == 0 {
            self
        } else {
            self.after_all(steps.drop_last()).after(steps.last())
        }
    }

    /// Every step keeps the graph valid.
    pub proof fn law_steps_keep_wf(self, steps: Seq<Step>)
        requires
            self.wf(),
        ensures
            self.after_all(steps).wf(),
        decreases steps.len(),
    {
        if steps.len() > 0 {
            self.law_steps_keep_wf(steps.drop_last());
            let before = self.after_all(steps.drop_last());
            match steps.last() {
                Step::NewCell => {
                    let after = before.with_cell();
                    assert forall|c: int, i: int|
                        0 <= c < after.subscribers.len() && 0 <= i
                            < after.subscribers[c].len() implies #[trigger] after.subscribers[c][i]
                        < after.scopes by {
                        assert(after.subscribers[c] == before.subscribers[c]);
                    }
                    assert forall|c: int| 0 <= c < after.subscribers.len()
                        implies #[trigger] after.subscribers[c].no_duplicates() by {
                        if c < before.subscribers.len() {
                            assert(after.subscribers[c] == before.subscribers[c]);
                        }
                    }
                },
                Step::NewScope => {},
                Step::Read(cell) => {
                    before.lemma_read_keeps_wf(cell);
                },
                Step::Enter(scope) => {
                    before.lemma_teardown_keeps_wf(scope);
                },
                Step::Leave => {},
                Step::Teardown(scope) => {
                    before.lemma_teardown_keeps_wf(scope);
                },
            }
        }
    }

    /// A scope is subscribed to a cell only by reading it: if `scope` is
    /// not subscribed to `cell` and, in the steps that follow, `cell` is
    /// never read while `scope` is the current scope, then `scope` is not
    /// subscribed to `cell` afterwards either, whatever else happens:
    /// renders of other scopes, nested or not, reads of other cells, new
    /// cells and scopes.
    pub proof fn law_subscribed_only_by_reading(self, steps: Seq<Step>, scope: usize, cell: int)
        requires
            self.wf(),
            !self.is_subscribed(scope, cell),
            forall|i: int|
                0 <= i < steps.len() && #[trigger] steps[i] == Step::Read(cell) ==> self.after_all(
                    steps.take(i),
                ).current() != Some(scope),
        ensures
            !self.after_all(steps).is_subscribed(scope, cell),
        decreases steps.len(),
    {
        if steps.len() > 0 {
            let front = steps.drop_last();
            assert forall|i: int| 0 <= i < front.len() && #[trigger] front[i] == Step::Read(
                cell,
            ) implies self.after_all(front.take(i)).current() != Some(scope) by {
                assert(steps[i] == front[i]);
                assert(front.take(i) =~= steps.take(i));
            }
            self.law_subscribed_only_by_reading(front, scope, cell);
            self.law_steps_keep_wf(front);
            let before = self.after_all(front);
            let last = steps.last();
            assert(steps.take(steps.len() - 1) =~= front);
            match last {
                Step::NewCell => {
                    let after = before.with_cell();
                    if 0 <= cell < before.subscribers.len() {
                        assert(after.subscribers[cell] == before.subscribers[cell]);
                    } else if cell == before.subscribers.len() {
                        assert(after.subscribers[cell] =~= Seq::<usize>::empty());
                    }
                },
                Step::NewScope => {},
                Step::Read(read) => {
                    if read == cell {
                        assert(steps[steps.len() - 1] == Step::Read(cell));
                        assert(before.current() != Some(scope));
                        let after = before.after_read(cell);
                        if after != before {
                            let list = before.subscribers[cell];
                            let out = list.push(before.stack.last());
                            if out.contains(scope) {
                                let i = choose|i: int| 0 <= i < out.len() && out[i] == scope;
                                if i < list.len() {
                                    assert(list[i] == scope);
                                }
                            }
                        }
                    } else {
                    }
                },
                Step::Enter(entered) => {
                    before.lemma_teardown_keeps_wf(entered);
                    if 0 <= cell < before.subscribers.len() && entered < before.scopes {
                        lemma_without_contains(before.subscribers[cell], entered, scope);
                    }
                },
                Step::Leave => {},
                Step::Teardown(gone) => {
                    if 0 <= cell < before.subscribers.len() {
                        lemma_without_contains(before.subscribers[cell], gone, scope);
                    }
                },
            }
        }
    }

    /// Stale subscriptions are pruned, in general: once a render of `scope`
    /// has begun, `scope` is subscribed to `cell` afterwards only if `cell`
    /// was read while `scope` was the current scope, whatever `scope` was
    /// subscribed to before.
    pub proof fn law_render_forgets_unread_cells(self, scope: usize, steps: Seq<Step>, cell: int)
        requires
            self.wf(),
            scope < self.scopes,
            forall|i: int|
                0 <= i < steps.len() && #[trigger] steps[i] == Step::Read(cell) ==> self.entered(
                    scope,
                ).after_all(steps.take(i)).current() != Some(scope),
        ensures
            !self.entered(scope).after_all(steps).is_subscribed(scope, cell),
    {
        self.lemma_teardown_keeps_wf(scope);
        let begun = self.entered(scope);
        assert(begun.notified(cell) == self.torn_down(scope).notified(cell));
        assert(!self.torn_down(scope).is_subscribed(scope, cell));
        begun.law_subscribed_only_by_reading(steps, scope, cell);
    }
}

} // verus!
