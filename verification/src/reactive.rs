//! Reactive cells and the runtime that knows who reads them.
//!
//! A [`ReactiveCell`] owns a value. A [`Runtime`] numbers the cells and the
//! render scopes, records which scope read which cell while it rendered, and
//! says which scopes a write has to render again. The runtime never calls a
//! view function itself: a write hands back the scopes to render, and each
//! render is bracketed by [`Runtime::begin_render`] and
//! [`Runtime::end_render`].

use vstd::prelude::*;
use crate::graph::{
    lemma_without_absent, lemma_without_contains, lemma_without_no_duplicates,
    lemma_without_removes, without, Graph,
};

verus! {

/// A mutable value with an identity. The identity is the cell's number in
/// the runtime that created it, not its value: two cells with equal values
/// are still two cells.
pub struct ReactiveCell<T> {
    id: usize,
    value: T,
}

impl<T> ReactiveCell<T> {
    /// The cell's number.
    pub closed spec fn id(&self) -> int {
        self.id as int
    }

    /// The cell's current value.
    pub closed spec fn value(&self) -> T {
        self.value
    }

    /// The cell after `value` was written to it: the same cell with the
    /// new value.
    pub closed spec fn written(self, value: T) -> ReactiveCell<T> {
        ReactiveCell { id: self.id, value }
    }

    /// A read after a write gives the value written, until the next write
    /// puts another in its place; a write never changes which cell it is.
    pub proof fn law_read_after_write(self, value: T, next: T)
        ensures
            self.written(value).value() == value,
            self.written(value).id() == self.id(),
            self.written(value).written(next) == self.written(next),
    {
    }

    /// The cell's number, by which [`Runtime::is_subscribed`] finds it.
    pub fn key(&self) -> (id: usize)
        ensures
            id == self.id(),
    {
        self.id
    }

    /// The current value, without subscribing anybody. Event handlers read
    /// this way: they are not render scopes.
    pub fn peek(&self) -> (value: &T)
        ensures
            *value == self.value(),
    {
        &self.value
    }
}

/// Where `wanted` stands in `list`, if it does.
fn position(list: &Vec<usize>, wanted: usize) -> (found: Option<usize>)
    ensures
        match found {
            Some(at) => at < list.len() && list[at as int] == wanted,
            None => !list@.contains(wanted),
        },
{
    let mut i: usize = 0;
    while i < list.len()
        invariant
            i <= list.len(),
            forall|k: int| 0 <= k < i ==> list[k] != wanted,
        decreases list.len() - i,
    {
        if list[i] == wanted {
            return Some(i);
        }
        i += 1;
    }
    None
}

/// The views of the lists of `lists`, in the same order.
spec fn list_views(lists: Seq<Vec<usize>>) -> Seq<Seq<usize>> {
    Seq::new(lists.len(), |i: int| lists[i]@)
}

/// Whether the teardown lists `deps`, one for each scope, name exactly the
/// cells whose subscriber lists in `subs` hold that scope, each once.
spec fn mirrors(subs: Seq<Seq<usize>>, deps: Seq<Seq<usize>>) -> bool {
    &&& forall|s: int, k: int|
        0 <= s < deps.len() && 0 <= k < deps[s].len() ==> #[trigger] deps[s][k] < subs.len()
    &&& forall|s: int| 0 <= s < deps.len() ==> #[trigger] deps[s].no_duplicates()
    &&& forall|c: usize, s: usize|
        #![trigger subs[c as int], deps[s as int]]
        c < subs.len() && s < deps.len()
            ==> (subs[c as int].contains(s) <==> deps[s as int].contains(c))
}

/// The subscriber lists name existing scopes, each at most once per cell.
spec fn lists_ok(subs: Seq<Seq<usize>>, scopes: nat) -> bool {
    &&& forall|c: int, i: int|
        0 <= c < subs.len() && 0 <= i < subs[c].len() ==> #[trigger] subs[c][i] < scopes
    &&& forall|c: int| 0 <= c < subs.len() ==> #[trigger] subs[c].no_duplicates()
}

/// A new cell has no subscriber, and no teardown list names it.
proof fn lemma_mirrors_new_cell(subs: Seq<Seq<usize>>, deps: Seq<Seq<usize>>)
    requires
        mirrors(subs, deps),
    ensures
        mirrors(subs.push(Seq::empty()), deps),
{
    let subs1 = subs.push(Seq::<usize>::empty());
    assert forall|c: usize, s: usize|
        #![trigger subs1[c as int], deps[s as int]]
        c < subs1.len() && s < deps.len()
            implies (subs1[c as int].contains(s) <==> deps[s as int].contains(c)) by {
        if c < subs.len() {
            assert(subs1[c as int] == subs[c as int]);
        } else {
            if deps[s as int].contains(c) {
                let k = choose|k: int| 0 <= k < deps[s as int].len() && deps[s as int][k] == c;
                assert(deps[s as int][k] < subs.len());
            }
        }
    }
}

/// A new scope is subscribed to nothing.
proof fn lemma_mirrors_new_scope(subs: Seq<Seq<usize>>, deps: Seq<Seq<usize>>)
    requires
        mirrors(subs, deps),
        lists_ok(subs, deps.len()),
    ensures
        mirrors(subs, deps.push(Seq::empty())),
{
    let deps1 = deps.push(Seq::<usize>::empty());
    assert forall|s: int, k: int| 0 <= s < deps1.len() && 0 <= k < deps1[s].len()
        implies #[trigger] deps1[s][k]
        < subs.len() by {
        assert(deps1[s] == deps[s]);
    }
    assert forall|s: int| 0 <= s < deps1.len() implies #[trigger] deps1[s].no_duplicates() by {
        if s < deps.len() {
            assert(deps1[s] == deps[s]);
        }
    }
    assert forall|c: usize, s: usize|
        #![trigger subs[c as int], deps1[s as int]]
        c < subs.len() && s < deps1.len()
            implies (subs[c as int].contains(s) <==> deps1[s as int].contains(c)) by {
        if s < deps.len() {
            assert(deps1[s as int] == deps[s as int]);
        } else {
            if subs[c as int].contains(s) {
                let k = choose|k: int| 0 <= k < subs[c as int].len() && subs[c as int][k] == s;
                assert(subs[c as int][k] < deps.len());
            }
        }
    }
}

/// One scope more in one subscriber list, and that cell in the scope's
/// teardown list: the two still agree.
proof fn lemma_mirrors_subscribe(subs: Seq<Seq<usize>>, deps: Seq<Seq<usize>>, c: usize, s: usize)
    requires
        mirrors(subs, deps),
        lists_ok(subs, deps.len()),
        c < subs.len(),
        s < deps.len(),
        !subs[c as int].contains(s),
    ensures
        mirrors(
            subs.update(c as int, subs[c as int].push(s)),
            deps.update(s as int, deps[s as int].push(c)),
        ),
        lists_ok(subs.update(c as int, subs[c as int].push(s)), deps.len()),
{
    let subs1 = subs.update(c as int, subs[c as int].push(s));
    let deps1 = deps.update(s as int, deps[s as int].push(c));
    assert(!deps[s as int].contains(c));
    lemma_push_fresh(subs[c as int], s);
    lemma_push_fresh(deps[s as int], c);
    assert forall|x: int, i: int| 0 <= x < subs1.len() && 0 <= i < subs1[x].len()
        implies #[trigger] subs1[x][i]
        < deps.len() by {
        if x == c && i == subs[c as int].len() {
        } else {
            assert(subs1[x][i] == subs[x][i]);
        }
    }
    assert forall|x: int| 0 <= x < subs1.len() implies #[trigger] subs1[x].no_duplicates() by {
        if x != c {
            assert(subs1[x] == subs[x]);
        }
    }
    assert forall|y: int, k: int| 0 <= y < deps1.len() && 0 <= k < deps1[y].len()
        implies #[trigger] deps1[y][k]
        < subs1.len() by {
        if y == s && k == deps[s as int].len() {
        } else {
            assert(deps1[y][k] == deps[y][k]);
        }
    }
    assert forall|y: int| 0 <= y < deps1.len() implies #[trigger] deps1[y].no_duplicates() by {
        if y != s {
            assert(deps1[y] == deps[y]);
        }
    }
    assert forall|x: usize, y: usize|
        #![trigger subs1[x as int], deps1[y as int]]
        x < subs1.len() && y < deps1.len()
            implies (subs1[x as int].contains(y) <==> deps1[y as int].contains(x)) by {
        assert(subs[x as int].contains(y) <==> deps[y as int].contains(x));
        lemma_push_contains(subs[c as int], s, y);
        lemma_push_contains(deps[s as int], c, x);
    }
}

/// What a list holds after a push.
proof fn lemma_push_contains(list: Seq<usize>, last: usize, other: usize)
    ensures
        list.push(last).contains(other) <==> list.contains(other) || other == last,
{
    let out = list.push(last);
    if list.contains(other) {
        let i = choose|i: int| 0 <= i < list.len() && list[i] == other;
        assert(out[i] == other);
    }
    if other == last {
        assert(out[list.len() as int] == other);
    }
    if out.contains(other) {
        let i = choose|i: int| 0 <= i < out.len() && out[i] == other;
        if i < list.len() {
            assert(list[i] == other);
        }
    }
}

/// A list with no entry twice stays so when a new entry is pushed.
proof fn lemma_push_fresh(list: Seq<usize>, last: usize)
    requires
        list.no_duplicates(),
        !list.contains(last),
    ensures
        list.push(last).no_duplicates(),
{
    let out = list.push(last);
    assert forall|i: int, j: int| 0 <= i < out.len() && 0 <= j < out.len() && i != j implies out[i]
        != out[j] by {
        if i < list.len() && j < list.len() {
        } else if i < list.len() {
            assert(list[i] != last);
        } else {
            assert(list[j] != last);
        }
    }
}

/// Every subscriber list without `scope`, and the scope's teardown list
/// emptied: the two still agree.
proof fn lemma_mirrors_torn_down(subs: Seq<Seq<usize>>, deps: Seq<Seq<usize>>, scope: usize)
    requires
        mirrors(subs, deps),
        lists_ok(subs, deps.len()),
        scope < deps.len(),
    ensures
        mirrors(
            Seq::new(subs.len(), |c: int| without(subs[c], scope)),
            deps.update(scope as int, Seq::empty()),
        ),
        lists_ok(Seq::new(subs.len(), |c: int| without(subs[c], scope)), deps.len()),
{
    let subs1 = Seq::new(subs.len(), |c: int| without(subs[c], scope));
    let deps1 = deps.update(scope as int, Seq::<usize>::empty());
    assert forall|x: int, i: int| 0 <= x < subs1.len() && 0 <= i < subs1[x].len()
        implies #[trigger] subs1[x][i]
        < deps.len() by {
        let v = subs1[x][i];
        assert(subs1[x].contains(v));
        lemma_without_contains(subs[x], scope, v);
        let j = choose|j: int| 0 <= j < subs[x].len() && subs[x][j] == v;
        assert(subs[x][j] < deps.len());
    }
    assert forall|x: int| 0 <= x < subs1.len() implies #[trigger] subs1[x].no_duplicates() by {
        assert(subs[x].no_duplicates());
        lemma_without_no_duplicates(subs[x], scope);
    }
    assert forall|y: int, k: int| 0 <= y < deps1.len() && 0 <= k < deps1[y].len()
        implies #[trigger] deps1[y][k]
        < subs1.len() by {
        assert(deps1[y][k] == deps[y][k]);
    }
    assert forall|y: int| 0 <= y < deps1.len() implies #[trigger] deps1[y].no_duplicates() by {
        if y != scope {
            assert(deps1[y] == deps[y]);
        }
    }
    assert forall|x: usize, y: usize|
        #![trigger subs1[x as int], deps1[y as int]]
        x < subs1.len() && y < deps1.len()
            implies (subs1[x as int].contains(y) <==> deps1[y as int].contains(x)) by {
        assert(subs[x as int].contains(y) <==> deps[y as int].contains(x));
        lemma_without_contains(subs[x as int], scope, y);
    }
}

/// The bookkeeping of one mounted view tree: its cells, its render scopes,
/// and the subscriptions between them.
pub struct Runtime {
    /// For each cell, the scopes subscribed to it, in subscription order.
    subscribers: Vec<Vec<usize>>,
    /// For each scope, the cells it is subscribed to: what a teardown of
    /// the scope has to undo.
    reads: Vec<Vec<usize>>,
    /// The scopes that are rendering, the innermost last.
    stack: Vec<usize>,
}

impl View for Runtime {
    type V = Graph;

    closed spec fn view(&self) -> Graph {
        Graph {
            subscribers: list_views(self.subscribers@),
            scopes: self.reads.len() as nat,
            stack: self.stack@,
        }
    }
}

impl Runtime {
    /// The runtime's invariant. Every function of the runtime keeps it.
    pub closed spec fn wf(&self) -> bool {
        &&& lists_ok(list_views(self.subscribers@), self.reads.len() as nat)
        &&& forall|i: int| 0 <= i < self.stack.len() ==> #[trigger] self.stack[i] < self.reads.len()
        &&& mirrors(list_views(self.subscribers@), list_views(self.reads@))
    }

    /// A valid runtime has a valid graph.
    pub proof fn lemma_graph_wf(&self)
        requires
            self.wf(),
        ensures
            self@.wf(),
    {
    }

    /// A runtime with no cell and no scope.
    pub fn new() -> (rt: Runtime)
        ensures
            rt.wf(),
            rt@ == Graph::empty(),
    {
        let rt = Runtime { subscribers: Vec::new(), reads: Vec::new(), stack: Vec::new() };
        assert(rt@.subscribers =~= Seq::<Seq<usize>>::empty());
        rt
    }

    /// How many cells were created.
    pub fn cell_count(&self) -> (n: usize)
        ensures
            n == self@.cells(),
    {
        self.subscribers.len()
    }

    /// How many scopes were created.
    pub fn scope_count(&self) -> (n: usize)
        ensures
            n == self@.scopes,
    {
        self.reads.len()
    }

    /// A new cell that holds `initial`. Nobody is subscribed to it.
    pub fn create_cell<T>(&mut self, initial: T) -> (cell: ReactiveCell<T>)
        requires
            old(self).wf(),
        ensures
            final(self).wf(),
            final(self)@ == old(self)@.with_cell(),
            cell.id() == old(self)@.cells(),
            cell.value() == initial,
    {
        let id = self.subscribers.len();
        self.subscribers.push(Vec::new());
        proof {
            let subs0 = list_views(old(self).subscribers@);
            let deps = list_views(self.reads@);
            assert(list_views(self.subscribers@) =~= subs0.push(Seq::empty()));
            lemma_mirrors_new_cell(subs0, deps);
        }
        ReactiveCell { id, value: initial }
    }

    /// A new render scope. It is subscribed to nothing and is not rendering.
    pub fn create_scope(&mut self) -> (scope: usize)
        requires
            old(self).wf(),
        ensures
            final(self).wf(),
            final(self)@ == old(self)@.with_scope(),
            scope == old(self)@.scopes,
    {
        let scope = self.reads.len();
        self.reads.push(Vec::new());
        proof {
            let subs = list_views(self.subscribers@);
            let deps0 = list_views(old(self).reads@);
            assert(list_views(self.reads@) =~= deps0.push(Seq::empty()));
            lemma_mirrors_new_scope(subs, deps0);
        }
        scope
    }

    /// The scope whose render is running, if any.
    pub fn current_scope(&self) -> (scope: Option<usize>)
        ensures
            scope == self@.current(),
    {
        if self.stack.len() > 0 {
            Some(self.stack[self.stack.len() - 1])
        } else {
            None
        }
    }

    /// Whether a write to the cell numbered `cell` would re-render `scope`.
    pub fn is_subscribed(&self, scope: usize, cell: usize) -> (yes: bool)
        ensures
            yes == self@.is_subscribed(scope, cell as int),
    {
        if cell < self.subscribers.len() {
            position(&self.subscribers[cell], scope).is_some()
        } else {
            false
        }
    }

    /// Reads `cell` for the scope that is rendering: hands out the value and
    /// subscribes that scope to the cell, after the scopes subscribed
    /// before it. Outside any render nobody is subscribed, and a scope is
    /// subscribed to a cell at most once.
    pub fn read<'a, T>(&mut self, cell: &'a ReactiveCell<T>) -> (value: &'a T)
        requires
            old(self).wf(),
        ensures
            final(self).wf(),
            *value == cell.value(),
            final(self)@ == old(self)@.after_read(cell.id()),
    {
        if self.stack.len() > 0 && cell.id < self.subscribers.len() {
            let scope = self.stack[self.stack.len() - 1];
            let c = cell.id;
            if position(&self.subscribers[c], scope).is_none() {
                self.subscribers[c].push(scope);
                self.reads[scope].push(c);
                proof {
                    let subs0 = list_views(old(self).subscribers@);
                    let deps0 = list_views(old(self).reads@);
                    assert(list_views(self.subscribers@) =~= subs0.update(
                        c as int,
                        subs0[c as int].push(scope),
                    ));
                    assert(list_views(self.reads@) =~= deps0.update(
                        scope as int,
                        deps0[scope as int].push(c),
                    ));
                    lemma_mirrors_subscribe(subs0, deps0, c, scope);
                }
            }
        }
        &cell.value
    }

    /// Replaces the value of `cell` by `value` and hands back the scopes to
    /// render again on account of it: every scope subscribed to the cell,
    /// once, in subscription order. Whether `value` differs from the value
    /// before plays no part. The subscriptions themselves are not touched.
    pub fn write<T>(&self, cell: &mut ReactiveCell<T>, value: T) -> (notified: Vec<usize>)
        ensures
            *final(cell) == old(cell).written(value),
            final(cell).value() == value,
            final(cell).id() == old(cell).id(),
            notified@ == self@.notified(old(cell).id()),
    {
        cell.value = value;
        let mut notified: Vec<usize> = Vec::new();
        if cell.id < self.subscribers.len() {
            let list = &self.subscribers[cell.id];
            let mut i: usize = 0;
            while i < list.len()
                invariant
                    i <= list.len(),
                    notified@ == list@.take(i as int),
                decreases list.len() - i,
            {
                notified.push(list[i]);
                proof {
                    assert(list@.take(i + 1) =~= list@.take(i as int).push(list[i as int]));
                }
                i += 1;
            }
            assert(list@.take(list.len() as int) =~= list@);
        }
        notified
    }

    /// Drops every subscription of `scope`: no write re-renders it until it
    /// reads again. The other scopes keep their subscriptions and their
    /// order. This is what a view's removal calls for.
    pub fn teardown(&mut self, scope: usize)
        requires
            old(self).wf(),
        ensures
            final(self).wf(),
            final(self)@ == old(self)@.torn_down(scope),
    {
        let ghost subs0 = list_views(old(self).subscribers@);
        let ghost deps0 = list_views(old(self).reads@);
        if scope < self.reads.len() {
            let ghost list = deps0[scope as int];
            let n = self.reads[scope].len();
            let mut k: usize = 0;
            while k < n
                invariant
                    k <= n,
                    n == list.len(),
                    scope < deps0.len(),
                    list == deps0[scope as int],
                    self.reads == old(self).reads,
                    self.stack == old(self).stack,
                    deps0 == list_views(self.reads@),
                    mirrors(subs0, deps0),
                    lists_ok(subs0, deps0.len()),
                    self.subscribers.len() == subs0.len(),
                    forall|c: int|
                        0 <= c < subs0.len() ==> #[trigger] list_views(self.subscribers@)[c]
                            == (if exists|
                            j: int,
                        |
                            0 <= j < k && list[j] == c {
                            without(subs0[c], scope)
                        } else {
                            subs0[c]
                        }),
                decreases n - k,
            {
                let c = self.reads[scope][k];
                let ghost before = list_views(self.subscribers@);
                proof {
                    assert(list[k as int] == c);
                    assert(deps0[scope as int][k as int] < subs0.len());
                    assert(!(exists|j: int| 0 <= j < k && list[j] == c)) by {
                        assert(list.no_duplicates());
                    }
                    assert(before[c as int] == subs0[c as int]);
                    assert(deps0[scope as int].contains(c));
                    assert(subs0[c as int].contains(scope));
                }
                match position(&self.subscribers[c], scope) {
                    Some(at) => {
                        self.subscribers[c].remove(at);
                        proof {
                            assert(subs0[c as int].no_duplicates());
                            lemma_without_removes(subs0[c as int], scope, at as int);
                        }
                    },
                    None => {},
                }
                proof {
                    let after = list_views(self.subscribers@);
                    assert forall|x: int| 0 <= x < subs0.len()
                        implies #[trigger] after[x] == (if exists|
                        j: int,
                    |
                        0 <= j < k + 1 && list[j] == x {
                        without(subs0[x], scope)
                    } else {
                        subs0[x]
                    }) by {
                        if x == c {
                            assert(list[k as int] == x);
                        } else {
                            assert(after[x] == before[x]);
                            if exists|j: int| 0 <= j < k + 1 && list[j] == x {
                                let j = choose|j: int| 0 <= j < k + 1 && list[j] == x;
                                assert(0 <= j < k && list[j] == x);
                            }
                        }
                    }
                }
                k += 1;
            }
            self.reads[scope].clear();
            proof {
                let after = list_views(self.subscribers@);
                let torn = Seq::new(subs0.len(), |c: int| without(subs0[c], scope));
                assert forall|x: int| 0 <= x < subs0.len() implies after[x] == torn[x] by {
                    if exists|j: int| 0 <= j < n && list[j] == x {
                    } else {
                        assert(!list.contains(x as usize));
                        assert(subs0[x].contains(scope)
                            <==> deps0[scope as int].contains(x as usize));
                        lemma_without_absent(subs0[x], scope);
                    }
                }
                assert(after =~= torn);
                assert(list_views(self.reads@) =~= deps0.update(scope as int, Seq::empty()));
                lemma_mirrors_torn_down(subs0, deps0, scope);
            }
        } else {
            proof {
                let torn = Seq::new(subs0.len(), |c: int| without(subs0[c], scope));
                assert forall|x: int| 0 <= x < subs0.len() implies subs0[x] == torn[x] by {
                    if subs0[x].contains(scope) {
                        let i = choose|i: int| 0 <= i < subs0[x].len() && subs0[x][i] == scope;
                        assert(subs0[x][i] < deps0.len());
                    }
                    lemma_without_absent(subs0[x], scope);
                }
                assert(subs0 =~= torn);
            }
        }
    }

    /// Begins a render of `scope`: its subscriptions from the render before
    /// are dropped, and until [`Runtime::end_render`] it is the scope that
    /// reads subscribe. A render may begin while another is running; the
    /// outer one goes on when the inner one has ended. Says whether the
    /// scope exists; for one that does not, nothing happens.
    pub fn begin_render(&mut self, scope: usize) -> (began: bool)
        requires
            old(self).wf(),
        ensures
            final(self).wf(),
            began == (scope < old(self)@.scopes),
            final(self)@ == old(self)@.entered(scope),
    {
        if scope < self.reads.len() {
            self.teardown(scope);
            self.stack.push(scope);
            true
        } else {
            false
        }
    }

    /// Ends the innermost render and makes the scope that was rendering
    /// before it current again. With no render running nothing happens.
    pub fn end_render(&mut self)
        requires
            old(self).wf(),
        ensures
            final(self).wf(),
            final(self)@ == old(self)@.left(),
    {
        self.stack.pop();
        proof {
            if old(self).stack.len() > 0 {
                assert(self.stack@ =~= old(self).stack@.drop_last());
            }
        }
    }
}

} // verus!
