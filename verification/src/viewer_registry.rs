//! A registry of viewers, and the choice of the one that fits a file best.

use vstd::prelude::*;
use crate::probe::FileProbe;
use crate::strings::str_equal;
use crate::viewer::{FileViewer, ViewerPriority, priority_rank};

verus! {

/// Index of the winning priority: the first of the highest ones.
pub open spec fn spec_best_index(ps: Seq<ViewerPriority>) -> int
    decreases ps.len(),
{
    if ps.len() <= 1 {
        0
    } else {
        let b = spec_best_index(ps.drop_last());
        if priority_rank(ps.last()) > priority_rank(ps[b]) {
            ps.len() - 1
        } else {
            b
        }
    }
}

/// The winner is in range, no priority beats it, and every earlier entry ranks
/// strictly lower: ties go to the entry registered first.
pub proof fn lemma_best_index_is_first_maximum(ps: Seq<ViewerPriority>)
    requires
        ps.len() > 0,
    ensures
        0 <= spec_best_index(ps) < ps.len(),
        forall|j: int|
            0 <= j < ps.len() ==> priority_rank(#[trigger] ps[j]) <= priority_rank(
                ps[spec_best_index(ps)],
            ),
        forall|j: int|
            0 <= j < spec_best_index(ps) ==> priority_rank(#[trigger] ps[j])
                < priority_rank(ps[spec_best_index(ps)]),
    decreases ps.len(),
{
    if ps.len() > 1 {
        let init = ps.drop_last();
        lemma_best_index_is_first_maximum(init);
        let b = spec_best_index(init);
        let n = ps.len() - 1;
        assert(init[b] == ps[b]);
        assert forall|j: int| 0 <= j < ps.len() implies priority_rank(#[trigger] ps[j])
            <= priority_rank(ps[spec_best_index(ps)]) by {
            if j < n {
                assert(init[j] == ps[j]);
            }
        }
        assert forall|j: int| 0 <= j < spec_best_index(ps) implies priority_rank(
            #[trigger] ps[j],
        ) < priority_rank(ps[spec_best_index(ps)]) by {
            if j < n {
                assert(init[j] == ps[j]);
            }
        }
    }
}

/// Index of the best priority: the first of the highest ones; `None` for no entries.
pub fn best_index(ps: &[ViewerPriority]) -> (r: Option<usize>)
    ensures
        r is None <==> ps@.len() == 0,
        r matches Some(i) ==> i == spec_best_index(ps@),
{
    if ps.len() == 0 {
        return None;
    }
    let mut best: usize = 0;
    let mut best_rank: u8 = ps[0].rank();
    let mut i: usize = 1;
    while i < ps.len()
        invariant
            1 <= i <= ps@.len(),
            best == spec_best_index(ps@.subrange(0, i as int)),
            best < i,
            best_rank == priority_rank(ps@[best as int]),
        decreases ps@.len() - i,
    {
        let r = ps[i].rank();
        proof {
            let pre = ps@.subrange(0, i as int);
            let next = ps@.subrange(0, i + 1);
            assert(next.drop_last() =~= pre);
            assert(next[best as int] == ps@[best as int]);
        }
        if r > best_rank {
            best = i;
            best_rank = r;
        }
        i = i + 1;
    }
    proof {
        assert(ps@.subrange(0, ps@.len() as int) =~= ps@);
    }
    Some(best)
}

/// The first index at or after `i` whose name is `name`.
pub open spec fn index_named_from(names: Seq<Seq<char>>, name: Seq<char>, i: int) -> Option<int>
    decreases names.len() - i,
{
    if i < 0 || i >= names.len() {
        None
    } else if names[i] == name {
        Some(i)
    } else {
        index_named_from(names, name, i + 1)
    }
}

/// The first index whose name is `name`.
pub open spec fn spec_index_of(names: Seq<Seq<char>>, name: Seq<char>) -> Option<int> {
    index_named_from(names, name, 0)
}

/// The index found for a name holds that name and no earlier entry does; when
/// none is found, no entry holds the name.
pub proof fn lemma_index_of_is_first(names: Seq<Seq<char>>, name: Seq<char>)
    ensures
        spec_index_of(names, name) matches Some(k) ==> 0 <= k < names.len() && names[k] == name
            && forall|j: int| 0 <= j < k ==> names[j] != name,
        spec_index_of(names, name) is None ==> forall|j: int| 0 <= j < names.len() ==> names[j] != name,
{
    lemma_index_named_from(names, name, 0);
}

proof fn lemma_index_named_from(names: Seq<Seq<char>>, name: Seq<char>, i: int)
    requires
        0 <= i <= names.len(),
        forall|j: int| 0 <= j < i ==> names[j] != name,
    ensures
        index_named_from(names, name, i) matches Some(k) ==> i <= k < names.len() && names[k]
            == name && forall|j: int| 0 <= j < k ==> names[j] != name,
        index_named_from(names, name, i) is None ==> forall|j: int|
            0 <= j < names.len() ==> names[j] != name,
    decreases names.len() - i,
{
    if i < names.len() && names[i] != name {
        lemma_index_named_from(names, name, i + 1);
    }
}

/// `p` is a priority that viewer `v` may answer for `probe`.
pub open spec fn answers<V: FileViewer + ?Sized>(v: &V, probe: &dyn FileProbe, p: ViewerPriority) -> bool {
    call_ensures(V::can_handle, (v, probe), p)
}

/// Registration keeps order: in registries that start empty and change as
/// [`ViewerRegistry::register`] leaves them (one more viewer, all earlier ones
/// kept in front), after `n` registrations there are `n` viewers, and every
/// earlier registry's viewers stand first, in the same order. So the viewer each
/// registration added stays at the place it was added at, and
/// [`ViewerRegistry::all_viewers`] hands them out in registration order.
pub proof fn lemma_registration_keeps_order(regs: Seq<ViewerRegistry>)
    requires
        regs.len() >= 1,
        regs[0].spec_viewers().len() == 0,
        forall|i: int|
            0 <= i < regs.len() - 1 ==> #[trigger] regs[i + 1].spec_viewers().len()
                == regs[i].spec_viewers().len() + 1 && regs[i + 1].spec_viewers().take(
                regs[i].spec_viewers().len() as int,
            ) == regs[i].spec_viewers(),
    ensures
        regs[regs.len() - 1].spec_viewers().len() == regs.len() - 1,
        forall|i: int|
            0 <= i < regs.len() ==> regs[regs.len() - 1].spec_viewers().take(i) == #[trigger] regs[i].spec_viewers(),
{
    let states = Seq::new(regs.len(), |i: int| regs[i].spec_viewers());
    assert forall|i: int| 0 <= i < states.len() - 1 implies #[trigger] states[i + 1].len() == states[i].len()
        + 1 && states[i + 1].take(states[i].len() as int) == states[i] by {
        assert(states[i + 1] == regs[i + 1].spec_viewers());
        assert(states[i] == regs[i].spec_viewers());
    }
    lemma_grown_keeps_prefixes(states, states.len() - 1);
    assert forall|i: int| 0 <= i < regs.len() implies regs[regs.len() - 1].spec_viewers().take(i)
        == #[trigger] regs[i].spec_viewers() by {
        assert(states[i] == regs[i].spec_viewers());
    }
}

/// Sequences that start empty and each grow by one element at the end, keeping
/// the earlier ones, have `j` elements at step `j`, and step `j` begins with
/// every earlier step.
proof fn lemma_grown_keeps_prefixes<A>(states: Seq<Seq<A>>, j: int)
    requires
        0 <= j < states.len(),
        states[0].len() == 0,
        forall|i: int|
            0 <= i < states.len() - 1 ==> #[trigger] states[i + 1].len() == states[i].len() + 1
                && states[i + 1].take(states[i].len() as int) == states[i],
    ensures
        states[j].len() == j,
        forall|i: int| 0 <= i <= j ==> states[j].take(i) == #[trigger] states[i],
    decreases j,
{
    if j == 0 {
        assert(states[0].take(0) =~= states[0]);
    } else {
        lemma_grown_keeps_prefixes(states, j - 1);
        assert(states[j].len() == states[j - 1].len() + 1);
        assert forall|i: int| 0 <= i <= j implies states[j].take(i) == #[trigger] states[i] by {
            if i == j {
                assert(states[j].take(j) =~= states[j]);
            } else {
                assert(states[j].take(j - 1) == states[j - 1]);
                assert(states[j - 1].take(i) == states[i]);
                assert(states[j].take(i) =~= states[j].take(j - 1).take(i));
            }
        }
    }
}

/// `b` is the index that [`ViewerRegistry::best_viewer_index`] gives for
/// `probe`: the first of the highest among the answers of the registered viewers.
pub open spec fn is_best_for(reg: &ViewerRegistry, probe: &dyn FileProbe, b: int) -> bool {
    exists|ps: Seq<ViewerPriority>|
        #![trigger spec_best_index(ps)]
        ps.len() == reg.spec_viewers().len() && (forall|k: int|
            0 <= k < reg.spec_viewers().len() ==> answers(
                &*reg.spec_viewers()[k],
                probe,
                #[trigger] ps[k],
            )) && b == spec_best_index(ps)
}

/// What each of `viewers` answers for `probe`, in order.
fn priorities_of<V: FileViewer + ?Sized>(viewers: &Vec<Box<V>>, probe: &dyn FileProbe) -> (ps: Vec<ViewerPriority>)
    ensures
        ps@.len() == viewers@.len(),
        forall|k: int| 0 <= k < viewers@.len() ==> call_ensures(V::can_handle, (&*viewers@[k], probe), #[trigger] ps@[k]),
{
    let mut ps: Vec<ViewerPriority> = Vec::new();
    let mut i: usize = 0;
    while i < viewers.len()
        invariant
            i <= viewers@.len(),
            ps@.len() == i,
            forall|k: int| 0 <= k < i ==> call_ensures(V::can_handle, (&*viewers@[k], probe), #[trigger] ps@[k]),
        decreases viewers@.len() - i,
    {
        let p = viewers[i].can_handle(probe);
        let ghost before = ps@;
        ps.push(p);
        proof {
            assert forall|k: int| 0 <= k <= i implies call_ensures(
                V::can_handle,
                (&*viewers@[k], probe),
                #[trigger] ps@[k],
            ) by {
                if k < i {
                    assert(ps@[k] == before[k]);
                }
            }
        }
        i = i + 1;
    }
    ps
}

/// A registry that holds viewers in the order they were registered, with the
/// name each gave when it was registered.
pub struct ViewerRegistry {
    viewers: Vec<Box<dyn FileViewer>>,
    names: Vec<&'static str>,
}

impl ViewerRegistry {
    #[verifier::type_invariant]
    spec fn well_formed(self) -> bool {
        self.names@.len() == self.viewers@.len()
    }

    /// The registered viewers, in order.
    pub closed spec fn spec_viewers(&self) -> Seq<Box<dyn FileViewer>> {
        self.viewers@
    }

    /// The names of the registered viewers, in order.
    pub closed spec fn spec_names(&self) -> Seq<Seq<char>> {
        self.names@.map_values(|n: &'static str| n@)
    }

    /// An empty registry.
    pub fn new() -> (r: Self)
        ensures
            r.spec_viewers().len() == 0,
            r.spec_names().len() == 0,
    {
        ViewerRegistry { viewers: Vec::new(), names: Vec::new() }
    }

    /// Adds a viewer after those already registered.
    pub fn register(&mut self, viewer: Box<dyn FileViewer>)
        ensures
            final(self).spec_viewers() == old(self).spec_viewers().push(viewer),
            final(self).spec_viewers().len() == old(self).spec_viewers().len() + 1,
            final(self).spec_viewers().take(old(self).spec_viewers().len() as int) == old(
                self,
            ).spec_viewers(),
            final(self).spec_names().len() == old(self).spec_names().len() + 1,
            final(self).spec_names().take(old(self).spec_names().len() as int) == old(
                self,
            ).spec_names(),
    {
        proof {
            use_type_invariant(&*self);
        }
        let name = viewer.name();
        let ghost old_names = self.spec_names();
        let mut taken = ViewerRegistry::new();
        std::mem::swap(&mut taken, self);
        proof {
            use_type_invariant(&taken);
        }
        let mut viewers: Vec<Box<dyn FileViewer>> = taken.viewers;
        let mut names: Vec<&'static str> = taken.names;
        let ghost before = viewers@;
        viewers.push(viewer);
        names.push(name);
        proof {
            // The length law of `push` is not applied by itself to a sequence of
            // boxed trait objects, so it is called here.
            vstd::seq::axiom_seq_push_len(before, viewer);
        }
        *self = ViewerRegistry { viewers, names };
        proof {
            assert(self.spec_names().take(old_names.len() as int) =~= old_names);
            assert forall|i: int| 0 <= i < before.len() implies self.spec_viewers().take(
                before.len() as int,
            )[i] == before[i] by {
                vstd::seq::axiom_seq_push_index_different(before, viewer, i);
            }
            assert(self.spec_viewers().take(before.len() as int) =~= before);
        }
    }

    /// Index of the viewer whose `can_handle` answers highest for `probe` (the
    /// first of them on a tie); `None` only when the registry is empty. Each
    /// viewer is asked once, in order.
    pub fn best_viewer_index(&self, probe: &dyn FileProbe) -> (r: Option<usize>)
        ensures
            r is None <==> self.spec_viewers().len() == 0,
            r matches Some(b) ==> b < self.spec_viewers().len() && exists|ps: Seq<ViewerPriority>|
                #![trigger spec_best_index(ps)]
                ps.len() == self.spec_viewers().len() && (forall|k: int|
                    0 <= k < self.spec_viewers().len() ==> answers(
                        &*self.spec_viewers()[k],
                        probe,
                        #[trigger] ps[k],
                    )) && b == spec_best_index(ps),
    {
        let ps = priorities_of(&self.viewers, probe);
        let sl = ps.as_slice();
        let r = best_index(sl);
        proof {
            if let Some(b) = r {
                assert(sl@ == ps@);
                assert(b == spec_best_index(ps@));
                assert(b < self.spec_viewers().len()) by {
                    lemma_best_index_is_first_maximum(ps@);
                }
            }
        }
        r
    }

    /// The viewer whose `can_handle` answers highest for `probe` (the first of
    /// them on a tie); `None` only when the registry is empty. Each viewer is
    /// asked once, in order.
    pub fn find_best(&self, probe: &dyn FileProbe) -> (r: Option<&Box<dyn FileViewer>>)
        ensures
            r is None <==> self.spec_viewers().len() == 0,
            r matches Some(v) ==> exists|ps: Seq<ViewerPriority>|
                #![trigger spec_best_index(ps)]
                ps.len() == self.spec_viewers().len() && (forall|k: int|
                    0 <= k < self.spec_viewers().len() ==> answers(
                        &*self.spec_viewers()[k],
                        probe,
                        #[trigger] ps[k],
                    )) && *v == self.spec_viewers()[spec_best_index(ps)],
    {
        let ps = priorities_of(&self.viewers, probe);
        proof {
            if ps@.len() > 0 {
                lemma_best_index_is_first_maximum(ps@);
            }
        }
        match best_index(ps.as_slice()) {
            None => None,
            Some(b) => Some(&self.viewers[b]),
        }
    }

    /// The name the viewer at `i` was registered under.
    pub fn viewer_name(&self, i: usize) -> (n: &'static str)
        requires
            i < self.spec_viewers().len(),
        ensures
            n@ == self.spec_names()[i as int],
    {
        proof {
            use_type_invariant(self);
        }
        self.names[i]
    }

    /// All registered viewers, in registration order.
    pub fn all_viewers(&self) -> (r: &[Box<dyn FileViewer>])
        ensures
            r@ == self.spec_viewers(),
    {
        self.viewers.as_slice()
    }

    /// Index of the first viewer registered under the name `name`.
    pub fn index_of(&self, name: &str) -> (r: Option<usize>)
        ensures
            r is None <==> spec_index_of(self.spec_names(), name@) is None,
            r matches Some(i) ==> spec_index_of(self.spec_names(), name@) == Some(i as int),
            r matches Some(i) ==> i < self.spec_viewers().len() && self.spec_names()[i as int]
                == name@,
            self.spec_names().len() == self.spec_viewers().len(),
    {
        proof {
            use_type_invariant(self);
        }
        let ghost names = self.spec_names();
        let mut i: usize = 0;
        while i < self.names.len()
            invariant
                i <= names.len(),
                names == self.spec_names(),
                names.len() == self.names@.len(),
                names.len() == self.viewers@.len(),
                spec_index_of(names, name@) == index_named_from(names, name@, i as int),
            decreases names.len() - i,
        {
            if str_equal(self.names[i], name) {
                proof {
                    assert(names[i as int] == self.names@[i as int]@);
                }
                return Some(i);
            }
            proof {
                assert(names[i as int] == self.names@[i as int]@);
            }
            i = i + 1;
        }
        None
    }

    /// The registered viewers, in registration order.
    pub fn into_viewers(self) -> (v: Vec<Box<dyn FileViewer>>)
        ensures
            v@ == self.spec_viewers(),
    {
        self.viewers
    }

    /// Number of registered viewers.
    pub fn len(&self) -> (n: usize)
        ensures
            n == self.spec_viewers().len(),
            n == self.spec_names().len(),
    {
        proof {
            use_type_invariant(self);
        }
        self.viewers.len()
    }

    /// Whether no viewer is registered.
    pub fn is_empty(&self) -> (b: bool)
        ensures
            b <==> self.spec_viewers().len() == 0,
    {
        self.viewers.len() == 0
    }
}

impl Default for ViewerRegistry {
    fn default() -> (r: Self)
        ensures
            r.spec_viewers().len() == 0,
            r.spec_names().len() == 0,
    {
        Self::new()
    }
}


} // verus!
