//! The model of the append-only, content-addressed ledger the layer is
//! built on.
//!
//! The ledger accepts four kinds of writes, none of which is ever mutated or
//! removed afterwards: record appends, update relations between two write
//! events, index edges from a root reference to a content reference, and
//! symbolic path roots.  Every operation the versioning and indexing layer
//! needs is offered here with an exact contract over the ledger's
//! mathematical state, so the layer above can be verified end to end; a
//! deployment binds the same interface to a real replicated store.
//!
//! The model makes the store's native ordering explicit: relations and edges
//! are kept in the order they were registered, which is what the layer's
//! "most recently appended wins" conventions refer to.

use vstd::prelude::*;

use crate::bytes::{bytes_eq, copy_bytes};
use crate::errors::Error;
use crate::refs::{ActionRef, ContentRef, RefSpace};

verus! {

/// One immutable snapshot in a record's history: the stored content together
/// with its content reference and the write event that produced it.
#[derive(Debug, PartialEq)]
pub struct Version {
    pub content: Vec<u8>,
    pub content_ref: ContentRef,
    pub action: ActionRef,
}

/// The mathematical value of a `Version`.
pub struct VersionV {
    pub content: Seq<u8>,
    pub content_ref: ContentRef,
    pub action: ActionRef,
}

impl View for Version {
    type V = VersionV;

    open spec fn view(&self) -> VersionV {
        VersionV {
            content: self.content@,
            content_ref: self.content_ref,
            action: self.action,
        }
    }
}

struct PathEntry {
    name: Vec<u8>,
    root: ContentRef,
}

/// The in-memory ledger state.
pub struct Ledger {
    records: Vec<Version>,
    relations: Vec<(ActionRef, ActionRef)>,
    edges: Vec<(ContentRef, ContentRef)>,
    paths: Vec<PathEntry>,
    capacity: usize,
}

/// The newest update relation out of `from`: the last registered one wins.
pub open spec fn last_from(rels: Seq<(ActionRef, ActionRef)>, from: ActionRef) -> Option<ActionRef>
    decreases rels.len(),
{
    if rels.len() == 0 {
        None
    } else if rels.last().0 == from {
        Some(rels.last().1)
    } else {
        last_from(rels.drop_last(), from)
    }
}

/// The targets of all index edges out of `root`, in registration order.
pub open spec fn targets_of(edges: Seq<(ContentRef, ContentRef)>, root: ContentRef) -> Seq<
    ContentRef,
>
    decreases edges.len(),
{
    if edges.len() == 0 {
        Seq::empty()
    } else {
        let rest = targets_of(edges.drop_last(), root);
        if edges.last().0 == root {
            rest.push(edges.last().1)
        } else {
            rest
        }
    }
}

/// How a content reference is minted for appended content: in the `Record`
/// space, reusing the reference of identical content when one exists, fresh
/// at the append position otherwise.
pub open spec fn mints_ok(pre: Ledger, content: Seq<u8>, cr: ContentRef) -> bool {
    &&& cr.space == RefSpace::Record
    &&& forall|j: int|
        0 <= j < pre.records().len() && (#[trigger] pre.records()[j]).content == content ==> cr
            == pre.records()[j].content_ref
    &&& (forall|j: int|
        0 <= j < pre.records().len() ==> (#[trigger] pre.records()[j]).content != content)
        ==> cr.id as int == pre.records().len()
}

/// The write event that first produced content carrying this content
/// reference: the record's original action, its identity across updates.
pub open spec fn first_action_of(records: Seq<VersionV>, c: ContentRef) -> Option<ActionRef>
    decreases records.len(),
{
    if records.len() == 0 {
        None
    } else if records[0].content_ref == c {
        Some(records[0].action)
    } else {
        first_action_of(records.subrange(1, records.len() as int), c)
    }
}

/// The first record carrying a content reference decides the original
/// action: the record at `i`, when no earlier record carries it.
pub proof fn lemma_first_action_of_at(records: Seq<VersionV>, c: ContentRef, i: int)
    requires
        0 <= i < records.len(),
        records[i].content_ref == c,
        forall|j: int| 0 <= j < i ==> (#[trigger] records[j]).content_ref != c,
    ensures
        first_action_of(records, c) == Some(records[i].action),
    decreases i,
{
    if i > 0 {
        assert(records[0].content_ref != c);
        let rest = records.subrange(1, records.len() as int);
        assert(rest[i - 1] == records[i]);
        assert forall|j: int| 0 <= j < i - 1 implies (#[trigger] rest[j]).content_ref != c by {
            assert(rest[j] == records[j + 1]);
        }
        lemma_first_action_of_at(rest, c, i - 1);
    }
}

/// The root registered for a path name, if any.
pub open spec fn path_root_of(paths: Seq<(Seq<u8>, ContentRef)>, name: Seq<u8>) -> Option<
    ContentRef,
>
    decreases paths.len(),
{
    if paths.len() == 0 {
        None
    } else if paths[0].0 == name {
        Some(paths[0].1)
    } else {
        path_root_of(paths.subrange(1, paths.len() as int), name)
    }
}

impl Ledger {
    /// The appended record versions, in append order.
    pub closed spec fn records(self) -> Seq<VersionV> {
        self.records@.map_values(|v: Version| v@)
    }

    /// The registered update relations, in registration order.
    pub closed spec fn relations(self) -> Seq<(ActionRef, ActionRef)> {
        self.relations@
    }

    /// The registered index edges, in registration order.
    pub closed spec fn edges(self) -> Seq<(ContentRef, ContentRef)> {
        self.edges@
    }

    /// The registered path roots, in registration order.
    pub closed spec fn paths(self) -> Seq<(Seq<u8>, ContentRef)> {
        self.paths@.map_values(|p: PathEntry| (p.name@, p.root))
    }

    /// How many record appends the ledger accepts in all.
    pub closed spec fn capacity(self) -> int {
        self.capacity as int
    }

    /// Whether a write event with this action reference exists.
    pub open spec fn has_action(self, a: ActionRef) -> bool {
        a.id < self.records().len()
    }

    /// The version produced by an existing write event.
    pub open spec fn version_at(self, a: ActionRef) -> VersionV {
        self.records()[a.id as int]
    }

    /// The ledger's invariant: action references are the append positions;
    /// content references are minted in the `Record` space, no later than
    /// their append position, and identical content always carries the same
    /// content reference; relations only join existing write events; path
    /// roots are minted in the `Path` space at their registration position,
    /// one per distinct name.
    pub open spec fn wf(self) -> bool {
        &&& forall|i: int|
            0 <= i < self.records().len() ==> (#[trigger] self.records()[i]).action == (ActionRef {
                id: i as usize,
            })
        &&& forall|i: int|
            0 <= i < self.records().len() ==> (#[trigger] self.records()[i]).content_ref.space
                == RefSpace::Record
        &&& forall|i: int|
            0 <= i < self.records().len() ==> (#[trigger] self.records()[i]).content_ref.id as int
                <= i
        &&& forall|i: int, j: int|
            0 <= i < self.records().len() && 0 <= j < self.records().len() && (
            #[trigger] self.records()[i]).content == (#[trigger] self.records()[j]).content
                ==> self.records()[i].content_ref == self.records()[j].content_ref
        &&& forall|k: int|
            0 <= k < self.relations().len() ==> (#[trigger] self.relations()[k]).0.id
                < self.records().len() && self.relations()[k].1.id < self.records().len()
        &&& forall|i: int|
            0 <= i < self.paths().len() ==> (#[trigger] self.paths()[i]).1 == (ContentRef {
                space: RefSpace::Path,
                id: i as u64,
            })
        &&& forall|i: int, j: int|
            0 <= i < self.paths().len() && 0 <= j < self.paths().len() && i != j ==> (
            #[trigger] self.paths()[i]).0 != (#[trigger] self.paths()[j]).0
    }

    /// A fresh, empty ledger that will accept `capacity` record appends.
    pub fn new(capacity: usize) -> (l: Ledger)
        ensures
            l.wf(),
            l.records() =~= Seq::<VersionV>::empty(),
            l.relations() =~= Seq::<(ActionRef, ActionRef)>::empty(),
            l.edges() =~= Seq::<(ContentRef, ContentRef)>::empty(),
            l.paths() =~= Seq::<(Seq<u8>, ContentRef)>::empty(),
            l.capacity() == capacity,
    {
        Ledger {
            records: Vec::new(),
            relations: Vec::new(),
            edges: Vec::new(),
            paths: Vec::new(),
            capacity,
        }
    }

    /// Appends content as a new immutable record.  Accepted exactly while the
    /// ledger is below its capacity; the new write event gets the next action
    /// reference, and the content reference is the one already minted for
    /// identical content, else a fresh one.
    pub fn append(&mut self, content: Vec<u8>) -> (r: Result<(ActionRef, ContentRef), Error>)
        requires
            old(self).wf(),
        ensures
            final (self).wf(),
            final (self).capacity() == old(self).capacity(),
            match r {
                Ok((a, cr)) => {
                    &&& old(self).records().len() < old(self).capacity()
                    &&& a.id == old(self).records().len()
                    &&& mints_ok(*old(self), content@, cr)
                    &&& final (self).records() == old(self).records().push(
                        VersionV { content: content@, content_ref: cr, action: a },
                    )
                    &&& final (self).relations() == old(self).relations()
                    &&& final (self).edges() == old(self).edges()
                    &&& final (self).paths() == old(self).paths()
                },
                Err(e) => {
                    &&& e == Error::StoreWriteError
                    &&& old(self).records().len() >= old(self).capacity()
                    &&& *final (self) == *old(self)
                },
            },
    {
        if self.records.len() >= self.capacity {
            return Err(Error::StoreWriteError);
        }
        let a = ActionRef { id: self.records.len() };
        let found = find_content_ref(&self.records, &content);
        let cr = match found {
            Some(existing) => {
                proof {
                    let j0 = choose|j: int|
                        0 <= j < self.records@.len() && (#[trigger] self.records@[j])@.content
                            == content@ && self.records@[j]@.content_ref == existing;
                    assert(self.records()[j0] == self.records@[j0]@);
                    assert(existing.space == RefSpace::Record && existing.id as int <= j0);
                    assert forall|k: int|
                        0 <= k < self.records().len() && (#[trigger] self.records()[k]).content
                            == content@ implies self.records()[k].content_ref == existing by {
                        assert(self.records()[k].content == self.records()[j0].content);
                    }
                }
                existing
            },
            None => {
                proof {
                    assert forall|k: int| 0 <= k < self.records().len() implies (
                    #[trigger] self.records()[k]).content != content@ by {
                        assert(self.records()[k] == self.records@[k]@);
                    }
                }
                ContentRef { space: RefSpace::Record, id: self.records.len() as u64 }
            },
        };
        let v = Version { content, content_ref: cr, action: a };
        let ghost pre = *self;
        let ghost vv = VersionV { content: v.content@, content_ref: cr, action: a };
        self.records.push(v);
        proof {
            assert(self.records() =~= pre.records().push(vv));
            lemma_wf_after_append(pre, *self, vv);
        }
        Ok((a, cr))
    }

    /// Registers an update relation between two existing write events; the
    /// relation is retained forever, after everything registered earlier.
    pub fn register_update_relation(&mut self, from: ActionRef, to: ActionRef) -> (r: Result<
        (),
        Error,
    >)
        requires
            old(self).wf(),
        ensures
            final (self).wf(),
            final (self).capacity() == old(self).capacity(),
            match r {
                Ok(()) => {
                    &&& old(self).has_action(from)
                    &&& old(self).has_action(to)
                    &&& final (self).relations() == old(self).relations().push((from, to))
                    &&& final (self).records() == old(self).records()
                    &&& final (self).edges() == old(self).edges()
                    &&& final (self).paths() == old(self).paths()
                },
                Err(e) => {
                    &&& e == Error::NotFoundError
                    &&& !(old(self).has_action(from) && old(self).has_action(to))
                    &&& *final (self) == *old(self)
                },
            },
    {
        if from.id < self.records.len() && to.id < self.records.len() {
            let ghost pre = *self;
            self.relations.push((from, to));
            proof {
                assert(self.relations() =~= pre.relations().push((from, to)));
                lemma_wf_after_relation(pre, *self, from, to);
            }
            Ok(())
        } else {
            Err(Error::NotFoundError)
        }
    }

    /// One-hop follow of the newest update relation out of `from`; `None` at
    /// a terminal version.
    pub fn follow_latest_relation(&self, from: ActionRef) -> (r: Option<ActionRef>)
        ensures
            r == last_from(self.relations(), from),
    {
        let mut r: Option<ActionRef> = None;
        let mut i: usize = 0;
        while i < self.relations.len()
            invariant
                i <= self.relations().len(),
                r == last_from(self.relations().take(i as int), from),
            decreases self.relations().len() - i,
        {
            let (f, t) = self.relations[i];
            proof {
                assert(self.relations().take(i as int + 1).drop_last() =~= self.relations().take(
                    i as int,
                ));
                assert(self.relations().take(i as int + 1).last() == self.relations()[i as int]);
            }
            if f.id == from.id {
                r = Some(t);
            }
            i += 1;
        }
        proof {
            assert(self.relations().take(self.relations().len() as int) =~= self.relations());
        }
        r
    }

    /// How many records were appended.
    pub fn record_count(&self) -> (r: usize)
        ensures
            r == self.records().len(),
    {
        self.records.len()
    }

    /// How many update relations were registered.
    pub fn relation_count(&self) -> (r: usize)
        ensures
            r == self.relations().len(),
    {
        self.relations.len()
    }

    /// How many index edges were registered.
    pub fn edge_count(&self) -> (r: usize)
        ensures
            r == self.edges().len(),
    {
        self.edges.len()
    }

    /// Whether a write event with this action reference exists, decided.
    pub fn contains_action(&self, a: ActionRef) -> (r: bool)
        ensures
            r == self.has_action(a),
    {
        a.id < self.records.len()
    }

    /// The version an existing write event produced, or `None` for a write
    /// event the ledger never saw.
    pub fn get_by_action_ref(&self, a: ActionRef) -> (r: Option<Version>)
        requires
            self.wf(),
        ensures
            match r {
                Some(v) => self.has_action(a) && v@ == self.version_at(a),
                None => !self.has_action(a),
            },
    {
        if a.id < self.records.len() {
            let rec = &self.records[a.id];
            Some(
                Version {
                    content: copy_bytes(&rec.content),
                    content_ref: rec.content_ref,
                    action: rec.action,
                },
            )
        } else {
            None
        }
    }

    /// Registers an index edge from a root to a target content reference.
    /// Never deduplicated: a repeated edge is simply registered again.
    pub fn register_index_edge(&mut self, root: ContentRef, target: ContentRef)
        requires
            old(self).wf(),
        ensures
            final (self).wf(),
            final (self).capacity() == old(self).capacity(),
            final (self).edges() == old(self).edges().push((root, target)),
            final (self).records() == old(self).records(),
            final (self).relations() == old(self).relations(),
            final (self).paths() == old(self).paths(),
    {
        let ghost pre = self.edges();
        self.edges.push((root, target));
        proof {
            assert(self.edges() =~= pre.push((root, target)));
            lemma_wf_carries_over(*old(self), *self);
        }
    }

    /// All index edge targets out of `root`, in registration order.
    pub fn enumerate_index_edges(&self, root: ContentRef) -> (r: Vec<ContentRef>)
        ensures
            r@ == targets_of(self.edges(), root),
    {
        let mut r: Vec<ContentRef> = Vec::new();
        let mut i: usize = 0;
        while i < self.edges.len()
            invariant
                i <= self.edges().len(),
                r@ == targets_of(self.edges().take(i as int), root),
            decreases self.edges().len() - i,
        {
            let (f, t) = self.edges[i];
            proof {
                assert(self.edges().take(i as int + 1).drop_last() =~= self.edges().take(i as int));
                assert(self.edges().take(i as int + 1).last() == self.edges()[i as int]);
            }
            if f == root {
                r.push(t);
            }
            i += 1;
        }
        proof {
            assert(self.edges().take(self.edges().len() as int) =~= self.edges());
        }
        r
    }

    /// The original write event behind a content reference: the first record
    /// appended with it.  `None` for a reference no record ever carried.
    pub fn get_original_action(&self, c: ContentRef) -> (r: Option<ActionRef>)
        ensures
            r == first_action_of(self.records(), c),
    {
        let ghost rv = self.records();
        proof {
            assert(rv.skip(0) =~= rv);
        }
        let mut i: usize = 0;
        while i < self.records.len()
            invariant
                i <= rv.len(),
                rv == self.records(),
                first_action_of(rv.skip(i as int), c) == first_action_of(rv, c),
            decreases rv.len() - i,
        {
            proof {
                assert(rv.skip(i as int)[0] == rv[i as int]);
                assert(rv[i as int] == self.records@[i as int]@);
            }
            if self.records[i].content_ref == c {
                return Some(self.records[i].action);
            }
            proof {
                assert(rv.skip(i as int).subrange(1, rv.skip(i as int).len() as int) =~= rv.skip(
                    i as int + 1,
                ));
            }
            i += 1;
        }
        proof {
            assert(rv.skip(rv.len() as int) =~= Seq::<VersionV>::empty());
        }
        None
    }

    /// The root minted for a symbolic path, minting it now if the path was
    /// never seen before.  Equal names always yield the same root.
    pub fn ensure_path_root(&mut self, name: Vec<u8>) -> (root: ContentRef)
        requires
            old(self).wf(),
        ensures
            final (self).wf(),
            final (self).capacity() == old(self).capacity(),
            final (self).records() == old(self).records(),
            final (self).relations() == old(self).relations(),
            final (self).edges() == old(self).edges(),
            match path_root_of(old(self).paths(), name@) {
                Some(existing) => root == existing && *final (self) == *old(self),
                None => {
                    &&& final (self).paths() == old(self).paths().push((name@, root))
                    &&& root == (ContentRef {
                        space: RefSpace::Path,
                        id: old(self).paths().len() as u64,
                    })
                },
            },
            path_root_of(final (self).paths(), name@) == Some(root),
    {
        let found = lookup_path_entry(&self.paths, &name);
        match found {
            Some(existing) => existing,
            None => {
                let root = ContentRef { space: RefSpace::Path, id: self.paths.len() as u64 };
                let ghost pre = *self;
                proof {
                    lemma_path_root_of_none(pre.paths(), name@);
                }
                self.paths.push(PathEntry { name, root });
                proof {
                    assert(self.paths() =~= pre.paths().push((name@, root)));
                    lemma_path_root_of_push_fresh(pre.paths(), name@, root);
                    lemma_wf_after_path(pre, *self, name@);
                }
                root
            },
        }
    }

    /// The root minted for a symbolic path, if the path was ever registered.
    pub fn lookup_path_root(&self, name: &Vec<u8>) -> (r: Option<ContentRef>)
        ensures
            r == path_root_of(self.paths(), name@),
    {
        lookup_path_entry(&self.paths, name)
    }
}

/// Any content reference already minted for this content, if one exists.
fn find_content_ref(records: &Vec<Version>, content: &Vec<u8>) -> (r: Option<ContentRef>)
    ensures
        match r {
            Some(cr) => exists|j: int|
                0 <= j < records@.len() && (#[trigger] records@[j])@.content == content@
                    && records@[j]@.content_ref == cr,
            None => forall|j: int|
                0 <= j < records@.len() ==> (#[trigger] records@[j])@.content != content@,
        },
{
    let mut i: usize = 0;
    while i < records.len()
        invariant
            i <= records@.len(),
            forall|j: int| 0 <= j < i ==> (#[trigger] records@[j])@.content != content@,
        decreases records@.len() - i,
    {
        if bytes_eq(&records[i].content, content) {
            return Some(records[i].content_ref);
        }
        i += 1;
    }
    None
}

fn lookup_path_entry(paths: &Vec<PathEntry>, name: &Vec<u8>) -> (r: Option<ContentRef>)
    ensures
        r == path_root_of(paths@.map_values(|p: PathEntry| (p.name@, p.root)), name@),
{
    let ghost pview = paths@.map_values(|p: PathEntry| (p.name@, p.root));
    proof {
        assert(pview.skip(0) =~= pview);
    }
    let mut i: usize = 0;
    while i < paths.len()
        invariant
            i <= pview.len(),
            pview == paths@.map_values(|p: PathEntry| (p.name@, p.root)),
            path_root_of(pview.skip(i as int), name@) == path_root_of(pview, name@),
            forall|j: int| 0 <= j < i ==> (#[trigger] pview[j]).0 != name@,
        decreases pview.len() - i,
    {
        proof {
            assert(pview.skip(i as int)[0] == pview[i as int]);
        }
        if bytes_eq(&paths[i].name, name) {
            return Some(paths[i].root);
        }
        proof {
            assert(pview.skip(i as int).subrange(1, pview.skip(i as int).len() as int)
                =~= pview.skip(i as int + 1));
        }
        i += 1;
    }
    proof {
        assert(pview.skip(pview.len() as int) =~= Seq::<(Seq<u8>, ContentRef)>::empty());
    }
    None
}

/// A name that resolves to no path root matches no table row.
proof fn lemma_path_root_of_none(paths: Seq<(Seq<u8>, ContentRef)>, name: Seq<u8>)
    requires
        path_root_of(paths, name) is None,
    ensures
        forall|i: int| 0 <= i < paths.len() ==> (#[trigger] paths[i]).0 != name,
    decreases paths.len(),
{
    if paths.len() > 0 {
        let rest = paths.subrange(1, paths.len() as int);
        lemma_path_root_of_none(rest, name);
        assert forall|i: int| 0 <= i < paths.len() implies (#[trigger] paths[i]).0 != name by {
            if i > 0 {
                assert(paths[i] == rest[i - 1]);
            }
        }
    }
}

/// Appending one record that respects the minting rules keeps a ledger
/// well-formed.
proof fn lemma_wf_after_append(a: Ledger, b: Ledger, v: VersionV)
    requires
        a.wf(),
        b.records() == a.records().push(v),
        b.relations() == a.relations(),
        b.paths() == a.paths(),
        v.action == (ActionRef { id: a.records().len() as usize }),
        v.content_ref.space == RefSpace::Record,
        v.content_ref.id as int <= a.records().len(),
        forall|j: int|
            0 <= j < a.records().len() && (#[trigger] a.records()[j]).content == v.content
                ==> a.records()[j].content_ref == v.content_ref,
    ensures
        b.wf(),
{
    let n = a.records().len() as int;
    assert forall|i: int| 0 <= i < b.records().len() implies (#[trigger] b.records()[i]).action
        == (ActionRef { id: i as usize }) && b.records()[i].content_ref.space == RefSpace::Record
        && b.records()[i].content_ref.id as int <= i by {
        if i < n {
            assert(b.records()[i] == a.records()[i]);
        } else {
            assert(b.records()[i] == v);
        }
    }
    assert forall|i: int, j: int|
        0 <= i < b.records().len() && 0 <= j < b.records().len() && (
        #[trigger] b.records()[i]).content == (#[trigger] b.records()[j]).content implies b.records()[i].content_ref
        == b.records()[j].content_ref by {
        if i < n && j < n {
            assert(b.records()[i] == a.records()[i]);
            assert(b.records()[j] == a.records()[j]);
        } else if i < n {
            assert(b.records()[i] == a.records()[i]);
            assert(b.records()[j] == v);
        } else if j < n {
            assert(b.records()[i] == v);
            assert(b.records()[j] == a.records()[j]);
        }
    }
    assert forall|k: int| 0 <= k < b.relations().len() implies (#[trigger] b.relations()[k]).0.id
        < b.records().len() && b.relations()[k].1.id < b.records().len() by {
        assert(b.relations()[k] == a.relations()[k]);
    }
    assert forall|i: int| 0 <= i < b.paths().len() implies (#[trigger] b.paths()[i]).1 == (
    ContentRef { space: RefSpace::Path, id: i as u64 }) by {
        assert(b.paths()[i] == a.paths()[i]);
    }
    assert forall|i: int, j: int|
        0 <= i < b.paths().len() && 0 <= j < b.paths().len() && i != j implies (
    #[trigger] b.paths()[i]).0 != (#[trigger] b.paths()[j]).0 by {
        assert(b.paths()[i] == a.paths()[i]);
        assert(b.paths()[j] == a.paths()[j]);
    }
}

/// Registering one relation between existing write events keeps a ledger
/// well-formed.
proof fn lemma_wf_after_relation(a: Ledger, b: Ledger, from: ActionRef, to: ActionRef)
    requires
        a.wf(),
        b.records() == a.records(),
        b.relations() == a.relations().push((from, to)),
        b.paths() == a.paths(),
        from.id < a.records().len(),
        to.id < a.records().len(),
    ensures
        b.wf(),
{
    let n = a.relations().len() as int;
    assert forall|k: int| 0 <= k < b.relations().len() implies (#[trigger] b.relations()[k]).0.id
        < b.records().len() && b.relations()[k].1.id < b.records().len() by {
        if k < n {
            assert(b.relations()[k] == a.relations()[k]);
        } else {
            assert(b.relations()[k] == (from, to));
        }
    }
    lemma_wf_like_records_paths(a, b);
}

/// Registering one fresh path keeps a ledger well-formed.
proof fn lemma_wf_after_path(a: Ledger, b: Ledger, name: Seq<u8>)
    requires
        a.wf(),
        b.records() == a.records(),
        b.relations() == a.relations(),
        b.paths() == a.paths().push(
            (name, ContentRef { space: RefSpace::Path, id: a.paths().len() as u64 }),
        ),
        forall|i: int| 0 <= i < a.paths().len() ==> (#[trigger] a.paths()[i]).0 != name,
    ensures
        b.wf(),
{
    let n = a.paths().len() as int;
    assert forall|i: int| 0 <= i < b.paths().len() implies (#[trigger] b.paths()[i]).1 == (
    ContentRef { space: RefSpace::Path, id: i as u64 }) by {
        if i < n {
            assert(b.paths()[i] == a.paths()[i]);
        }
    }
    assert forall|i: int, j: int|
        0 <= i < b.paths().len() && 0 <= j < b.paths().len() && i != j implies (
    #[trigger] b.paths()[i]).0 != (#[trigger] b.paths()[j]).0 by {
        if i < n && j < n {
            assert(b.paths()[i] == a.paths()[i]);
            assert(b.paths()[j] == a.paths()[j]);
        } else if i < n {
            assert(b.paths()[i] == a.paths()[i]);
        } else if j < n {
            assert(b.paths()[j] == a.paths()[j]);
        }
    }
    assert forall|i: int| 0 <= i < b.records().len() implies (#[trigger] b.records()[i]).action
        == (ActionRef { id: i as usize }) && b.records()[i].content_ref.space == RefSpace::Record
        && b.records()[i].content_ref.id as int <= i by {
        assert(b.records()[i] == a.records()[i]);
    }
    assert forall|i: int, j: int|
        0 <= i < b.records().len() && 0 <= j < b.records().len() && (
        #[trigger] b.records()[i]).content == (#[trigger] b.records()[j]).content implies b.records()[i].content_ref
        == b.records()[j].content_ref by {
        assert(b.records()[i] == a.records()[i]);
        assert(b.records()[j] == a.records()[j]);
    }
    assert forall|k: int| 0 <= k < b.relations().len() implies (#[trigger] b.relations()[k]).0.id
        < b.records().len() && b.relations()[k].1.id < b.records().len() by {
        assert(b.relations()[k] == a.relations()[k]);
    }
}

/// The record and path clauses of well-formedness carry over between ledgers
/// whose records and paths agree.
proof fn lemma_wf_like_records_paths(a: Ledger, b: Ledger)
    requires
        a.wf(),
        b.records() == a.records(),
        b.paths() == a.paths(),
    ensures
        forall|i: int|
            0 <= i < b.records().len() ==> (#[trigger] b.records()[i]).action == (ActionRef {
                id: i as usize,
            }),
        forall|i: int|
            0 <= i < b.records().len() ==> (#[trigger] b.records()[i]).content_ref.space
                == RefSpace::Record,
        forall|i: int|
            0 <= i < b.records().len() ==> (#[trigger] b.records()[i]).content_ref.id as int <= i,
        forall|i: int, j: int|
            0 <= i < b.records().len() && 0 <= j < b.records().len() && (
            #[trigger] b.records()[i]).content == (#[trigger] b.records()[j]).content
                ==> b.records()[i].content_ref == b.records()[j].content_ref,
        forall|i: int|
            0 <= i < b.paths().len() ==> (#[trigger] b.paths()[i]).1 == (ContentRef {
                space: RefSpace::Path,
                id: i as u64,
            }),
        forall|i: int, j: int|
            0 <= i < b.paths().len() && 0 <= j < b.paths().len() && i != j ==> (
            #[trigger] b.paths()[i]).0 != (#[trigger] b.paths()[j]).0,
{
    assert forall|i: int| 0 <= i < b.records().len() implies (#[trigger] b.records()[i]).action
        == (ActionRef { id: i as usize }) && b.records()[i].content_ref.space == RefSpace::Record
        && b.records()[i].content_ref.id as int <= i by {
        assert(b.records()[i] == a.records()[i]);
    }
    assert forall|i: int, j: int|
        0 <= i < b.records().len() && 0 <= j < b.records().len() && (
        #[trigger] b.records()[i]).content == (#[trigger] b.records()[j]).content implies b.records()[i].content_ref
        == b.records()[j].content_ref by {
        assert(b.records()[i] == a.records()[i]);
        assert(b.records()[j] == a.records()[j]);
    }
    assert forall|i: int| 0 <= i < b.paths().len() implies (#[trigger] b.paths()[i]).1 == (
    ContentRef { space: RefSpace::Path, id: i as u64 }) by {
        assert(b.paths()[i] == a.paths()[i]);
    }
    assert forall|i: int, j: int|
        0 <= i < b.paths().len() && 0 <= j < b.paths().len() && i != j implies (
    #[trigger] b.paths()[i]).0 != (#[trigger] b.paths()[j]).0 by {
        assert(b.paths()[i] == a.paths()[i]);
        assert(b.paths()[j] == a.paths()[j]);
    }
}

/// A ledger whose records, relations and paths agree with a well-formed one
/// is well-formed itself, whatever its edges hold.
proof fn lemma_wf_carries_over(a: Ledger, b: Ledger)
    requires
        a.wf(),
        b.records() == a.records(),
        b.relations() == a.relations(),
        b.paths() == a.paths(),
    ensures
        b.wf(),
{
    assert forall|k: int| 0 <= k < b.relations().len() implies (#[trigger] b.relations()[k]).0.id
        < b.records().len() && b.relations()[k].1.id < b.records().len() by {
        assert(b.relations()[k] == a.relations()[k]);
    }
    lemma_wf_like_records_paths(a, b);
}

/// Registering a fresh path leaves every other path's root unchanged and
/// resolves the fresh name to the fresh root.
proof fn lemma_path_root_of_push_fresh(paths: Seq<(Seq<u8>, ContentRef)>, name: Seq<u8>, root: ContentRef)
    requires
        path_root_of(paths, name) is None,
    ensures
        path_root_of(paths.push((name, root)), name) == Some(root),
    decreases paths.len(),
{
    if paths.len() == 0 {
        assert(paths.push((name, root))[0] == (name, root));
    } else {
        assert(paths.push((name, root))[0] == paths[0]);
        if paths[0].0 == name {
            assert(false);
        } else {
            assert(paths.subrange(1, paths.len() as int).push((name, root)) =~= paths.push(
                (name, root),
            ).subrange(1, paths.push((name, root)).len() as int));
            lemma_path_root_of_push_fresh(paths.subrange(1, paths.len() as int), name, root);
        }
    }
}

} // verus!
