use crate::index::OracleId;
use crate::polynomial::Error as PolynomialError;
use std::sync::Arc;
use vstd::prelude::*;

verus! {

/// Errors of witness lookups.
#[derive(Debug, Clone, PartialEq, Eq)]
pub enum Error {
    MissingWitness { id: OracleId },
    NoExplicitBackingMultilinearExtension { id: OracleId },
    OracleTowerHeightMismatch { oracle_id: OracleId, oracle_level: usize, field_level: usize },
    Polynomial(PolynomialError),
}

/// A polymorphic multilinear that can be built over raw field data of a
/// given tower level.
///
/// `spec_built_from` relates a handle to the values and level it stands for.
/// The default body exists only so that implementations written outside
/// verified code compile; it is never a real model, and with it the
/// postcondition of `from_underliers` (and the handle clauses of the update
/// functions) say nothing. A verified implementation overrides it.
pub trait MultilinearHandle<U>: Sized {
    closed spec fn spec_built_from(&self, underliers: Seq<U>, tower_level: usize) -> bool {
        true
    }

    fn from_underliers(underliers: &[U], tower_level: usize) -> (r: Result<Self, PolynomialError>)
        ensures
            r is Ok ==> r->Ok_0.spec_built_from(underliers@, tower_level),
    ;
}

/// Raw data either shared by reference counting or borrowed for `'a`.
#[derive(Debug)]
pub enum ArcOrRef<'a, U> {
    Arc(Arc<Vec<U>>),
    Ref(&'a [U]),
}

impl<'a, U> View for ArcOrRef<'a, U> {
    type V = Seq<U>;

    open spec fn view(&self) -> Seq<U> {
        match self {
            ArcOrRef::Arc(owned) => (**owned)@,
            ArcOrRef::Ref(borrowed) => borrowed@,
        }
    }
}

impl<'a, U> ArcOrRef<'a, U> {
    pub fn as_ref(&self) -> (r: &[U])
        ensures
            r@ == self@,
    {
        match self {
            ArcOrRef::Arc(owned) => owned.as_slice(),
            ArcOrRef::Ref(borrowed) => borrowed,
        }
    }
}

/// Raw data and the tower level of the field its elements belong to.
#[derive(Debug)]
struct Backing<'a, U> {
    underliers: ArcOrRef<'a, U>,
    tower_level: usize,
}

#[derive(Debug)]
struct Entry<'a, U, H> {
    type_erased: H,
    backing: Option<Backing<'a, U>>,
}

/// What an entry holds as raw data: the values and their tower level, or
/// nothing when the entry was registered as a polymorphic handle alone.
pub type BackingView<U> = Option<(Seq<U>, usize)>;

/// The backing left for `id` by the last registration of `id` in `ws`.
pub open spec fn last_write<T>(ws: Seq<(OracleId, T)>, id: OracleId) -> Option<T>
    decreases ws.len(),
{
    if ws.len() == 0 {
        None
    } else if ws.last().0 == id {
        Some(ws.last().1)
    } else {
        last_write(ws.drop_last(), id)
    }
}

/// Registrations of raw values of one tower level, as backings.
pub open spec fn raw_writes<U>(ws: Seq<(OracleId, Seq<U>)>, tower_level: usize) -> Seq<(OracleId, BackingView<U>)> {
    Seq::new(ws.len(), |i: int| (ws[i].0, Some((ws[i].1, tower_level))))
}

/// Registrations of owned raw values, as backings.
pub open spec fn owned_writes<U>(ws: Seq<(OracleId, Vec<U>)>, tower_level: usize) -> Seq<(OracleId, BackingView<U>)> {
    raw_writes(ws.map_values(|w: (OracleId, Vec<U>)| (w.0, w.1@)), tower_level)
}

/// Registrations of borrowed raw values, as backings.
pub open spec fn borrowed_writes<U>(ws: Seq<(OracleId, &[U])>, tower_level: usize) -> Seq<(OracleId, BackingView<U>)> {
    raw_writes(ws.map_values(|w: (OracleId, &[U])| (w.0, w.1@)), tower_level)
}

/// Registrations of polymorphic handles alone, as backings.
pub open spec fn handle_writes<H, U>(ws: Seq<(OracleId, H)>) -> Seq<(OracleId, BackingView<U>)> {
    Seq::new(ws.len(), |i: int| (ws[i].0, None))
}

/// The entry for `id` after registering `ws` over entries `old`.
pub open spec fn entry_after<U>(
    old: Option<BackingView<U>>,
    ws: Seq<(OracleId, BackingView<U>)>,
    id: OracleId,
) -> Option<BackingView<U>> {
    match last_write(ws, id) {
        Some(b) => Some(b),
        None => old,
    }
}

/// The identifiers are all below `usize::MAX`, so that a slot exists for each.
pub open spec fn ids_fit<T>(ws: Seq<(OracleId, T)>) -> bool {
    forall|i: int| 0 <= i < ws.len() ==> #[trigger] ws[i].0 < usize::MAX
}

proof fn lemma_last_write_step<T>(ws: Seq<(OracleId, T)>, t: int, id: OracleId)
    requires
        0 <= t < ws.len(),
    ensures
        last_write(ws.subrange(0, t + 1), id) == if ws[t].0 == id {
            Some(ws[t].1)
        } else {
            last_write(ws.subrange(0, t), id)
        },
{
    assert(ws.subrange(0, t + 1).drop_last() =~= ws.subrange(0, t));
}

proof fn lemma_handle_writes_present<H, U>(ws: Seq<(OracleId, H)>, id: OracleId)
    ensures
        last_write(ws, id) is Some <==> last_write(handle_writes::<H, U>(ws), id) is Some,
    decreases ws.len(),
{
    if ws.len() > 0 {
        assert(handle_writes::<H, U>(ws).drop_last() =~= handle_writes::<H, U>(ws.drop_last()));
        lemma_handle_writes_present::<H, U>(ws.drop_last(), id);
    }
}

/// Registering raw values under `id` at some tower level leaves exactly those
/// values and that level as the entry's backing, which `get` returns at the
/// same level and rejects at any other; entries of other identifiers are
/// untouched, so an identifier never registered stays missing.
pub proof fn lemma_witness_round_trip<U>(
    before: Option<BackingView<U>>,
    id: OracleId,
    values: Seq<U>,
    tower_level: usize,
    other: OracleId,
)
    ensures
        entry_after(before, raw_writes(seq![(id, values)], tower_level), id) == Some::<BackingView<U>>(
            Some((values, tower_level)),
        ),
        other != id ==> entry_after(before, raw_writes(seq![(id, values)], tower_level), other) == before,
{
    let ws = raw_writes(seq![(id, values)], tower_level);
    assert(ws.drop_last() =~= Seq::<(OracleId, BackingView<U>)>::empty());
    assert(last_write(ws.drop_last(), other) is None);
    assert(ws.last().0 == id);
}

/// Multilinear witness data indexed by oracle identifier.
///
/// Slots are addressed directly by identifier and grow on demand; an absent
/// witness is an empty slot.
#[derive(Debug)]
pub struct MultilinearExtensionIndex<'a, U, H> {
    entries: Vec<Option<Entry<'a, U, H>>>,
}

impl<'a, U, H> MultilinearExtensionIndex<'a, U, H> {
    /// `None` when no witness is registered under `id`; otherwise its backing.
    pub closed spec fn spec_entry(&self, id: OracleId) -> Option<BackingView<U>> {
        if id < self.entries@.len() {
            match self.entries@[id as int] {
                Some(e) => Some(
                    match e.backing {
                        Some(b) => Some((b.underliers@, b.tower_level)),
                        None => None,
                    },
                ),
                None => None,
            }
        } else {
            None
        }
    }

    /// The polymorphic handle registered under `id`, when there is one.
    pub closed spec fn spec_handle(&self, id: OracleId) -> H
        recommends
            self.spec_entry(id) is Some,
    {
        self.entries@[id as int]->Some_0.type_erased
    }

    pub fn new() -> (r: Self)
        ensures
            forall|id: OracleId| #[trigger] r.spec_entry(id) is None,
    {
        MultilinearExtensionIndex { entries: Vec::new() }
    }

    /// The raw values registered under `id`, read at tower level `tower_level`.
    pub fn get(&self, id: OracleId, tower_level: usize) -> (r: Result<&[U], Error>)
        ensures
            self.spec_entry(id) is None ==> r == Err::<&[U], Error>(Error::MissingWitness { id }),
            self.spec_entry(id) == Some::<BackingView<U>>(None) ==> r == Err::<&[U], Error>(
                Error::NoExplicitBackingMultilinearExtension { id },
            ),
            (self.spec_entry(id) is Some && self.spec_entry(id)->Some_0 is Some
                && self.spec_entry(id)->Some_0->Some_0.1 != tower_level) ==> r
                == Err::<&[U], Error>(
                Error::OracleTowerHeightMismatch {
                    oracle_id: id,
                    oracle_level: self.spec_entry(id)->Some_0->Some_0.1,
                    field_level: tower_level,
                },
            ),
            (self.spec_entry(id) is Some && self.spec_entry(id)->Some_0 is Some
                && self.spec_entry(id)->Some_0->Some_0.1 == tower_level) ==> (r is Ok
                && r->Ok_0@ == self.spec_entry(id)->Some_0->Some_0.0),
    {
        if id >= self.entries.len() {
            return Err(Error::MissingWitness { id });
        }
        match &self.entries[id] {
            None => Err(Error::MissingWitness { id }),
            Some(entry) => match &entry.backing {
                None => Err(Error::NoExplicitBackingMultilinearExtension { id }),
                Some(backing) => {
                    if backing.tower_level != tower_level {
                        Err(
                            Error::OracleTowerHeightMismatch {
                                oracle_id: id,
                                oracle_level: backing.tower_level,
                                field_level: tower_level,
                            },
                        )
                    } else {
                        Ok(backing.underliers.as_ref())
                    }
                },
            },
        }
    }

    /// The polymorphic handle registered under `id`, whether or not it has a
    /// raw backing.
    pub fn get_multilin_poly(&self, id: OracleId) -> (r: Result<&H, Error>)
        ensures
            self.spec_entry(id) is None ==> r == Err::<&H, Error>(Error::MissingWitness { id }),
            self.spec_entry(id) is Some ==> r == Ok::<&H, Error>(&self.spec_handle(id)),
    {
        if id >= self.entries.len() {
            return Err(Error::MissingWitness { id });
        }
        match &self.entries[id] {
            None => Err(Error::MissingWitness { id }),
            Some(entry) => Ok(&entry.type_erased),
        }
    }

    /// Whether a witness is registered under `id`.
    pub fn has(&self, id: OracleId) -> (r: bool)
        ensures
            r == self.spec_entry(id) is Some,
    {
        id < self.entries.len() && self.entries[id].is_some()
    }

    /// Registers raw values under `id` with a handle built over them.
    fn register_raw(&mut self, id: OracleId, underliers: ArcOrRef<'a, U>, tower_level: usize) -> (r: Result<(), Error>)
        where
            H: MultilinearHandle<U>,
        requires
            id < usize::MAX,
        ensures
            r is Ok ==> final(self).spec_entry(id) == Some::<BackingView<U>>(Some((underliers@, tower_level))),
            r is Ok ==> forall|k: OracleId| k != id ==> #[trigger] final(self).spec_entry(k) == old(self).spec_entry(k),
            r is Ok ==> final(self).spec_handle(id).spec_built_from(underliers@, tower_level),
            r is Ok ==> forall|k: OracleId|
                k != id && old(self).spec_entry(k) is Some ==> #[trigger] final(self).spec_handle(k)
                    == old(self).spec_handle(k),
            r is Err ==> r->Err_0 is Polynomial && *final(self) == *old(self),
    {
        let handle = match H::from_underliers(underliers.as_ref(), tower_level) {
            Ok(h) => h,
            Err(e) => {
                return Err(Error::Polynomial(e));
            },
        };
        let backing = Backing { underliers, tower_level };
        self.set_entry(id, Entry { type_erased: handle, backing: Some(backing) });
        Ok(())
    }

    /// Registers each `(id, values)` pair, taking shared ownership of the
    /// values, which belong to the field of tower level `tower_level`. A later
    /// pair for the same identifier replaces an earlier one.
    pub fn update_owned(self, witnesses: Vec<(OracleId, Vec<U>)>, tower_level: usize) -> (r: Result<Self, Error>)
        where
            H: MultilinearHandle<U>,
        requires
            ids_fit(witnesses@),
        ensures
            r is Ok ==> forall|id: OracleId|
                #[trigger] r->Ok_0.spec_entry(id) == entry_after(
                    self.spec_entry(id),
                    owned_writes(witnesses@, tower_level),
                    id,
                ),
            witnesses@.len() == 0 ==> r is Ok && forall|id: OracleId| #[trigger] r->Ok_0.spec_entry(id)
                == self.spec_entry(id),
            r is Err ==> r->Err_0 is Polynomial,
            r is Ok ==> forall|id: OracleId|
                last_write(owned_writes(witnesses@, tower_level), id) is None
                    && self.spec_entry(id) is Some ==> #[trigger] r->Ok_0.spec_handle(id) == self.spec_handle(id),
            r is Ok ==> forall|id: OracleId|
                #[trigger] last_write(owned_writes(witnesses@, tower_level), id) is Some
                    ==> r->Ok_0.spec_handle(id).spec_built_from(
                    last_write(owned_writes(witnesses@, tower_level), id)->Some_0->Some_0.0,
                    tower_level,
                ),
    {
        let ghost ws = owned_writes(witnesses@, tower_level);
        let ghost orig = witnesses@;
        let mut index = self;
        let n = witnesses.len();
        let mut rest = witnesses;
        let mut t: usize = 0;
        while rest.len() > 0
            invariant
                t + rest@.len() == orig.len(),
                orig.len() == n,
                rest@ == orig.subrange(t as int, orig.len() as int),
                ws.len() == orig.len(),
                ids_fit(orig),
                ws == owned_writes(orig, tower_level),
                orig == witnesses@,
                forall|id: OracleId|
                    #[trigger] index.spec_entry(id) == entry_after(self.spec_entry(id), ws.subrange(0, t as int), id),
                forall|id: OracleId|
                    last_write(ws.subrange(0, t as int), id) is None && self.spec_entry(id) is Some
                        ==> #[trigger] index.spec_handle(id) == self.spec_handle(id),
                forall|id: OracleId|
                    #[trigger] last_write(ws.subrange(0, t as int), id) is Some ==> index.spec_handle(id).spec_built_from(
                        last_write(ws.subrange(0, t as int), id)->Some_0->Some_0.0,
                        tower_level,
                    ),
                forall|i: int| 0 <= i < ws.len() ==> (#[trigger] ws[i]).1 is Some && ws[i].1->Some_0.1 == tower_level,
            decreases rest@.len(),
        {
            let (id, values) = rest.remove(0);
            assert(orig[t as int].0 < usize::MAX);
            let ghost before = index;
            let ghost vs = values@;
            match index.register_raw(id, ArcOrRef::Arc(Arc::new(values)), tower_level) {
                Ok(()) => {},
                Err(e) => {
                    return Err(e);
                },
            }
            proof {
                assert(ws[t as int] == (id, Some::<(Seq<U>, usize)>((vs, tower_level))));
                assert forall|k: OracleId| #[trigger] index.spec_entry(k) == entry_after(
                    self.spec_entry(k),
                    ws.subrange(0, t + 1),
                    k,
                ) by {
                    lemma_last_write_step(ws, t as int, k);
                    if k != id {
                        assert(index.spec_entry(k) == before.spec_entry(k));
                    }
                }
                assert forall|k: OracleId|
                    last_write(ws.subrange(0, t + 1), k) is None && self.spec_entry(k) is Some
                        implies #[trigger] index.spec_handle(k) == self.spec_handle(k) by {
                    lemma_last_write_step(ws, t as int, k);
                    assert(before.spec_entry(k) == entry_after(self.spec_entry(k), ws.subrange(0, t as int), k));
                }
                assert forall|k: OracleId| #[trigger] last_write(ws.subrange(0, t + 1), k) is Some
                    implies index.spec_handle(k).spec_built_from(
                    last_write(ws.subrange(0, t + 1), k)->Some_0->Some_0.0,
                    tower_level,
                ) by {
                    lemma_last_write_step(ws, t as int, k);
                    if k != id {
                        assert(before.spec_entry(k) == entry_after(self.spec_entry(k), ws.subrange(0, t as int), k));
                    }
                }
            }
            t = t + 1;
        }
        assert(ws.subrange(0, t as int) =~= ws);
        Ok(index)
    }

    /// Registers each `(id, values)` pair, borrowing the values for `'new`;
    /// they belong to the field of tower level `tower_level`. A later pair for
    /// the same identifier replaces an earlier one.
    pub fn update_borrowed<'new>(self, witnesses: Vec<(OracleId, &'new [U])>, tower_level: usize) -> (r: Result<
        MultilinearExtensionIndex<'new, U, H>,
        Error,
    >)
        where
            'a: 'new,
            H: MultilinearHandle<U>,
        requires
            ids_fit(witnesses@),
        ensures
            r is Ok ==> forall|id: OracleId|
                #[trigger] r->Ok_0.spec_entry(id) == entry_after(
                    self.spec_entry(id),
                    borrowed_writes(witnesses@, tower_level),
                    id,
                ),
            witnesses@.len() == 0 ==> r is Ok && forall|id: OracleId| #[trigger] r->Ok_0.spec_entry(id)
                == self.spec_entry(id),
            r is Err ==> r->Err_0 is Polynomial,
            r is Ok ==> forall|id: OracleId|
                last_write(borrowed_writes(witnesses@, tower_level), id) is None
                    && self.spec_entry(id) is Some ==> #[trigger] r->Ok_0.spec_handle(id) == self.spec_handle(id),
            r is Ok ==> forall|id: OracleId|
                #[trigger] last_write(borrowed_writes(witnesses@, tower_level), id) is Some
                    ==> r->Ok_0.spec_handle(id).spec_built_from(
                    last_write(borrowed_writes(witnesses@, tower_level), id)->Some_0->Some_0.0,
                    tower_level,
                ),
    {
        let ghost ws = borrowed_writes(witnesses@, tower_level);
        let ghost orig = witnesses@;
        let mut index: MultilinearExtensionIndex<'new, U, H> = MultilinearExtensionIndex { entries: self.entries };
        assert(forall|id: OracleId| #[trigger] index.spec_entry(id) == self.spec_entry(id));
        let n = witnesses.len();
        let mut t: usize = 0;
        while t < n
            invariant
                t <= n,
                orig.len() == n,
                witnesses@ == orig,
                ws.len() == orig.len(),
                ids_fit(orig),
                ws == borrowed_writes(orig, tower_level),
                forall|id: OracleId|
                    #[trigger] index.spec_entry(id) == entry_after(self.spec_entry(id), ws.subrange(0, t as int), id),
                forall|id: OracleId|
                    last_write(ws.subrange(0, t as int), id) is None && self.spec_entry(id) is Some
                        ==> #[trigger] index.spec_handle(id) == self.spec_handle(id),
                forall|id: OracleId|
                    #[trigger] last_write(ws.subrange(0, t as int), id) is Some ==> index.spec_handle(id).spec_built_from(
                        last_write(ws.subrange(0, t as int), id)->Some_0->Some_0.0,
                        tower_level,
                    ),
                forall|i: int| 0 <= i < ws.len() ==> (#[trigger] ws[i]).1 is Some && ws[i].1->Some_0.1 == tower_level,
            decreases n - t,
        {
            let (id, values) = witnesses[t];
            assert(orig[t as int].0 < usize::MAX);
            let ghost before = index;
            match index.register_raw(id, ArcOrRef::Ref(values), tower_level) {
                Ok(()) => {},
                Err(e) => {
                    return Err(e);
                },
            }
            proof {
                assert(ws[t as int] == (id, Some::<(Seq<U>, usize)>((values@, tower_level))));
                assert forall|k: OracleId| #[trigger] index.spec_entry(k) == entry_after(
                    self.spec_entry(k),
                    ws.subrange(0, t + 1),
                    k,
                ) by {
                    lemma_last_write_step(ws, t as int, k);
                    if k != id {
                        assert(index.spec_entry(k) == before.spec_entry(k));
                    }
                }
                assert forall|k: OracleId|
                    last_write(ws.subrange(0, t + 1), k) is None && self.spec_entry(k) is Some
                        implies #[trigger] index.spec_handle(k) == self.spec_handle(k) by {
                    lemma_last_write_step(ws, t as int, k);
                    assert(before.spec_entry(k) == entry_after(self.spec_entry(k), ws.subrange(0, t as int), k));
                }
                assert forall|k: OracleId| #[trigger] last_write(ws.subrange(0, t + 1), k) is Some
                    implies index.spec_handle(k).spec_built_from(
                    last_write(ws.subrange(0, t + 1), k)->Some_0->Some_0.0,
                    tower_level,
                ) by {
                    lemma_last_write_step(ws, t as int, k);
                    if k != id {
                        assert(before.spec_entry(k) == entry_after(self.spec_entry(k), ws.subrange(0, t as int), k));
                    }
                }
            }
            t = t + 1;
        }
        assert(ws.subrange(0, t as int) =~= ws);
        Ok(index)
    }

    /// Registers each `(id, handle)` pair as a polymorphic witness without raw
    /// backing. A later pair for the same identifier replaces an earlier one.
    pub fn update_multilin_poly(&mut self, witnesses: Vec<(OracleId, H)>) -> (r: Result<(), Error>)
        requires
            ids_fit(witnesses@),
        ensures
            r is Ok,
            forall|id: OracleId|
                #[trigger] final(self).spec_entry(id) == entry_after(
                    old(self).spec_entry(id),
                    handle_writes::<H, U>(witnesses@),
                    id,
                ),
            forall|id: OracleId|
                #[trigger] last_write(witnesses@, id) is Some ==> final(self).spec_handle(id) == last_write(
                    witnesses@,
                    id,
                )->Some_0,
            forall|id: OracleId|
                last_write(witnesses@, id) is None && old(self).spec_entry(id) is Some
                    ==> #[trigger] final(self).spec_handle(id) == old(self).spec_handle(id),
    {
        let ghost orig = witnesses@;
        let ghost ws = handle_writes::<H, U>(orig);
        let ghost start = *self;
        let n = witnesses.len();
        let mut rest = witnesses;
        let mut t: usize = 0;
        while rest.len() > 0
            invariant
                t + rest@.len() == orig.len(),
                orig.len() == n,
                rest@ == orig.subrange(t as int, orig.len() as int),
                ws == handle_writes::<H, U>(orig),
                ids_fit(orig),
                forall|id: OracleId|
                    #[trigger] self.spec_entry(id) == entry_after(start.spec_entry(id), ws.subrange(0, t as int), id),
                forall|id: OracleId|
                    #[trigger] last_write(orig.subrange(0, t as int), id) is Some ==> self.spec_handle(id)
                        == last_write(orig.subrange(0, t as int), id)->Some_0,
                forall|id: OracleId|
                    last_write(orig.subrange(0, t as int), id) is None && start.spec_entry(id) is Some
                        ==> #[trigger] self.spec_handle(id) == start.spec_handle(id),
            decreases rest@.len(),
        {
            let (id, handle) = rest.remove(0);
            assert(orig[t as int] == (id, handle));
            assert(orig[t as int].0 < usize::MAX);
            let ghost before = *self;
            self.set_entry(id, Entry { type_erased: handle, backing: None });
            proof {
                assert forall|k: OracleId| #[trigger] self.spec_entry(k) == entry_after(
                    start.spec_entry(k),
                    ws.subrange(0, t + 1),
                    k,
                ) by {
                    lemma_last_write_step(ws, t as int, k);
                    if k != id {
                        assert(self.spec_entry(k) == before.spec_entry(k));
                    }
                }
                assert forall|k: OracleId| #[trigger] last_write(orig.subrange(0, t + 1), k) is Some
                    implies self.spec_handle(k) == last_write(orig.subrange(0, t + 1), k)->Some_0 by {
                    lemma_last_write_step(orig, t as int, k);
                    lemma_last_write_step(ws, t as int, k);
                    assert(rest@.len() + t + 1 == orig.len());
                    if k != id {
                        lemma_handle_writes_present::<H, U>(orig.subrange(0, t as int), k);
                        assert(handle_writes::<H, U>(orig.subrange(0, t as int)) =~= ws.subrange(0, t as int));
                        assert(before.spec_entry(k) is Some);
                    }
                }
                assert forall|k: OracleId|
                    last_write(orig.subrange(0, t + 1), k) is None && start.spec_entry(k) is Some
                        implies #[trigger] self.spec_handle(k) == start.spec_handle(k) by {
                    lemma_last_write_step(orig, t as int, k);
                    lemma_last_write_step(ws, t as int, k);
                }
            }
            t = t + 1;
        }
        assert(ws.subrange(0, t as int) =~= ws);
        assert(orig.subrange(0, t as int) =~= orig);
        Ok(())
    }

    /// Stores `entry` under `id`, growing the slots with empty ones as needed.
    fn set_entry(&mut self, id: OracleId, entry: Entry<'a, U, H>)
        requires
            id < usize::MAX,
        ensures
            final(self).entries@.len() >= old(self).entries@.len(),
            id < final(self).entries@.len(),
            final(self).entries@[id as int] == Some(entry),
            forall|k: OracleId| k != id ==> #[trigger] final(self).spec_entry(k) == old(self).spec_entry(k),
            forall|k: OracleId|
                k != id && old(self).spec_entry(k) is Some ==> #[trigger] final(self).spec_handle(k)
                    == old(self).spec_handle(k),
    {
        while self.entries.len() <= id
            invariant
                id < usize::MAX,
                self.entries@.len() >= old(self).entries@.len(),
                forall|k: int| 0 <= k < old(self).entries@.len() ==> #[trigger] self.entries@[k] == old(self).entries@[k],
                forall|k: int| old(self).entries@.len() <= k < self.entries@.len() ==> #[trigger] self.entries@[k] is None,
            decreases id + 1 - self.entries@.len(),
        {
            self.entries.push(None);
        }
        self.entries.set(id, Some(entry));
    }
}

} // verus!
