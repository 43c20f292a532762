//! The registry: turns handles into table indices, registering every type
//! that a descriptor reaches, once per identity.
use vstd::prelude::*;

use crate::form::{
    fields_compact, keeps_prefix, lemma_fields_compact_extend, lemma_type_compacts_extend,
    ref_compacts, refs_compact, type_compacts, type_within, typedef_compacts, typedef_within,
    fields_within, variant_compacts, variants_compact, fields_refer, refs_refer, type_refers,
    typedef_refers, variants_refer,
};
use crate::interner::{identity_space, lemma_distinct_ids_bounded, Interner, INDEX_BASE};
use crate::meta_type::{MetaType, TypeId};
use crate::ty::{Field, Type, TypeComposite, TypeDef, TypeDefVariant, Variant};

verus! {

/// Collects compact descriptors, one per registered identity, at the
/// position its index names.
pub struct Registry {
    type_table: Interner,
    types: Vec<Option<Type<u64>>>,
    sources: Ghost<Seq<Type<MetaType>>>,
}

impl Registry {
    /// The registered identities, in the order their indices were assigned.
    pub closed spec fn ids(&self) -> Seq<TypeId> {
        self.type_table@
    }

    /// The compact descriptor at each position; `None` while it is being built.
    pub closed spec fn entries(&self) -> Seq<Option<Type<u64>>> {
        self.types@
    }

    /// The expanded descriptor each registered identity was produced as.
    pub closed spec fn sources(&self) -> Seq<Type<MetaType>> {
        self.sources@
    }

    /// Identities are distinct, the tables line up, and every finished entry
    /// is the compact form of its source.
    pub open spec fn wf(&self) -> bool {
        &&& self.ids().no_duplicates()
        &&& self.ids().len() <= identity_space()
        &&& self.entries().len() == self.ids().len()
        &&& self.sources().len() == self.ids().len()
        &&& forall|p: int|
            0 <= p < self.ids().len() && (#[trigger] self.entries()[p]).is_some() ==> type_compacts(
                self.sources()[p],
                self.entries()[p].unwrap(),
                self.ids(),
            )
    }

    /// No entry is still being built.
    pub open spec fn is_complete(&self) -> bool {
        forall|p: int| 0 <= p < self.entries().len() ==> (#[trigger] self.entries()[p]).is_some()
    }

    /// `self` holds everything `prev` held, at the same positions.
    pub open spec fn extends(&self, prev: Registry) -> bool {
        &&& keeps_prefix(prev.ids(), self.ids())
        &&& forall|p: int| 0 <= p < prev.ids().len() ==> #[trigger] self.entries()[p] == prev.entries()[p]
        &&& forall|p: int| 0 <= p < prev.ids().len() ==> #[trigger] self.sources()[p] == prev.sources()[p]
    }

    /// Every entry added since `prev` is finished, and its source is what
    /// `describe` produced for its identity.
    pub open spec fn adds_described<F: Fn(TypeId) -> Type<MetaType>>(&self, prev: Registry, describe: F) -> bool {
        forall|p: int| prev.ids().len() <= p < self.ids().len() ==> {
            &&& (#[trigger] self.entries()[p]).is_some()
            &&& describe.ensures((self.ids()[p],), self.sources()[p])
        }
    }

    /// The identity at position `p` is referenced by the source of an entry
    /// at a position from `from` up to, not including, `p`.
    pub open spec fn reached_after(&self, from: int, p: int) -> bool {
        exists|q: int| from <= q < p && type_refers(#[trigger] self.sources()[q], self.ids()[p])
    }

    /// What registering `ty` in `prev` and getting `r` back, with `self` as
    /// the outcome, amounts to: `r` is the index of `ty`'s identity, what was
    /// held stays where it was, a known identity changes nothing, and a new
    /// one takes the next index. Every other identity added is referenced by
    /// an entry added before it: nothing is registered that was not reached.
    pub open spec fn registered(&self, prev: Registry, ty: MetaType, r: u64) -> bool {
        &&& self.extends(prev)
        &&& ref_compacts(ty, r, self.ids())
        &&& prev.ids().contains(ty.id) ==> {
            &&& self.ids() == prev.ids()
            &&& self.entries() == prev.entries()
            &&& self.sources() == prev.sources()
        }
        &&& !prev.ids().contains(ty.id) ==> {
            &&& prev.ids().len() < self.ids().len()
            &&& r == prev.ids().len() + INDEX_BASE
            &&& type_within(self.sources()[prev.ids().len() as int], prev.ids().push(ty.id))
                ==> self.ids().len() == prev.ids().len() + 1
            &&& forall|p: int|
                prev.ids().len() < p < self.ids().len() ==> #[trigger] self.reached_after(prev.ids().len() as int, p)
        }
    }

    /// Creates an empty registry.
    pub fn new() -> (r: Registry)
        ensures
            r.wf(),
            r.is_complete(),
            r.ids() == Seq::<TypeId>::empty(),
    {
        Registry { type_table: Interner::new(), types: Vec::new(), sources: Ghost(Seq::empty()) }
    }

    /// The number of registered types.
    pub fn len(&self) -> (r: usize)
        requires
            self.wf(),
        ensures
            r == self.ids().len(),
    {
        self.type_table.len()
    }

    /// Registers the type `ty` stands for and returns its index.
    ///
    /// A known identity gets its index back and nothing changes: its
    /// descriptor is not produced again. A new identity first reserves the
    /// next index; then `describe` produces its descriptor, each type that
    /// descriptor references is registered in turn, in order, and the
    /// compact descriptor fills the reserved slot. A type that reaches its
    /// own identity finds the reservation and takes its index.
    pub fn register<F: Fn(TypeId) -> Type<MetaType>>(&mut self, ty: &MetaType, describe: &F) -> (r: u64)
        requires
            old(self).wf(),
            forall|id: TypeId| describe.requires((id,)),
        ensures
            final(self).wf(),
            final(self).registered(*old(self), *ty, r),
            final(self).adds_described(*old(self), *describe),
        decreases identity_space() - old(self).ids().len(), 1int,
    {
        if let Some(index) = self.type_table.get(ty.id) {
            return index;
        }
        let ghost prev = *self;
        let (_, index) = self.type_table.intern_or_get(ty.id);
        let slot: usize = self.types.len();
        self.types.push(None);
        let expanded = describe(ty.id);
        self.sources = Ghost(self.sources@.push(expanded));
        proof {
            lemma_distinct_ids_bounded(self.ids());
            assert forall|p: int|
                0 <= p < self.ids().len() && (#[trigger] self.entries()[p]).is_some() implies type_compacts(
                self.sources()[p],
                self.entries()[p].unwrap(),
                self.ids(),
            ) by {
                assert(prev.entries()[p].is_some());
                lemma_type_compacts_extend(prev.sources()[p], prev.entries()[p].unwrap(), prev.ids(), self.ids());
            }
        }
        let ghost reserved = *self;
        assert(reserved.ids() == prev.ids().push(ty.id));
        let compact = self.compact_type(expanded, describe);
        self.types.set(slot, Some(compact));
        proof {
            assert(self.sources()[slot as int] == expanded);
            assert(self.entries()[slot as int] == Some(compact));
            assert forall|p: int| prev.ids().len() < p < self.ids().len() implies #[trigger] self.reached_after(prev.ids().len() as int, p) by {
                let here = *self;
                if type_refers(expanded, self.ids()[p]) {
                    assert(type_refers(self.sources()[slot as int], self.ids()[p]));
                } else {
                    lemma_reached_carry(here, here, reserved.ids().len() as int, prev.ids().len() as int, p);
                }
            }
            assert forall|p: int| prev.ids().len() <= p < self.ids().len() implies {
                &&& (#[trigger] self.entries()[p]).is_some()
                &&& describe.ensures((self.ids()[p],), self.sources()[p])
            } by {
                if p == slot {
                } else {
                    assert(reserved.ids().len() <= p);
                }
            }
        }
        index
    }

    /// Registers each handle of `refs`, in order, and returns their indices.
    fn compact_refs<F: Fn(TypeId) -> Type<MetaType>>(&mut self, refs: &Vec<MetaType>, describe: &F) -> (r: Vec<u64>)
        requires
            old(self).wf(),
            forall|id: TypeId| describe.requires((id,)),
        ensures
            final(self).wf(),
            final(self).extends(*old(self)),
            final(self).adds_described(*old(self), *describe),
            refs_compact(refs@, r@, final(self).ids()),
            forall|p: int|
                old(self).ids().len() <= p < final(self).ids().len() ==> refs_refer(refs@, #[trigger] final(self).ids()[p])
                    || final(self).reached_after(old(self).ids().len() as int, p),
            (forall|i: int| 0 <= i < refs@.len() ==> old(self).ids().contains((#[trigger] refs@[i]).id))
                ==> final(self).ids() == old(self).ids(),
        decreases identity_space() - old(self).ids().len(), 2int,
    {
        let ghost start = *self;
        let mut out: Vec<u64> = Vec::new();
        let mut i: usize = 0;
        while i < refs.len()
            invariant
                i <= refs@.len(),
                out@.len() == i,
                self.wf(),
                self.extends(start),
                start == *old(self),
                self.adds_described(start, *describe),
                forall|id: TypeId| describe.requires((id,)),
                forall|j: int| 0 <= j < i ==> ref_compacts(refs@[j], #[trigger] out@[j], self.ids()),
                forall|p: int|
                    start.ids().len() <= p < self.ids().len() ==> refs_refer(refs@, #[trigger] self.ids()[p])
                        || self.reached_after(start.ids().len() as int, p),
                (forall|j: int| 0 <= j < refs@.len() ==> start.ids().contains((#[trigger] refs@[j]).id))
                    ==> self.ids() == start.ids(),
            decreases refs@.len() - i,
        {
            let ghost before = *self;
            let index = self.register(&refs[i], describe);
            proof {
                let here = *self;
                assert forall|p: int| start.ids().len() <= p < self.ids().len() implies refs_refer(refs@, #[trigger] self.ids()[p])
                    || self.reached_after(start.ids().len() as int, p) by {
                    if p < before.ids().len() {
                        assert(self.ids()[p] == before.ids()[p]);
                        if !refs_refer(refs@, before.ids()[p]) {
                            lemma_reached_carry(before, here, start.ids().len() as int, start.ids().len() as int, p);
                        }
                    } else if p == before.ids().len() {
                        assert(refs@[i as int].id == self.ids()[p]);
                    } else {
                        lemma_reached_carry(here, here, before.ids().len() as int, start.ids().len() as int, p);
                    }
                }
            }
            out.push(index);
            i = i + 1;
        }
        out
    }

    /// Compacts each field of `fields`, in order.
    fn compact_fields<F: Fn(TypeId) -> Type<MetaType>>(&mut self, fields: Vec<Field<MetaType>>, describe: &F) -> (r: Vec<Field<u64>>)
        requires
            old(self).wf(),
            forall|id: TypeId| describe.requires((id,)),
        ensures
            final(self).wf(),
            final(self).extends(*old(self)),
            final(self).adds_described(*old(self), *describe),
            fields_compact(fields@, r@, final(self).ids()),
            forall|p: int|
                old(self).ids().len() <= p < final(self).ids().len() ==> fields_refer(fields@, #[trigger] final(self).ids()[p])
                    || final(self).reached_after(old(self).ids().len() as int, p),
            fields_within(fields@, old(self).ids()) ==> final(self).ids() == old(self).ids(),
        decreases identity_space() - old(self).ids().len(), 2int,
    {
        let ghost start = *self;
        let ghost all = fields@;
        let mut rest = fields;
        let mut out: Vec<Field<u64>> = Vec::new();
        while rest.len() > 0
            invariant
                out@.len() + rest@.len() == all.len(),
                rest@ == all.subrange(out@.len() as int, all.len() as int),
                self.wf(),
                self.extends(start),
                start == *old(self),
                self.adds_described(start, *describe),
                forall|id: TypeId| describe.requires((id,)),
                fields_compact(all.subrange(0, out@.len() as int), out@, self.ids()),
                fields_within(all, start.ids()) ==> self.ids() == start.ids(),
                forall|p: int|
                    start.ids().len() <= p < self.ids().len() ==> fields_refer(all, #[trigger] self.ids()[p])
                        || self.reached_after(start.ids().len() as int, p),
            decreases rest@.len(),
        {
            let ghost before = *self;
            let ghost done = out@.len() as int;
            let field = rest.remove(0);
            assert(field == all[done]);
            assert(fields_within(all, start.ids()) ==> start.ids().contains(all[done].ty.id));
            let index = self.register(&field.ty, describe);
            proof {
                let here = *self;
                assert forall|p: int| start.ids().len() <= p < self.ids().len() implies fields_refer(all, #[trigger] self.ids()[p])
                    || self.reached_after(start.ids().len() as int, p) by {
                    if p < before.ids().len() {
                        assert(self.ids()[p] == before.ids()[p]);
                        if !fields_refer(all, before.ids()[p]) {
                            lemma_reached_carry(before, here, start.ids().len() as int, start.ids().len() as int, p);
                        }
                    } else if p == before.ids().len() {
                        assert(all[done].ty.id == self.ids()[p]);
                    } else {
                        lemma_reached_carry(here, here, before.ids().len() as int, start.ids().len() as int, p);
                    }
                }
                lemma_fields_compact_extend(all.subrange(0, done), out@, before.ids(), self.ids());
            }
            out.push(Field { name: field.name, ty: index, ty_name: field.ty_name, docs: field.docs });
            proof {
                assert(all.subrange(0, done + 1) == all.subrange(0, done).push(all[done]));
                assert forall|j: int| 0 <= j < done + 1 implies crate::form::field_compacts(all.subrange(0, done + 1)[j], #[trigger] out@[j], self.ids()) by {
                    if j < done {
                        assert(all.subrange(0, done + 1)[j] == all.subrange(0, done)[j]);
                    }
                }
                assert(rest@ =~= all.subrange(done + 1, all.len() as int));
            }
        }
        assert(all.subrange(0, all.len() as int) == all);
        out
    }

    /// Compacts each variant of `variants`, in order.
    fn compact_variants<F: Fn(TypeId) -> Type<MetaType>>(&mut self, variants: Vec<Variant<MetaType>>, describe: &F) -> (r: Vec<Variant<u64>>)
        requires
            old(self).wf(),
            forall|id: TypeId| describe.requires((id,)),
        ensures
            final(self).wf(),
            final(self).extends(*old(self)),
            final(self).adds_described(*old(self), *describe),
            variants_compact(variants@, r@, final(self).ids()),
            forall|p: int|
                old(self).ids().len() <= p < final(self).ids().len() ==> variants_refer(variants@, #[trigger] final(self).ids()[p])
                    || final(self).reached_after(old(self).ids().len() as int, p),
            (forall|i: int| 0 <= i < variants@.len() ==> fields_within((#[trigger] variants@[i]).fields@, old(self).ids()))
                ==> final(self).ids() == old(self).ids(),
        decreases identity_space() - old(self).ids().len(), 3int,
    {
        let ghost start = *self;
        let ghost all = variants@;
        let mut rest = variants;
        let mut out: Vec<Variant<u64>> = Vec::new();
        while rest.len() > 0
            invariant
                out@.len() + rest@.len() == all.len(),
                rest@ == all.subrange(out@.len() as int, all.len() as int),
                self.wf(),
                self.extends(start),
                start == *old(self),
                self.adds_described(start, *describe),
                forall|id: TypeId| describe.requires((id,)),
                variants_compact(all.subrange(0, out@.len() as int), out@, self.ids()),
                (forall|i: int| 0 <= i < all.len() ==> fields_within((#[trigger] all[i]).fields@, start.ids()))
                    ==> self.ids() == start.ids(),
                forall|p: int|
                    start.ids().len() <= p < self.ids().len() ==> variants_refer(all, #[trigger] self.ids()[p])
                        || self.reached_after(start.ids().len() as int, p),
            decreases rest@.len(),
        {
            let ghost before = *self;
            let ghost done = out@.len() as int;
            let variant = rest.remove(0);
            assert(variant == all[done]);
            assert((forall|i: int| 0 <= i < all.len() ==> fields_within((#[trigger] all[i]).fields@, start.ids()))
                ==> fields_within(all[done].fields@, start.ids()));
            let fields = self.compact_fields(variant.fields, describe);
            proof {
                let here = *self;
                assert forall|p: int| start.ids().len() <= p < self.ids().len() implies variants_refer(all, #[trigger] self.ids()[p])
                    || self.reached_after(start.ids().len() as int, p) by {
                    if p < before.ids().len() {
                        assert(self.ids()[p] == before.ids()[p]);
                        if !variants_refer(all, before.ids()[p]) {
                            lemma_reached_carry(before, here, start.ids().len() as int, start.ids().len() as int, p);
                        }
                    } else if fields_refer(all[done].fields@, self.ids()[p]) {
                        assert(variants_refer(all, self.ids()[p]));
                    } else {
                        lemma_reached_carry(here, here, before.ids().len() as int, start.ids().len() as int, p);
                    }
                }
                assert forall|j: int| 0 <= j < done implies variant_compacts(all.subrange(0, done)[j], #[trigger] out@[j], self.ids()) by {
                    assert(variant_compacts(all.subrange(0, done)[j], out@[j], before.ids()));
                    lemma_fields_compact_extend(all.subrange(0, done)[j].fields@, out@[j].fields@, before.ids(), self.ids());
                }
            }
            out.push(Variant { name: variant.name, fields, discriminant: variant.discriminant });
            proof {
                assert forall|j: int| 0 <= j < done + 1 implies variant_compacts(all.subrange(0, done + 1)[j], #[trigger] out@[j], self.ids()) by {
                    if j < done {
                        assert(all.subrange(0, done + 1)[j] == all.subrange(0, done)[j]);
                    }
                }
                assert(rest@ =~= all.subrange(done + 1, all.len() as int));
            }
        }
        assert(all.subrange(0, all.len() as int) == all);
        out
    }

    /// Compacts a type's kind, registering every type it references.
    fn compact_typedef<F: Fn(TypeId) -> Type<MetaType>>(&mut self, def: TypeDef<MetaType>, describe: &F) -> (r: TypeDef<u64>)
        requires
            old(self).wf(),
            forall|id: TypeId| describe.requires((id,)),
        ensures
            final(self).wf(),
            final(self).extends(*old(self)),
            final(self).adds_described(*old(self), *describe),
            typedef_compacts(def, r, final(self).ids()),
            forall|p: int|
                old(self).ids().len() <= p < final(self).ids().len() ==> typedef_refers(def, #[trigger] final(self).ids()[p])
                    || final(self).reached_after(old(self).ids().len() as int, p),
            typedef_within(def, old(self).ids()) ==> final(self).ids() == old(self).ids(),
        decreases identity_space() - old(self).ids().len(), 4int,
    {
        match def {
            TypeDef::Composite(composite) => {
                let fields = self.compact_fields(composite.into_fields(), describe);
                TypeDef::Composite(TypeComposite::from_fields(fields))
            },
            TypeDef::Variant(variant) => {
                let variants = self.compact_variants(variant.variants, describe);
                TypeDef::Variant(TypeDefVariant { variants })
            },
            TypeDef::Sequence(elem) => TypeDef::Sequence(self.register(&elem, describe)),
            TypeDef::Array(len, elem) => TypeDef::Array(len, self.register(&elem, describe)),
            TypeDef::Tuple(elems) => TypeDef::Tuple(self.compact_refs(&elems, describe)),
            TypeDef::Primitive(prim) => TypeDef::Primitive(prim),
            TypeDef::Compact(inner) => TypeDef::Compact(self.register(&inner, describe)),
            TypeDef::Phantom(marker) => TypeDef::Phantom(self.register(&marker, describe)),
        }
    }

    /// Compacts a descriptor: its type parameters first, then its kind.
    fn compact_type<F: Fn(TypeId) -> Type<MetaType>>(&mut self, ty: Type<MetaType>, describe: &F) -> (r: Type<u64>)
        requires
            old(self).wf(),
            forall|id: TypeId| describe.requires((id,)),
        ensures
            final(self).wf(),
            final(self).extends(*old(self)),
            final(self).adds_described(*old(self), *describe),
            type_compacts(ty, r, final(self).ids()),
            forall|p: int|
                old(self).ids().len() <= p < final(self).ids().len() ==> type_refers(ty, #[trigger] final(self).ids()[p])
                    || final(self).reached_after(old(self).ids().len() as int, p),
            type_within(ty, old(self).ids()) ==> final(self).ids() == old(self).ids(),
        decreases identity_space() - old(self).ids().len(), 5int,
    {
        let ghost e = ty;
        let ghost start = *self;
        let type_params = self.compact_refs(&ty.type_params, describe);
        let ghost mid = *self;
        let type_def = self.compact_typedef(ty.type_def, describe);
        let r = Type { path: ty.path, type_params, type_def };
        proof {
            let here = *self;
            assert forall|p: int| start.ids().len() <= p < self.ids().len() implies type_refers(e, #[trigger] self.ids()[p])
                || self.reached_after(start.ids().len() as int, p) by {
                if p < mid.ids().len() {
                    assert(self.ids()[p] == mid.ids()[p]);
                    if !refs_refer(e.type_params@, mid.ids()[p]) {
                        lemma_reached_carry(mid, here, start.ids().len() as int, start.ids().len() as int, p);
                    }
                } else if !typedef_refers(e.type_def, self.ids()[p]) {
                    lemma_reached_carry(here, here, mid.ids().len() as int, start.ids().len() as int, p);
                }
            }
            assert forall|i: int| 0 <= i < e.type_params@.len() implies ref_compacts(e.type_params@[i], #[trigger] r.type_params@[i], self.ids()) by {
                assert(ref_compacts(e.type_params@[i], r.type_params@[i], mid.ids()));
            }
        }
        r
    }
}

/// One registered type of a snapshot: its index and compact descriptor.
pub struct PortableType {
    pub id: u64,
    pub ty: Type<u64>,
}

/// The exported table: one compact descriptor per registered type, in index
/// order, with no gaps. It offers no way to change it.
pub struct PortableRegistry {
    types: Vec<PortableType>,
}

impl PortableRegistry {
    /// The entries, in index order.
    pub closed spec fn view(&self) -> Seq<PortableType> {
        self.types@
    }

    /// The entries, in index order.
    pub fn types(&self) -> (r: &Vec<PortableType>)
        ensures
            r@ == self@,
    {
        &self.types
    }

    /// The number of entries.
    pub fn len(&self) -> (r: usize)
        ensures
            r == self@.len(),
    {
        self.types.len()
    }

    /// The compact descriptor with index `id`, if there is one.
    pub fn resolve(&self, id: u64) -> (r: Option<&Type<u64>>)
        requires
            forall|p: int| 0 <= p < self@.len() ==> (#[trigger] self@[p]).id == p + INDEX_BASE,
        ensures
            match r {
                Some(t) => INDEX_BASE <= id < self@.len() + INDEX_BASE && *t == self@[id - INDEX_BASE].ty,
                None => !(INDEX_BASE <= id < self@.len() + INDEX_BASE),
            },
    {
        if id >= INDEX_BASE && id - INDEX_BASE < self.types.len() as u64 {
            Some(&self.types[(id - INDEX_BASE) as usize].ty)
        } else {
            None
        }
    }
}

impl Registry {
    /// Freezes the registry into a snapshot: entry `p` carries index
    /// `p + INDEX_BASE` and the compact descriptor registered there.
    pub fn into_portable(self) -> (r: PortableRegistry)
        requires
            self.wf(),
            self.is_complete(),
        ensures
            r@.len() == self.ids().len(),
            forall|p: int|
                0 <= p < r@.len() ==> (#[trigger] r@[p]).id == p + INDEX_BASE && Some(r@[p].ty)
                    == self.entries()[p],
    {
        let ghost all = self.types@;
        let ghost n = all.len() as int;
        let mut types = self.types;
        let mut reversed: Vec<Option<Type<u64>>> = Vec::new();
        while types.len() > 0
            invariant
                types@.len() + reversed@.len() == n,
                n == all.len(),
                types@ == all.subrange(0, types@.len() as int),
                forall|j: int| 0 <= j < reversed@.len() ==> #[trigger] reversed@[j] == all[n - 1 - j],
            decreases types@.len(),
        {
            let entry = types.pop().unwrap();
            reversed.push(entry);
            assert(types@ =~= all.subrange(0, types@.len() as int));
        }
        let mut out: Vec<PortableType> = Vec::new();
        while reversed.len() > 0
            invariant
                out@.len() + reversed@.len() == n,
                n == all.len(),
                n == self.ids().len(),
                n <= identity_space(),
                all == self.entries(),
                forall|p: int| 0 <= p < n ==> (#[trigger] all[p]).is_some(),
                forall|j: int| 0 <= j < reversed@.len() ==> #[trigger] reversed@[j] == all[n - 1 - j],
                forall|p: int|
                    0 <= p < out@.len() ==> (#[trigger] out@[p]).id == p + INDEX_BASE && Some(out@[p].ty)
                        == all[p],
            decreases reversed@.len(),
        {
            let ghost k = out@.len() as int;
            let entry = reversed.pop().unwrap();
            assert(entry == all[k]);
            if let Some(ty) = entry {
                let id = out.len() as u64 + INDEX_BASE;
                out.push(PortableType { id, ty });
            }
        }
        PortableRegistry { types: out }
    }
}

/// Handles with one identity get one index: in a registry, the index a
/// handle resolves to depends on its identity alone.
pub proof fn lemma_one_index_per_identity(reg: Registry, h1: MetaType, h2: MetaType, i1: u64, i2: u64)
    requires
        reg.wf(),
        h1.id == h2.id,
        ref_compacts(h1, i1, reg.ids()),
        ref_compacts(h2, i2, reg.ids()),
    ensures
        i1 == i2,
{
}

/// Registering two handles with one identity, one after the other, gives one
/// index twice, and the second registration changes nothing.
pub proof fn lemma_register_idempotent(
    r0: Registry,
    r1: Registry,
    r2: Registry,
    h1: MetaType,
    h2: MetaType,
    i1: u64,
    i2: u64,
)
    requires
        r0.wf(),
        r1.wf(),
        h1.id == h2.id,
        r1.registered(r0, h1, i1),
        r2.registered(r1, h2, i2),
    ensures
        i1 == i2,
        r2.ids() == r1.ids(),
        r2.entries() == r1.entries(),
        r0.ids().contains(h1.id) ==> r1.ids() == r0.ids(),
        !r0.ids().contains(h1.id) && type_within(
            r1.sources()[r0.ids().len() as int],
            r0.ids().push(h1.id),
        ) ==> r2.ids().len() == r0.ids().len() + 1,
{
    assert(r1.ids()[i1 - INDEX_BASE] == h1.id);
}

/// Indices go by first registration: a new identity takes the index after
/// the last one handed out, so two new identities registered one after the
/// other get increasing indices, and a registry's indices run from
/// `INDEX_BASE` up with no gap.
pub proof fn lemma_first_seen_order(
    r0: Registry,
    r1: Registry,
    r2: Registry,
    h1: MetaType,
    h2: MetaType,
    i1: u64,
    i2: u64,
)
    requires
        r0.wf(),
        r1.wf(),
        r1.registered(r0, h1, i1),
        r2.registered(r1, h2, i2),
        !r0.ids().contains(h1.id),
        !r1.ids().contains(h2.id),
    ensures
        i1 == r0.ids().len() + INDEX_BASE,
        i2 == r1.ids().len() + INDEX_BASE,
        i1 < i2,
        r2.ids()[i1 - INDEX_BASE] == h1.id,
        r2.ids()[i2 - INDEX_BASE] == h2.id,
{
}

/// In a registry, the identity at position `p` is the one whose index is
/// `p + INDEX_BASE`: indices cover the table with no gap and no reuse.
pub proof fn lemma_index_of_position(reg: Registry, p: int, h: MetaType, i: u64)
    requires
        reg.wf(),
        0 <= p < reg.ids().len(),
        h.id == reg.ids()[p],
        ref_compacts(h, i, reg.ids()),
    ensures
        i == p + INDEX_BASE,
{
}

/// Entries are kept by identity, never merged by shape: two positions whose
/// descriptors were produced equal still hold two identities, with two
/// indices, and each holds the compact form of that one descriptor.
pub proof fn lemma_equal_shapes_kept_apart(reg: Registry, p0: int, p1: int)
    requires
        reg.wf(),
        reg.is_complete(),
        0 <= p0 < reg.ids().len(),
        0 <= p1 < reg.ids().len(),
        p0 != p1,
        reg.sources()[p0] == reg.sources()[p1],
    ensures
        reg.ids()[p0] != reg.ids()[p1],
        p0 + INDEX_BASE != p1 + INDEX_BASE,
        type_compacts(reg.sources()[p0], reg.entries()[p0].unwrap(), reg.ids()),
        type_compacts(reg.sources()[p0], reg.entries()[p1].unwrap(), reg.ids()),
{
    assert(reg.entries()[p0].is_some());
    assert(reg.entries()[p1].is_some());
}

/// A type whose composite descriptor has a field of its own identity gets
/// that field resolved to its own index.
pub proof fn lemma_self_reference_resolves(reg: Registry, p: int, f: int)
    requires
        reg.wf(),
        0 <= p < reg.ids().len(),
        reg.entries()[p].is_some(),
        reg.sources()[p].type_def is Composite,
        0 <= f < reg.sources()[p].type_def->Composite_0.spec_fields().len(),
        reg.sources()[p].type_def->Composite_0.spec_fields()[f].ty.id == reg.ids()[p],
    ensures
        reg.entries()[p].unwrap().type_def is Composite,
        reg.entries()[p].unwrap().type_def->Composite_0.spec_fields()[f].ty == p + INDEX_BASE,
{
    let e = reg.sources()[p].type_def->Composite_0.spec_fields();
    let c = reg.entries()[p].unwrap().type_def->Composite_0.spec_fields();
    assert(crate::form::field_compacts(e[f], c[f], reg.ids()));
}

/// Distinct identities never share an index, whatever their descriptors.
pub proof fn lemma_distinct_identities_distinct_indices(reg: Registry, h1: MetaType, h2: MetaType, i1: u64, i2: u64)
    requires
        reg.wf(),
        h1.id != h2.id,
        ref_compacts(h1, i1, reg.ids()),
        ref_compacts(h2, i2, reg.ids()),
    ensures
        i1 != i2,
{
}

/// A reference that reaches position `p` from positions `from1` on still
/// does so as the registry grows, and from any earlier start.
proof fn lemma_reached_carry(a: Registry, b: Registry, from1: int, from2: int, p: int)
    requires
        b.extends(a),
        0 <= from2 <= from1,
        0 <= p < a.ids().len(),
        a.reached_after(from1, p),
    ensures
        b.reached_after(from2, p),
{
    let q = choose|q: int| from1 <= q < p && type_refers(#[trigger] a.sources()[q], a.ids()[p]);
    assert(b.sources()[q] == a.sources()[q]);
    assert(b.ids()[p] == a.ids()[p]);
}

} // verus!
