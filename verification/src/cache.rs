//! The in-memory cache: entity-type name to type group, and the validation
//! pass that every published cache has gone through.
//!
//! Validation checks every entity of every group against its declared
//! schema: a declared field's value tag must match the declared type, and a
//! reference field must name an existing entity of the declared target
//! type. A field the declaration does not know is tolerated and skipped.

use vstd::prelude::*;

use crate::entity::{Entity, FieldData, FieldDataView, FieldType, FieldTypeView};
use crate::error::{NotFoundError, ValidationError};
use crate::kv::{assoc_set, has_key, key_index, keys_unique, kv_get, kv_set, lemma_lookup_at, lookup};
use crate::schema::{EntityDeclaration, FieldDeclView};

verus! {

/// One entity type's declaration together with all of its loaded entities.
#[derive(Debug)]
pub struct TypeGroup {
    pub declaration: EntityDeclaration,
    pub entities: Vec<(String, Entity)>,
}

/// Spec-level model of a [`TypeGroup`].
pub struct TypeGroupView {
    pub declaration: Seq<(Seq<char>, FieldDeclView)>,
    pub entities: Seq<(Seq<char>, Seq<(Seq<char>, FieldDataView)>)>,
}

impl DeepView for TypeGroup {
    type V = TypeGroupView;

    open spec fn deep_view(&self) -> TypeGroupView {
        TypeGroupView {
            declaration: self.declaration.deep_view(),
            entities: self.entities.deep_view(),
        }
    }
}

/// The group's maps all have unique keys.
pub open spec fn group_wf(g: TypeGroupView) -> bool {
    &&& keys_unique(g.declaration)
    &&& keys_unique(g.entities)
    &&& forall|i: int| 0 <= i < g.entities.len() ==> keys_unique(#[trigger] g.entities[i].1)
}

/// The cache's maps all have unique keys, at every level.
pub open spec fn cache_wf(c: Seq<(Seq<char>, TypeGroupView)>) -> bool {
    &&& keys_unique(c)
    &&& forall|i: int| 0 <= i < c.len() ==> group_wf(#[trigger] c[i].1)
}

/// The in-memory index: entity-type name to type group, keys unique.
#[derive(Debug)]
pub struct Cache {
    pub entities: Vec<(String, TypeGroup)>,
}

impl DeepView for Cache {
    type V = Seq<(Seq<char>, TypeGroupView)>;

    open spec fn deep_view(&self) -> Seq<(Seq<char>, TypeGroupView)> {
        self.entities.deep_view()
    }
}

/// The verdict on one declared field's value: `None` when the tags agree
/// (and, for a reference, the target entity exists), otherwise the error.
pub open spec fn field_error(
    c: Seq<(Seq<char>, TypeGroupView)>,
    ty: FieldTypeView,
    val: FieldDataView,
) -> Option<ValidationError> {
    match (ty, val) {
        (FieldTypeView::Str, FieldDataView::Str(_)) => None,
        (FieldTypeView::Bin, FieldDataView::Bin(_)) => None,
        (FieldTypeView::Num, FieldDataView::Num(_)) => None,
        (FieldTypeView::Ref(target), FieldDataView::Str(id)) => match lookup(c, target) {
            Some(g) => if has_key(g.entities, id) {
                None
            } else {
                Some(ValidationError::UnknownReferenceEntity)
            },
            None => Some(ValidationError::UnknownReferenceType),
        },
        (_, _) => Some(ValidationError::TypeMismatch),
    }
}

/// The verdict on one field of an entity: a field the declaration does not
/// know passes with no error.
pub open spec fn field_check(
    c: Seq<(Seq<char>, TypeGroupView)>,
    d: Seq<(Seq<char>, FieldDeclView)>,
    name: Seq<char>,
    val: FieldDataView,
) -> Option<ValidationError> {
    match lookup(d, name) {
        Some(fd) => field_error(c, fd.ty, val),
        None => None,
    }
}

/// The first failing field of an entity, in field order, if any.
pub open spec fn entity_error(
    c: Seq<(Seq<char>, TypeGroupView)>,
    d: Seq<(Seq<char>, FieldDeclView)>,
    e: Seq<(Seq<char>, FieldDataView)>,
) -> Option<ValidationError>
    decreases e.len(),
{
    if e.len() == 0 {
        None
    } else {
        match field_check(c, d, e[0].0, e[0].1) {
            Some(er) => Some(er),
            None => entity_error(c, d, e.drop_first()),
        }
    }
}

/// Every field of the entity passes its check.
pub open spec fn entity_valid(
    c: Seq<(Seq<char>, TypeGroupView)>,
    d: Seq<(Seq<char>, FieldDeclView)>,
    e: Seq<(Seq<char>, FieldDataView)>,
) -> bool {
    forall|i: int| 0 <= i < e.len() ==> field_check(c, d, e[i].0, e[i].1) is None
}

/// An entity passes with no error exactly when every field passes.
pub proof fn lemma_entity_error_iff(
    c: Seq<(Seq<char>, TypeGroupView)>,
    d: Seq<(Seq<char>, FieldDeclView)>,
    e: Seq<(Seq<char>, FieldDataView)>,
)
    ensures
        entity_error(c, d, e) is None <==> entity_valid(c, d, e),
    decreases e.len(),
{
    if e.len() != 0 {
        lemma_entity_error_iff(c, d, e.drop_first());
        assert(forall|i: int| 0 <= i < e.drop_first().len() ==> e.drop_first()[i] == e[i + 1]);
        if field_check(c, d, e[0].0, e[0].1) is None && entity_valid(c, d, e.drop_first()) {
            assert forall|i: int| 0 <= i < e.len() implies field_check(c, d, e[i].0, e[i].1)
                is None by {
                if i > 0 {
                    assert(field_check(c, d, e.drop_first()[i - 1].0, e.drop_first()[i - 1].1)
                        is None);
                }
            }
        }
    }
}

/// The first failing entity of a group, in entity order, if any.
pub open spec fn group_error_from(
    c: Seq<(Seq<char>, TypeGroupView)>,
    d: Seq<(Seq<char>, FieldDeclView)>,
    ents: Seq<(Seq<char>, Seq<(Seq<char>, FieldDataView)>)>,
) -> Option<ValidationError>
    decreases ents.len(),
{
    if ents.len() == 0 {
        None
    } else {
        match entity_error(c, d, ents[0].1) {
            Some(er) => Some(er),
            None => group_error_from(c, d, ents.drop_first()),
        }
    }
}

/// The verdict on a whole group.
pub open spec fn group_error(
    c: Seq<(Seq<char>, TypeGroupView)>,
    g: TypeGroupView,
) -> Option<ValidationError> {
    group_error_from(c, g.declaration, g.entities)
}

/// Every entity of the group is valid against the group's declaration.
pub open spec fn group_valid(c: Seq<(Seq<char>, TypeGroupView)>, g: TypeGroupView) -> bool {
    forall|i: int| 0 <= i < g.entities.len() ==> entity_valid(
        c,
        g.declaration,
        #[trigger] g.entities[i].1,
    )
}

/// A group passes with no error exactly when every entity is valid.
pub proof fn lemma_group_error_iff(c: Seq<(Seq<char>, TypeGroupView)>, g: TypeGroupView)
    ensures
        group_error(c, g) is None <==> group_valid(c, g),
{
    lemma_group_error_from_iff(c, g.declaration, g.entities);
}

proof fn lemma_group_error_from_iff(
    c: Seq<(Seq<char>, TypeGroupView)>,
    d: Seq<(Seq<char>, FieldDeclView)>,
    ents: Seq<(Seq<char>, Seq<(Seq<char>, FieldDataView)>)>,
)
    ensures
        group_error_from(c, d, ents) is None <==> forall|i: int|
            0 <= i < ents.len() ==> entity_valid(c, d, #[trigger] ents[i].1),
    decreases ents.len(),
{
    if ents.len() != 0 {
        lemma_entity_error_iff(c, d, ents[0].1);
        lemma_group_error_from_iff(c, d, ents.drop_first());
        assert(forall|i: int|
            0 <= i < ents.drop_first().len() ==> ents.drop_first()[i] == ents[i + 1]);
        if entity_error(c, d, ents[0].1) is None && forall|i: int|
            0 <= i < ents.drop_first().len() ==> entity_valid(
                c,
                d,
                #[trigger] ents.drop_first()[i].1,
            ) {
            assert forall|i: int| 0 <= i < ents.len() implies entity_valid(
                c,
                d,
                #[trigger] ents[i].1,
            ) by {
                if i > 0 {
                    assert(entity_valid(c, d, ents.drop_first()[i - 1].1));
                }
            }
        }
    }
}

/// The first failing group among `gs`, checked against the whole cache `c`.
pub open spec fn cache_error_from(
    c: Seq<(Seq<char>, TypeGroupView)>,
    gs: Seq<(Seq<char>, TypeGroupView)>,
) -> Option<ValidationError>
    decreases gs.len(),
{
    if gs.len() == 0 {
        None
    } else {
        match group_error(c, gs[0].1) {
            Some(er) => Some(er),
            None => cache_error_from(c, gs.drop_first()),
        }
    }
}

/// The verdict of the whole-cache validation pass.
pub open spec fn cache_error(c: Seq<(Seq<char>, TypeGroupView)>) -> Option<ValidationError> {
    cache_error_from(c, c)
}

/// Every entity of every group is valid: its declared fields carry values
/// of the declared tags, and its reference fields resolve to existing
/// entities of the declared target types.
pub open spec fn cache_valid(c: Seq<(Seq<char>, TypeGroupView)>) -> bool {
    forall|i: int| 0 <= i < c.len() ==> group_valid(c, #[trigger] c[i].1)
}

/// Law: the validation pass accepts a cache exactly when the cache is
/// valid — every entity's declared fields have matching value tags, and
/// every reference field resolves to an existing entity of its declared
/// target type.
pub proof fn lemma_validated_sound(c: Seq<(Seq<char>, TypeGroupView)>)
    ensures
        cache_error(c) is None <==> cache_valid(c),
{
    lemma_cache_error_from_iff(c, c);
}

proof fn lemma_cache_error_from_iff(
    c: Seq<(Seq<char>, TypeGroupView)>,
    gs: Seq<(Seq<char>, TypeGroupView)>,
)
    ensures
        cache_error_from(c, gs) is None <==> forall|i: int|
            0 <= i < gs.len() ==> group_valid(c, #[trigger] gs[i].1),
    decreases gs.len(),
{
    if gs.len() != 0 {
        lemma_group_error_iff(c, gs[0].1);
        lemma_cache_error_from_iff(c, gs.drop_first());
        assert(forall|i: int| 0 <= i < gs.drop_first().len() ==> gs.drop_first()[i] == gs[i + 1]);
        if group_error(c, gs[0].1) is None && forall|i: int|
            0 <= i < gs.drop_first().len() ==> group_valid(c, #[trigger] gs.drop_first()[i].1) {
            assert forall|i: int| 0 <= i < gs.len() implies group_valid(c, #[trigger] gs[i].1) by {
                if i > 0 {
                    assert(group_valid(c, gs.drop_first()[i - 1].1));
                }
            }
        }
    }
}

/// Law: a field the declaration does not know never blocks validation:
/// an entity valid under a declaration stays valid when it carries one
/// more field whose name the declaration lacks.
pub proof fn lemma_unknown_field_tolerated(
    c: Seq<(Seq<char>, TypeGroupView)>,
    d: Seq<(Seq<char>, FieldDeclView)>,
    e: Seq<(Seq<char>, FieldDataView)>,
    name: Seq<char>,
    val: FieldDataView,
)
    requires
        entity_valid(c, d, e),
        !has_key(d, name),
    ensures
        entity_valid(c, d, e.push((name, val))),
{
    let e2 = e.push((name, val));
    assert forall|i: int| 0 <= i < e2.len() implies field_check(c, d, e2[i].0, e2[i].1)
        is None by {
        if i < e.len() {
            assert(e2[i] == e[i]);
            assert(field_check(c, d, e[i].0, e[i].1) is None);
        } else {
            assert(e2[i] == (name, val));
        }
    }
}

/// Checks one entity against a declaration and the cache it lives in.
pub fn validate_entity(cache: &Cache, decl: &EntityDeclaration, entity: &Entity) -> (r: Result<
    (),
    ValidationError,
>)
    requires
        cache_wf(cache.deep_view()),
        decl.wf(),
    ensures
        match r {
            Ok(()) => entity_error(cache.deep_view(), decl.deep_view(), entity.deep_view())
                is None,
            Err(er) => entity_error(cache.deep_view(), decl.deep_view(), entity.deep_view())
                == Some(er),
        },
{
    let ghost c = cache.deep_view();
    let ghost d = decl.deep_view();
    let ghost e = entity.deep_view();
    let mut i: usize = 0;
    proof {
        assert(e.skip(0) =~= e);
    }
    while i < entity.fields.len()
        invariant
            cache_wf(c),
            keys_unique(d),
            c == cache.deep_view(),
            d == decl.deep_view(),
            e == entity.deep_view(),
            i <= entity.fields.len(),
            e.len() == entity.fields.len(),
            entity_error(c, d, e) == entity_error(c, d, e.skip(i as int)),
        decreases entity.fields.len() - i,
    {
        proof {
            assert(e.skip(i as int)[0] == e[i as int]);
            assert(e[i as int] == (entity.fields@[i as int].0@, entity.fields@[
                i as int
            ].1.deep_view()));
        }
        let name = &entity.fields[i].0;
        let val = &entity.fields[i].1;
        match kv_get(&decl.fields, name) {
            None => {
                proof {
                    assert(field_check(c, d, e[i as int].0, e[i as int].1) is None);
                }
            },
            Some(fd) => {
                match (&fd.ty, val) {
                    (FieldType::Str, FieldData::Str(_)) => (),
                    (FieldType::Bin, FieldData::Bin(_)) => (),
                    (FieldType::Num, FieldData::Num(_)) => (),
                    (FieldType::Ref(target), FieldData::Str(id)) => {
                        match kv_get(&cache.entities, target) {
                            None => {
                                return Err(ValidationError::UnknownReferenceType);
                            },
                            Some(group) => {
                                proof {
                                    let gi = key_index(c, target@);
                                    assert(group_wf(c[gi].1));
                                }
                                match kv_get(&group.entities, id) {
                                    Some(_) => (),
                                    None => {
                                        return Err(ValidationError::UnknownReferenceEntity);
                                    },
                                }
                            },
                        }
                    },
                    (_, _) => {
                        return Err(ValidationError::TypeMismatch);
                    },
                }
            },
        }
        proof {
            assert(e.skip(i as int).drop_first() =~= e.skip(i as int + 1));
        }
        i += 1;
    }
    proof {
        assert(e.skip(e.len() as int).len() == 0);
    }
    Ok(())
}

/// Checks every entity of a group against the cache.
pub fn validate_type_group(cache: &Cache, type_group: &TypeGroup) -> (r: Result<
    (),
    ValidationError,
>)
    requires
        cache_wf(cache.deep_view()),
        group_wf(type_group.deep_view()),
    ensures
        match r {
            Ok(()) => group_error(cache.deep_view(), type_group.deep_view()) is None,
            Err(er) => group_error(cache.deep_view(), type_group.deep_view()) == Some(er),
        },
{
    let ghost c = cache.deep_view();
    let ghost d = type_group.declaration.deep_view();
    let ghost ents = type_group.entities.deep_view();
    let mut i: usize = 0;
    proof {
        assert(ents.skip(0) =~= ents);
    }
    while i < type_group.entities.len()
        invariant
            cache_wf(c),
            c == cache.deep_view(),
            d == type_group.declaration.deep_view(),
            keys_unique(d),
            ents == type_group.entities.deep_view(),
            i <= type_group.entities.len(),
            ents.len() == type_group.entities.len(),
            group_error_from(c, d, ents) == group_error_from(c, d, ents.skip(i as int)),
        decreases type_group.entities.len() - i,
    {
        proof {
            assert(ents.skip(i as int)[0] == ents[i as int]);
            assert(ents[i as int] == (type_group.entities@[i as int].0@, type_group.entities@[
                i as int
            ].1.deep_view()));
        }
        match validate_entity(cache, &type_group.declaration, &type_group.entities[i].1) {
            Ok(()) => (),
            Err(er) => {
                return Err(er);
            },
        }
        proof {
            assert(ents.skip(i as int).drop_first() =~= ents.skip(i as int + 1));
        }
        i += 1;
    }
    proof {
        assert(ents.skip(ents.len() as int).len() == 0);
    }
    Ok(())
}

impl TypeGroup {
    /// All maps of the group have unique keys.
    pub open spec fn wf(&self) -> bool {
        group_wf(self.deep_view())
    }

    fn new(declaration: EntityDeclaration) -> (r: TypeGroup)
        ensures
            r.deep_view() == (TypeGroupView {
                declaration: declaration.deep_view(),
                entities: Seq::empty(),
            }),
    {
        let r = TypeGroup { declaration, entities: Vec::new() };
        proof {
            assert(r.entities.deep_view() =~= Seq::<(Seq<char>, Seq<(Seq<char>,
                FieldDataView,
            )>)>::empty());
        }
        r
    }

    /// The entity stored under the given id.
    pub fn get_entity(&self, name: &str) -> (r: Result<&Entity, NotFoundError>)
        requires
            self.wf(),
        ensures
            match r {
                Ok(e) => lookup(self.deep_view().entities, name@) == Some(e.deep_view()),
                Err(er) => !has_key(self.deep_view().entities, name@) && er
                    == NotFoundError::UnknownEntity,
            },
    {
        match kv_get(&self.entities, &name.to_owned()) {
            Some(e) => Ok(e),
            None => Err(NotFoundError::UnknownEntity),
        }
    }

    fn add_entity(&mut self, name: &str, ent: Entity)
        requires
            old(self).wf(),
            ent.wf(),
        ensures
            final(self).wf(),
            final(self).declaration == old(self).declaration,
            final(self).deep_view().entities == assoc_set(
                old(self).deep_view().entities,
                name@,
                ent.deep_view(),
            ),
    {
        let ghost ents0 = self.entities.deep_view();
        kv_set(&mut self.entities, name.to_owned(), ent);
        proof {
            let ents1 = self.entities.deep_view();
            assert(ents1 == assoc_set(ents0, name@, ent.deep_view()));
            assert forall|i: int| 0 <= i < ents1.len() implies keys_unique(
                #[trigger] ents1[i].1,
            ) by {
                if has_key(ents0, name@) {
                    let ki = key_index(ents0, name@);
                    if i != ki {
                        assert(ents1[i] == ents0[i]);
                    }
                } else {
                    if i < ents0.len() {
                        assert(ents1[i] == ents0[i]);
                    }
                }
            }
        }
    }
}

impl Cache {
    /// All maps of the cache have unique keys, at every level.
    pub open spec fn wf(&self) -> bool {
        cache_wf(self.deep_view())
    }

    /// An empty cache.
    pub fn new() -> (r: Cache)
        ensures
            r.deep_view() == Seq::<(Seq<char>, TypeGroupView)>::empty(),
            r.wf(),
    {
        let r = Cache { entities: Vec::new() };
        proof {
            assert(r.entities.deep_view() =~= Seq::<(Seq<char>, TypeGroupView)>::empty());
        }
        r
    }

    /// Runs the validation pass over every group; on success the cache
    /// itself is handed back unchanged.
    pub fn validated(self) -> (r: Result<Cache, ValidationError>)
        requires
            self.wf(),
        ensures
            match r {
                Ok(c) => c == self && cache_error(self.deep_view()) is None && cache_valid(
                    self.deep_view(),
                ),
                Err(er) => cache_error(self.deep_view()) == Some(er),
            },
    {
        let ghost c = self.deep_view();
        let mut i: usize = 0;
        proof {
            assert(c.skip(0) =~= c);
        }
        while i < self.entities.len()
            invariant
                cache_wf(c),
                c == self.deep_view(),
                i <= self.entities.len(),
                c.len() == self.entities.len(),
                cache_error_from(c, c) == cache_error_from(c, c.skip(i as int)),
            decreases self.entities.len() - i,
        {
            proof {
                assert(c.skip(i as int)[0] == c[i as int]);
                assert(c[i as int] == (self.entities@[i as int].0@, self.entities@[
                    i as int
                ].1.deep_view()));
                assert(group_wf(c[i as int].1));
            }
            match validate_type_group(&self, &self.entities[i].1) {
                Ok(()) => (),
                Err(er) => {
                    return Err(er);
                },
            }
            proof {
                assert(c.skip(i as int).drop_first() =~= c.skip(i as int + 1));
            }
            i += 1;
        }
        proof {
            assert(c.skip(c.len() as int).len() == 0);
            lemma_validated_sound(c);
        }
        Ok(self)
    }

    /// Registers an entity type under the given name, with no entities yet.
    pub fn add_type(&mut self, name: &str, decl: EntityDeclaration)
        requires
            old(self).wf(),
            decl.wf(),
        ensures
            final(self).wf(),
            final(self).deep_view() == assoc_set(
                old(self).deep_view(),
                name@,
                TypeGroupView { declaration: decl.deep_view(), entities: Seq::empty() },
            ),
    {
        let ghost c0 = self.deep_view();
        let ghost gv = TypeGroupView { declaration: decl.deep_view(), entities: Seq::empty() };
        let group = TypeGroup::new(decl);
        kv_set(&mut self.entities, name.to_owned(), group);
        proof {
            let c1 = self.deep_view();
            assert(c1 == assoc_set(c0, name@, gv));
            assert forall|i: int| 0 <= i < c1.len() implies group_wf(#[trigger] c1[i].1) by {
                if has_key(c0, name@) {
                    let ki = key_index(c0, name@);
                    if i != ki {
                        assert(c1[i] == c0[i]);
                    }
                } else {
                    if i < c0.len() {
                        assert(c1[i] == c0[i]);
                    }
                }
            }
        }
    }

    /// Stores an entity under the given id in the named type's group; the
    /// type must already be registered.
    pub fn add_entity(&mut self, ty_name: &str, name: &str, ent: Entity) -> (r: Result<
        (),
        NotFoundError,
    >)
        requires
            old(self).wf(),
            ent.wf(),
        ensures
            final(self).wf(),
            !has_key(old(self).deep_view(), ty_name@) ==> r == Err::<(), NotFoundError>(
                NotFoundError::UnknownType,
            ) && final(self).deep_view() == old(self).deep_view(),
            has_key(old(self).deep_view(), ty_name@) ==> r == Ok::<(), NotFoundError>(())
                && final(self).deep_view() == old(self).deep_view().update(
                key_index(old(self).deep_view(), ty_name@),
                (
                    ty_name@,
                    TypeGroupView {
                        declaration: old(self).deep_view()[key_index(
                            old(self).deep_view(),
                            ty_name@,
                        )].1.declaration,
                        entities: assoc_set(
                            old(self).deep_view()[key_index(old(self).deep_view(), ty_name@)]
                                .1.entities,
                            name@,
                            ent.deep_view(),
                        ),
                    },
                ),
            ),
    {
        let ghost c0 = self.deep_view();
        let key = ty_name.to_owned();
        let mut j: usize = 0;
        while j < self.entities.len()
            invariant
                cache_wf(c0),
                c0 == self.deep_view(),
                c0 == old(self).deep_view(),
                key@ == ty_name@,
                j <= self.entities.len(),
                c0.len() == self.entities.len(),
                ent.wf(),
                forall|t: int| 0 <= t < j ==> c0[t].0 != ty_name@,
            decreases self.entities.len() - j,
        {
            proof {
                assert(c0[j as int] == (self.entities@[j as int].0@, self.entities@[
                    j as int
                ].1.deep_view()));
            }
            if self.entities[j].0.eq(&key) {
                proof {
                    assert(has_key(c0, ty_name@));
                    lemma_lookup_at(c0, ty_name@, j as int);
                    assert(group_wf(c0[j as int].1));
                }
                let mut pair = self.entities.remove(j);
                let ghost g0 = pair.1.deep_view();
                pair.1.add_entity(name, ent);
                let ghost g1 = pair.1.deep_view();
                let ghost vv0 = self.entities@;
                self.entities.insert(j, pair);
                proof {
                    let c1 = self.deep_view();
                    let gv = TypeGroupView {
                        declaration: g0.declaration,
                        entities: assoc_set(g0.entities, name@, ent.deep_view()),
                    };
                    assert(g1 == gv);
                    assert forall|t: int| 0 <= t < c1.len() implies c1[t] == c0.update(
                        j as int,
                        (ty_name@, gv),
                    )[t] by {
                        assert(c1[t] == (self.entities@[t].0@, self.entities@[t].1.deep_view()));
                    }
                    assert(c1 =~= c0.update(j as int, (ty_name@, gv)));
                    assert forall|t: int| 0 <= t < c1.len() implies group_wf(
                        #[trigger] c1[t].1,
                    ) by {
                        if t != j {
                            assert(c1[t] == c0[t]);
                        }
                    }
                }
                return Ok(());
            }
            j += 1;
        }
        proof {
            if has_key(c0, ty_name@) {
                let w = key_index(c0, ty_name@);
                assert(0 <= w < c0.len() && c0[w].0 == ty_name@);
            }
        }
        Err(NotFoundError::UnknownType)
    }

    /// The group registered under the given entity-type name.
    pub fn get_group(&self, ty_name: &str) -> (r: Result<&TypeGroup, NotFoundError>)
        requires
            self.wf(),
        ensures
            match r {
                Ok(g) => lookup(self.deep_view(), ty_name@) == Some(g.deep_view()) && g.wf(),
                Err(er) => !has_key(self.deep_view(), ty_name@) && er
                    == NotFoundError::UnknownType,
            },
    {
        match kv_get(&self.entities, &ty_name.to_owned()) {
            Some(g) => {
                proof {
                    let gi = key_index(self.deep_view(), ty_name@);
                    assert(group_wf(self.deep_view()[gi].1));
                }
                Ok(g)
            },
            None => Err(NotFoundError::UnknownType),
        }
    }
}

} // verus!
