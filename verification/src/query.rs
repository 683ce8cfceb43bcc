//! The query evaluator: per-type filter, projection and sort over a cache
//! snapshot.
//!
//! A query maps entity-type names to a request: an optional `id` filter, a
//! list of field names to keep, and an optional single-field ascending
//! sort. Sorting is supported on string-valued fields only; asking to sort
//! on anything else fails the evaluation.

use vstd::prelude::*;
use vstd::seq_lib::lemma_multiset_commutative;
use vstd::string::StrSliceExecFns;

use crate::cache::{Cache, TypeGroupView};
use crate::entity::{Entity, FieldData, FieldDataView};
use crate::error::{DecodeError, QueryError};
use crate::kv::{assoc_set, has_key, key_index, keys_unique, kv_get, kv_set, lookup};
use crate::parse::{parsed_json, table_lookup, DocValue};

verus! {

/// How one type's results are to be ordered: ascending by the named field.
#[derive(Debug)]
pub struct QuerySortOptions {
    pub by: String,
}

impl DeepView for QuerySortOptions {
    type V = Seq<char>;

    open spec fn deep_view(&self) -> Seq<char> {
        self.by@
    }
}

/// One type's request: optional filter, optional sort, and the fields to
/// keep in each result record.
#[derive(Debug)]
pub struct QueryEntity {
    pub sort: Option<QuerySortOptions>,
    pub filter: Option<Vec<(String, String)>>,
    pub fields: Vec<String>,
}

/// Spec-level model of a [`QueryEntity`].
pub struct QueryEntityView {
    pub sort: Option<Seq<char>>,
    pub filter: Option<Seq<(Seq<char>, Seq<char>)>>,
    pub fields: Seq<Seq<char>>,
}

impl DeepView for QueryEntity {
    type V = QueryEntityView;

    open spec fn deep_view(&self) -> QueryEntityView {
        QueryEntityView {
            sort: match self.sort {
                Some(s) => Some(s.by@),
                None => None,
            },
            filter: match self.filter {
                Some(f) => Some(f.deep_view()),
                None => None,
            },
            fields: self.fields.deep_view(),
        }
    }
}

/// A whole query: entity-type name to request, in request order.
#[derive(Debug)]
pub struct Query {
    pub entities: Vec<(String, QueryEntity)>,
}

impl DeepView for Query {
    type V = Seq<(Seq<char>, QueryEntityView)>;

    open spec fn deep_view(&self) -> Seq<(Seq<char>, QueryEntityView)> {
        self.entities.deep_view()
    }
}

impl Query {
    /// Every filter mapping has unique keys.
    pub open spec fn wf(&self) -> bool {
        forall|i: int| 0 <= i < self.deep_view().len() ==> match (
        #[trigger] self.deep_view()[i].1).filter {
            Some(f) => keys_unique(f),
            None => true,
        }
    }
}

/// What a request's `sort` entry decodes to: absent or null means no
/// sort; a table must carry `by` as text; anything else is malformed.
pub open spec fn sort_of_doc(es: Seq<(String, DocValue)>) -> Result<Option<Seq<char>>,
    DecodeError,
> {
    match table_lookup(es, "sort"@) {
        None => Ok(None),
        Some(DocValue::Null) => Ok(None),
        Some(DocValue::Table(ss)) => match table_lookup(ss@, "by"@) {
            Some(DocValue::Str(s)) => Ok(Some(s@)),
            _ => Err(DecodeError::Malformed),
        },
        Some(_) => Err(DecodeError::Malformed),
    }
}

/// Folds a filter table's entries, in order, into a mapping; every value
/// must be text.
pub open spec fn filter_fold(
    acc: Seq<(Seq<char>, Seq<char>)>,
    es: Seq<(String, DocValue)>,
    i: int,
) -> Result<Seq<(Seq<char>, Seq<char>)>, DecodeError>
    decreases es.len() - i,
{
    if i < 0 || i >= es.len() {
        Ok(acc)
    } else {
        match es[i].1 {
            DocValue::Str(s) => filter_fold(assoc_set(acc, es[i].0@, s@), es, i + 1),
            _ => Err(DecodeError::Malformed),
        }
    }
}

/// What a request's `filter` entry decodes to: absent or null means no
/// filter; a table of text values is the mapping; anything else is
/// malformed.
pub open spec fn filter_of_doc(es: Seq<(String, DocValue)>) -> Result<
    Option<Seq<(Seq<char>, Seq<char>)>>,
    DecodeError,
> {
    match table_lookup(es, "filter"@) {
        None => Ok(None),
        Some(DocValue::Null) => Ok(None),
        Some(DocValue::Table(fs)) => match filter_fold(Seq::empty(), fs@, 0) {
            Ok(m) => Ok(Some(m)),
            Err(e) => Err(e),
        },
        Some(_) => Err(DecodeError::Malformed),
    }
}

/// Folds a `fields` list; every element must be text.
pub open spec fn fields_fold(acc: Seq<Seq<char>>, items: Seq<DocValue>, i: int) -> Result<
    Seq<Seq<char>>,
    DecodeError,
>
    decreases items.len() - i,
{
    if i < 0 || i >= items.len() {
        Ok(acc)
    } else {
        match items[i] {
            DocValue::Str(s) => fields_fold(acc.push(s@), items, i + 1),
            _ => Err(DecodeError::Malformed),
        }
    }
}

/// What a request's `fields` entry decodes to: it must be present, a list
/// of field names.
pub open spec fn fields_of_doc(es: Seq<(String, DocValue)>) -> Result<Seq<Seq<char>>,
    DecodeError,
> {
    match table_lookup(es, "fields"@) {
        Some(DocValue::Arr(items)) => fields_fold(Seq::empty(), items@, 0),
        _ => Err(DecodeError::Malformed),
    }
}

/// What one type's request decodes to; unknown keys are ignored.
pub open spec fn query_entity_of_doc(v: DocValue) -> Result<QueryEntityView, DecodeError> {
    match v {
        DocValue::Table(es) => match sort_of_doc(es@) {
            Ok(sort) => match filter_of_doc(es@) {
                Ok(filter) => match fields_of_doc(es@) {
                    Ok(fields) => Ok(QueryEntityView { sort, filter, fields }),
                    Err(e) => Err(e),
                },
                Err(e) => Err(e),
            },
            Err(e) => Err(e),
        },
        _ => Err(DecodeError::Malformed),
    }
}

/// Folds a query document's entries, in order, into a query.
pub open spec fn query_fold(
    acc: Seq<(Seq<char>, QueryEntityView)>,
    es: Seq<(String, DocValue)>,
    i: int,
) -> Result<Seq<(Seq<char>, QueryEntityView)>, DecodeError>
    decreases es.len() - i,
{
    if i < 0 || i >= es.len() {
        Ok(acc)
    } else {
        match query_entity_of_doc(es[i].1) {
            Ok(q) => query_fold(assoc_set(acc, es[i].0@, q), es, i + 1),
            Err(e) => Err(e),
        }
    }
}

/// What a whole query document decodes to.
pub open spec fn query_of_doc(d: DocValue) -> Result<Seq<(Seq<char>, QueryEntityView)>,
    DecodeError,
> {
    match d {
        DocValue::Table(es) => query_fold(Seq::empty(), es@, 0),
        _ => Err(DecodeError::Malformed),
    }
}

/// What a query text decodes to, through the outside JSON parser.
pub open spec fn query_from_text(s: Seq<char>) -> Result<Seq<(Seq<char>, QueryEntityView)>,
    DecodeError,
> {
    match parsed_json(s) {
        Some(d) => query_of_doc(d),
        None => Err(DecodeError::Syntax),
    }
}

impl QueryEntity {
    /// Decodes one type's request from a parsed document value.
    pub fn from_doc(v: &DocValue) -> (r: Result<QueryEntity, DecodeError>)
        ensures
            match r {
                Ok(q) => query_entity_of_doc(*v) == Ok::<QueryEntityView, DecodeError>(
                    q.deep_view(),
                ) && (match q.deep_view().filter {
                    Some(f) => keys_unique(f),
                    None => true,
                }),
                Err(e) => query_entity_of_doc(*v) == Err::<QueryEntityView, DecodeError>(e),
            },
    {
        let es = match v {
            DocValue::Table(es) => es,
            _ => {
                return Err(DecodeError::Malformed);
            },
        };
        let sort = match crate::parse::table_get(es, &"sort".to_owned()) {
            None => None,
            Some(DocValue::Null) => None,
            Some(DocValue::Table(ss)) => match crate::parse::table_get(ss, &"by".to_owned()) {
                Some(DocValue::Str(s)) => Some(QuerySortOptions { by: s.clone() }),
                _ => {
                    return Err(DecodeError::Malformed);
                },
            },
            Some(_) => {
                return Err(DecodeError::Malformed);
            },
        };
        let filter = match crate::parse::table_get(es, &"filter".to_owned()) {
            None => None,
            Some(DocValue::Null) => None,
            Some(DocValue::Table(fs)) => {
                let mut m: Vec<(String, String)> = Vec::new();
                let mut bad = false;
                let mut i: usize = 0;
                proof {
                    assert(m.deep_view() =~= Seq::<(Seq<char>, Seq<char>)>::empty());
                }
                while i < fs.len() && !bad
                    invariant
                        i <= fs.len(),
                        keys_unique(m.deep_view()),
                        !bad ==> filter_fold(Seq::empty(), fs@, 0) == filter_fold(
                            m.deep_view(),
                            fs@,
                            i as int,
                        ),
                        bad ==> filter_fold(Seq::empty(), fs@, 0) == Err::<Seq<(Seq<char>,
                            Seq<char>,
                        )>, _>(DecodeError::Malformed),
                    decreases fs.len() - i,
                {
                    match &fs[i].1 {
                        DocValue::Str(s) => {
                            let ghost m0 = m.deep_view();
                            kv_set(&mut m, fs[i].0.clone(), s.clone());
                            proof {
                                assert(m.deep_view() == assoc_set(m0, fs@[i as int].0@, s@));
                            }
                        },
                        _ => {
                            bad = true;
                            proof {
                                assert(filter_fold(m.deep_view(), fs@, i as int) == Err::<Seq<(
                                    Seq<char>,
                                    Seq<char>,
                                )>, _>(DecodeError::Malformed));
                            }
                        },
                    }
                    i += 1;
                }
                if bad {
                    return Err(DecodeError::Malformed);
                }
                Some(m)
            },
            Some(_) => {
                return Err(DecodeError::Malformed);
            },
        };
        let fields = match crate::parse::table_get(es, &"fields".to_owned()) {
            Some(DocValue::Arr(items)) => {
                let mut out: Vec<String> = Vec::new();
                let mut bad = false;
                let mut i: usize = 0;
                proof {
                    assert(out.deep_view() =~= Seq::<Seq<char>>::empty());
                }
                while i < items.len() && !bad
                    invariant
                        i <= items.len(),
                        !bad ==> fields_fold(Seq::empty(), items@, 0) == fields_fold(
                            out.deep_view(),
                            items@,
                            i as int,
                        ),
                        bad ==> fields_fold(Seq::empty(), items@, 0) == Err::<Seq<Seq<char>>, _>(
                            DecodeError::Malformed,
                        ),
                    decreases items.len() - i,
                {
                    match &items[i] {
                        DocValue::Str(s) => {
                            let ghost o0 = out.deep_view();
                            let ghost ov0 = out@;
                            out.push(s.clone());
                            proof {
                                assert forall|t: int| 0 <= t < out.deep_view().len() implies
                                    out.deep_view()[t] == o0.push(s@)[t] by {
                                    assert(out.deep_view()[t] == out@[t]@);
                                    if t < o0.len() {
                                        assert(out@[t] == ov0[t]);
                                        assert(o0[t] == ov0[t]@);
                                    }
                                }
                                assert(out.deep_view() =~= o0.push(s@));
                            }
                        },
                        _ => {
                            bad = true;
                            proof {
                                assert(fields_fold(out.deep_view(), items@, i as int) == Err::<
                                    Seq<Seq<char>>,
                                    _,
                                >(DecodeError::Malformed));
                            }
                        },
                    }
                    i += 1;
                }
                if bad {
                    return Err(DecodeError::Malformed);
                }
                out
            },
            _ => {
                return Err(DecodeError::Malformed);
            },
        };
        Ok(QueryEntity { sort, filter, fields })
    }
}

impl Query {
    /// Decodes a whole query document from its text.
    pub fn from_str(input: &str) -> (r: Result<Query, DecodeError>)
        ensures
            match r {
                Ok(q) => query_from_text(input@) == Ok::<_, DecodeError>(q.deep_view())
                    && q.wf(),
                Err(e) => query_from_text(input@) == Err::<Seq<(Seq<char>, QueryEntityView)>, _>(
                    e,
                ),
            },
    {
        let d = match crate::parse::parse_query_document(input) {
            Some(d) => d,
            None => {
                return Err(DecodeError::Syntax);
            },
        };
        let es = match &d {
            DocValue::Table(es) => es,
            _ => {
                return Err(DecodeError::Malformed);
            },
        };
        let mut acc: Vec<(String, QueryEntity)> = Vec::new();
        let mut failed: Option<DecodeError> = None;
        let mut i: usize = 0;
        proof {
            assert(acc.deep_view() =~= Seq::<(Seq<char>, QueryEntityView)>::empty());
        }
        while i < es.len() && failed.is_none()
            invariant
                i <= es.len(),
                keys_unique(acc.deep_view()),
                forall|t: int| 0 <= t < acc.deep_view().len() ==> match (
                #[trigger] acc.deep_view()[t].1).filter {
                    Some(f) => keys_unique(f),
                    None => true,
                },
                failed is None ==> query_fold(Seq::empty(), es@, 0) == query_fold(
                    acc.deep_view(),
                    es@,
                    i as int,
                ),
                match failed {
                    Some(e) => query_fold(Seq::empty(), es@, 0) == Err::<Seq<(Seq<char>,
                        QueryEntityView,
                    )>, _>(e),
                    None => true,
                },
            decreases es.len() - i,
        {
            match QueryEntity::from_doc(&es[i].1) {
                Ok(q) => {
                    let ghost a0 = acc.deep_view();
                    let ghost qdv = q.deep_view();
                    kv_set(&mut acc, es[i].0.clone(), q);
                    proof {
                        assert(acc.deep_view() == assoc_set(a0, es@[i as int].0@, qdv));
                        assert forall|t: int| 0 <= t < acc.deep_view().len() implies match (
                        #[trigger] acc.deep_view()[t].1).filter {
                            Some(f) => keys_unique(f),
                            None => true,
                        } by {
                            if has_key(a0, es@[i as int].0@) {
                                let ki = key_index(a0, es@[i as int].0@);
                                if t != ki {
                                    assert(acc.deep_view()[t] == a0[t]);
                                }
                            } else {
                                if t < a0.len() {
                                    assert(acc.deep_view()[t] == a0[t]);
                                }
                            }
                        }
                    }
                },
                Err(e) => {
                    proof {
                        assert(query_fold(acc.deep_view(), es@, i as int) == Err::<Seq<(Seq<char>,
                            QueryEntityView,
                        )>, _>(e));
                    }
                    failed = Some(e);
                },
            }
            i += 1;
        }
        match failed {
            Some(e) => Err(e),
            None => Ok(Query { entities: acc }),
        }
    }
}

/// One field value of a result record.
#[derive(Debug)]
pub enum QueryResultFieldData {
    Str(String),
    Bin(Vec<u8>),
    Num(u64),
}

impl DeepView for QueryResultFieldData {
    type V = FieldDataView;

    open spec fn deep_view(&self) -> FieldDataView {
        match self {
            QueryResultFieldData::Str(s) => FieldDataView::Str(s@),
            QueryResultFieldData::Bin(b) => FieldDataView::Bin(b@),
            QueryResultFieldData::Num(bits) => FieldDataView::Num(*bits),
        }
    }
}

impl QueryResultFieldData {
    /// Copies a stored field value into a result record.
    pub fn of_field_data(d: &FieldData) -> (r: QueryResultFieldData)
        ensures
            r.deep_view() == d.deep_view(),
    {
        match d.duplicate() {
            FieldData::Str(s) => QueryResultFieldData::Str(s),
            FieldData::Bin(b) => QueryResultFieldData::Bin(b),
            FieldData::Num(bits) => QueryResultFieldData::Num(bits),
        }
    }

    /// A copy with the same model.
    pub fn duplicate(&self) -> (r: QueryResultFieldData)
        ensures
            r.deep_view() == self.deep_view(),
    {
        match self {
            QueryResultFieldData::Str(s) => QueryResultFieldData::Str(s.clone()),
            QueryResultFieldData::Bin(b) => {
                QueryResultFieldData::Bin(crate::entity::copy_bytes(b))
            },
            QueryResultFieldData::Num(bits) => QueryResultFieldData::Num(*bits),
        }
    }
}

/// One result record: the entity's id and its kept fields.
#[derive(Debug)]
pub struct QueryResultEntity {
    pub id: String,
    pub fields: Vec<(String, QueryResultFieldData)>,
}

/// Spec-level model of a [`QueryResultEntity`].
pub struct RecordView {
    pub id: Seq<char>,
    pub fields: Seq<(Seq<char>, FieldDataView)>,
}

impl DeepView for QueryResultEntity {
    type V = RecordView;

    open spec fn deep_view(&self) -> RecordView {
        RecordView { id: self.id@, fields: self.fields.deep_view() }
    }
}

/// The evaluation's result: requested type name to its records, in request
/// order.
#[derive(Debug)]
pub struct QueryResult {
    pub groups: Vec<(String, Vec<QueryResultEntity>)>,
}

impl DeepView for QueryResult {
    type V = Seq<(Seq<char>, Seq<RecordView>)>;

    open spec fn deep_view(&self) -> Seq<(Seq<char>, Seq<RecordView>)> {
        self.groups.deep_view()
    }
}

/// Whether an entity passes the request's filter: no filter admits every
/// entity; a filter admits exactly the entity whose id the filter's `id`
/// key names, and a filter without an `id` key admits nothing.
pub open spec fn pass_filter(filter: Option<Seq<(Seq<char>, Seq<char>)>>, id: Seq<char>) -> bool {
    match filter {
        None => true,
        Some(f) => match lookup(f, "id"@) {
            Some(v) => v == id,
            None => false,
        },
    }
}

/// The entity's fields restricted to the requested names, in field order.
pub open spec fn project(
    e: Seq<(Seq<char>, FieldDataView)>,
    fields: Seq<Seq<char>>,
) -> Seq<(Seq<char>, FieldDataView)> {
    e.filter(|p: (Seq<char>, FieldDataView)| fields.contains(p.0))
}

/// The records a request selects from the given entities: those that pass
/// the filter, in order, each projected to the requested fields.
pub open spec fn sel_of(
    ents: Seq<(Seq<char>, Seq<(Seq<char>, FieldDataView)>)>,
    q: QueryEntityView,
) -> Seq<RecordView> {
    ents.filter(
        |p: (Seq<char>, Seq<(Seq<char>, FieldDataView)>)| pass_filter(q.filter, p.0),
    ).map_values(
        |p: (Seq<char>, Seq<(Seq<char>, FieldDataView)>)|
            RecordView { id: p.0, fields: project(p.1, q.fields) },
    )
}

/// The records a request selects from a group, before any sort.
pub open spec fn selected_records(g: TypeGroupView, q: QueryEntityView) -> Seq<RecordView> {
    sel_of(g.entities, q)
}

/// Lexicographic order on character sequences, by code point.
pub open spec fn lex_le(a: Seq<char>, b: Seq<char>) -> bool
    decreases a.len(),
{
    if a.len() == 0 {
        true
    } else if b.len() == 0 {
        false
    } else if (a[0] as u32) == (b[0] as u32) {
        lex_le(a.drop_first(), b.drop_first())
    } else {
        (a[0] as u32) < (b[0] as u32)
    }
}

/// The sort key of a record: its `by` field, which must hold a string.
pub open spec fn sort_key(r: RecordView, by: Seq<char>) -> Option<Seq<char>> {
    match lookup(r.fields, by) {
        Some(FieldDataView::Str(s)) => Some(s),
        _ => None,
    }
}

/// The sort key's text, where the key exists.
pub open spec fn key_of(r: RecordView, by: Seq<char>) -> Seq<char> {
    match lookup(r.fields, by) {
        Some(FieldDataView::Str(s)) => s,
        _ => Seq::empty(),
    }
}

/// Every record carries a string-valued `by` field.
pub open spec fn sortable(rs: Seq<RecordView>, by: Seq<char>) -> bool {
    forall|i: int| 0 <= i < rs.len() ==> sort_key(#[trigger] rs[i], by) is Some
}

/// The records are in ascending order of their sort keys.
pub open spec fn sorted_by_key(rs: Seq<RecordView>, by: Seq<char>) -> bool {
    forall|i: int, j: int| 0 <= i < j < rs.len() ==> lex_le(key_of(rs[i], by), key_of(rs[j], by))
}

/// The order is total.
pub proof fn lemma_lex_le_total(a: Seq<char>, b: Seq<char>)
    ensures
        lex_le(a, b) || lex_le(b, a),
    decreases a.len(),
{
    if a.len() != 0 && b.len() != 0 && (a[0] as u32) == (b[0] as u32) {
        lemma_lex_le_total(a.drop_first(), b.drop_first());
    }
}

/// The order is transitive.
pub proof fn lemma_lex_le_trans(a: Seq<char>, b: Seq<char>, c: Seq<char>)
    requires
        lex_le(a, b),
        lex_le(b, c),
    ensures
        lex_le(a, c),
    decreases a.len(),
{
    if a.len() != 0 && b.len() != 0 && c.len() != 0 {
        if (a[0] as u32) == (b[0] as u32) && (b[0] as u32) == (c[0] as u32) {
            lemma_lex_le_trans(a.drop_first(), b.drop_first(), c.drop_first());
        }
    }
}

/// Compares two strings in the lexicographic order of their characters.
fn str_lex_le(a: &str, b: &str) -> (r: bool)
    ensures
        r == lex_le(a@, b@),
{
    let alen = a.unicode_len();
    let blen = b.unicode_len();
    let mut i: usize = 0;
    proof {
        assert(a@.skip(0) =~= a@);
        assert(b@.skip(0) =~= b@);
    }
    while i < alen && i < blen
        invariant
            i <= alen,
            i <= blen,
            alen == a@.len(),
            blen == b@.len(),
            lex_le(a@, b@) == lex_le(a@.skip(i as int), b@.skip(i as int)),
        decreases alen - i,
    {
        let ca = a.get_char(i);
        let cb = b.get_char(i);
        proof {
            assert(a@.skip(i as int)[0] == a@[i as int]);
            assert(b@.skip(i as int)[0] == b@[i as int]);
        }
        if (ca as u32) != (cb as u32) {
            return (ca as u32) < (cb as u32);
        }
        proof {
            assert(a@.skip(i as int).drop_first() =~= a@.skip(i as int + 1));
            assert(b@.skip(i as int).drop_first() =~= b@.skip(i as int + 1));
        }
        i += 1;
    }
    proof {
        if i >= alen {
            assert(a@.skip(i as int).len() == 0);
        } else {
            assert(b@.skip(i as int).len() == 0);
            assert(a@.skip(i as int).len() > 0);
        }
    }
    alen <= blen
}

/// Inserting an element anywhere adds exactly it to the sequence's
/// multiset.
proof fn lemma_insert_to_multiset<A>(s: Seq<A>, i: int, a: A)
    requires
        0 <= i <= s.len(),
    ensures
        s.insert(i, a).to_multiset() =~= s.to_multiset().insert(a),
{
    broadcast use vstd::seq_lib::group_to_multiset_ensures;
    broadcast use vstd::multiset::group_multiset_axioms;

    let pre = s.subrange(0, i);
    let post = s.subrange(i, s.len() as int);
    assert(s.insert(i, a) =~= pre.push(a) + post);
    assert(s =~= pre + post);
    lemma_multiset_commutative(pre.push(a), post);
    lemma_multiset_commutative(pre, post);
    assert(pre.push(a).to_multiset() =~= pre.to_multiset().insert(a));
}

/// The record's sort key, read off the record itself.
fn record_key<'a>(r: &'a QueryResultEntity, by: &String) -> (res: Option<&'a String>)
    requires
        keys_unique(r.deep_view().fields),
    ensures
        match res {
            Some(s) => sort_key(r.deep_view(), by@) == Some(s@),
            None => sort_key(r.deep_view(), by@) is None,
        },
{
    match kv_get(&r.fields, by) {
        Some(QueryResultFieldData::Str(s)) => Some(s),
        _ => None,
    }
}

/// Sorts the records ascending by the named field, which each record must
/// carry as a string.
fn sort_records(v: &mut Vec<QueryResultEntity>, by: &String)
    requires
        sortable(old(v).deep_view(), by@),
        forall|i: int| 0 <= i < old(v)@.len() ==> keys_unique(
            (#[trigger] old(v).deep_view()[i]).fields,
        ),
    ensures
        final(v).deep_view().to_multiset() == old(v).deep_view().to_multiset(),
        sorted_by_key(final(v).deep_view(), by@),
        sortable(final(v).deep_view(), by@),
{
    broadcast use vstd::seq_lib::group_to_multiset_ensures;
    broadcast use vstd::multiset::group_multiset_axioms;

    let ghost orig = old(v).deep_view();
    let mut out: Vec<QueryResultEntity> = Vec::new();
    proof {
        assert(out.deep_view() =~= Seq::<RecordView>::empty());
        assert forall|a: RecordView| true implies out.deep_view().to_multiset().count(a) == 0 by {
            if out.deep_view().to_multiset().count(a) > 0 {
                assert(out.deep_view().contains(a));
            }
        }
        assert(out.deep_view().to_multiset().add(v.deep_view().to_multiset()) =~= orig.to_multiset());
    }
    while v.len() > 0
        invariant
            sortable(v.deep_view(), by@),
            sortable(out.deep_view(), by@),
            sorted_by_key(out.deep_view(), by@),
            forall|i: int| 0 <= i < v@.len() ==> keys_unique((#[trigger] v.deep_view()[i]).fields),
            forall|i: int| 0 <= i < out@.len() ==> keys_unique(
                (#[trigger] out.deep_view()[i]).fields,
            ),
            out.deep_view().to_multiset().add(v.deep_view().to_multiset()) =~= orig.to_multiset(),
        decreases v.len(),
    {
        let ghost vdv0 = v.deep_view();
        let ghost odv0 = out.deep_view();
        let rec = match v.pop() {
            Some(rec) => rec,
            None => {
                proof {
                    assert(vdv0.len() > 0);
                    assert(false);
                }
                return ;
            },
        };
        proof {
            assert(vdv0[vdv0.len() - 1] == rec.deep_view());
            assert(v.deep_view() =~= vdv0.drop_last());
            assert(vdv0.drop_last() =~= vdv0.remove(vdv0.len() - 1));
            vdv0.to_multiset_ensures();
            assert(vdv0.remove(vdv0.len() - 1).to_multiset() =~= vdv0.to_multiset().remove(
                vdv0[vdv0.len() - 1],
            ));
            assert(vdv0.contains(rec.deep_view())) by {
                assert(vdv0[vdv0.len() - 1] == rec.deep_view());
            }
            assert(vdv0.to_multiset().contains(rec.deep_view()));
            assert(v.deep_view().to_multiset() =~= vdv0.to_multiset().remove(rec.deep_view()));
        }
        let rkey = match record_key(&rec, by) {
            Some(s) => s,
            None => {
                proof {
                    assert(sort_key(vdv0[vdv0.len() - 1], by@) is Some);
                    assert(false);
                }
                return ;
            },
        };
        let mut k: usize = 0;
        while k < out.len()
            invariant
                0 <= k <= out.len(),
                out.deep_view() == odv0,
                sortable(odv0, by@),
                forall|i: int| 0 <= i < out@.len() ==> keys_unique(
                    (#[trigger] out.deep_view()[i]).fields,
                ),
                rkey@ == key_of(rec.deep_view(), by@),
                forall|t: int| 0 <= t < k ==> lex_le(key_of(odv0[t], by@), rkey@),
            ensures
                k <= out.len(),
                out.deep_view() == odv0,
                forall|t: int| 0 <= t < k ==> lex_le(key_of(odv0[t], by@), rkey@),
                k < out.len() ==> lex_le(rkey@, key_of(odv0[k as int], by@)),
            decreases out.len() - k,
        {
            let okey = match record_key(&out[k], by) {
                Some(s) => s,
                None => {
                    proof {
                        assert(sort_key(odv0[k as int], by@) is Some);
                        assert(false);
                    }
                    return ;
                },
            };
            if !str_lex_le(okey.as_str(), rkey.as_str()) {
                proof {
                    lemma_lex_le_total(key_of(odv0[k as int], by@), rkey@);
                }
                break ;
            }
            k += 1;
        }
        let ghost pos = k as int;
        let ghost rdv = rec.deep_view();
        out.insert(k, rec);
        proof {
            let odv1 = out.deep_view();
            assert(odv1 =~= odv0.insert(pos, rdv));
            lemma_insert_to_multiset(odv0, pos, rdv);
            assert(odv1.to_multiset().add(v.deep_view().to_multiset()) =~= orig.to_multiset());
            assert forall|i: int| 0 <= i < odv1.len() implies sort_key(#[trigger] odv1[i], by@)
                is Some && keys_unique(odv1[i].fields) by {
                if i < pos {
                    assert(odv1[i] == odv0[i]);
                } else if i > pos {
                    assert(odv1[i] == odv0[i - 1]);
                } else {
                    assert(odv1[i] == rdv);
                    assert(rdv == vdv0[vdv0.len() - 1]);
                }
            }
            assert forall|i: int, j: int| 0 <= i < j < odv1.len() implies lex_le(
                key_of(odv1[i], by@),
                key_of(odv1[j], by@),
            ) by {
                if j < pos {
                    assert(odv1[i] == odv0[i] && odv1[j] == odv0[j]);
                } else if i > pos {
                    assert(odv1[i] == odv0[i - 1] && odv1[j] == odv0[j - 1]);
                } else if i < pos && j == pos {
                    assert(odv1[i] == odv0[i] && odv1[j] == rdv);
                } else if i == pos && j == pos + 1 {
                    assert(odv1[i] == rdv && odv1[j] == odv0[pos]);
                } else if i == pos && j > pos + 1 {
                    assert(odv1[i] == rdv && odv1[j] == odv0[j - 1]);
                    lemma_lex_le_trans(rkey@, key_of(odv0[pos], by@), key_of(odv0[j - 1], by@));
                } else if i < pos && j > pos {
                    assert(odv1[i] == odv0[i] && odv1[j] == odv0[j - 1]);
                }
            }
        }
    }
    proof {
        assert(v.deep_view() =~= Seq::<RecordView>::empty());
        assert forall|a: RecordView| true implies v.deep_view().to_multiset().count(a) == 0 by {
            if v.deep_view().to_multiset().count(a) > 0 {
                assert(v.deep_view().contains(a));
            }
        }
        assert(out.deep_view().to_multiset() =~= orig.to_multiset());
    }
    *v = out;
}

/// Whether the list of requested names carries this one.
fn contains_name(fields: &Vec<String>, name: &String) -> (r: bool)
    ensures
        r == fields.deep_view().contains(name@),
{
    let mut i: usize = 0;
    while i < fields.len()
        invariant
            i <= fields.len(),
            forall|j: int| 0 <= j < i ==> fields.deep_view()[j] != name@,
        decreases fields.len() - i,
    {
        proof {
            assert(fields.deep_view()[i as int] == fields@[i as int]@);
        }
        if fields[i].eq(name) {
            proof {
                assert(fields.deep_view()[i as int] == name@);
            }
            return true;
        }
        i += 1;
    }
    proof {
        if fields.deep_view().contains(name@) {
            let j = choose|j: int| 0 <= j < fields.deep_view().len() && fields.deep_view()[j]
                == name@;
            assert(fields.deep_view()[j] != name@);
        }
    }
    false
}

/// Every projected field is one of the entity's fields.
proof fn lemma_project_subset(e: Seq<(Seq<char>, FieldDataView)>, fs: Seq<Seq<char>>)
    ensures
        forall|x: int| 0 <= x < project(e, fs).len() ==> e.contains(#[trigger] project(e, fs)[x]),
    decreases e.len(),
{
    reveal(Seq::filter);
    if e.len() > 0 {
        lemma_project_subset(e.drop_last(), fs);
        let sub = project(e.drop_last(), fs);
        assert(e.drop_last() =~= e.drop_last());
        assert forall|x: int| 0 <= x < project(e, fs).len() implies e.contains(
            #[trigger] project(e, fs)[x],
        ) by {
            if x < sub.len() {
                assert(project(e, fs)[x] == sub[x]);
                assert(e.drop_last().contains(sub[x]));
                let j = choose|j: int| 0 <= j < e.drop_last().len() && e.drop_last()[j] == sub[x];
                assert(e[j] == sub[x]);
            } else {
                assert(project(e, fs)[x] == e.last());
                assert(e[e.len() - 1] == e.last());
            }
        }
    }
}

/// Projecting a field list with unique names keeps the names unique.
proof fn lemma_project_keys_unique(e: Seq<(Seq<char>, FieldDataView)>, fs: Seq<Seq<char>>)
    requires
        keys_unique(e),
    ensures
        keys_unique(project(e, fs)),
    decreases e.len(),
{
    reveal(Seq::filter);
    if e.len() > 0 {
        assert(keys_unique(e.drop_last()));
        lemma_project_keys_unique(e.drop_last(), fs);
        lemma_project_subset(e.drop_last(), fs);
        let sub = project(e.drop_last(), fs);
        if fs.contains(e.last().0) {
            assert(project(e, fs) =~= sub.push(e.last()));
            assert forall|x: int| 0 <= x < sub.len() implies sub[x].0 != e.last().0 by {
                assert(e.drop_last().contains(sub[x]));
                let j = choose|j: int|
                    0 <= j < e.drop_last().len() && e.drop_last()[j] == sub[x];
                assert(e[j] == sub[x]);
                assert(e[j].0 != e[e.len() - 1].0);
            }
        } else {
            assert(project(e, fs) =~= sub);
        }
    }
}

impl QueryResultEntity {
    /// A result record holding the entity's id and all of its fields.
    pub fn of_entity(id: &String, e: &Entity) -> (r: QueryResultEntity)
        ensures
            r.deep_view() == (RecordView { id: id@, fields: e.deep_view() }),
    {
        let mut fields: Vec<(String, QueryResultFieldData)> = Vec::new();
        let mut i: usize = 0;
        proof {
            assert(fields.deep_view() =~= e.deep_view().take(0));
        }
        while i < e.fields.len()
            invariant
                i <= e.fields.len(),
                e.deep_view().len() == e.fields.len(),
                fields.deep_view() == e.deep_view().take(i as int),
            decreases e.fields.len() - i,
        {
            proof {
                assert(e.deep_view()[i as int] == (e.fields@[i as int].0@, e.fields@[
                    i as int
                ].1.deep_view()));
            }
            let name = e.fields[i].0.clone();
            let value = QueryResultFieldData::of_field_data(&e.fields[i].1);
            let ghost k0 = fields.deep_view();
            let ghost vv0 = fields@;
            let ghost pr = (name, value);
            fields.push((name, value));
            proof {
                assert(fields@ == vv0.push(pr));
                let k1 = fields.deep_view();
                assert(k0.len() == i as int);
                assert forall|t: int| 0 <= t < k1.len() implies k1[t] == e.deep_view().take(
                    i as int + 1,
                )[t] by {
                    assert(k1[t] == (fields@[t].0@, fields@[t].1.deep_view()));
                    if t < i as int {
                        assert(vv0.push(pr)[t] == vv0[t]);
                        assert(k0[t] == (vv0[t].0@, vv0[t].1.deep_view()));
                        assert(k0[t] == e.deep_view()[t]);
                    } else {
                        assert(vv0.push(pr)[t] == pr);
                    }
                }
                assert(fields.deep_view() =~= e.deep_view().take(i as int + 1));
            }
            i += 1;
        }
        proof {
            assert(e.deep_view().take(e.deep_view().len() as int) =~= e.deep_view());
        }
        QueryResultEntity { id: id.clone(), fields }
    }

    /// Drops every field whose name the request does not ask for, keeping
    /// the record's field order.
    pub fn filter_fields(&mut self, fields: &Vec<String>)
        ensures
            final(self).deep_view() == (RecordView {
                id: old(self).deep_view().id,
                fields: project(old(self).deep_view().fields, fields.deep_view()),
            }),
            keys_unique(old(self).deep_view().fields) ==> keys_unique(
                final(self).deep_view().fields,
            ),
    {
        let ghost efields = self.deep_view().fields;
        let ghost fs = fields.deep_view();
        let mut kept: Vec<(String, QueryResultFieldData)> = Vec::new();
        let mut i: usize = 0;
        proof {
            reveal(Seq::filter);
            assert(efields.take(0).len() == 0);
            assert(kept.deep_view() =~= project(efields.take(0), fs));
        }
        while i < self.fields.len()
            invariant
                i <= self.fields.len(),
                efields == self.deep_view().fields,
                fs == fields.deep_view(),
                efields.len() == self.fields.len(),
                kept.deep_view() == project(efields.take(i as int), fs),
            decreases self.fields.len() - i,
        {
            proof {
                assert(efields[i as int] == (self.fields@[i as int].0@, self.fields@[
                    i as int
                ].1.deep_view()));
            }
            let keep = contains_name(fields, &self.fields[i].0);
            proof {
                reveal(Seq::filter);
                let pre = efields.take(i as int);
                let pre1 = efields.take(i as int + 1);
                assert(pre1.drop_last() =~= pre);
                assert(pre1.last() == efields[i as int]);
                if keep {
                    assert(project(pre1, fs) =~= project(pre, fs).push(efields[i as int]));
                } else {
                    assert(project(pre1, fs) =~= project(pre, fs));
                }
            }
            if keep {
                let name = self.fields[i].0.clone();
                let value = self.fields[i].1.duplicate();
                let ghost k0 = kept.deep_view();
                let ghost vv0 = kept@;
                kept.push((name, value));
                proof {
                    let k1 = kept.deep_view();
                    assert forall|t: int| 0 <= t < k1.len() implies k1[t] == project(
                        efields.take(i as int + 1),
                        fs,
                    )[t] by {
                        assert(k1[t] == (kept@[t].0@, kept@[t].1.deep_view()));
                        if t < k0.len() {
                            assert(kept@[t] == vv0[t]);
                            assert(k0[t] == (vv0[t].0@, vv0[t].1.deep_view()));
                        }
                    }
                    assert(kept.deep_view() =~= project(efields.take(i as int + 1), fs));
                }
            }
            i += 1;
        }
        proof {
            assert(efields.take(efields.len() as int) =~= efields);
            if keys_unique(efields) {
                lemma_project_keys_unique(efields, fs);
            }
        }
        self.fields = kept;
    }
}

/// The first failure a query runs into, in request order: an unknown
/// entity-type name, or a sort on a field some selected record lacks or
/// does not hold as a string.
pub open spec fn eval_error_from(
    c: Seq<(Seq<char>, TypeGroupView)>,
    qs: Seq<(Seq<char>, QueryEntityView)>,
) -> Option<QueryError>
    decreases qs.len(),
{
    if qs.len() == 0 {
        None
    } else {
        match lookup(c, qs[0].0) {
            None => Some(QueryError::UnknownType),
            Some(g) => match qs[0].1.sort {
                Some(by) => if !sortable(sel_of(g.entities, qs[0].1), by) {
                    Some(QueryError::UnsortableField)
                } else {
                    eval_error_from(c, qs.drop_first())
                },
                None => eval_error_from(c, qs.drop_first()),
            },
        }
    }
}

/// What one requested type's result list must be: the selected records,
/// exactly and in group order when no sort is asked for; some ascending
/// arrangement of exactly the selected records when a sort is.
pub open spec fn group_result_ok(
    c: Seq<(Seq<char>, TypeGroupView)>,
    ty: Seq<char>,
    q: QueryEntityView,
    out: Seq<RecordView>,
) -> bool {
    match lookup(c, ty) {
        Some(g) => {
            match q.sort {
                None => out == sel_of(g.entities, q),
                Some(by) => out.to_multiset() == sel_of(g.entities, q).to_multiset()
                    && sorted_by_key(out, by),
            }
        },
        None => false,
    }
}

impl Query {
    /// Evaluates the query against a cache snapshot: per requested type,
    /// filter, project, and optionally sort, grouped back by type name in
    /// request order.
    pub fn evaluate(&self, cache: &Cache) -> (r: Result<QueryResult, QueryError>)
        requires
            cache.wf(),
            self.wf(),
        ensures
            match r {
                Ok(res) => {
                    &&& eval_error_from(cache.deep_view(), self.deep_view()) is None
                    &&& res.deep_view().len() == self.deep_view().len()
                    &&& forall|i: int| 0 <= i < self.deep_view().len() ==> (
                    #[trigger] res.deep_view()[i]).0 == self.deep_view()[i].0
                        && group_result_ok(
                        cache.deep_view(),
                        self.deep_view()[i].0,
                        self.deep_view()[i].1,
                        res.deep_view()[i].1,
                    )
                },
                Err(e) => eval_error_from(cache.deep_view(), self.deep_view()) == Some(e),
            },
    {
        let ghost c = cache.deep_view();
        let ghost qdv = self.deep_view();
        let mut groups: Vec<(String, Vec<QueryResultEntity>)> = Vec::new();
        let mut i: usize = 0;
        proof {
            assert(qdv.skip(0) =~= qdv);
            assert(groups.deep_view() =~= Seq::<(Seq<char>, Seq<RecordView>)>::empty());
        }
        while i < self.entities.len()
            invariant
                cache.wf(),
                self.wf(),
                c == cache.deep_view(),
                qdv == self.deep_view(),
                i <= self.entities.len(),
                qdv.len() == self.entities.len(),
                groups.deep_view().len() == i,
                forall|t: int| 0 <= t < i ==> (#[trigger] groups.deep_view()[t]).0 == qdv[t].0
                    && group_result_ok(c, qdv[t].0, qdv[t].1, groups.deep_view()[t].1),
                eval_error_from(c, qdv) == eval_error_from(c, qdv.skip(i as int)),
            decreases self.entities.len() - i,
        {
            proof {
                assert(qdv.skip(i as int)[0] == qdv[i as int]);
                assert(qdv[i as int] == (self.entities@[i as int].0@, self.entities@[
                    i as int
                ].1.deep_view()));
            }
            let ty = &self.entities[i].0;
            let q = &self.entities[i].1;
            let ghost qv = q.deep_view();
            let group = match cache.get_group(ty.as_str()) {
                Ok(g) => g,
                Err(_) => {
                    return Err(QueryError::UnknownType);
                },
            };
            let ghost gdv = group.deep_view();
            let mut out: Vec<QueryResultEntity> = Vec::new();
            let mut j: usize = 0;
            proof {
                reveal(Seq::filter);
                assert(gdv.entities.take(0).len() == 0);
                assert(out.deep_view() =~= sel_of(gdv.entities.take(0), qv));
            }
            while j < group.entities.len()
                invariant
                    self.wf(),
                    qdv == self.deep_view(),
                    0 <= i < qdv.len(),
                    qv == qdv[i as int].1,
                    qv == self.entities@[i as int].1.deep_view(),
                    qv == q.deep_view(),
                    gdv == group.deep_view(),
                    crate::cache::group_wf(gdv),
                    j <= group.entities.len(),
                    gdv.entities.len() == group.entities.len(),
                    out.deep_view() == sel_of(gdv.entities.take(j as int), qv),
                    forall|t: int| 0 <= t < out.deep_view().len() ==> keys_unique(
                        (#[trigger] out.deep_view()[t]).fields,
                    ),
                decreases group.entities.len() - j,
            {
                proof {
                    assert(gdv.entities[j as int] == (group.entities@[j as int].0@,
                    group.entities@[j as int].1.deep_view()));
                }
                let id = &group.entities[j].0;
                let ent = &group.entities[j].1;
                let pass = match &q.filter {
                    None => true,
                    Some(f) => {
                        proof {
                            assert(qv.filter == Some(f.deep_view()));
                            assert(keys_unique(f.deep_view()));
                        }
                        match kv_get(f, &"id".to_owned()) {
                            Some(val) => val.eq(id),
                            None => false,
                        }
                    },
                };
                proof {
                    reveal(Seq::filter);
                    assert(pass == pass_filter(qv.filter, gdv.entities[j as int].0));
                    let pre = gdv.entities.take(j as int);
                    let pre1 = gdv.entities.take(j as int + 1);
                    assert(pre1.drop_last() =~= pre);
                    assert(pre1.last() == gdv.entities[j as int]);
                    if pass {
                        assert(sel_of(pre1, qv) =~= sel_of(pre, qv).push(
                            RecordView {
                                id: gdv.entities[j as int].0,
                                fields: project(gdv.entities[j as int].1, qv.fields),
                            },
                        ));
                    } else {
                        assert(sel_of(pre1, qv) =~= sel_of(pre, qv));
                    }
                }
                if pass {
                    let mut record = QueryResultEntity::of_entity(id, ent);
                    record.filter_fields(&q.fields);
                    proof {
                        assert(keys_unique(gdv.entities[j as int].1));
                        lemma_project_keys_unique(gdv.entities[j as int].1, qv.fields);
                        assert(record.deep_view() == (RecordView {
                            id: gdv.entities[j as int].0,
                            fields: project(gdv.entities[j as int].1, qv.fields),
                        }));
                    }
                    let ghost out0 = out.deep_view();
                    let ghost ov0 = out@;
                    let ghost rdv = record.deep_view();
                    out.push(record);
                    proof {
                        let out1 = out.deep_view();
                        assert forall|t: int| 0 <= t < out1.len() implies out1[t] == out0.push(
                            rdv,
                        )[t] by {
                            assert(out1[t] == out@[t].deep_view());
                            if t < out0.len() {
                                assert(out@[t] == ov0[t]);
                                assert(out0[t] == ov0[t].deep_view());
                            }
                        }
                        assert(out1 =~= out0.push(rdv));
                        assert(out1 =~= sel_of(gdv.entities.take(j as int + 1), qv));
                    }
                }
                j += 1;
            }
            proof {
                assert(gdv.entities.take(gdv.entities.len() as int) =~= gdv.entities);
            }
            match &q.sort {
                None => {
                    proof {
                        assert(qv.sort is None);
                    }
                },
                Some(sort_options) => {
                    let by = &sort_options.by;
                    proof {
                        assert(qv.sort == Some(by@));
                    }
                    let ghost seldv = out.deep_view();
                    let mut all_keyed = true;
                    let mut u: usize = 0;
                    while u < out.len()
                        invariant
                            u <= out.len(),
                            out.deep_view() == seldv,
                            forall|t: int| 0 <= t < seldv.len() ==> keys_unique(
                                (#[trigger] seldv[t]).fields,
                            ),
                            all_keyed ==> forall|t: int| 0 <= t < u ==> sort_key(
                                #[trigger] seldv[t],
                                by@,
                            ) is Some,
                            !all_keyed ==> !sortable(seldv, by@),
                        decreases out.len() - u,
                    {
                        if record_key(&out[u], by).is_none() {
                            proof {
                                assert(sort_key(seldv[u as int], by@) is None);
                                assert(!sortable(seldv, by@));
                            }
                            all_keyed = false;
                        }
                        u += 1;
                    }
                    if !all_keyed {
                        return Err(QueryError::UnsortableField);
                    }
                    proof {
                        assert(sortable(out.deep_view(), by@));
                    }
                    sort_records(&mut out, by);
                },
            };
            let ghost outdv = out.deep_view();
            let ghost groups0 = groups.deep_view();
            let ghost gv0 = groups@;
            groups.push((ty.clone(), out));
            proof {
                let g1 = groups.deep_view();
                assert forall|t: int| 0 <= t < g1.len() implies g1[t] == groups0.push(
                    (ty@, outdv),
                )[t] by {
                    assert(g1[t] == (groups@[t].0@, groups@[t].1.deep_view()));
                    if t < groups0.len() {
                        assert(groups@[t] == gv0[t]);
                        assert(groups0[t] == (gv0[t].0@, gv0[t].1.deep_view()));
                    }
                }
                assert(groups.deep_view() =~= groups0.push((ty@, outdv)));
                assert(group_result_ok(c, qdv[i as int].0, qv, outdv));
                assert(qdv.skip(i as int).drop_first() =~= qdv.skip(i as int + 1));
            }
            i += 1;
        }
        proof {
            assert(qdv.skip(qdv.len() as int).len() == 0);
        }
        Ok(QueryResult { groups })
    }
}

} // verus!

