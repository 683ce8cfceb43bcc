//! The untyped entity model: field types, tagged field values, and the
//! entity record.
//!
//! A number-tagged value carries the raw bit pattern of the 64-bit float it
//! stands for; the store itself never computes with the number, it only
//! moves it, so the bits are all it needs to keep.

use vstd::prelude::*;

use crate::error::DecodeError;
use crate::kv::{assoc_set, keys_unique, lookup};
use crate::parse::{parsed_doc, DocValue};

verus! {

/// The declared type of a field.
#[derive(Debug)]
pub enum FieldType {
    /// UTF-8 text.
    Str,
    /// An opaque byte sequence.
    Bin,
    /// A 64-bit floating-point number.
    Num,
    /// A reference to an entity of the named type.
    Ref(String),
}

/// Spec-level model of a [`FieldType`].
pub enum FieldTypeView {
    Str,
    Bin,
    Num,
    Ref(Seq<char>),
}

impl DeepView for FieldType {
    type V = FieldTypeView;

    open spec fn deep_view(&self) -> FieldTypeView {
        match self {
            FieldType::Str => FieldTypeView::Str,
            FieldType::Bin => FieldTypeView::Bin,
            FieldType::Num => FieldTypeView::Num,
            FieldType::Ref(name) => FieldTypeView::Ref(name@),
        }
    }
}

/// The type a bare textual token declares: the reserved tokens name the
/// scalar types, and any other token is a reference to the entity type of
/// that name.
pub open spec fn field_type_of_token(t: Seq<char>) -> FieldTypeView {
    if t == "string"@ || t == "str"@ {
        FieldTypeView::Str
    } else if t == "binary"@ || t == "bin"@ {
        FieldTypeView::Bin
    } else if t == "number"@ || t == "num"@ {
        FieldTypeView::Num
    } else {
        FieldTypeView::Ref(t)
    }
}

impl FieldType {
    /// Decodes a bare type token.
    pub fn from_token(s: &str) -> (r: FieldType)
        ensures
            r.deep_view() == field_type_of_token(s@),
    {
        let t = s.to_owned();
        if t == "string".to_owned() || t == "str".to_owned() {
            FieldType::Str
        } else if t == "binary".to_owned() || t == "bin".to_owned() {
            FieldType::Bin
        } else if t == "number".to_owned() || t == "num".to_owned() {
            FieldType::Num
        } else {
            FieldType::Ref(t)
        }
    }
}

/// A field value, tagged as text, bytes, or number.
#[derive(Debug)]
pub enum FieldData {
    /// UTF-8 text.
    Str(String),
    /// Raw bytes.
    Bin(Vec<u8>),
    /// The bit pattern of a 64-bit float.
    Num(u64),
}

/// Spec-level model of a [`FieldData`].
pub enum FieldDataView {
    Str(Seq<char>),
    Bin(Seq<u8>),
    Num(u64),
}

impl DeepView for FieldData {
    type V = FieldDataView;

    open spec fn deep_view(&self) -> FieldDataView {
        match self {
            FieldData::Str(s) => FieldDataView::Str(s@),
            FieldData::Bin(b) => FieldDataView::Bin(b@),
            FieldData::Num(bits) => FieldDataView::Num(*bits),
        }
    }
}

/// A fresh vector holding the same bytes.
pub fn copy_bytes(b: &Vec<u8>) -> (r: Vec<u8>)
    ensures
        r@ == b@,
{
    let mut out: Vec<u8> = Vec::new();
    let mut i: usize = 0;
    while i < b.len()
        invariant
            i <= b.len(),
            out@ =~= b@.subrange(0, i as int),
        decreases b.len() - i,
    {
        out.push(b[i]);
        i += 1;
    }
    proof {
        assert(out@ =~= b@);
    }
    out
}

impl FieldData {
    /// A copy with the same model.
    pub fn duplicate(&self) -> (r: FieldData)
        ensures
            r.deep_view() == self.deep_view(),
    {
        match self {
            FieldData::Str(s) => FieldData::Str(s.clone()),
            FieldData::Bin(b) => FieldData::Bin(copy_bytes(b)),
            FieldData::Num(bits) => FieldData::Num(*bits),
        }
    }
}

/// An untyped record: field name to tagged value, keys unique.
#[derive(Debug)]
pub struct Entity {
    pub fields: Vec<(String, FieldData)>,
}

impl DeepView for Entity {
    type V = Seq<(Seq<char>, FieldDataView)>;

    open spec fn deep_view(&self) -> Seq<(Seq<char>, FieldDataView)> {
        self.fields.deep_view()
    }
}

impl Entity {
    /// Field names are pairwise distinct.
    pub open spec fn wf(&self) -> bool {
        keys_unique(self.deep_view())
    }

    /// The value of the named field, if the entity carries it.
    pub fn get_field(&self, name: &String) -> (r: Option<&FieldData>)
        requires
            self.wf(),
        ensures
            match r {
                Some(d) => lookup(self.deep_view(), name@) == Some(d.deep_view()),
                None => lookup(self.deep_view(), name@) is None,
            },
    {
        crate::kv::kv_get(&self.fields, name)
    }

    /// Decodes a parsed entity document.
    pub fn from_doc(d: &DocValue) -> (r: Result<Entity, DecodeError>)
        ensures
            match r {
                Ok(e) => entity_of_doc(*d) == Ok::<_, DecodeError>(e.deep_view()) && e.wf(),
                Err(e) => entity_of_doc(*d) == Err::<Seq<(Seq<char>, FieldDataView)>, _>(e),
            },
    {
        let es = match d {
            DocValue::Table(es) => es,
            _ => {
                return Err(DecodeError::Malformed);
            },
        };
        let mut fields: Vec<(String, FieldData)> = Vec::new();
        let mut i: usize = 0;
        proof {
            assert(es@.skip(0) =~= es@);
            assert(fields.deep_view() =~= Seq::<(Seq<char>, FieldDataView)>::empty());
        }
        while i < es.len()
            invariant
                i <= es.len(),
                keys_unique(fields.deep_view()),
                entity_of_doc(*d) == ent_fold(Seq::empty(), es@),
                ent_fold(Seq::empty(), es@) == ent_fold(fields.deep_view(), es@.skip(i as int)),
            decreases es.len() - i,
        {
            proof {
                assert(es@.skip(i as int)[0] == es@[i as int]);
            }
            let value = match &es[i].1 {
                DocValue::Str(s) => FieldData::Str(s.clone()),
                DocValue::Num(bits) => FieldData::Num(*bits),
                _ => {
                    return Err(DecodeError::Malformed);
                },
            };
            let ghost f0 = fields.deep_view();
            crate::kv::kv_set(&mut fields, es[i].0.clone(), value);
            proof {
                assert(fields.deep_view() == assoc_set(f0, es@[i as int].0@, value.deep_view()));
                assert(es@.skip(i as int).drop_first() =~= es@.skip(i as int + 1));
            }
            i += 1;
        }
        proof {
            assert(es@.skip(es@.len() as int).len() == 0);
        }
        Ok(Entity { fields })
    }

    /// Decodes an entity document from its text.
    pub fn from_str(input: &str) -> (r: Result<Entity, DecodeError>)
        ensures
            match r {
                Ok(e) => entity_from_text(input@) == Ok::<_, DecodeError>(e.deep_view())
                    && e.wf(),
                Err(e) => entity_from_text(input@) == Err::<Seq<(Seq<char>, FieldDataView)>, _>(e),
            },
    {
        match crate::parse::parse_document(input) {
            Some(d) => Self::from_doc(&d),
            None => Err(DecodeError::Syntax),
        }
    }
}

/// What one entity-document value decodes to: text stays text, a number
/// stays a number, and any other shape is malformed. Binary values never
/// arise from a document; they come only from folder-entity composition.
pub open spec fn field_data_of(v: DocValue) -> Result<FieldDataView, DecodeError> {
    match v {
        DocValue::Str(s) => Ok(FieldDataView::Str(s@)),
        DocValue::Num(bits) => Ok(FieldDataView::Num(bits)),
        _ => Err(DecodeError::Malformed),
    }
}

/// Folds an entity table's entries, in order, into a field list; the first
/// malformed value aborts the decode.
pub open spec fn ent_fold(
    acc: Seq<(Seq<char>, FieldDataView)>,
    es: Seq<(String, DocValue)>,
) -> Result<Seq<(Seq<char>, FieldDataView)>, DecodeError>
    decreases es.len(),
{
    if es.len() == 0 {
        Ok(acc)
    } else {
        match field_data_of(es[0].1) {
            Ok(fv) => ent_fold(assoc_set(acc, es[0].0@, fv), es.drop_first()),
            Err(e) => Err(e),
        }
    }
}

/// What a whole entity document decodes to.
pub open spec fn entity_of_doc(d: DocValue) -> Result<Seq<(Seq<char>, FieldDataView)>, DecodeError> {
    match d {
        DocValue::Table(es) => ent_fold(Seq::empty(), es@),
        _ => Err(DecodeError::Malformed),
    }
}

/// What an entity text decodes to, through the outside parser.
pub open spec fn entity_from_text(s: Seq<char>) -> Result<
    Seq<(Seq<char>, FieldDataView)>,
    DecodeError,
> {
    match parsed_doc(s) {
        Some(d) => entity_of_doc(d),
        None => Err(DecodeError::Syntax),
    }
}

} // verus!
