//! The typed schema model: field declarations and entity declarations.
//!
//! A field declaration supports two surface forms: a bare type token, or an
//! expanded record carrying `type`, `required` and `mutable`. Both decode
//! into the same [`FieldDeclaration`]; the key under which the declaration
//! appears always becomes its name.

use vstd::prelude::*;

use crate::entity::{FieldData, FieldType, FieldTypeView, field_type_of_token};
use crate::error::DecodeError;
use crate::kv::{assoc_set, keys_unique};
use crate::parse::{parsed_doc, table_lookup, DocValue, FromKeyAndVal};

verus! {

/// One field of an entity type: its name, flags, and declared type.
#[derive(Debug)]
pub struct FieldDeclaration {
    pub name: String,
    pub required: bool,
    pub mutable: bool,
    pub ty: FieldType,
}

/// Spec-level model of a [`FieldDeclaration`].
pub struct FieldDeclView {
    pub name: Seq<char>,
    pub required: bool,
    pub mutable: bool,
    pub ty: FieldTypeView,
}

impl DeepView for FieldDeclaration {
    type V = FieldDeclView;

    open spec fn deep_view(&self) -> FieldDeclView {
        FieldDeclView {
            name: self.name@,
            required: self.required,
            mutable: self.mutable,
            ty: self.ty.deep_view(),
        }
    }
}

/// The declaration a short-form entry decodes to: the key names the field,
/// the bare token names its type, and the flags default to false.
pub open spec fn field_decl_of_kv(key: Seq<char>, tok: Seq<char>) -> FieldDeclView {
    FieldDeclView { name: key, required: false, mutable: false, ty: field_type_of_token(tok) }
}

/// An optional boolean flag of an expanded-form entry: absent means false,
/// and a non-boolean value is malformed.
pub open spec fn flag_of(es: Seq<(String, DocValue)>, key: Seq<char>) -> Result<
    bool,
    DecodeError,
> {
    match table_lookup(es, key) {
        None => Ok(false),
        Some(DocValue::Bool(b)) => Ok(b),
        Some(_) => Err(DecodeError::Malformed),
    }
}

/// The declaration an expanded-form entry decodes to: `type` must be a bare
/// token, the flags are optional booleans, unknown keys are ignored, and
/// the key under which the entry appears supplies the name.
pub open spec fn field_decl_of_table(key: Seq<char>, es: Seq<(String, DocValue)>) -> Result<
    FieldDeclView,
    DecodeError,
> {
    match table_lookup(es, "type"@) {
        Some(DocValue::Str(tok)) => match (flag_of(es, "required"@), flag_of(es, "mutable"@)) {
            (Ok(required), Ok(mutable)) => Ok(
                FieldDeclView { name: key, required, mutable, ty: field_type_of_token(tok@) },
            ),
            (Err(e), _) => Err(e),
            (_, Err(e)) => Err(e),
        },
        _ => Err(DecodeError::Malformed),
    }
}

/// What one entry of a declaration table decodes to, in either surface
/// form.
pub open spec fn field_decl_of(key: Seq<char>, v: DocValue) -> Result<FieldDeclView, DecodeError> {
    match v {
        DocValue::Str(tok) => Ok(field_decl_of_kv(key, tok@)),
        DocValue::Table(es) => field_decl_of_table(key, es@),
        _ => Err(DecodeError::Malformed),
    }
}

/// Folds a declaration table's entries, in order, into a declaration list;
/// the first malformed entry aborts the decode.
pub open spec fn decl_fold(
    acc: Seq<(Seq<char>, FieldDeclView)>,
    es: Seq<(String, DocValue)>,
) -> Result<Seq<(Seq<char>, FieldDeclView)>, DecodeError>
    decreases es.len(),
{
    if es.len() == 0 {
        Ok(acc)
    } else {
        match field_decl_of(es[0].0@, es[0].1) {
            Ok(fd) => decl_fold(assoc_set(acc, es[0].0@, fd), es.drop_first()),
            Err(e) => Err(e),
        }
    }
}

/// What a whole declaration document decodes to.
pub open spec fn decl_of_doc(d: DocValue) -> Result<Seq<(Seq<char>, FieldDeclView)>, DecodeError> {
    match d {
        DocValue::Table(es) => decl_fold(Seq::empty(), es@),
        _ => Err(DecodeError::Malformed),
    }
}

/// What a declaration text decodes to, through the outside parser.
pub open spec fn decl_from_text(s: Seq<char>) -> Result<
    Seq<(Seq<char>, FieldDeclView)>,
    DecodeError,
> {
    match parsed_doc(s) {
        Some(d) => decl_of_doc(d),
        None => Err(DecodeError::Syntax),
    }
}

impl FieldDeclaration {
    /// Decodes one declaration-table entry, in either surface form.
    pub fn from_doc(key: &String, v: &DocValue) -> (r: Result<FieldDeclaration, DecodeError>)
        ensures
            match r {
                Ok(fd) => field_decl_of(key@, *v) == Ok::<FieldDeclView, DecodeError>(
                    fd.deep_view(),
                ),
                Err(e) => field_decl_of(key@, *v) == Err::<FieldDeclView, DecodeError>(e),
            },
    {
        match v {
            DocValue::Str(tok) => Self::from_key_and_val(key, tok),
            DocValue::Table(es) => {
                let ty = match crate::parse::table_get(es, &"type".to_owned()) {
                    Some(DocValue::Str(tok)) => FieldType::from_token(tok.as_str()),
                    _ => {
                        return Err(DecodeError::Malformed);
                    },
                };
                let required = match crate::parse::table_get(es, &"required".to_owned()) {
                    None => false,
                    Some(DocValue::Bool(b)) => *b,
                    Some(_) => {
                        return Err(DecodeError::Malformed);
                    },
                };
                let mutable = match crate::parse::table_get(es, &"mutable".to_owned()) {
                    None => false,
                    Some(DocValue::Bool(b)) => *b,
                    Some(_) => {
                        return Err(DecodeError::Malformed);
                    },
                };
                let mut fd = FieldDeclaration { name: String::new(), required, mutable, ty };
                fd.set_key(key);
                Ok(fd)
            },
            _ => Err(DecodeError::Malformed),
        }
    }
}

impl FromKeyAndVal for FieldDeclaration {
    /// The short form decodes to: the key as the name, the bare token as
    /// the type, and both flags false.
    open spec fn kv_model(key: Seq<char>, val: Seq<char>) -> FieldDeclView {
        field_decl_of_kv(key, val)
    }

    /// Injecting the key replaces the name and keeps everything else.
    open spec fn with_key(v: FieldDeclView, key: Seq<char>) -> FieldDeclView {
        FieldDeclView { name: key, ..v }
    }

    /// Decodes the short form. Never fails, since any token denotes a
    /// type.
    fn from_key_and_val(key: &String, val: &String) -> (r: Result<FieldDeclaration, DecodeError>) {
        Ok(
            FieldDeclaration {
                name: key.clone(),
                required: false,
                mutable: false,
                ty: FieldType::from_token(val.as_str()),
            },
        )
    }

    /// Replaces the declaration's name with the enclosing map key.
    fn set_key(&mut self, key: &String) {
        self.name = key.clone();
    }
}

/// An entity type's declaration: field name to field declaration, keys
/// unique.
#[derive(Debug)]
pub struct EntityDeclaration {
    pub fields: Vec<(String, FieldDeclaration)>,
}

impl DeepView for EntityDeclaration {
    type V = Seq<(Seq<char>, FieldDeclView)>;

    open spec fn deep_view(&self) -> Seq<(Seq<char>, FieldDeclView)> {
        self.fields.deep_view()
    }
}

impl EntityDeclaration {
    /// Field names are pairwise distinct.
    pub open spec fn wf(&self) -> bool {
        keys_unique(self.deep_view())
    }

    /// Decodes a parsed declaration document.
    pub fn from_doc(d: &DocValue) -> (r: Result<EntityDeclaration, DecodeError>)
        ensures
            match r {
                Ok(decl) => decl_of_doc(*d) == Ok::<_, DecodeError>(decl.deep_view())
                    && decl.wf(),
                Err(e) => decl_of_doc(*d) == Err::<Seq<(Seq<char>, FieldDeclView)>, _>(e),
            },
    {
        match d {
            DocValue::Table(es) => match crate::parse::keyval_map(es) {
                Ok(fields) => Ok(EntityDeclaration { fields }),
                Err(e) => Err(e),
            },
            _ => Err(DecodeError::Malformed),
        }
    }

    /// Decodes a declaration document from its text.
    pub fn from_str(input: &str) -> (r: Result<EntityDeclaration, DecodeError>)
        ensures
            match r {
                Ok(decl) => decl_from_text(input@) == Ok::<_, DecodeError>(decl.deep_view())
                    && decl.wf(),
                Err(e) => decl_from_text(input@) == Err::<Seq<(Seq<char>, FieldDeclView)>, _>(e),
            },
    {
        match crate::parse::parse_document(input) {
            Some(d) => Self::from_doc(&d),
            None => Err(DecodeError::Syntax),
        }
    }
}

/// Reads a typed value out of a declared field's data, when the tags
/// agree. Each implementor says in [`Self::read_model`] exactly which
/// type-and-value pairs it reads, and what it reads out of them.
pub trait FromFieldData: Sized + DeepView {
    /// The value read from the pair, if the tags agree.
    spec fn read_model(ty: FieldType, data: FieldData) -> Option<Self::V>;

    fn from_field_data<'a>(ty: &'a FieldType, data: &'a FieldData) -> (r: Option<&'a Self>)
        ensures
            match r {
                Some(v) => Self::read_model(*ty, *data) == Some(v.deep_view()),
                None => Self::read_model(*ty, *data) is None,
            },
    ;
}

impl FromFieldData for String {
    /// A string is read exactly when the declared type and the value are
    /// both string-tagged, and it is the value's text.
    open spec fn read_model(ty: FieldType, data: FieldData) -> Option<Seq<char>> {
        match (ty, data) {
            (FieldType::Str, FieldData::Str(s)) => Some(s@),
            _ => None,
        }
    }

    /// The text of a string-typed field holding string data.
    fn from_field_data<'a>(ty: &'a FieldType, data: &'a FieldData) -> Option<&'a String> {
        match (ty, data) {
            (FieldType::Str, FieldData::Str(s)) => Some(s),
            _ => None,
        }
    }
}

} // verus!
