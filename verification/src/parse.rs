//! Structured-text documents and the decoders' shared machinery.
//!
//! Declarations, entities and queries all arrive as text in an outside
//! serialization format. The outside parsers are asked for a generic value
//! tree, which is carried over into [`DocValue`], the store's own document
//! shape; every rule about what a document *means* is then decoded from
//! `DocValue` by verified code in the schema, entity and query modules.

use vstd::prelude::*;

use crate::error::DecodeError;
use crate::schema::FieldDeclaration;

verus! {

/// A parsed configuration document: the store's own view of a value tree.
#[derive(Debug)]
pub enum DocValue {
    /// Quoted text.
    Str(String),
    /// A numeric literal, integral or floating; held as the bit pattern of
    /// the 64-bit float it denotes.
    Num(u64),
    /// A boolean literal.
    Bool(bool),
    /// A list of values.
    Arr(Vec<DocValue>),
    /// A mapping from keys to values, in the order the parser hands the
    /// entries over (under the parsers' default settings, sorted by key).
    Table(Vec<(String, DocValue)>),
    /// An explicit null.
    Null,
    /// Any shape the store has no use for (for example a datetime).
    Other,
}

/// The first value bound to `k` in a table's entry list, if any.
pub open spec fn table_lookup(es: Seq<(String, DocValue)>, k: Seq<char>) -> Option<DocValue>
    decreases es.len(),
{
    if es.len() == 0 {
        None
    } else if es[0].0@ == k {
        Some(es[0].1)
    } else {
        table_lookup(es.drop_first(), k)
    }
}

/// Scans a table's entries for the first one carrying `key`.
pub fn table_get<'a>(es: &'a Vec<(String, DocValue)>, key: &String) -> (r: Option<&'a DocValue>)
    ensures
        match r {
            Some(v) => table_lookup(es@, key@) == Some(*v),
            None => table_lookup(es@, key@) is None,
        },
{
    let mut i: usize = 0;
    proof {
        assert(es@.skip(0) =~= es@);
    }
    while i < es.len()
        invariant
            i <= es.len(),
            table_lookup(es@, key@) == table_lookup(es@.skip(i as int), key@),
        decreases es.len() - i,
    {
        proof {
            assert(es@.skip(i as int)[0] == es@[i as int]);
        }
        if es[i].0.eq(key) {
            return Some(&es[i].1);
        }
        proof {
            assert(es@.skip(i as int).drop_first() =~= es@.skip(i as int + 1));
        }
        i += 1;
    }
    proof {
        assert(es@.skip(es@.len() as int).len() == 0);
    }
    None
}

/// What the TOML parser makes of a document text; a function of the text
/// alone. `None` stands for a text the parser rejects.
pub uninterp spec fn parsed_doc(s: Seq<char>) -> Option<DocValue>;

/// What the JSON parser makes of a document text; a function of the text
/// alone. `None` stands for a text the parser rejects.
pub uninterp spec fn parsed_json(s: Seq<char>) -> Option<DocValue>;

/// Declares toml::Value, the TOML parser's generic value tree, so that the
/// conversion below may take it.
#[verifier::external_type_specification]
#[verifier::external_body]
pub struct ExTomlValue(toml::Value);

/// Declares serde_json::Value, the JSON parser's generic value tree, so
/// that the conversion below may take it.
#[verifier::external_type_specification]
#[verifier::external_body]
pub struct ExJsonValue(serde_json::Value);

/// Carries a parsed TOML value over into [`DocValue`], one variant at a
/// time. Relies on the variants of toml::Value as its source defines them;
/// numeric values are taken as 64-bit floats, as the store's number fields
/// are.
#[verifier::external_body]
fn doc_of_toml(v: &toml::Value) -> DocValue {
    match v {
        toml::Value::String(s) => DocValue::Str(s.clone()),
        toml::Value::Integer(i) => DocValue::Num(
            serde_json::Number::from(*i).as_f64().map(|x| x.to_bits()).unwrap_or(0),
        ),
        toml::Value::Float(f) => DocValue::Num(f.to_bits()),
        toml::Value::Boolean(b) => DocValue::Bool(*b),
        toml::Value::Datetime(_) => DocValue::Other,
        toml::Value::Array(a) => DocValue::Arr(a.iter().map(doc_of_toml).collect()),
        toml::Value::Table(t) => DocValue::Table(
            t.iter().map(|(k, x)| (k.clone(), doc_of_toml(x))).collect(),
        ),
    }
}

/// Carries a parsed JSON value over into [`DocValue`], one variant at a
/// time. Relies on the variants of serde_json::Value as its source defines
/// them.
#[verifier::external_body]
fn doc_of_json(v: &serde_json::Value) -> DocValue {
    match v {
        serde_json::Value::Null => DocValue::Null,
        serde_json::Value::Bool(b) => DocValue::Bool(*b),
        serde_json::Value::Number(n) => DocValue::Num(
            n.as_f64().map(|x| x.to_bits()).unwrap_or(0),
        ),
        serde_json::Value::String(s) => DocValue::Str(s.clone()),
        serde_json::Value::Array(a) => DocValue::Arr(a.iter().map(doc_of_json).collect()),
        serde_json::Value::Object(t) => DocValue::Table(
            t.iter().map(|(k, x)| (k.clone(), doc_of_json(x))).collect(),
        ),
    }
}

/// Relies on toml::from_str::<toml::Value>: parses a TOML document text;
/// what it returns depends on the text alone.
#[verifier::external_body]
pub fn parse_document(s: &str) -> (r: Option<DocValue>)
    ensures
        r == parsed_doc(s@),
{
    toml::from_str::<toml::Value>(s).ok().map(|v| doc_of_toml(&v))
}

/// Relies on serde_json::from_str::<serde_json::Value>: parses a JSON
/// document text; what it returns depends on the text alone.
#[verifier::external_body]
pub fn parse_query_document(s: &str) -> (r: Option<DocValue>)
    ensures
        r == parsed_json(s@),
{
    serde_json::from_str::<serde_json::Value>(s).ok().map(|v| doc_of_json(&v))
}

/// The key-or-struct decoding step: a value decodable either from the map
/// key and a bare scalar, or from a full record whose identity the key then
/// overrides. Each implementor says in [`Self::kv_model`] what the short
/// form decodes to, and in [`Self::with_key`] what injecting the key as
/// the identity field means; the two methods are then held to exactly
/// that.
pub trait FromKeyAndVal: Sized + DeepView {
    /// What the short form — the map key plus a bare scalar — decodes to.
    spec fn kv_model(key: Seq<char>, val: Seq<char>) -> Self::V;

    /// The value with the map key injected as its identity field.
    spec fn with_key(v: Self::V, key: Seq<char>) -> Self::V;

    /// Decodes the short form; it always succeeds, to exactly the model.
    fn from_key_and_val(key: &String, val: &String) -> (r: Result<Self, DecodeError>)
        ensures
            r matches Ok(d) && d.deep_view() == Self::kv_model(key@, val@),
    ;

    /// Replaces the identity field with the enclosing map key.
    fn set_key(&mut self, key: &String)
        ensures
            final(self).deep_view() == Self::with_key(old(self).deep_view(), key@),
    ;
}

/// Decodes a table whose values are each either a bare scalar shorthand or
/// a full record, the key supplying the record's identity in both forms.
pub fn keyval_map(es: &Vec<(String, DocValue)>) -> (r: Result<
    Vec<(String, FieldDeclaration)>,
    DecodeError,
>)
    ensures
        match r {
            Ok(out) => crate::schema::decl_fold(Seq::empty(), es@) == Ok::<
                _,
                DecodeError,
            >(out.deep_view()) && crate::kv::keys_unique(out.deep_view()),
            Err(e) => crate::schema::decl_fold(Seq::empty(), es@) == Err::<Seq<(Seq<char>,
                crate::schema::FieldDeclView,
            )>, _>(e),
        },
{
    let mut out: Vec<(String, FieldDeclaration)> = Vec::new();
    let mut i: usize = 0;
    proof {
        assert(es@.skip(0) =~= es@);
        assert(out.deep_view() =~= Seq::<(Seq<char>, crate::schema::FieldDeclView)>::empty());
    }
    while i < es.len()
        invariant
            i <= es.len(),
            crate::kv::keys_unique(out.deep_view()),
            crate::schema::decl_fold(Seq::empty(), es@) == crate::schema::decl_fold(
                out.deep_view(),
                es@.skip(i as int),
            ),
        decreases es.len() - i,
    {
        proof {
            assert(es@.skip(i as int)[0] == es@[i as int]);
        }
        let fd = match FieldDeclaration::from_doc(&es[i].0, &es[i].1) {
            Ok(fd) => fd,
            Err(e) => {
                return Err(e);
            },
        };
        let ghost out0 = out.deep_view();
        crate::kv::kv_set(&mut out, es[i].0.clone(), fd);
        proof {
            assert(out.deep_view() == crate::kv::assoc_set(out0, es@[i as int].0@, fd.deep_view()));
            assert(es@.skip(i as int).drop_first() =~= es@.skip(i as int + 1));
        }
        i += 1;
    }
    proof {
        assert(es@.skip(es@.len() as int).len() == 0);
    }
    Ok(out)
}

} // verus!
