//! The filesystem builder: turns a directory tree into a cache.
//!
//! The walk itself — reading directories and files from disk — happens
//! outside this crate; it hands the builder the tree as plain values, a
//! [`FsNode`] per file or directory, children in directory order. The
//! builder does all the discovery: a directory directly containing a file
//! named `schema` declares an entity type; within it, files with the
//! entity extension and directories containing a file named `ent` are
//! entities; hidden names are ignored at every level.

use vstd::prelude::*;
use vstd::string::StrSliceExecFns;
use vstd::utf8::{decode_utf8, encode_utf8, encode_utf8_decode_utf8, valid_utf8};

use crate::cache::{Cache, TypeGroupView};
use crate::entity::{Entity, FieldData, FieldDataView, entity_from_text};
use crate::error::DecodeError;
use crate::kv::{assoc_set, has_key, key_index, keys_unique, kv_set, lookup};
use crate::schema::{decl_from_text, EntityDeclaration, FieldDeclView};

verus! {

/// One node of the content tree, as the walk outside the crate hands it
/// over.
#[derive(Debug)]
pub enum FsNode {
    /// A file and its raw content.
    File { name: String, content: Vec<u8> },
    /// A directory and its children, in directory order.
    Dir { name: String, children: Vec<FsNode> },
}

/// A name the walk ignores: one starting with the hidden-file marker.
pub open spec fn is_hidden_name(s: Seq<char>) -> bool {
    s.len() > 0 && s[0] == '.'
}

/// The content of the first directly contained file of the given name.
pub open spec fn find_file(children: Seq<FsNode>, name: Seq<char>) -> Option<Seq<u8>>
    decreases children.len(),
{
    if children.len() == 0 {
        None
    } else {
        match children[0] {
            FsNode::File { name: n, content } => if n@ == name {
                Some(content@)
            } else {
                find_file(children.drop_first(), name)
            },
            _ => find_file(children.drop_first(), name),
        }
    }
}

/// The index of the last dot at position 1 or later, scanning down from
/// `from`; a leading dot marks a hidden name, not an extension.
pub open spec fn last_dot(s: Seq<char>, from: int) -> Option<int>
    decreases from,
{
    if from < 1 || from >= s.len() {
        None
    } else if s[from] == '.' {
        Some(from)
    } else {
        last_dot(s, from - 1)
    }
}

/// The file name without its extension.
pub open spec fn name_stem(s: Seq<char>) -> Seq<char> {
    match last_dot(s, s.len() - 1) {
        Some(i) => s.take(i),
        None => s,
    }
}

/// The file name's extension, if it has one.
pub open spec fn name_ext(s: Seq<char>) -> Option<Seq<char>> {
    match last_dot(s, s.len() - 1) {
        Some(i) => Some(s.skip(i + 1)),
        None => None,
    }
}

/// What an entity file's bytes decode to: UTF-8 text, then an entity
/// document.
pub open spec fn entity_of_bytes(b: Seq<u8>) -> Result<Seq<(Seq<char>, FieldDataView)>,
    DecodeError,
> {
    if valid_utf8(b) {
        entity_from_text(decode_utf8(b))
    } else {
        Err(DecodeError::Syntax)
    }
}

/// What a schema file's bytes decode to: UTF-8 text, then a declaration
/// document.
pub open spec fn decl_of_bytes(b: Seq<u8>) -> Result<Seq<(Seq<char>, FieldDeclView)>,
    DecodeError,
> {
    if valid_utf8(b) {
        decl_from_text(decode_utf8(b))
    } else {
        Err(DecodeError::Syntax)
    }
}

/// The field value a folder entity gets from a sibling file: its content
/// as text when it is valid UTF-8, as raw bytes otherwise.
pub open spec fn field_of_content(b: Seq<u8>) -> FieldDataView {
    if valid_utf8(b) {
        FieldDataView::Str(decode_utf8(b))
    } else {
        FieldDataView::Bin(b)
    }
}

/// The cache after storing one entity in the named group.
pub open spec fn cache_add_entity(
    c: Seq<(Seq<char>, TypeGroupView)>,
    ty: Seq<char>,
    id: Seq<char>,
    e: Seq<(Seq<char>, FieldDataView)>,
) -> Seq<(Seq<char>, TypeGroupView)> {
    if has_key(c, ty) {
        c.update(
            key_index(c, ty),
            (
                ty,
                TypeGroupView {
                    declaration: c[key_index(c, ty)].1.declaration,
                    entities: assoc_set(c[key_index(c, ty)].1.entities, id, e),
                },
            ),
        )
    } else {
        c
    }
}

/// Folds a folder entity's sibling files, in order, over its base fields:
/// every non-hidden file other than `ent` contributes one field named by
/// its stem.
pub open spec fn extra_fields_fold(
    acc: Seq<(Seq<char>, FieldDataView)>,
    children: Seq<FsNode>,
    i: int,
) -> Seq<(Seq<char>, FieldDataView)>
    decreases children.len() - i,
{
    if i < 0 || i >= children.len() {
        acc
    } else {
        let acc1 = match children[i] {
            FsNode::File { name, content } => if !is_hidden_name(name@) && name@ != "ent"@ {
                assoc_set(acc, name_stem(name@), field_of_content(content@))
            } else {
                acc
            },
            _ => acc,
        };
        extra_fields_fold(acc1, children, i + 1)
    }
}

/// What a folder entity decodes to: the `ent` file's base fields plus one
/// field per other sibling file.
pub open spec fn folder_entity_of(children: Seq<FsNode>) -> Result<
    Seq<(Seq<char>, FieldDataView)>,
    DecodeError,
> {
    match find_file(children, "ent"@) {
        Some(b) => match entity_of_bytes(b) {
            Ok(base) => Ok(extra_fields_fold(base, children, 0)),
            Err(e) => Err(e),
        },
        None => Err(DecodeError::Malformed),
    }
}

/// Folds the single-file entities of a declaration folder into the cache,
/// in directory order: every non-hidden file with the entity extension,
/// its id the file's stem.
pub open spec fn ent_files_fold(
    c: Seq<(Seq<char>, TypeGroupView)>,
    ty: Seq<char>,
    children: Seq<FsNode>,
    i: int,
) -> Result<Seq<(Seq<char>, TypeGroupView)>, DecodeError>
    decreases children.len() - i,
{
    if i < 0 || i >= children.len() {
        Ok(c)
    } else {
        match children[i] {
            FsNode::File { name, content } => if !is_hidden_name(name@) && name_ext(name@)
                == Some("ent"@) {
                match entity_of_bytes(content@) {
                    Ok(e) => ent_files_fold(
                        cache_add_entity(c, ty, name_stem(name@), e),
                        ty,
                        children,
                        i + 1,
                    ),
                    Err(er) => Err(er),
                }
            } else {
                ent_files_fold(c, ty, children, i + 1)
            },
            _ => ent_files_fold(c, ty, children, i + 1),
        }
    }
}

/// Folds the folder entities of a declaration folder into the cache, in
/// directory order: every non-hidden directory containing a file named
/// `ent`, its id the directory's name.
pub open spec fn ent_folders_fold(
    c: Seq<(Seq<char>, TypeGroupView)>,
    ty: Seq<char>,
    children: Seq<FsNode>,
    i: int,
) -> Result<Seq<(Seq<char>, TypeGroupView)>, DecodeError>
    decreases children.len() - i,
{
    if i < 0 || i >= children.len() {
        Ok(c)
    } else {
        match children[i] {
            FsNode::Dir { name, children: sub } => if !is_hidden_name(name@) && find_file(
                sub@,
                "ent"@,
            ) is Some {
                match folder_entity_of(sub@) {
                    Ok(e) => ent_folders_fold(cache_add_entity(c, ty, name@, e), ty, children, i + 1),
                    Err(er) => Err(er),
                }
            } else {
                ent_folders_fold(c, ty, children, i + 1)
            },
            _ => ent_folders_fold(c, ty, children, i + 1),
        }
    }
}

/// What one declaration folder contributes: its type, registered under the
/// folder's name, then its single-file entities, then its folder entities.
pub open spec fn decl_process(
    c: Seq<(Seq<char>, TypeGroupView)>,
    name: Seq<char>,
    children: Seq<FsNode>,
) -> Result<Seq<(Seq<char>, TypeGroupView)>, DecodeError> {
    match find_file(children, "schema"@) {
        Some(b) => match decl_of_bytes(b) {
            Ok(d) => {
                let c1 = assoc_set(
                    c,
                    name,
                    TypeGroupView { declaration: d, entities: Seq::empty() },
                );
                match ent_files_fold(c1, name, children, 0) {
                    Ok(c2) => ent_folders_fold(c2, name, children, 0),
                    Err(e) => Err(e),
                }
            },
            Err(e) => Err(e),
        },
        None => Ok(c),
    }
}

/// What one node contributes to the walk: a non-hidden directory directly
/// containing `schema` is a declaration folder and is processed, the walk
/// then descending into its children; within a declaration folder, its
/// entity folders are consumed as entities and not descended into; any
/// other non-hidden directory is descended into; files contribute nothing
/// here.
pub open spec fn walk_step(
    c: Seq<(Seq<char>, TypeGroupView)>,
    node: FsNode,
    in_decl: bool,
) -> Result<Seq<(Seq<char>, TypeGroupView)>, DecodeError>
    decreases node, 0int,
{
    match node {
        FsNode::Dir { name, children } => if is_hidden_name(name@) {
            Ok(c)
        } else if in_decl && find_file(children@, "ent"@) is Some {
            Ok(c)
        } else if find_file(children@, "schema"@) is Some {
            match decl_process(c, name@, children@) {
                Ok(c1) => walk_nodes(c1, children@, 0, true),
                Err(e) => Err(e),
            }
        } else {
            walk_nodes(c, children@, 0, false)
        },
        _ => Ok(c),
    }
}

/// The walk over the nodes from index `i` on, in directory order, each
/// node's [`walk_step`] folded over the cache; the first error aborts the
/// walk.
pub open spec fn walk_nodes(
    c: Seq<(Seq<char>, TypeGroupView)>,
    nodes: Seq<FsNode>,
    i: int,
    in_decl: bool,
) -> Result<Seq<(Seq<char>, TypeGroupView)>, DecodeError>
    decreases nodes, nodes.len() - i,
{
    if i < 0 || i >= nodes.len() {
        Ok(c)
    } else {
        match walk_step(c, nodes[i], in_decl) {
            Ok(c2) => walk_nodes(c2, nodes, i + 1, in_decl),
            Err(e) => Err(e),
        }
    }
}

/// What a whole content root builds: the walk over the root's children,
/// starting from an empty cache. The root itself is never a declaration
/// folder.
pub open spec fn cache_of_root(root: FsNode) -> Result<Seq<(Seq<char>, TypeGroupView)>,
    DecodeError,
> {
    match root {
        FsNode::Dir { children, .. } => walk_nodes(Seq::empty(), children@, 0, false),
        _ => Ok(Seq::empty()),
    }
}

/// Relies on core::str::from_utf8: accepts exactly the valid UTF-8 byte
/// sequences and keeps the bytes unchanged.
#[verifier::external_body]
fn utf8_string(bytes: &Vec<u8>) -> (r: Option<String>)
    ensures
        r is Some <==> valid_utf8(bytes@),
        r matches Some(s) ==> encode_utf8(s@) == bytes@,
{
    match core::str::from_utf8(bytes) {
        Ok(s) => Some(s.to_owned()),
        Err(_) => None,
    }
}

/// Decodes a file's bytes as UTF-8 text, if they are that.
fn bytes_to_text(bytes: &Vec<u8>) -> (r: Option<String>)
    ensures
        r is Some <==> valid_utf8(bytes@),
        r matches Some(s) ==> s@ == decode_utf8(bytes@),
{
    let r = utf8_string(bytes);
    proof {
        if r is Some {
            let s = r.unwrap();
            encode_utf8_decode_utf8(s@);
        }
    }
    r
}

/// The content of the first directly contained file of the given name.
fn get_file<'a>(children: &'a Vec<FsNode>, name: &String) -> (r: Option<&'a Vec<u8>>)
    ensures
        match r {
            Some(b) => find_file(children@, name@) == Some(b@),
            None => find_file(children@, name@) is None,
        },
{
    let mut i: usize = 0;
    proof {
        assert(children@.skip(0) =~= children@);
    }
    while i < children.len()
        invariant
            i <= children.len(),
            find_file(children@, name@) == find_file(children@.skip(i as int), name@),
        decreases children.len() - i,
    {
        proof {
            assert(children@.skip(i as int)[0] == children@[i as int]);
        }
        match &children[i] {
            FsNode::File { name: n, content } => {
                if n.eq(name) {
                    return Some(content);
                }
            },
            _ => {},
        }
        proof {
            assert(children@.skip(i as int).drop_first() =~= children@.skip(i as int + 1));
        }
        i += 1;
    }
    proof {
        assert(children@.skip(children@.len() as int).len() == 0);
    }
    None
}

/// Whether a name is hidden.
pub fn is_hidden(name: &String) -> (r: bool)
    ensures
        r == is_hidden_name(name@),
{
    if name.as_str().unicode_len() == 0 {
        false
    } else {
        name.as_str().get_char(0) == '.'
    }
}

/// The index of the last dot that can start an extension.
fn find_last_dot(name: &String) -> (r: Option<usize>)
    ensures
        match r {
            Some(i) => last_dot(name@, name@.len() - 1) == Some(i as int),
            None => last_dot(name@, name@.len() - 1) is None,
        },
{
    let n = name.as_str().unicode_len();
    if n == 0 {
        return None;
    }
    let mut i: usize = n - 1;
    while i >= 1
        invariant
            n == name@.len(),
            n >= 1,
            i <= n - 1,
            last_dot(name@, name@.len() - 1) == last_dot(name@, i as int),
        decreases i,
    {
        if name.as_str().get_char(i) == '.' {
            return Some(i);
        }
        i -= 1;
    }
    None
}

/// A found dot lies strictly inside the name.
proof fn lemma_last_dot_bounds(s: Seq<char>, from: int)
    ensures
        match last_dot(s, from) {
            Some(i) => 1 <= i <= from && i < s.len() && s[i] == '.',
            None => true,
        },
    decreases from,
{
    if !(from < 1 || from >= s.len()) && s[from] != '.' {
        lemma_last_dot_bounds(s, from - 1);
    }
}

/// Whether a file name carries the entity extension.
pub fn is_ent_file(name: &String) -> (r: bool)
    ensures
        r == (name_ext(name@) == Some("ent"@)),
{
    match find_last_dot(name) {
        Some(i) => {
            let n = name.as_str().unicode_len();
            proof {
                lemma_last_dot_bounds(name@, name@.len() - 1);
            }
            let ext = name.as_str().substring_char(i + 1, n);
            proof {
                assert(ext@ =~= name@.skip(i as int + 1));
            }
            ext.to_owned() == "ent".to_owned()
        },
        None => false,
    }
}

/// The file name without its extension.
fn file_stem(name: &String) -> (r: String)
    ensures
        r@ == name_stem(name@),
{
    match find_last_dot(name) {
        Some(i) => {
            proof {
                lemma_last_dot_bounds(name@, name@.len() - 1);
            }
            let stem = name.as_str().substring_char(0, i);
            proof {
                assert(stem@ =~= name@.take(i as int));
            }
            stem.to_owned()
        },
        None => name.clone(),
    }
}

/// Whether a tree node is a declaration folder: a directory directly
/// containing a file named `schema`.
pub fn is_decl_folder(entry: &FsNode) -> (r: bool)
    ensures
        r == match *entry {
            FsNode::Dir { children, .. } => find_file(children@, "schema"@) is Some,
            _ => false,
        },
{
    match entry {
        FsNode::Dir { children, .. } => get_file(children, &"schema".to_owned()).is_some(),
        _ => false,
    }
}

/// Whether a tree node is an entity folder: a directory directly
/// containing a file named `ent`.
pub fn is_ent_folder(entry: &FsNode) -> (r: bool)
    ensures
        r == match *entry {
            FsNode::Dir { children, .. } => find_file(children@, "ent"@) is Some,
            _ => false,
        },
{
    match entry {
        FsNode::Dir { children, .. } => get_file(children, &"ent".to_owned()).is_some(),
        _ => false,
    }
}

/// Builds the folder entity rooted at an entity folder's children: the
/// `ent` file's base fields plus one field per other non-hidden sibling
/// file.
fn build_folder_entity(children: &Vec<FsNode>) -> (r: Result<Entity, DecodeError>)
    requires
        find_file(children@, "ent"@) is Some,
    ensures
        match r {
            Ok(e) => folder_entity_of(children@) == Ok::<_, DecodeError>(e.deep_view())
                && e.wf(),
            Err(er) => folder_entity_of(children@) == Err::<Seq<(Seq<char>, FieldDataView)>, _>(
                er,
            ),
        },
{
    let base_bytes = match get_file(children, &"ent".to_owned()) {
        Some(b) => b,
        None => {
            proof {
                assert(false);
            }
            return Err(DecodeError::Malformed);
        },
    };
    let text = match bytes_to_text(base_bytes) {
        Some(t) => t,
        None => {
            return Err(DecodeError::Syntax);
        },
    };
    let mut ent = match Entity::from_str(text.as_str()) {
        Ok(e) => e,
        Err(er) => {
            return Err(er);
        },
    };
    let mut i: usize = 0;
    while i < children.len()
        invariant
            i <= children.len(),
            ent.wf(),
            folder_entity_of(children@) == Ok::<_, DecodeError>(
                extra_fields_fold(ent.deep_view(), children@, i as int),
            ),
        decreases children.len() - i,
    {
        match &children[i] {
            FsNode::File { name, content } => {
                if !is_hidden(name) && !name.eq(&"ent".to_owned()) {
                    let stem = file_stem(name);
                    let value = match bytes_to_text(content) {
                        Some(t) => FieldData::Str(t),
                        None => FieldData::Bin(crate::entity::copy_bytes(content)),
                    };
                    let ghost f0 = ent.fields.deep_view();
                    kv_set(&mut ent.fields, stem, value);
                    proof {
                        assert(ent.fields.deep_view() == assoc_set(
                            f0,
                            name_stem(name@),
                            field_of_content(content@),
                        ));
                    }
                }
            },
            _ => {},
        }
        i += 1;
    }
    Ok(ent)
}

/// Processes one declaration folder: registers its type under the
/// folder's name and stores its entities.
pub fn decl_found(cache: &mut Cache, dir_name: &String, children: &Vec<FsNode>) -> (r: Result<
    (),
    DecodeError,
>)
    requires
        old(cache).wf(),
        find_file(children@, "schema"@) is Some,
    ensures
        final(cache).wf(),
        match r {
            Ok(()) => decl_process(old(cache).deep_view(), dir_name@, children@) == Ok::<
                _,
                DecodeError,
            >(final(cache).deep_view()),
            Err(e) => decl_process(old(cache).deep_view(), dir_name@, children@) == Err::<
                Seq<(Seq<char>, TypeGroupView)>,
                _,
            >(e),
        },
{
    let schema_bytes = match get_file(children, &"schema".to_owned()) {
        Some(b) => b,
        None => {
            proof {
                assert(false);
            }
            return Err(DecodeError::Malformed);
        },
    };
    let text = match bytes_to_text(schema_bytes) {
        Some(t) => t,
        None => {
            return Err(DecodeError::Syntax);
        },
    };
    let decl = match EntityDeclaration::from_str(text.as_str()) {
        Ok(d) => d,
        Err(er) => {
            return Err(er);
        },
    };
    let ghost dp = decl_process(old(cache).deep_view(), dir_name@, children@);
    cache.add_type(dir_name.as_str(), decl);
    let ghost c1 = cache.deep_view();
    proof {
        crate::kv::lemma_lookup_at(
            c1,
            dir_name@,
            if has_key(old(cache).deep_view(), dir_name@) {
                key_index(old(cache).deep_view(), dir_name@)
            } else {
                old(cache).deep_view().len() as int
            },
        );
        assert(find_file(children@, "schema"@) == Some(schema_bytes@));
        assert(decl_of_bytes(schema_bytes@) == Ok::<_, DecodeError>(decl.deep_view()));
        assert(c1 == assoc_set(
            old(cache).deep_view(),
            dir_name@,
            TypeGroupView { declaration: decl.deep_view(), entities: Seq::empty() },
        ));
        assert(dp == (match ent_files_fold(c1, dir_name@, children@, 0) {
            Ok(c2) => ent_folders_fold(c2, dir_name@, children@, 0),
            Err(e) => Err(e),
        }));
    }
    let mut i: usize = 0;
    while i < children.len()
        invariant
            i <= children.len(),
            cache.wf(),
            has_key(cache.deep_view(), dir_name@),
            dp == decl_process(old(cache).deep_view(), dir_name@, children@),
            dp == (match ent_files_fold(c1, dir_name@, children@, 0) {
                Ok(c2) => ent_folders_fold(c2, dir_name@, children@, 0),
                Err(e) => Err(e),
            }),
            ent_files_fold(c1, dir_name@, children@, 0) == ent_files_fold(
                cache.deep_view(),
                dir_name@,
                children@,
                i as int,
            ),
        decreases children.len() - i,
    {
        match &children[i] {
            FsNode::File { name, content } => {
                if !is_hidden(name) && is_ent_file(name) {
                    let text = match bytes_to_text(content) {
                        Some(t) => t,
                        None => {
                            return Err(DecodeError::Syntax);
                        },
                    };
                    let ent = match Entity::from_str(text.as_str()) {
                        Ok(e) => e,
                        Err(er) => {
                            return Err(er);
                        },
                    };
                    let stem = file_stem(name);
                    let ghost c_before = cache.deep_view();
                    match cache.add_entity(dir_name.as_str(), stem.as_str(), ent) {
                        Ok(()) => {},
                        Err(_) => {
                            proof {
                                assert(false);
                            }
                            return Err(DecodeError::Malformed);
                        },
                    }
                    proof {
                        assert(cache.deep_view() == cache_add_entity(
                            c_before,
                            dir_name@,
                            name_stem(name@),
                            ent.deep_view(),
                        ));
                        lemma_add_entity_keeps_key(c_before, dir_name@, name_stem(name@),
                            ent.deep_view());
                    }
                }
            },
            _ => {},
        }
        i += 1;
    }
    let ghost c2 = cache.deep_view();
    proof {
        assert(ent_files_fold(c2, dir_name@, children@, children@.len() as int) == Ok::<
            _,
            DecodeError,
        >(c2));
        assert(ent_files_fold(c1, dir_name@, children@, 0) == Ok::<_, DecodeError>(c2));
    }
    let mut i: usize = 0;
    while i < children.len()
        invariant
            i <= children.len(),
            cache.wf(),
            has_key(cache.deep_view(), dir_name@),
            dp == decl_process(old(cache).deep_view(), dir_name@, children@),
            dp == ent_folders_fold(c2, dir_name@, children@, 0),
            ent_folders_fold(c2, dir_name@, children@, 0) == ent_folders_fold(
                cache.deep_view(),
                dir_name@,
                children@,
                i as int,
            ),
        decreases children.len() - i,
    {
        match &children[i] {
            FsNode::Dir { name, children: sub } => {
                if !is_hidden(name) && is_ent_folder(&children[i]) {
                    let ent = match build_folder_entity(sub) {
                        Ok(e) => e,
                        Err(er) => {
                            return Err(er);
                        },
                    };
                    let ghost c_before = cache.deep_view();
                    match cache.add_entity(dir_name.as_str(), name.as_str(), ent) {
                        Ok(()) => {},
                        Err(_) => {
                            proof {
                                assert(false);
                            }
                            return Err(DecodeError::Malformed);
                        },
                    }
                    proof {
                        assert(cache.deep_view() == cache_add_entity(
                            c_before,
                            dir_name@,
                            name@,
                            ent.deep_view(),
                        ));
                        lemma_add_entity_keeps_key(c_before, dir_name@, name@, ent.deep_view());
                    }
                }
            },
            _ => {},
        }
        i += 1;
    }
    Ok(())
}

/// Storing an entity never unregisters a type.
proof fn lemma_add_entity_keeps_key(
    c: Seq<(Seq<char>, TypeGroupView)>,
    ty: Seq<char>,
    id: Seq<char>,
    e: Seq<(Seq<char>, FieldDataView)>,
)
    requires
        keys_unique(c),
        has_key(c, ty),
    ensures
        has_key(cache_add_entity(c, ty, id, e), ty),
        keys_unique(cache_add_entity(c, ty, id, e)),
{
    let ki = key_index(c, ty);
    let c1 = cache_add_entity(c, ty, id, e);
    assert(0 <= ki < c.len() && c[ki].0 == ty);
    assert(c1[ki].0 == ty);
    assert forall|x: int, y: int| 0 <= x < y < c1.len() implies c1[x].0 != c1[y].0 by {
        if x != ki {
            assert(c1[x] == c[x]);
        }
        if y != ki {
            assert(c1[y] == c[y]);
        }
    }
}

/// Builds a complete, unvalidated cache from a content root.
pub fn create_cache(root: &FsNode) -> (r: Result<Cache, DecodeError>)
    ensures
        match r {
            Ok(c) => cache_of_root(*root) == Ok::<_, DecodeError>(c.deep_view()) && c.wf(),
            Err(e) => cache_of_root(*root) == Err::<Seq<(Seq<char>, TypeGroupView)>, _>(e),
        },
{
    let mut cache = Cache::new();
    match root {
        FsNode::Dir { children, .. } => {
            match walk_dir(&mut cache, children, false) {
                Ok(()) => Ok(cache),
                Err(e) => Err(e),
            }
        },
        _ => Ok(cache),
    }
}

/// Walks one directory's children, folding every declaration folder at or
/// below them into the cache.
fn walk_dir(cache: &mut Cache, nodes: &Vec<FsNode>, in_decl: bool) -> (r: Result<(), DecodeError>)
    requires
        old(cache).wf(),
    ensures
        final(cache).wf(),
        match r {
            Ok(()) => walk_nodes(old(cache).deep_view(), nodes@, 0, in_decl) == Ok::<
                _,
                DecodeError,
            >(final(cache).deep_view()),
            Err(e) => walk_nodes(old(cache).deep_view(), nodes@, 0, in_decl) == Err::<
                Seq<(Seq<char>, TypeGroupView)>,
                _,
            >(e),
        },
    decreases nodes@,
{
    let mut i: usize = 0;
    while i < nodes.len()
        invariant
            i <= nodes.len(),
            cache.wf(),
            walk_nodes(old(cache).deep_view(), nodes@, 0, in_decl) == walk_nodes(
                cache.deep_view(),
                nodes@,
                i as int,
                in_decl,
            ),
        decreases nodes.len() - i,
    {
        let ghost cv = cache.deep_view();
        match &nodes[i] {
            FsNode::Dir { name, children } => {
                if !is_hidden(name) {
                    let consumed = in_decl && is_ent_folder(&nodes[i]);
                    if !consumed {
                        if is_decl_folder(&nodes[i]) {
                            match decl_found(cache, name, children) {
                                Ok(()) => {},
                                Err(e) => {
                                    proof {
                                        assert(walk_step(cv, nodes@[i as int], in_decl) == Err::<
                                            Seq<(Seq<char>, TypeGroupView)>,
                                            _,
                                        >(e));
                                    }
                                    return Err(e);
                                },
                            }
                            match walk_dir(cache, children, true) {
                                Ok(()) => {},
                                Err(e) => {
                                    proof {
                                        assert(walk_step(cv, nodes@[i as int], in_decl) == Err::<
                                            Seq<(Seq<char>, TypeGroupView)>,
                                            _,
                                        >(e));
                                    }
                                    return Err(e);
                                },
                            }
                            proof {
                                assert(walk_step(cv, nodes@[i as int], in_decl) == Ok::<
                                    _,
                                    DecodeError,
                                >(cache.deep_view()));
                            }
                        } else {
                            match walk_dir(cache, children, false) {
                                Ok(()) => {},
                                Err(e) => {
                                    proof {
                                        assert(walk_step(cv, nodes@[i as int], in_decl) == Err::<
                                            Seq<(Seq<char>, TypeGroupView)>,
                                            _,
                                        >(e));
                                    }
                                    return Err(e);
                                },
                            }
                        }
                    }
                }
            },
            _ => {},
        }
        i += 1;
    }
    Ok(())
}

/// One coalesced filesystem event, as the watch loop outside the crate
/// reports it.
#[derive(Debug)]
pub enum WatchEvent {
    /// A file or directory was written.
    Write,
    /// A file or directory was created.
    Create,
    /// A file or directory was removed.
    Remove,
    /// A file or directory was renamed.
    Rename,
    /// The watcher asks for a full rescan.
    Rescan,
    /// Anything else the watcher reports.
    Other,
}

/// The watch loop's one decision: whether an event warrants a rebuild.
/// Writes, creations, removals, renames and rescans do; everything else
/// is dropped.
pub fn should_rebuild(event: &WatchEvent) -> (r: bool)
    ensures
        r == !(*event matches WatchEvent::Other),
{
    match event {
        WatchEvent::Other => false,
        _ => true,
    }
}

/// How the filesystem provider is set up: the content root to serve.
#[derive(Clone)]
pub struct FsProviderConfig {
    pub root: String,
}

/// A tree node's own name.
pub open spec fn node_name(n: FsNode) -> Seq<char> {
    match n {
        FsNode::File { name, .. } => name@,
        FsNode::Dir { name, .. } => name@,
    }
}

/// A file node's raw content; empty for a directory.
pub open spec fn file_content(n: FsNode) -> Seq<u8> {
    match n {
        FsNode::File { content, .. } => content@,
        _ => Seq::empty(),
    }
}

/// Whether a sibling of a folder entity's `ent` file contributes a field:
/// it must be a non-hidden file not itself named `ent`.
pub open spec fn contributes(n: FsNode) -> bool {
    match n {
        FsNode::File { name, .. } => !is_hidden_name(name@) && name@ != "ent"@,
        _ => false,
    }
}

/// The sibling fold touches no key that none of the remaining siblings
/// carries as a stem.
proof fn lemma_extra_fold_frame(
    acc: Seq<(Seq<char>, FieldDataView)>,
    children: Seq<FsNode>,
    k: int,
    key: Seq<char>,
)
    requires
        keys_unique(acc),
        0 <= k <= children.len(),
        forall|j: int|
            k <= j < children.len() && contributes(#[trigger] children[j]) ==> name_stem(
                node_name(children[j]),
            ) != key,
    ensures
        keys_unique(extra_fields_fold(acc, children, k)),
        lookup(extra_fields_fold(acc, children, k), key) == lookup(acc, key),
    decreases children.len() - k,
{
    if k < children.len() {
        if contributes(children[k]) {
            let stem = name_stem(node_name(children[k]));
            let val = field_of_content(file_content(children[k]));
            crate::kv::lemma_assoc_set(acc, stem, val);
            lemma_extra_fold_frame(assoc_set(acc, stem, val), children, k + 1, key);
        } else {
            lemma_extra_fold_frame(acc, children, k + 1, key);
        }
    }
}

/// A contributing sibling whose stem no later sibling repeats settles its
/// field's final value in the fold.
proof fn lemma_extra_fold_hit(
    acc: Seq<(Seq<char>, FieldDataView)>,
    children: Seq<FsNode>,
    k: int,
    i: int,
)
    requires
        keys_unique(acc),
        0 <= k <= i < children.len(),
        contributes(children[i]),
        forall|j: int|
            i < j < children.len() && contributes(#[trigger] children[j]) ==> name_stem(
                node_name(children[j]),
            ) != name_stem(node_name(children[i])),
    ensures
        lookup(extra_fields_fold(acc, children, k), name_stem(node_name(children[i]))) == Some(
            field_of_content(file_content(children[i])),
        ),
    decreases i - k,
{
    if k == i {
        let stem = name_stem(node_name(children[i]));
        let val = field_of_content(file_content(children[i]));
        crate::kv::lemma_assoc_set(acc, stem, val);
        lemma_extra_fold_frame(assoc_set(acc, stem, val), children, i + 1, stem);
    } else {
        if contributes(children[k]) {
            let stem = name_stem(node_name(children[k]));
            let val = field_of_content(file_content(children[k]));
            crate::kv::lemma_assoc_set(acc, stem, val);
            lemma_extra_fold_hit(assoc_set(acc, stem, val), children, k + 1, i);
        } else {
            lemma_extra_fold_hit(acc, children, k + 1, i);
        }
    }
}

/// Law (folder-entity composition): within an entity folder, every
/// non-hidden sibling file other than `ent` contributes exactly one field
/// to the composed entity: the file's stem names it, and its value is the
/// content as text when the bytes are valid UTF-8, as raw binary
/// otherwise. Stated for a sibling whose stem no later sibling repeats;
/// a later repeat overwrites the earlier field.
pub proof fn lemma_folder_entity_field(
    base: Seq<(Seq<char>, FieldDataView)>,
    children: Seq<FsNode>,
    i: int,
)
    requires
        keys_unique(base),
        0 <= i < children.len(),
        contributes(children[i]),
        forall|j: int|
            i < j < children.len() && contributes(#[trigger] children[j]) ==> name_stem(
                node_name(children[j]),
            ) != name_stem(node_name(children[i])),
    ensures
        lookup(extra_fields_fold(base, children, 0), name_stem(node_name(children[i]))) == Some(
            field_of_content(file_content(children[i])),
        ),
{
    lemma_extra_fold_hit(base, children, 0, i);
}

/// Law (build-failure isolation, whole-build form): if any directory among
/// the walked nodes is a declaration folder whose schema does not decode,
/// the whole walk fails, whatever the rest of the tree holds and whatever
/// the cache held when the walk began — a partially built cache is never
/// the walk's result.
pub proof fn lemma_build_failure_total(
    c: Seq<(Seq<char>, TypeGroupView)>,
    nodes: Seq<FsNode>,
    k: int,
    i: int,
    in_decl: bool,
)
    requires
        0 <= k <= i < nodes.len(),
        nodes[i] matches FsNode::Dir { name, children } && !is_hidden_name(name@) && !(in_decl
            && find_file(children@, "ent"@) is Some) && (find_file(children@, "schema"@) matches
        Some(b) && decl_of_bytes(b) is Err),
    ensures
        walk_nodes(c, nodes, k, in_decl) is Err,
    decreases i - k,
{
    if k == i {
        match nodes[i] {
            FsNode::Dir { name, children } => {
                match find_file(children@, "schema"@) {
                    Some(b) => {
                        assert(decl_process(c, name@, children@) is Err);
                        assert(walk_step(c, nodes[i], in_decl) is Err);
                    },
                    None => {
                        assert(false);
                    },
                }
            },
            _ => {
                assert(false);
            },
        }
    } else {
        match walk_step(c, nodes[k], in_decl) {
            Ok(c2) => {
                lemma_build_failure_total(c2, nodes, k + 1, i, in_decl);
            },
            Err(_) => {},
        }
    }
}

} // verus!

