//! The server-facing point lookups over a cache snapshot.
//!
//! The transport layer — routing, request parsing, response encoding —
//! lives outside this crate; it calls these functions with plain values
//! and maps each error to a client-visible response.

use vstd::prelude::*;
use vstd::string::StrSliceExecFns;

use crate::cache::{group_wf, Cache};
use crate::entity::FieldData;
use crate::error::NotFoundError;
use crate::kv::{has_key, key_index, lookup};
use crate::query::{project, QueryResultEntity, RecordView};

verus! {

/// How the server is set up: where to bind.
pub struct ServerConfig {
    pub bind_address: String,
    pub port: u16,
}

/// The server's own state: its configuration.
pub struct Server {
    pub config: ServerConfig,
}

impl Server {
    /// A server with the given configuration.
    pub fn new(config: ServerConfig) -> (r: Server)
        ensures
            r.config == config,
    {
        Server { config }
    }
}

/// The index of the first dot at or after `i`.
pub open spec fn first_dot(s: Seq<char>, i: int) -> Option<int>
    decreases s.len() - i,
{
    if i < 0 || i >= s.len() {
        None
    } else if s[i] == '.' {
        Some(i)
    } else {
        first_dot(s, i + 1)
    }
}

/// Everything before the first dot of a dotted field path; the whole text
/// when there is no dot.
pub open spec fn head_token(s: Seq<char>) -> Seq<char> {
    match first_dot(s, 0) {
        Some(i) => s.take(i),
        None => s,
    }
}

/// The head of a dotted field path.
fn head_of_path(s: &str) -> (r: String)
    ensures
        r@ == head_token(s@),
{
    let n = s.unicode_len();
    let mut i: usize = 0;
    while i < n
        invariant
            i <= n,
            n == s@.len(),
            first_dot(s@, 0) == first_dot(s@, i as int),
        decreases n - i,
    {
        if s.get_char(i) == '.' {
            let head = s.substring_char(0, i);
            proof {
                assert(head@ =~= s@.take(i as int));
            }
            return head.to_owned();
        }
        i += 1;
    }
    s.to_owned()
}

/// Looks one entity up and builds its result record, keeping only the
/// requested fields if a list is given.
pub fn get_entity(cache: &Cache, ty: &str, ent_id: &str, fields: Option<&Vec<String>>) -> (r:
    Result<QueryResultEntity, NotFoundError>)
    requires
        cache.wf(),
    ensures
        match r {
            Ok(rec) => match lookup(cache.deep_view(), ty@) {
                Some(g) => match lookup(g.entities, ent_id@) {
                    Some(e) => rec.deep_view() == (RecordView {
                        id: ent_id@,
                        fields: match fields {
                            Some(fs) => project(e, fs.deep_view()),
                            None => e,
                        },
                    }),
                    None => false,
                },
                None => false,
            },
            Err(er) => match lookup(cache.deep_view(), ty@) {
                None => er == NotFoundError::UnknownType,
                Some(g) => !has_key(g.entities, ent_id@) && er == NotFoundError::UnknownEntity,
            },
        },
{
    let group = match cache.get_group(ty) {
        Ok(g) => g,
        Err(er) => {
            return Err(er);
        },
    };
    let ent = match group.get_entity(ent_id) {
        Ok(e) => e,
        Err(er) => {
            return Err(er);
        },
    };
    let mut rec = QueryResultEntity::of_entity(&ent_id.to_owned(), ent);
    match fields {
        Some(fs) => {
            rec.filter_fields(fs);
        },
        None => {},
    }
    Ok(rec)
}

/// Looks one field of one entity up, by the head of a dotted field path,
/// and hands back a copy of its value.
pub fn get_field(cache: &Cache, ty: &str, ent_id: &str, field_name: &str) -> (r: Result<
    FieldData,
    NotFoundError,
>)
    requires
        cache.wf(),
    ensures
        match r {
            Ok(d) => match lookup(cache.deep_view(), ty@) {
                Some(g) => match lookup(g.entities, ent_id@) {
                    Some(e) => lookup(e, head_token(field_name@)) == Some(d.deep_view()),
                    None => false,
                },
                None => false,
            },
            Err(er) => match lookup(cache.deep_view(), ty@) {
                None => er == NotFoundError::UnknownType,
                Some(g) => match lookup(g.entities, ent_id@) {
                    None => er == NotFoundError::UnknownEntity,
                    Some(e) => !has_key(e, head_token(field_name@)) && er
                        == NotFoundError::UnknownField,
                },
            },
        },
{
    let group = match cache.get_group(ty) {
        Ok(g) => g,
        Err(er) => {
            return Err(er);
        },
    };
    let ent = match group.get_entity(ent_id) {
        Ok(e) => e,
        Err(er) => {
            return Err(er);
        },
    };
    proof {
        let c = cache.deep_view();
        let gi = key_index(c, ty@);
        assert(group_wf(c[gi].1));
        let ei = key_index(c[gi].1.entities, ent_id@);
        assert(crate::kv::keys_unique(c[gi].1.entities[ei].1));
    }
    let head = head_of_path(field_name);
    match ent.get_field(&head) {
        Some(d) => Ok(d.duplicate()),
        None => Err(NotFoundError::UnknownField),
    }
}

} // verus!
