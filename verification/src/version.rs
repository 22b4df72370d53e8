//! Deciding whether the catalog upstream is newer than the local one.

use vstd::prelude::*;
use crate::error::Error;
use crate::json::{Json, json_of, read_json};
use crate::model::opt_text;

verus! {

/// One record of the upstream version list.
#[derive(Debug, Clone, PartialEq, Eq)]
pub struct DBVersion {
    pub database_version: String,
}

impl DBVersion {
    /// The version token of the record.
    pub fn get_version(self) -> (out: String)
        ensures
            out@ == self.database_version@,
    {
        self.database_version
    }
}

/// Whether an update is due: no version is stored locally, or the stored one
/// is not, character for character, the one upstream.
pub open spec fn is_new_version(local: Option<Seq<char>>, upstream: Seq<char>) -> bool {
    match local {
        None => true,
        Some(l) => l != upstream,
    }
}

/// Comparing two version tokens gives the same answer in either direction,
/// a missing local version always calls for an update, and a local version
/// equal to the one upstream never does.
pub proof fn lemma_version_comparison(a: Seq<char>, b: Seq<char>)
    ensures
        is_new_version(Some(a), b) == is_new_version(Some(b), a),
        is_new_version(None, b),
        !is_new_version(Some(a), a),
        is_new_version(Some(a), b) <==> a != b,
{
}

/// Tokens that differ in a single place differ, be it in a blank.
pub proof fn lemma_version_is_exact(a: Seq<char>, b: Seq<char>, i: int)
    requires
        0 <= i < a.len(),
        a.len() == b.len(),
        a[i] != b[i],
    ensures
        is_new_version(Some(a), b),
{
}

/// Whether a document is a version list: a list of exactly one record, which
/// has a string member `database_version`.
pub open spec fn is_version_list(doc: Json) -> bool {
    match doc.elements() {
        Some(records) => records.len() == 1 && records[0].text_member("database_version"@)
            is Some,
        None => false,
    }
}

/// The version token that a version list names: that of its one record.
pub open spec fn version_token(doc: Json) -> Seq<char>
    recommends
        is_version_list(doc),
{
    doc.elements()->0[0].text_member("database_version"@)->0
}

/// The one record of a version list; `None` for a document that is no
/// version list: no list, an empty one, one of several records, or one whose
/// record has no string member `database_version`.
pub fn version_record(doc: &Json) -> (out: Option<DBVersion>)
    ensures
        match out {
            Some(record) => is_version_list(*doc) && record.database_version@ == version_token(
                *doc,
            ),
            None => !is_version_list(*doc),
        },
{
    match doc.as_elements() {
        None => None,
        Some(items) => if items.len() == 1 {
            match items[0].text_field("database_version") {
                Some(token) => Some(DBVersion { database_version: token }),
                None => None,
            }
        } else {
            None
        },
    }
}

/// The version token of a version list. A document that is no version list
/// has none, and is not to be handed in.
pub fn version_from_json(doc: &Json) -> (out: String)
    requires
        is_version_list(*doc),
    ensures
        out@ == version_token(*doc),
{
    version_record(doc).unwrap().get_version()
}

/// The version token that the body of an upstream answer names. The body
/// must be a version list: upstream is bound to send one, and an answer that
/// is none has no token and is not to be handed in.
pub fn get_upstream_version(body: &str) -> (out: String)
    requires
        json_of(body@) is Some,
        is_version_list(json_of(body@)->0),
    ensures
        out@ == version_token(json_of(body@)->0),
{
    let doc = read_json(body).unwrap();
    version_from_json(&doc)
}

/// The version token that a body names, where the body is a version list;
/// `None` where it is not, so that the caller can stop there.
pub fn read_upstream_version(body: &str) -> (out: Option<String>)
    ensures
        match out {
            Some(token) => json_of(body@) is Some && is_version_list(json_of(body@)->0)
                && token@ == version_token(json_of(body@)->0),
            None => !(json_of(body@) is Some && is_version_list(json_of(body@)->0)),
        },
{
    match read_json(body) {
        None => None,
        Some(doc) => if version_record(&doc).is_some() {
            Some(get_upstream_version(body))
        } else {
            None
        },
    }
}

/// What the local version alone decides.
#[derive(Debug, Clone, Copy, PartialEq, Eq, Structural)]
pub enum VersionCheck {
    /// The answer is known without asking upstream.
    Decided(bool),
    /// The upstream version has to be fetched and compared.
    NeedsUpstream,
}

/// The first step of a version check: without a local version an update is
/// due, and nothing needs to be fetched to know it.
pub fn start_version_check(local: &Option<String>) -> (out: VersionCheck)
    ensures
        out == match *local {
            None => VersionCheck::Decided(true),
            Some(_) => VersionCheck::NeedsUpstream,
        },
{
    match local {
        None => VersionCheck::Decided(true),
        Some(_) => VersionCheck::NeedsUpstream,
    }
}

/// Whether an update is due, given the local version and what asking
/// upstream gave. Without a local version the answer is yes, whatever
/// upstream said or failed to say; with one, a failure upstream is handed on.
pub fn new_version_available(local: &Option<String>, upstream: &Result<String, Error>) -> (out:
    Result<bool, Error>)
    ensures
        out == match (*local, *upstream) {
            (None, _) => Ok::<bool, Error>(true),
            (Some(l), Ok(u)) => Ok(is_new_version(Some(l@), u@)),
            (Some(l), Err(e)) => Err(e),
        },
{
    match local {
        None => Ok(true),
        Some(l) => match upstream {
            Ok(u) => Ok(!(*l == *u)),
            Err(e) => Err(*e),
        },
    }
}

/// The version to update to, if an update is due: the upstream token where
/// it was obtained and differs from the local one.
pub fn update_version(local: &Option<String>, upstream: Result<String, Error>) -> (out: Option<
    String,
>)
    ensures
        match upstream {
            Ok(u) => if is_new_version(opt_text(*local), u@) {
                out is Some && out->0@ == u@
            } else {
                out is None
            },
            Err(_) => out is None,
        },
{
    match upstream {
        Ok(u) => {
            let due = match local {
                None => true,
                Some(l) => !(*l == u),
            };
            if due {
                Some(u)
            } else {
                None
            }
        },
        Err(_) => None,
    }
}

} // verus!
