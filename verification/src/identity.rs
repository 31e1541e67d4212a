//! The identity resolver: every group and font has one identifier, and no
//! identifier is used twice.

use std::collections::HashMap;
use vstd::prelude::*;
use vstd::string::StringExecFns;
use crate::lint::{ContextView, ErrorContext, FindingView, LintErrors, LintMode};
use crate::text::str_eq;
use crate::types::{SourceUUID, Uuid};
use crate::urls::{hyphenated, uuid_text};

verus! {

broadcast use vstd::std_specs::hash::group_hash_axioms;

/// What resolving `uuid` gives when the identifiers in `seen` are taken and
/// `minted` is the identifier to assign where none is: the identifier, or the
/// finding.
pub open spec fn resolved(
    seen: Set<Uuid>,
    uuid: SourceUUID,
    context: ContextView,
    mode: LintMode,
    minted: Uuid,
) -> Result<Uuid, FindingView> {
    match uuid {
        SourceUUID::Uuid(id) => if seen.contains(id) {
            Err(FindingView::ReusedUuid(id))
        } else {
            Ok(id)
        },
        SourceUUID::Null => if mode == LintMode::Fix {
            Ok(minted)
        } else {
            Err(FindingView::MissingUuid(context))
        },
    }
}

/// The identifiers taken after resolving `uuid`: a resolved identifier is
/// recorded, a finding records nothing.
pub open spec fn seen_after(seen: Set<Uuid>, uuid: SourceUUID, mode: LintMode, minted: Uuid) -> Set<
    Uuid,
> {
    match resolved(seen, uuid, ContextView::Groups, mode, minted) {
        Ok(id) => seen.insert(id),
        Err(_) => seen,
    }
}

/// The view of the outcome of a resolution.
pub open spec fn outcome_view(r: Result<Uuid, LintErrors>) -> Result<Uuid, FindingView> {
    match r {
        Ok(id) => Ok(id),
        Err(e) => Err(e@),
    }
}

/// The identifier that an outcome holds; zero where it holds a finding.
pub open spec fn outcome_id(r: Result<Uuid, LintErrors>) -> Uuid {
    match r {
        Ok(id) => id,
        Err(_) => 0,
    }
}

/// A random identifier from `uuid::Uuid::new_v4`, as the number that
/// `Uuid::as_u128` gives for it. Nothing is claimed of its value.
#[verifier::external_body]
pub(crate) fn fresh_uuid() -> Uuid {
    uuid::Uuid::new_v4().as_u128()
}

/// Resolves `uuid` against the identifiers in `uuid_map`, with `minted` as the
/// identifier to assign in fix mode where none has been assigned.
pub fn resolve_uuid(
    uuid_map: &mut HashMap<Uuid, ()>,
    uuid: SourceUUID,
    context: ErrorContext,
    lint_mode: LintMode,
    minted: Uuid,
) -> (r: Result<Uuid, LintErrors>)
    ensures
        outcome_view(r) == resolved(old(uuid_map)@.dom(), uuid, context@, lint_mode, minted),
        final(uuid_map)@.dom() == seen_after(old(uuid_map)@.dom(), uuid, lint_mode, minted),
{
    match uuid {
        SourceUUID::Uuid(id) => {
            if uuid_map.contains_key(&id) {
                Err(LintErrors::ReusedUuid(id))
            } else {
                uuid_map.insert(id, ());
                Ok(id)
            }
        },
        SourceUUID::Null => {
            if lint_mode == LintMode::Fix {
                uuid_map.insert(minted, ());
                Ok(minted)
            } else {
                Err(LintErrors::MissingUuid(context))
            }
        },
    }
}

/// Resolves `uuid` against the identifiers in `uuid_map`; in fix mode an
/// identifier that has not been assigned is drawn at random. The outcome is
/// the one that `resolved` gives for the identifier returned.
pub fn check_or_create_uuid(
    uuid_map: &mut HashMap<Uuid, ()>,
    uuid: SourceUUID,
    context: ErrorContext,
    lint_mode: LintMode,
) -> (r: Result<Uuid, LintErrors>)
    ensures
        outcome_view(r) == resolved(
            old(uuid_map)@.dom(),
            uuid,
            context@,
            lint_mode,
            outcome_id(r),
        ),
        final(uuid_map)@.dom() == seen_after(
            old(uuid_map)@.dom(),
            uuid,
            lint_mode,
            outcome_id(r),
        ),
{
    let minted: Uuid = match (uuid, lint_mode) {
        (SourceUUID::Null, LintMode::Fix) => fresh_uuid(),
        _ => 0,
    };
    resolve_uuid(uuid_map, uuid, context, lint_mode, minted)
}

/// The text that stands for an identifier that has not been assigned.
pub const UNASSIGNED: &'static str = "<UUID>";

/// The identifier that the text is parsed to; `None` where the text is no
/// identifier.
pub uninterp spec fn uuid_parsed(text: Seq<char>) -> Option<Uuid>;

/// `uuid::Uuid::parse_str`, then `Uuid::as_u128`: the identifier that a text
/// of hexadecimal digits with optional hyphens stands for. The contract names
/// the result; it claims no more than that the same text gives the same
/// identifier.
#[verifier::external_body]
fn parse_uuid(text: &str) -> (r: Option<Uuid>)
    ensures
        r == uuid_parsed(text@),
{
    match uuid::Uuid::parse_str(text) {
        Ok(id) => Some(id.as_u128()),
        Err(_) => None,
    }
}

/// What a text of the manifest stands for, given the identifier it is parsed
/// to: no identifier yet if it is the text for that; else that identifier;
/// nothing if it is no identifier either.
pub open spec fn source_uuid_of(text: Seq<char>, parsed: Option<Uuid>) -> Option<SourceUUID> {
    if text == UNASSIGNED@ {
        Some(SourceUUID::Null)
    } else {
        match parsed {
            Some(id) => Some(SourceUUID::Uuid(id)),
            None => None,
        }
    }
}

/// The text of an identifier as the manifest holds it.
pub open spec fn source_uuid_text(id: SourceUUID) -> Seq<char> {
    match id {
        SourceUUID::Uuid(x) => hyphenated(x),
        SourceUUID::Null => UNASSIGNED@,
    }
}

impl SourceUUID {
    /// What a text of the manifest stands for, given the identifier that the
    /// text is parsed to.
    pub fn from_parsed(text: &str, parsed: Option<Uuid>) -> (r: Option<SourceUUID>)
        ensures
            r == source_uuid_of(text@, parsed),
    {
        if str_eq(text, UNASSIGNED) {
            Some(SourceUUID::Null)
        } else {
            match parsed {
                Some(id) => Some(SourceUUID::Uuid(id)),
                None => None,
            }
        }
    }

    /// What a text of the manifest stands for.
    pub fn parse(text: &str) -> (r: Option<SourceUUID>)
        ensures
            r == source_uuid_of(text@, uuid_parsed(text@)),
    {
        let parsed = parse_uuid(text);
        SourceUUID::from_parsed(text, parsed)
    }

    /// The text of the identifier as the manifest holds it.
    pub fn to_string(&self) -> (r: String)
        ensures
            r@ == source_uuid_text(*self),
    {
        match self {
            SourceUUID::Uuid(id) => uuid_text(*id),
            SourceUUID::Null => String::from_str(UNASSIGNED),
        }
    }
}

} // verus!
