//! The stored records of managed skills and of their origins.

use vstd::prelude::*;
use crate::app_config::opt_view;

verus! {

/// A managed skill as stored.
#[derive(Debug, Clone)]
pub struct SkillRecord {
    pub id: String,
    pub name: String,
    pub description: Option<String>,
    pub source_type: String,
    pub source_ref: Option<String>,
    pub source_subpath: Option<String>,
    pub source_revision: Option<String>,
    pub central_path: String,
    pub content_hash: Option<String>,
    pub created_at: i64,
    pub updated_at: i64,
    pub last_sync_at: Option<i64>,
    pub last_seen_at: i64,
    pub status: String,
}

/// Where a managed skill comes from and how it is updated and published.
#[derive(Debug, Clone)]
pub struct SkillOriginRecord {
    pub skill_id: String,
    pub origin_kind: String,
    pub origin_role: String,
    pub provider: Option<String>,
    pub remote_url: Option<String>,
    pub owner: Option<String>,
    pub repo: Option<String>,
    pub branch: Option<String>,
    pub subpath: Option<String>,
    pub update_strategy: String,
    pub publish_strategy: String,
    pub manual_override: bool,
    pub reason: Option<String>,
    pub updated_at: i64,
}


/// The contents of a [`SkillOriginRecord`].
pub struct OriginV {
    pub skill_id: Seq<char>,
    pub origin_kind: Seq<char>,
    pub origin_role: Seq<char>,
    pub provider: Option<Seq<char>>,
    pub remote_url: Option<Seq<char>>,
    pub owner: Option<Seq<char>>,
    pub repo: Option<Seq<char>>,
    pub branch: Option<Seq<char>>,
    pub subpath: Option<Seq<char>>,
    pub update_strategy: Seq<char>,
    pub publish_strategy: Seq<char>,
    pub manual_override: bool,
    pub reason: Option<Seq<char>>,
    pub updated_at: i64,
}

impl View for SkillOriginRecord {
    type V = OriginV;

    open spec fn view(&self) -> OriginV {
        OriginV {
            skill_id: self.skill_id@,
            origin_kind: self.origin_kind@,
            origin_role: self.origin_role@,
            provider: opt_view(self.provider),
            remote_url: opt_view(self.remote_url),
            owner: opt_view(self.owner),
            repo: opt_view(self.repo),
            branch: opt_view(self.branch),
            subpath: opt_view(self.subpath),
            update_strategy: self.update_strategy@,
            publish_strategy: self.publish_strategy@,
            manual_override: self.manual_override,
            reason: opt_view(self.reason),
            updated_at: self.updated_at,
        }
    }
}


/// The contents of an optional origin record.
pub open spec fn origin_opt(o: Option<SkillOriginRecord>) -> Option<OriginV> {
    match o {
        Some(r) => Some(r@),
        None => None,
    }
}

/// The contents of a [`SkillRecord`].
pub struct RecordV {
    pub id: Seq<char>,
    pub name: Seq<char>,
    pub description: Option<Seq<char>>,
    pub source_type: Seq<char>,
    pub source_ref: Option<Seq<char>>,
    pub source_subpath: Option<Seq<char>>,
    pub source_revision: Option<Seq<char>>,
    pub central_path: Seq<char>,
    pub content_hash: Option<Seq<char>>,
    pub created_at: i64,
    pub updated_at: i64,
    pub last_sync_at: Option<i64>,
    pub last_seen_at: i64,
    pub status: Seq<char>,
}

impl View for SkillRecord {
    type V = RecordV;

    open spec fn view(&self) -> RecordV {
        RecordV {
            id: self.id@,
            name: self.name@,
            description: opt_view(self.description),
            source_type: self.source_type@,
            source_ref: opt_view(self.source_ref),
            source_subpath: opt_view(self.source_subpath),
            source_revision: opt_view(self.source_revision),
            central_path: self.central_path@,
            content_hash: opt_view(self.content_hash),
            created_at: self.created_at,
            updated_at: self.updated_at,
            last_sync_at: self.last_sync_at,
            last_seen_at: self.last_seen_at,
            status: self.status@,
        }
    }
}

} // verus!
