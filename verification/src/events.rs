use vstd::prelude::*;

use crate::repo::{Repo, RepoView};

verus! {

/// Structural view shared by the three lifecycle events: a snapshot of the
/// repository's fields at the moment of the triggering mutation.
pub open spec fn snapshot_of(id: Seq<char>, rev: Option<u64>, group: Seq<char>, name: Seq<char>, description: Option<Seq<char>>, tags: Seq<Seq<char>>, repo: RepoView) -> bool {
    &&& id == repo.id
    &&& rev == repo.rev
    &&& group == repo.group
    &&& name == repo.name
    &&& description == repo.description
    &&& tags == repo.tags
}

/// Published once when a repository is created: an immutable snapshot of
/// its fields.
#[derive(Debug, Clone)]
pub struct RepoCreated {
    pub id: String,
    pub rev: Option<u64>,
    pub group: String,
    pub name: String,
    pub description: Option<String>,
    pub tags: Vec<String>,
}

impl RepoCreated {
    pub fn from(repo: &Repo) -> (ev: RepoCreated)
        ensures
            snapshot_of(
                ev.id@,
                ev.rev,
                ev.group@,
                ev.name@,
                ev.description.deep_view(),
                ev.tags.deep_view(),
                repo@,
            ),
    {
        RepoCreated {
            id: repo.id().clone(),
            rev: repo.rev(),
            group: repo.group().to_string(),
            name: repo.name().to_string(),
            description: clone_description(repo),
            tags: repo.tags().clone(),
        }
    }
}

/// Published once when a repository is updated: an immutable snapshot of
/// its fields.
#[derive(Debug, Clone)]
pub struct RepoUpdated {
    pub id: String,
    pub rev: Option<u64>,
    pub group: String,
    pub name: String,
    pub description: Option<String>,
    pub tags: Vec<String>,
}

impl RepoUpdated {
    pub fn from(repo: &Repo) -> (ev: RepoUpdated)
        ensures
            snapshot_of(
                ev.id@,
                ev.rev,
                ev.group@,
                ev.name@,
                ev.description.deep_view(),
                ev.tags.deep_view(),
                repo@,
            ),
    {
        RepoUpdated {
            id: repo.id().clone(),
            rev: repo.rev(),
            group: repo.group().to_string(),
            name: repo.name().to_string(),
            description: clone_description(repo),
            tags: repo.tags().clone(),
        }
    }
}

/// Published once when a repository is deleted. The blob service reacts to
/// it by cascading the deletion to every blob recorded under the
/// repository's image coordinate.
#[derive(Debug, Clone)]
pub struct RepoDeleted {
    pub id: String,
    pub rev: Option<u64>,
    pub group: String,
    pub name: String,
    pub description: Option<String>,
    pub tags: Vec<String>,
}

impl RepoDeleted {
    pub fn from(repo: &Repo) -> (ev: RepoDeleted)
        ensures
            snapshot_of(
                ev.id@,
                ev.rev,
                ev.group@,
                ev.name@,
                ev.description.deep_view(),
                ev.tags.deep_view(),
                repo@,
            ),
    {
        RepoDeleted {
            id: repo.id().clone(),
            rev: repo.rev(),
            group: repo.group().to_string(),
            name: repo.name().to_string(),
            description: clone_description(repo),
            tags: repo.tags().clone(),
        }
    }
}

fn clone_description(repo: &Repo) -> (d: Option<String>)
    ensures
        d.deep_view() == repo@.description,
{
    match repo.description() {
        Some(s) => Some(s.clone()),
        None => None,
    }
}

} // verus!
