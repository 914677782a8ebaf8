use vstd::prelude::*;

verus! {

/// The qualified name of a repository, `group/name`, as a character
/// sequence. A repository's id is this coordinate, and blob records carry
/// it as their `image` field for cascading cleanup.
pub open spec fn image_coordinate(group: Seq<char>, name: Seq<char>) -> Seq<char> {
    group + seq!['/'] + name
}

/// Structural view of a [`Repo`].
pub struct RepoView {
    pub id: Seq<char>,
    pub rev: Option<u64>,
    pub group: Seq<char>,
    pub name: Seq<char>,
    pub description: Option<Seq<char>>,
    pub tags: Seq<Seq<char>>,
}

impl RepoView {
    /// A repository is well formed when its id is the pure function of its
    /// group and name.
    pub open spec fn wf(self) -> bool {
        self.id == image_coordinate(self.group, self.name)
    }
}

/// The repository aggregate root. It is created and mutated by a sibling
/// repository-management component; this core reads it to locate uploads
/// and tags and reacts to its lifecycle events.
#[derive(Debug, Clone)]
pub struct Repo {
    pub id: String,
    pub rev: Option<u64>,
    pub group: String,
    pub name: String,
    pub description: Option<String>,
    pub tags: Vec<String>,
}

impl View for Repo {
    type V = RepoView;

    open spec fn view(&self) -> RepoView {
        RepoView {
            id: self.id@,
            rev: self.rev,
            group: self.group@,
            name: self.name@,
            description: match self.description {
                Some(d) => Some(d@),
                None => None,
            },
            tags: self.tags.deep_view(),
        }
    }
}

impl Repo {
    /// The deterministic id of the repository identified by `group/name`.
    pub fn build_id(group: &str, name: &str) -> (id: String)
        ensures
            id@ == image_coordinate(group@, name@),
    {
        let mut id = group.to_string();
        id.append("/");
        id.append(name);
        proof {
            reveal_strlit("/");
            assert(id@ =~= image_coordinate(group@, name@));
        }
        id
    }

    pub fn new(group: String, name: String, description: Option<String>, tags: Vec<String>) -> (r:
        Repo)
        ensures
            r@.wf(),
            r@.rev is None,
            r@.group == group@,
            r@.name == name@,
            r@.description == (match description {
                Some(d) => Some(d@),
                None => None::<Seq<char>>,
            }),
            r@.tags == tags.deep_view(),
    {
        let id = Self::build_id(group.as_str(), name.as_str());
        Repo { id, rev: None, group, name, description, tags }
    }

    pub fn id(&self) -> (id: &String)
        ensures
            id@ == self@.id,
    {
        &self.id
    }

    pub fn rev(&self) -> (rev: Option<u64>)
        ensures
            rev == self@.rev,
    {
        self.rev
    }

    pub fn group(&self) -> (g: &str)
        ensures
            g@ == self@.group,
    {
        self.group.as_str()
    }

    pub fn name(&self) -> (n: &str)
        ensures
            n@ == self@.name,
    {
        self.name.as_str()
    }

    pub fn description(&self) -> (d: &Option<String>)
        ensures
            self@.description == (match d {
                Some(s) => Some(s@),
                None => None::<Seq<char>>,
            }),
    {
        &self.description
    }

    pub fn tags(&self) -> (t: &Vec<String>)
        ensures
            t.deep_view() == self@.tags,
    {
        &self.tags
    }

    /// The repository's qualified name, `group/name`.
    pub fn full_name(&self) -> (f: String)
        ensures
            f@ == image_coordinate(self@.group, self@.name),
    {
        Self::build_id(self.group.as_str(), self.name.as_str())
    }
}

/// The `{group}/{name}` pair extracted from a request path, identifying the
/// repository an operation addresses.
#[derive(Debug, Clone)]
pub struct RepoPath {
    pub group: String,
    pub name: String,
}

impl RepoPath {
    pub fn new(group: String, name: String) -> (p: RepoPath)
        ensures
            p.group@ == group@,
            p.name@ == name@,
    {
        RepoPath { group, name }
    }

    pub fn group(&self) -> (g: &str)
        ensures
            g@ == self.group@,
    {
        self.group.as_str()
    }

    pub fn name(&self) -> (n: &str)
        ensures
            n@ == self.name@,
    {
        self.name.as_str()
    }
}

} // verus!
