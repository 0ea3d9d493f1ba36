//! Entities and request messages of the registry core.

use vstd::prelude::*;

verus! {

/// The forge software an instance runs, drawn from a closed set that is
/// seeded into the store during initialization.  Adding support for new
/// forge software is a two-step change: a new variant here and a new
/// entry in the seed list consulted by store initialization.
#[derive(Clone, Copy, Debug, PartialEq, Eq, Structural)]
pub enum ForgeImplementation {
    Gitea,
}

impl ForgeImplementation {
    /// The canonical lower-case name of the forge software.
    pub fn to_str(&self) -> (r: &'static str)
        ensures
            r@ == self.spec_name(),
    {
        match self {
            ForgeImplementation::Gitea => "gitea",
        }
    }

    /// The canonical name, at the specification level.
    pub open spec fn spec_name(self) -> Seq<char> {
        match self {
            ForgeImplementation::Gitea => "gitea"@,
        }
    }
}

/// The view of an optional string attribute: the character sequence it
/// holds, if any.
pub open spec fn opt_view(o: Option<String>) -> Option<Seq<char>> {
    match o {
        Option::Some(s) => Option::Some(s@),
        Option::None => Option::None,
    }
}

/// Request to register a forge instance under a normalized hostname.
pub struct CreateForge {
    /// Normalized hostname: scheme and host, no path, query or fragment.
    pub hostname: String,
    /// Software the instance runs; must be seeded in the store.
    pub forge_type: ForgeImplementation,
}

/// Request to add a user under a registered forge instance.
pub struct AddUser {
    /// Hostname of the owning forge instance.
    pub hostname: String,
    /// Username, unique per forge instance.
    pub username: String,
    /// Link to the user's profile page.
    pub html_link: String,
    /// Optional link to the user's profile photo.
    pub profile_photo: Option<String>,
}

/// Request to add a repository under a registered forge instance.
pub struct AddRepository {
    /// Hostname of the owning forge instance.
    pub hostname: String,
    /// Username of the owning user; must exist under `hostname`.
    pub owner: String,
    /// Repository name, unique per (owner, hostname).
    pub name: String,
    /// Canonical link to the repository.
    pub html_link: String,
    /// Topic tags; order is irrelevant and membership is what counts.
    pub tags: Option<Vec<String>>,
    /// Optional project website.
    pub website: Option<String>,
    /// Optional description.
    pub description: Option<String>,
}

/// A stored DNS TXT challenge.
pub struct Challenge {
    /// Lookup key: a deterministic function of the shared secret and the
    /// hostname under verification.
    pub key: String,
    /// Token the hostname's administrator must publish as a TXT record.
    pub value: String,
    /// Hostname under verification.
    pub hostname: String,
}

/// The view of a tag list: the set of tags it holds.  An absent list
/// carries no tags.
pub open spec fn tag_set(tags: Option<Vec<String>>) -> Set<Seq<char>> {
    match tags {
        Option::Some(v) => v@.map_values(|t: String| t@).to_set(),
        Option::None => Set::empty(),
    }
}

} // verus!
