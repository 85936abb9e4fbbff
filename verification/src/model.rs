//! Resolved POSIX users and groups.
use vstd::prelude::*;

verus! {

/// The characters of each string of `items`, in order.
pub open spec fn texts(items: Seq<String>) -> Seq<Seq<char>> {
    items.map_values(|s: String| s@)
}

/// A resolved POSIX user, ready to be packed into `struct passwd`.
#[derive(Debug, Clone, PartialEq, Eq)]
pub struct User {
    /// OIDC subject / SCIM id (the stable external identifier).
    pub external_id: String,
    /// Login name (SCIM `userName`).
    pub name: String,
    /// Mapped local UID.
    pub uid: u32,
    /// Primary group GID.
    pub gid: u32,
    /// GECOS / display name.
    pub gecos: String,
    /// Home directory.
    pub home: String,
    /// Login shell.
    pub shell: String,
    /// Whether the user account is active (from SCIM `active` field).
    pub active: bool,
}

/// What a [`User`] holds, as mathematical values.
pub struct UserView {
    pub external_id: Seq<char>,
    pub name: Seq<char>,
    pub uid: u32,
    pub gid: u32,
    pub gecos: Seq<char>,
    pub home: Seq<char>,
    pub shell: Seq<char>,
    pub active: bool,
}

impl View for User {
    type V = UserView;

    open spec fn view(&self) -> UserView {
        UserView {
            external_id: self.external_id@,
            name: self.name@,
            uid: self.uid,
            gid: self.gid,
            gecos: self.gecos@,
            home: self.home@,
            shell: self.shell@,
            active: self.active,
        }
    }
}

/// What an optional user holds.
pub open spec fn user_view(user: Option<User>) -> Option<UserView> {
    match user {
        Some(u) => Some(u@),
        None => None,
    }
}

/// Whether an account is active when nothing says otherwise.
pub fn default_active() -> (active: bool)
    ensures
        active,
{
    true
}

/// A resolved POSIX group, ready to be packed into `struct group`.
#[derive(Debug, Clone, PartialEq, Eq)]
pub struct Group {
    /// SCIM group id.
    pub external_id: String,
    /// Group name (SCIM `displayName`).
    pub name: String,
    /// Mapped local GID.
    pub gid: u32,
    /// Login names of group members.
    pub members: Vec<String>,
}

/// What a [`Group`] holds, as mathematical values.
pub struct GroupView {
    pub external_id: Seq<char>,
    pub name: Seq<char>,
    pub gid: u32,
    pub members: Seq<Seq<char>>,
}

impl View for Group {
    type V = GroupView;

    open spec fn view(&self) -> GroupView {
        GroupView {
            external_id: self.external_id@,
            name: self.name@,
            gid: self.gid,
            members: texts(self.members@),
        }
    }
}

/// What an optional group holds.
pub open spec fn group_view(group: Option<Group>) -> Option<GroupView> {
    match group {
        Some(g) => Some(g@),
        None => None,
    }
}

/// A view loses nothing: users with the same view hold the same texts and numbers.
pub proof fn lemma_user_view(a: User, b: User)
    ensures
        a@ == b@ <==> a.external_id@ == b.external_id@ && a.name@ == b.name@ && a.uid == b.uid
            && a.gid == b.gid && a.gecos@ == b.gecos@ && a.home@ == b.home@ && a.shell@ == b.shell@
            && a.active == b.active,
        a@.external_id == a.external_id@,
        a@.name == a.name@,
        a@.uid == a.uid,
        a@.gid == a.gid,
        a@.gecos == a.gecos@,
        a@.home == a.home@,
        a@.shell == a.shell@,
        a@.active == a.active,
        user_view(Some(a)) == Some(a@),
        user_view(None) is None,
{
}

/// A view loses nothing: groups with the same view hold the same texts and number, and
/// the same members in the same order.
pub proof fn lemma_group_view(g: Group)
    ensures
        g@.external_id == g.external_id@,
        g@.name == g.name@,
        g@.gid == g.gid,
        g@.members.len() == g.members@.len(),
        forall|i: int| 0 <= i < g.members@.len() ==> #[trigger] g@.members[i] == g.members@[i]@,
        group_view(Some(g)) == Some(g@),
        group_view(None) is None,
{
}

/// The texts of strings are those of each of them, in order.
pub proof fn lemma_texts(items: Seq<String>)
    ensures
        texts(items).len() == items.len(),
        forall|i: int| 0 <= i < items.len() ==> #[trigger] texts(items)[i] == items[i]@,
{
}

} // verus!
