//! The self-assignable roles of one guild and the decision a toggle makes.

use vstd::prelude::*;
use vstd::string::StringExecFns;

use crate::directory::{Entity, IdNameMap, unique_ids};
use crate::text::{decimal, u64_text};

verus! {

/// A role that members may give themselves.
pub struct RolesEntry {
    pub id: u64,
    pub tag: String,
}

pub open spec fn role_of(e: RolesEntry) -> Entity {
    (e.id, e.tag@)
}

pub open spec fn roles_of(v: Seq<RolesEntry>) -> Seq<Entity> {
    v.map_values(|e: RolesEntry| role_of(e))
}

impl RolesEntry {
    /// An entry for role 0 with an empty tag.
    pub fn default() -> (r: RolesEntry)
        ensures
            r.id == 0,
            r.tag@ == Seq::<char>::empty(),
    {
        RolesEntry { id: 0, tag: String::new() }
    }
}

/// What a toggle does to a member's roles.
#[derive(Clone, Copy, Debug, PartialEq, Eq)]
pub enum RoleChange {
    Add,
    Remove,
}

/// A toggle removes a role the member holds and adds one it does not.
pub fn toggle_action(member_roles: &Vec<u64>, id: u64) -> (r: RoleChange)
    ensures
        r == (if member_roles@.contains(id) { RoleChange::Remove } else { RoleChange::Add }),
{
    let mut i: usize = 0;
    while i < member_roles.len()
        invariant
            0 <= i <= member_roles.len(),
            forall|j: int| 0 <= j < i ==> member_roles@[j] != id,
        decreases member_roles.len() - i,
    {
        if member_roles[i] == id {
            assert(member_roles@[i as int] == id);
            return RoleChange::Remove;
        }
        i += 1;
    }
    RoleChange::Add
}

/// `<id> <tag>` lines, each ending in a newline.
pub open spec fn roles_lines(es: Seq<Entity>) -> Seq<char>
    decreases es.len(),
{
    if es.len() == 0 {
        Seq::empty()
    } else {
        roles_lines(es.drop_last()) + decimal(es.last().0 as nat) + " "@ + es.last().1 + "\n"@
    }
}

/// The self-assignable roles of one guild, each id at most once.
pub struct Roles {
    entries: Vec<RolesEntry>,
}

impl Roles {
    pub closed spec fn roles(&self) -> Seq<Entity> {
        roles_of(self.entries@)
    }

    pub closed spec fn wf(&self) -> bool {
        unique_ids(self.roles())
    }

    /// No roles.
    pub fn new() -> (r: Roles)
        ensures
            r.wf(),
            r.roles() == Seq::<Entity>::empty(),
    {
        let r = Roles { entries: Vec::new() };
        assert(r.roles() =~= Seq::<Entity>::empty());
        r
    }

    fn find(&self, id: u64) -> (r: Option<usize>)
        ensures
            r matches Some(k) ==> k < self.roles().len() && self.roles()[k as int].0 == id,
            r is None ==> forall|j: int| 0 <= j < self.roles().len() ==> self.roles()[j].0 != id,
    {
        let mut i: usize = 0;
        while i < self.entries.len()
            invariant
                0 <= i <= self.entries.len(),
                forall|j: int| 0 <= j < i ==> self.roles()[j].0 != id,
            decreases self.entries.len() - i,
        {
            if self.entries[i].id == id {
                return Some(i);
            }
            i += 1;
        }
        None
    }

    /// Makes role `id` self-assignable under `tag`, replacing the tag of an
    /// earlier entry for it in place.
    pub fn add(&mut self, id: u64, tag: String)
        requires
            old(self).wf(),
        ensures
            final(self).wf(),
            (exists|i: int|
                0 <= i < old(self).roles().len() && old(self).roles()[i].0 == id
                    && final(self).roles() == old(self).roles().update(i, (id, tag@)))
                || ((forall|i: int| 0 <= i < old(self).roles().len() ==> old(self).roles()[i].0 != id)
                && final(self).roles() == old(self).roles().push((id, tag@))),
    {
        let ghost before = self.roles();
        let ghost t = tag@;
        match self.find(id) {
            Some(k) => {
                self.entries.set(k, RolesEntry { id, tag });
                assert(self.roles() =~= before.update(k as int, (id, t)));
                assert(unique_ids(self.roles()));
                assert(0 <= k < before.len() && before[k as int].0 == id && self.roles()
                    == before.update(k as int, (id, t)));
            },
            None => {
                self.entries.push(RolesEntry { id, tag });
                assert(self.roles() =~= before.push((id, t)));
            },
        }
    }

    /// Removes role `id`; false when it was not there.
    pub fn del(&mut self, id: u64) -> (r: bool)
        requires
            old(self).wf(),
        ensures
            final(self).wf(),
            r == exists|i: int| 0 <= i < old(self).roles().len() && old(self).roles()[i].0 == id,
            r ==> exists|i: int|
                0 <= i < old(self).roles().len() && old(self).roles()[i].0 == id
                    && final(self).roles() == old(self).roles().remove(i),
            !r ==> final(self).roles() == old(self).roles(),
    {
        let ghost before = self.roles();
        match self.find(id) {
            Some(k) => {
                self.entries.remove(k);
                assert(self.roles() =~= before.remove(k as int));
                assert(forall|i: int| 0 <= i < self.roles().len() ==> #[trigger] self.roles()[i]
                    == before[if i < k { i } else { i + 1 }]);
                true
            },
            None => false,
        }
    }

    /// The roles as a directory to resolve names against, in the same order.
    pub fn directory(&self) -> (r: IdNameMap)
        requires
            self.wf(),
        ensures
            r.wf(),
            r.entities() == self.roles(),
    {
        let ghost rs = self.roles();
        let mut d = IdNameMap::new();
        let mut i: usize = 0;
        while i < self.entries.len()
            invariant
                0 <= i <= self.entries.len(),
                rs == self.roles(),
                unique_ids(rs),
                d.wf(),
                d.entities() == rs.take(i as int),
            decreases self.entries.len() - i,
        {
            let ghost prev = d.entities();
            assert(forall|j: int| 0 <= j < prev.len() ==> prev[j] == rs[j]);
            d.insert(self.entries[i].id, self.entries[i].tag.clone());
            assert(rs.take(i + 1) == rs.take(i as int).push(rs[i as int]));
            i += 1;
        }
        assert(rs.take(self.entries.len() as int) == rs);
        d
    }

    /// The list shown to members: a header, then one `<id> <tag>` line per
    /// role inside a code fence.
    pub fn listing(&self) -> (r: String)
        ensures
            r@ == "Available Roles: ```\n"@ + roles_lines(self.roles()) + "```"@,
    {
        let ghost rs = self.roles();
        let mut out = String::from_str("Available Roles: ```\n");
        let ghost head = out@;
        let mut i: usize = 0;
        while i < self.entries.len()
            invariant
                0 <= i <= self.entries.len(),
                rs == self.roles(),
                out@ == head + roles_lines(rs.take(i as int)),
            decreases self.entries.len() - i,
        {
            assert(rs.take(i + 1).drop_last() == rs.take(i as int));
            assert(rs.take(i + 1).last() == rs[i as int]);
            let id = u64_text(self.entries[i].id);
            out.append(id.as_str());
            out.append(" ");
            out.append(self.entries[i].tag.as_str());
            out.append("\n");
            i += 1;
        }
        assert(rs.take(self.entries.len() as int) == rs);
        out.append("```");
        out
    }
}

} // verus!
