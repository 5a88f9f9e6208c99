//! Permission flags: sets of single-character modes, the per-guild table of
//! entries granting them, and the check that combines a member's grants.

use vstd::prelude::*;
use vstd::string::StrSliceExecFns;

use vstd::string::StringExecFns;

use crate::directory::{Entity, IdNameMap};
use crate::text::{collect_chars, decimal, u64_text};

verus! {

/// A set of single-character mode flags, kept as distinct characters.
#[derive(Clone, Debug)]
pub struct Modes(Vec<char>);

/// Every character of `required` is in `flags` (trivially so when it is empty).
pub open spec fn satisfies(flags: Set<char>, required: Seq<char>) -> bool {
    forall|i: int| 0 <= i < required.len() ==> flags.contains(#[trigger] required[i])
}

impl View for Modes {
    type V = Set<char>;

    closed spec fn view(&self) -> Set<char> {
        self.0@.to_set()
    }
}

impl Modes {
    pub closed spec fn wf(&self) -> bool {
        self.0@.no_duplicates()
    }

    /// The characters in the order that `to_string` writes them.
    pub closed spec fn text(&self) -> Seq<char> {
        self.0@
    }

    fn has(&self, c: char) -> (r: bool)
        ensures
            r == self@.contains(c),
    {
        let mut i: usize = 0;
        while i < self.0.len()
            invariant
                0 <= i <= self.0.len(),
                forall|j: int| 0 <= j < i ==> self.0@[j] != c,
            decreases self.0.len() - i,
        {
            if self.0[i] == c {
                return true;
            }
            i += 1;
        }
        false
    }

    /// The empty set.
    pub fn new() -> (r: Modes)
        ensures
            r.wf(),
            r@ == Set::<char>::empty(),
    {
        let r = Modes(Vec::new());
        assert(r@ =~= Set::<char>::empty());
        r
    }

    /// Adds one flag.
    pub fn insert(&mut self, c: char)
        requires
            old(self).wf(),
        ensures
            final(self).wf(),
            final(self)@ == old(self)@.insert(c),
    {
        if !self.has(c) {
            let ghost before = self.0@;
            assert forall|j: int| 0 <= j < before.len() implies before[j] != c by {
                if before[j] == c {
                    assert(before.to_set().contains(before[j]));
                }
            }
            self.0.push(c);
            assert(self.0@ == before.push(c));
            proof {
                before.lemma_push_to_set_commute(c);
            }
        } else {
            assert(self@ =~= self@.insert(c));
        }
    }

    /// The set of the distinct characters of `x`.
    pub fn from_str(x: &str) -> (r: Modes)
        ensures
            r.wf(),
            r@ == x@.to_set(),
    {
        let mut r = Modes::new();
        let n = x.unicode_len();
        let mut i: usize = 0;
        while i < n
            invariant
                n == x@.len(),
                0 <= i <= n,
                r.wf(),
                r@ == x@.subrange(0, i as int).to_set(),
            decreases n - i,
        {
            let c = x.get_char(i);
            r.insert(c);
            proof {
                assert(x@.subrange(0, i + 1) == x@.subrange(0, i as int).push(c));
                x@.subrange(0, i as int).lemma_push_to_set_commute(c);
            }
            i += 1;
        }
        assert(x@.subrange(0, n as int) == x@);
        r
    }

    /// Adds every flag of `x`.
    pub fn extend(&mut self, x: &Self)
        requires
            old(self).wf(),
        ensures
            final(self).wf(),
            final(self)@ == old(self)@.union(x@),
    {
        let ghost start = self@;
        let mut i: usize = 0;
        while i < x.0.len()
            invariant
                0 <= i <= x.0.len(),
                self.wf(),
                self@ == start.union(x.0@.subrange(0, i as int).to_set()),
            decreases x.0.len() - i,
        {
            let c = x.0[i];
            self.insert(c);
            proof {
                assert(x.0@.subrange(0, i + 1) == x.0@.subrange(0, i as int).push(c));
                x.0@.subrange(0, i as int).lemma_push_to_set_commute(c);
                assert(self@ =~= start.union(x.0@.subrange(0, i + 1).to_set()));
            }
            i += 1;
        }
        assert(x.0@.subrange(0, x.0.len() as int) == x.0@);
    }

    /// Whether every character of `x` is a flag of this set.
    pub fn check(&self, x: &str) -> (r: bool)
        ensures
            r == satisfies(self@, x@),
    {
        let n = x.unicode_len();
        let mut i: usize = 0;
        while i < n
            invariant
                n == x@.len(),
                0 <= i <= n,
                forall|j: int| 0 <= j < i ==> self@.contains(#[trigger] x@[j]),
            decreases n - i,
        {
            if !self.has(x.get_char(i)) {
                return false;
            }
            i += 1;
        }
        true
    }

    /// The flags as a string of distinct characters.
    pub fn to_string(&self) -> (r: String)
        ensures
            r@ == self.text(),
    {
        collect_chars(&self.0)
    }
}

/// Writing a set as text and reading the text back gives the same set: the
/// text holds each flag once and nothing else.
pub proof fn law_modes_text_round_trip(m: &Modes)
    requires
        m.wf(),
    ensures
        m.text().to_set() == m@,
        m.text().no_duplicates(),
{
}

/// One grant of flags, to a user or to a role.
pub struct PermsEntry {
    pub id: u64,
    pub tag: String,
    pub modes: Modes,
}

/// A grant as the contracts see it: principal id, tag and flags.
pub type Grant = (u64, Seq<char>, Set<char>);

pub open spec fn grant_of(e: PermsEntry) -> Grant {
    (e.id, e.tag@, e.modes@)
}

pub open spec fn grants_of(v: Seq<PermsEntry>) -> Seq<Grant> {
    v.map_values(|e: PermsEntry| grant_of(e))
}

/// The flags granted to principal `id` (none when it has no entry).
pub open spec fn flags_for(gs: Seq<Grant>, id: u64) -> Set<char>
    decreases gs.len(),
{
    if gs.len() == 0 {
        Set::empty()
    } else if gs.last().0 == id {
        gs.last().2
    } else {
        flags_for(gs.drop_last(), id)
    }
}

/// The effective flags of a member: its own grant joined with the grant of
/// every role it holds.
pub open spec fn effective_flags(gs: Seq<Grant>, member: u64, roles: Seq<u64>) -> Set<char>
    decreases roles.len(),
{
    if roles.len() == 0 {
        flags_for(gs, member)
    } else {
        effective_flags(gs, member, roles.drop_last()).union(flags_for(gs, roles.last()))
    }
}

pub open spec fn unique_principals(gs: Seq<Grant>) -> bool {
    forall|i: int, j: int| 0 <= i < gs.len() && 0 <= j < gs.len() && i != j ==> gs[i].0 != gs[j].0
}

/// Whether a member may act: administrators always may; others need every
/// required flag among their effective flags.
pub open spec fn permitted(
    gs: Seq<Grant>,
    member: u64,
    roles: Seq<u64>,
    administrator: bool,
    required: Seq<char>,
) -> bool {
    administrator || satisfies(effective_flags(gs, member, roles), required)
}

/// `<id> <tag> <flags>` lines, each ending in a newline.
pub open spec fn perms_lines(v: Seq<PermsEntry>) -> Seq<char>
    decreases v.len(),
{
    if v.len() == 0 {
        Seq::empty()
    } else {
        perms_lines(v.drop_last()) + decimal(v.last().id as nat) + " "@ + v.last().tag@ + " "@
            + v.last().modes.text() + "\n"@
    }
}

/// The principals of a table as directory entities: id and tag.
pub open spec fn principals_of(gs: Seq<Grant>) -> Seq<Entity> {
    gs.map_values(|g: Grant| (g.0, g.1))
}

impl PermsEntry {
    /// An entry for principal 0 with an empty tag and no flags.
    pub fn default() -> (r: PermsEntry)
        ensures
            r.id == 0,
            r.tag@ == Seq::<char>::empty(),
            r.modes.wf(),
            r.modes@ == Set::<char>::empty(),
    {
        PermsEntry { id: 0, tag: String::new(), modes: Modes::new() }
    }
}

/// The permission grants of one guild, at most one per principal.
pub struct Permissions {
    entries: Vec<PermsEntry>,
}

impl Permissions {
    /// The entries in storage order.
    pub closed spec fn rows(&self) -> Seq<PermsEntry> {
        self.entries@
    }

    pub open spec fn grants(&self) -> Seq<Grant> {
        grants_of(self.rows())
    }

    pub closed spec fn wf(&self) -> bool {
        &&& unique_principals(self.grants())
        &&& forall|i: int| 0 <= i < self.entries@.len() ==> (#[trigger] self.entries@[i]).modes.wf()
    }

    /// A table with no grants.
    pub fn new() -> (r: Permissions)
        ensures
            r.wf(),
            r.grants() == Seq::<Grant>::empty(),
    {
        let r = Permissions { entries: Vec::new() };
        assert(r.grants() =~= Seq::<Grant>::empty());
        r
    }

    /// The index of the last entry of principal `id`, if any.
    fn find(&self, id: u64) -> (r: Option<usize>)
        ensures
            r matches Some(k) ==> k < self.entries@.len() && self.entries@[k as int].id == id
                && flags_for(self.grants(), id) == self.entries@[k as int].modes@,
            r is None ==> flags_for(self.grants(), id) == Set::<char>::empty()
                && forall|j: int| 0 <= j < self.grants().len() ==> self.grants()[j].0 != id,
    {
        let mut i: usize = self.entries.len();
        assert(self.grants().take(i as int) == self.grants());
        while i > 0
            invariant
                0 <= i <= self.entries.len(),
                flags_for(self.grants(), id) == flags_for(self.grants().take(i as int), id),
                forall|j: int| i <= j < self.grants().len() ==> self.grants()[j].0 != id,
            decreases i,
        {
            let ghost g = self.grants();
            assert(g.take(i as int).drop_last() == g.take(i - 1));
            if self.entries[i - 1].id == id {
                return Some(i - 1);
            }
            i -= 1;
        }
        None
    }

    /// Grants `modes` to principal `id` under `tag`, replacing an earlier
    /// grant of the same principal in place.
    pub fn set(&mut self, id: u64, tag: String, modes: Modes)
        requires
            old(self).wf(),
            modes.wf(),
        ensures
            final(self).wf(),
            (exists|i: int|
                0 <= i < old(self).grants().len() && old(self).grants()[i].0 == id
                    && final(self).grants() == old(self).grants().update(i, (id, tag@, modes@)))
                || ((forall|i: int| 0 <= i < old(self).grants().len() ==> old(self).grants()[i].0 != id)
                && final(self).grants() == old(self).grants().push((id, tag@, modes@))),
    {
        let ghost g = (id, tag@, modes@);
        let ghost before = self.grants();
        let entry = PermsEntry { id, tag, modes };
        match self.find(id) {
            Some(k) => {
                assert(before[k as int].0 == id);
                self.entries.set(k, entry);
                assert(self.grants() =~= before.update(k as int, g));
                assert(unique_principals(self.grants()));
                assert(0 <= k < before.len() && before[k as int].0 == id && self.grants()
                    == before.update(k as int, g));
            },
            None => {
                self.entries.push(entry);
                assert(self.grants() =~= before.push(g));
            },
        }
    }

    /// Removes the grant of principal `id`; false when it had none.
    pub fn del(&mut self, id: u64) -> (r: bool)
        requires
            old(self).wf(),
        ensures
            final(self).wf(),
            r == exists|i: int| 0 <= i < old(self).grants().len() && old(self).grants()[i].0 == id,
            r ==> exists|i: int|
                0 <= i < old(self).grants().len() && old(self).grants()[i].0 == id
                    && final(self).grants() == old(self).grants().remove(i),
            !r ==> final(self).grants() == old(self).grants(),
    {
        let ghost before = self.grants();
        match self.find(id) {
            Some(k) => {
                self.entries.remove(k);
                assert(self.grants() =~= before.remove(k as int));
                assert(before[k as int].0 == id);
                assert(forall|i: int| 0 <= i < self.entries@.len() ==> (#[trigger] self.entries@[i])
                    == old(self).entries@[if i < k { i } else { i + 1 }]);
                true
            },
            None => false,
        }
    }

    /// The principals as a directory to resolve names against, in the same order.
    pub fn directory(&self) -> (r: IdNameMap)
        requires
            self.wf(),
        ensures
            r.wf(),
            r.entities() == principals_of(self.grants()),
    {
        let ghost ps = principals_of(self.grants());
        let mut d = IdNameMap::new();
        let mut i: usize = 0;
        while i < self.entries.len()
            invariant
                0 <= i <= self.entries.len(),
                ps == principals_of(self.grants()),
                unique_principals(self.grants()),
                d.wf(),
                d.entities() == ps.take(i as int),
            decreases self.entries.len() - i,
        {
            let ghost prev = d.entities();
            assert(forall|j: int| 0 <= j < prev.len() ==> prev[j] == ps[j]);
            assert(forall|j: int| 0 <= j < ps.len() ==> (#[trigger] ps[j]).0 == self.grants()[j].0);
            d.insert(self.entries[i].id, self.entries[i].tag.clone());
            assert(ps.take(i + 1) == ps.take(i as int).push(ps[i as int]));
            i += 1;
        }
        assert(ps.take(self.entries.len() as int) == ps);
        d
    }

    /// The table as shown to administrators: one `<id> <tag> <flags>` line
    /// per grant inside a code fence.
    pub fn listing(&self) -> (r: String)
        ensures
            r@ == "```\n"@ + perms_lines(self.rows()) + "```"@,
    {
        let ghost v = self.entries@;
        let mut out = String::from_str("```\n");
        let ghost head = out@;
        let mut i: usize = 0;
        while i < self.entries.len()
            invariant
                0 <= i <= self.entries.len(),
                v == self.entries@,
                out@ == head + perms_lines(v.take(i as int)),
            decreases self.entries.len() - i,
        {
            assert(v.take(i + 1).drop_last() == v.take(i as int));
            assert(v.take(i + 1).last() == v[i as int]);
            let id = u64_text(self.entries[i].id);
            let flags = self.entries[i].modes.to_string();
            out.append(id.as_str());
            out.append(" ");
            out.append(self.entries[i].tag.as_str());
            out.append(" ");
            out.append(flags.as_str());
            out.append("\n");
            i += 1;
        }
        assert(v.take(self.entries.len() as int) == v);
        out.append("```");
        out
    }

    /// Whether a member may act under flags `required`: administrators always
    /// may, without the table being consulted; anyone else needs every
    /// required flag among the flags granted to them and to the roles they hold.
    pub fn check_member(&self, member: u64, roles: &Vec<u64>, administrator: bool, required: &str) -> (r: bool)
        requires
            self.wf(),
        ensures
            r == permitted(self.grants(), member, roles@, administrator, required@),
    {
        if administrator {
            return true;
        }
        let mut modes = Modes::new();
        if let Some(k) = self.find(member) {
            modes.extend(&self.entries[k].modes);
        }
        assert(modes@ =~= effective_flags(self.grants(), member, roles@.take(0)));
        let mut i: usize = 0;
        while i < roles.len()
            invariant
                0 <= i <= roles.len(),
                self.wf(),
                modes.wf(),
                modes@ == effective_flags(self.grants(), member, roles@.take(i as int)),
            decreases roles.len() - i,
        {
            assert(roles@.take(i + 1).drop_last() == roles@.take(i as int));
            let ghost before = modes@;
            match self.find(roles[i]) {
                Some(k) => {
                    modes.extend(&self.entries[k].modes);
                },
                None => {
                    assert(modes@ =~= before.union(Set::<char>::empty()));
                },
            }
            i += 1;
        }
        assert(roles@.take(roles.len() as int) == roles@);
        modes.check(required)
    }
}

/// An administrator passes every check, whatever flags are granted.
pub proof fn law_administrator_bypass(perms: &Permissions, member: u64, roles: Seq<u64>, required: Seq<char>)
    ensures
        permitted(perms.grants(), member, roles, true, required),
{
}

impl PartialEq for Modes {
    fn eq(&self, other: &Modes) -> (r: bool) {
        let mut i: usize = 0;
        while i < self.0.len()
            invariant
                0 <= i <= self.0.len(),
                forall|j: int| 0 <= j < i ==> other@.contains(#[trigger] self.0@[j]),
            decreases self.0.len() - i,
        {
            if !other.has(self.0[i]) {
                assert(self@.contains(self.0@[i as int]));
                return false;
            }
            i += 1;
        }
        let mut k: usize = 0;
        while k < other.0.len()
            invariant
                0 <= k <= other.0.len(),
                forall|j: int| 0 <= j < self.0@.len() ==> other@.contains(#[trigger] self.0@[j]),
                forall|j: int| 0 <= j < k ==> self@.contains(#[trigger] other.0@[j]),
            decreases other.0.len() - k,
        {
            if !self.has(other.0[k]) {
                assert(other@.contains(other.0@[k as int]));
                return false;
            }
            k += 1;
        }
        assert(self@ =~= other@);
        true
    }
}

impl vstd::std_specs::cmp::PartialEqSpecImpl for Modes {
    open spec fn obeys_eq_spec() -> bool {
        true
    }

    open spec fn eq_spec(&self, other: &Modes) -> bool {
        self@ == other@
    }
}

} // verus!
