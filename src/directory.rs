//! A directory of named entities (id → display name) and the resolution policy
//! shared by every command that takes an id or a name: an integer means an id,
//! anything else is a case-insensitive name fragment, and several hits give a
//! bounded disambiguation report.

use vstd::prelude::*;
use vstd::string::StringExecFns;

use crate::text::{contains_text, decimal, has_substring, lower_of, lowercase, parse_u64, u64_text, unsigned_of};

verus! {

/// An entity as the contracts see it: its id and its display name.
pub type Entity = (u64, Seq<char>);

/// The ids and display names of a directory, with unique ids, in enumeration order.
pub struct IdNameMap {
    entries: Vec<(u64, String)>,
}

pub open spec fn entity_of(e: (u64, String)) -> Entity {
    (e.0, e.1@)
}

pub open spec fn entities_of(v: Seq<(u64, String)>) -> Seq<Entity> {
    v.map_values(|e: (u64, String)| entity_of(e))
}

pub open spec fn unique_ids(es: Seq<Entity>) -> bool {
    forall|i: int, j: int| 0 <= i < es.len() && 0 <= j < es.len() && i != j ==> es[i].0 != es[j].0
}

/// Whether entity `e` answers query `q`: by id when `q` reads as an unsigned
/// integer, otherwise by a case-insensitive fragment of its name.
pub open spec fn answers(e: Entity, q: Seq<char>) -> bool {
    match unsigned_of(q) {
        Some(v) => e.0 as nat == v,
        None => has_substring(lower_of(e.1), lower_of(q)),
    }
}

/// The entities of `es` that answer `q`, in the order of `es`.
pub open spec fn hits(es: Seq<Entity>, q: Seq<char>) -> Seq<Entity>
    decreases es.len(),
{
    if es.len() == 0 {
        Seq::empty()
    } else {
        let r = hits(es.drop_last(), q);
        if answers(es.last(), q) { r.push(es.last()) } else { r }
    }
}

/// One line of a disambiguation report: `<id> <name>`.
pub open spec fn entity_line(e: Entity) -> Seq<char> {
    decimal(e.0 as nat) + " "@ + e.1
}

/// The lines of `es`, joined by newlines.
pub open spec fn joined_lines(es: Seq<Entity>) -> Seq<char>
    decreases es.len(),
{
    if es.len() == 0 {
        Seq::empty()
    } else if es.len() == 1 {
        entity_line(es[0])
    } else {
        joined_lines(es.drop_last()) + "\n"@ + entity_line(es.last())
    }
}

/// The most entities that a disambiguation report lists.
pub const REPORT_LIMIT: usize = 5;

/// The entities that a report on `matches` lists: the first five, in order.
pub open spec fn listed(matches: Seq<Entity>) -> Seq<Entity> {
    if matches.len() <= REPORT_LIMIT { matches } else { matches.take(REPORT_LIMIT as int) }
}

/// The answer when nothing matches `q`.
pub open spec fn no_match_text(q: Seq<char>) -> Seq<char> {
    "no matches for `"@ + q + "` found"@
}

/// The report when several entities match `q`.
pub open spec fn ambiguity_text(q: Seq<char>, matches: Seq<Entity>) -> Seq<char> {
    "`"@ + q + "` is ambiguous. perhaps you meant one of these:\n"@ + "```\n"@ + joined_lines(
        listed(matches),
    ) + "```"@
}

impl IdNameMap {
    /// The directory's entities in enumeration order.
    pub closed spec fn entities(&self) -> Seq<Entity> {
        entities_of(self.entries@)
    }

    pub closed spec fn wf(&self) -> bool {
        unique_ids(self.entities())
    }

    /// An empty directory.
    pub fn new() -> (r: IdNameMap)
        ensures
            r.wf(),
            r.entities() == Seq::<Entity>::empty(),
    {
        let r = IdNameMap { entries: Vec::new() };
        assert(r.entities() =~= Seq::<Entity>::empty());
        r
    }

    /// Records `name` for `id`; a later name for the same id replaces the
    /// earlier one in place.
    pub fn insert(&mut self, id: u64, name: String)
        requires
            old(self).wf(),
        ensures
            final(self).wf(),
            (exists|i: int|
                0 <= i < old(self).entities().len() && old(self).entities()[i].0 == id
                    && final(self).entities() == old(self).entities().update(i, (id, name@)))
                || ((forall|i: int|
                0 <= i < old(self).entities().len() ==> old(self).entities()[i].0 != id)
                && final(self).entities() == old(self).entities().push((id, name@))),
    {
        let ghost before = self.entities();
        let mut i: usize = 0;
        while i < self.entries.len()
            invariant
                0 <= i <= self.entries.len(),
                self.entities() == before,
                unique_ids(before),
                before == old(self).entities(),
                before == entities_of(self.entries@),
                forall|j: int| 0 <= j < i ==> before[j].0 != id,
            decreases self.entries.len() - i,
        {
            if self.entries[i].0 == id {
                let ghost n = name@;
                self.entries.set(i, (id, name));
                assert(before[i as int].0 == id);
                assert(self.entities() =~= before.update(i as int, (id, n)));
                assert(unique_ids(self.entities()));
                assert(0 <= i < before.len() && before[i as int].0 == id && self.entities()
                    == before.update(i as int, (id, n)));
                return;
            }
            i += 1;
        }
        let ghost n = name@;
        self.entries.push((id, name));
        assert(self.entities() =~= before.push((id, n)));
    }

    /// The entities that answer `query`: the one whose id it names when it
    /// reads as an unsigned integer, otherwise those whose name holds it,
    /// ignoring case; in enumeration order.
    pub fn search(&self, query: &str) -> (r: Vec<(u64, String)>)
        requires
            self.wf(),
        ensures
            entities_of(r@) == hits(self.entities(), query@),
    {
        let parsed = parse_u64(query);
        let folded_query = lowercase(query);
        let mut r: Vec<(u64, String)> = Vec::new();
        let mut i: usize = 0;
        while i < self.entries.len()
            invariant
                0 <= i <= self.entries.len(),
                parsed matches Some(v) ==> unsigned_of(query@) == Some(v as nat),
                parsed is None ==> unsigned_of(query@) is None,
                folded_query@ == lower_of(query@),
                entities_of(r@) == hits(self.entities().take(i as int), query@),
            decreases self.entries.len() - i,
        {
            let ghost es = self.entities();
            assert(es.take(i + 1).drop_last() == es.take(i as int));
            let id = self.entries[i].0;
            let hit = match parsed {
                Some(v) => id == v,
                None => {
                    let folded_name = lowercase(self.entries[i].1.as_str());
                    contains_text(folded_name.as_str(), folded_query.as_str())
                },
            };
            let ghost prev = r@;
            if hit {
                let name = self.entries[i].1.clone();
                r.push((id, name));
                assert(entities_of(r@) =~= entities_of(prev).push(es[i as int]));
            }
            i += 1;
        }
        assert(self.entities().take(self.entries.len() as int) == self.entities());
        r
    }

    /// Resolves `query`: reports that nothing matches, hands the single match
    /// to `on_unique` and returns what it returns, or lists up to five of
    /// several matches for the user to choose from.
    pub fn lookup<F>(&self, query: &str, on_unique: F) -> (r: String)
        where
            F: FnOnce(u64, &str) -> String,
        requires
            self.wf(),
            forall|id: u64, name: &str| on_unique.requires((id, name)),
        ensures
            ({
                let m = hits(self.entities(), query@);
                &&& m.len() == 0 ==> r@ == no_match_text(query@)
                &&& m.len() == 1 ==> exists|name: &str|
                    name@ == m[0].1 && on_unique.ensures((m[0].0, name), r)
                &&& m.len() >= 2 ==> r@ == ambiguity_text(query@, m)
            }),
    {
        let matches = self.search(query);
        let ghost m = entities_of(matches@);
        if matches.len() == 0 {
            let mut res = String::from_str("no matches for `");
            res.append(query);
            res.append("` found");
            return res;
        }
        if matches.len() == 1 {
            let name = matches[0].1.as_str();
            assert(entity_of(matches@[0]) == m[0]);
            return on_unique(matches[0].0, name);
        }
        let mut res = String::from_str("`");
        res.append(query);
        res.append("` is ambiguous. perhaps you meant one of these:\n");
        res.append("```\n");
        let ghost head = res@;
        let count: usize = if matches.len() < REPORT_LIMIT { matches.len() } else { REPORT_LIMIT };
        assert(listed(m) == m.take(count as int));
        let mut i: usize = 0;
        while i < count
            invariant
                0 <= i <= count <= matches.len(),
                m == entities_of(matches@),
                res@ == head + joined_lines(m.take(i as int)),
            decreases count - i,
        {
            assert(m.take(i + 1).drop_last() == m.take(i as int));
            assert(m.take(i + 1).last() == m[i as int]);
            if i > 0 {
                res.append("\n");
            }
            let id_text = u64_text(matches[i].0);
            res.append(id_text.as_str());
            res.append(" ");
            res.append(matches[i].1.as_str());
            proof {
                if i == 0 {
                    assert(m.take(1) == seq![m[0]]);
                }
            }
            i += 1;
        }
        res.append("```");
        res
    }
}

/// An entity is among the hits exactly when it is in the directory and answers the query.
proof fn lemma_hits_members(es: Seq<Entity>, q: Seq<char>)
    ensures
        forall|e: Entity| #[trigger] hits(es, q).contains(e) <==> (es.contains(e) && answers(e, q)),
    decreases es.len(),
{
    if es.len() > 0 {
        let init = es.drop_last();
        let l = es.last();
        lemma_hits_members(init, q);
        assert(es == init.push(l));
        assert forall|e: Entity| #[trigger] hits(es, q).contains(e) <==> (es.contains(e) && answers(
            e,
            q,
        )) by {
            vstd::seq_lib::lemma_seq_contains_after_push(init, l, e);
            vstd::seq_lib::lemma_seq_contains_after_push(hits(init, q), l, e);
        }
    }
}

/// With unique ids, a query that names an id has at most one hit, and one
/// exactly when the id is present.
proof fn lemma_id_hits(es: Seq<Entity>, q: Seq<char>, v: nat)
    requires
        unique_ids(es),
        unsigned_of(q) == Some(v),
    ensures
        hits(es, q).len() <= 1,
        hits(es, q).len() == 1 <==> exists|i: int| 0 <= i < es.len() && es[i].0 as nat == v,
        hits(es, q).len() == 1 ==> hits(es, q)[0].0 as nat == v,
    decreases es.len(),
{
    if es.len() > 0 {
        let init = es.drop_last();
        assert(unique_ids(init));
        lemma_id_hits(init, q, v);
        if exists|i: int| 0 <= i < init.len() && init[i].0 as nat == v {
            let i = choose|i: int| 0 <= i < init.len() && init[i].0 as nat == v;
            assert(es[i] == init[i]);
        }
        if exists|i: int| 0 <= i < es.len() && es[i].0 as nat == v {
            let i = choose|i: int| 0 <= i < es.len() && es[i].0 as nat == v;
            if i < es.len() - 1 {
                assert(init[i] == es[i]);
            }
        }
    }
}

/// A query that reads as an unsigned integer finds at most one entity, and
/// finds the one with that id exactly when the directory holds it.
pub proof fn law_integer_query_finds_by_id(d: &IdNameMap, q: Seq<char>, v: nat)
    requires
        d.wf(),
        unsigned_of(q) == Some(v),
    ensures
        hits(d.entities(), q).len() <= 1,
        hits(d.entities(), q).len() == 1 <==> exists|i: int|
            0 <= i < d.entities().len() && d.entities()[i].0 as nat == v,
        hits(d.entities(), q).len() == 1 ==> hits(d.entities(), q)[0].0 as nat == v,
{
    lemma_id_hits(d.entities(), q, v);
}

/// A query that does not read as an unsigned integer finds exactly the
/// entities whose name holds it, ignoring case.
pub proof fn law_name_query_finds_fragments(d: &IdNameMap, q: Seq<char>)
    requires
        d.wf(),
        unsigned_of(q) is None,
    ensures
        forall|e: Entity| #[trigger]
            hits(d.entities(), q).contains(e) <==> (d.entities().contains(e) && has_substring(
                lower_of(e.1),
                lower_of(q),
            )),
{
    lemma_hits_members(d.entities(), q);
}

/// A report on more than five matches lists exactly the first five of them.
pub proof fn law_report_lists_five(matches: Seq<Entity>)
    requires
        matches.len() > REPORT_LIMIT,
    ensures
        listed(matches).len() == REPORT_LIMIT,
        forall|i: int| 0 <= i < REPORT_LIMIT ==> #[trigger] listed(matches)[i] == matches[i],
{
}

} // verus!