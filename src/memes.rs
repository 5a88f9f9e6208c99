//! The meme store of one guild: auto-numbered snippets whose next-id cursor is
//! re-pinned to the largest remaining id whenever one is deleted.

use vstd::prelude::*;
use vstd::string::StringExecFns;

use crate::text::{contains_text, decimal, has_substring, i32_text, lower_of, lowercase, parse_i32, signed_decimal, signed_of, u64_text};

verus! {

/// One stored snippet.
pub struct Meme {
    pub id: i32,
    pub time: u64,
    pub text: String,
}

/// A snippet as the contracts see it: id, creation time, text.
pub type Snip = (i32, u64, Seq<char>);

pub open spec fn snip_of(m: Meme) -> Snip {
    (m.id, m.time, m.text@)
}

pub open spec fn snips_of(v: Seq<Meme>) -> Seq<Snip> {
    v.map_values(|m: Meme| snip_of(m))
}

/// The largest id among `s`, or 0 when `s` is empty.
pub open spec fn max_id(s: Seq<Snip>) -> int
    decreases s.len(),
{
    if s.len() == 0 {
        0
    } else {
        let m = max_id(s.drop_last());
        if s.last().0 > m { s.last().0 as int } else { m }
    }
}

pub open spec fn has_id(s: Seq<Snip>, id: i32) -> bool {
    exists|i: int| 0 <= i < s.len() && s[i].0 == id
}

pub open spec fn store_wf(s: Seq<Snip>, cursor: int) -> bool {
    &&& forall|i: int, j: int| 0 <= i < s.len() && 0 <= j < s.len() && i != j ==> s[i].0 != s[j].0
    &&& forall|i: int| 0 <= i < s.len() ==> 0 < #[trigger] s[i].0 <= cursor
    &&& 0 <= cursor <= i32::MAX
}

/// Why a meme could not be deleted.
#[derive(Clone, Copy, Debug, PartialEq, Eq)]
pub enum MemeError {
    NotFound,
}

/// The memes of one guild and the cursor: the last id handed out.
pub struct Memes {
    rows: Vec<Meme>,
    seq: i32,
}

proof fn lemma_max_id_bounds(s: Seq<Snip>)
    ensures
        max_id(s) >= 0,
        forall|i: int| 0 <= i < s.len() ==> (#[trigger] s[i]).0 <= max_id(s),
        s.len() > 0 && (forall|i: int| 0 <= i < s.len() ==> (#[trigger] s[i]).0 > 0) ==> exists|i: int|
            0 <= i < s.len() && s[i].0 == max_id(s),
    decreases s.len(),
{
    if s.len() > 0 {
        let init = s.drop_last();
        lemma_max_id_bounds(init);
        assert forall|i: int| 0 <= i < s.len() implies (#[trigger] s[i]).0 <= max_id(s) by {
            if i < s.len() - 1 {
                assert(init[i] == s[i]);
            }
        }
        if (forall|i: int| 0 <= i < s.len() ==> (#[trigger] s[i]).0 > 0) {
            if s.last().0 <= max_id(init) && init.len() > 0 {
                assert(forall|i: int| 0 <= i < init.len() ==> (#[trigger] init[i]).0 == s[i].0);
                let i = choose|i: int| 0 <= i < init.len() && init[i].0 == max_id(init);
                assert(s[i].0 == max_id(s));
            } else {
                assert(s[s.len() - 1].0 == max_id(s));
            }
        }
    }
}

proof fn lemma_max_id_at_most(s: Seq<Snip>, m: int)
    requires
        m >= 0,
        forall|i: int| 0 <= i < s.len() ==> (#[trigger] s[i]).0 <= m,
    ensures
        max_id(s) <= m,
    decreases s.len(),
{
    if s.len() > 0 {
        let init = s.drop_last();
        assert(forall|i: int| 0 <= i < init.len() ==> (#[trigger] init[i]).0 == s[i].0);
        lemma_max_id_at_most(init, m);
        assert(s[s.len() - 1].0 <= m);
    }
}

/// Removing a snippet whose id is not the largest leaves the largest id as it was.
proof fn lemma_max_id_remove_other(s: Seq<Snip>, k: int)
    requires
        0 <= k < s.len(),
        s[k].0 != max_id(s),
        forall|i: int| 0 <= i < s.len() ==> (#[trigger] s[i]).0 > 0,
    ensures
        max_id(s.remove(k)) == max_id(s),
{
    lemma_max_id_bounds(s);
    let r = s.remove(k);
    let j = choose|j: int| 0 <= j < s.len() && s[j].0 == max_id(s);
    let jj = if j < k { j } else { j - 1 };
    assert(r[jj] == s[j]);
    assert forall|i: int| 0 <= i < r.len() implies (#[trigger] r[i]).0 <= max_id(s) by {
        if i < k {
            assert(r[i] == s[i]);
        } else {
            assert(r[i] == s[i + 1]);
        }
    }
    lemma_max_id_at_most(r, max_id(s));
    lemma_max_id_bounds(r);
}

/// The text of the snippet with id `id`, if one is stored.
pub open spec fn text_by_id(s: Seq<Snip>, id: i32) -> Option<Seq<char>>
    decreases s.len(),
{
    if s.len() == 0 {
        None
    } else if s.last().0 == id {
        Some(s.last().2)
    } else {
        text_by_id(s.drop_last(), id)
    }
}

/// The text of the snippet with the largest id, if any is stored.
pub open spec fn latest_text(s: Seq<Snip>) -> Option<Seq<char>> {
    if s.len() == 0 { None } else { text_by_id(s, max_id(s) as i32) }
}

/// The text at position `r` modulo the number of snippets, if any is stored.
pub open spec fn picked_text(s: Seq<Snip>, r: u64) -> Option<Seq<char>> {
    if s.len() == 0 { None } else { Some(s[(r as int) % (s.len() as int)].2) }
}

/// The snippets whose text holds `q`, ignoring case, in storage order.
pub open spec fn text_hits(s: Seq<Snip>, q: Seq<char>) -> Seq<Snip>
    decreases s.len(),
{
    if s.len() == 0 {
        Seq::empty()
    } else {
        let h = text_hits(s.drop_last(), q);
        if has_substring(lower_of(s.last().2), lower_of(q)) { h.push(s.last()) } else { h }
    }
}

/// The reply to a meme request: a random snippet for an empty argument; for an
/// integer, the snippet with that id (the latest for 0); otherwise a random
/// snippet whose text holds the argument. None only for an empty argument on
/// an empty store.
pub open spec fn reply(s: Seq<Snip>, arg: Seq<char>, r: u64) -> Option<Seq<char>> {
    if arg.len() == 0 {
        picked_text(s, r)
    } else {
        match signed_of(arg) {
            Some(x) => {
                let found = if x != 0 { text_by_id(s, x as i32) } else { latest_text(s) };
                match found {
                    Some(t) => Some(t),
                    None => Some("meme "@ + signed_decimal(x) + " not found"@),
                }
            },
            None => match picked_text(text_hits(s, arg), r) {
                Some(t) => Some(t),
                None => Some("meme matching \""@ + arg + "\" not found"@),
            },
        }
    }
}

/// One line per snippet: `<id> <time> <text>`, each ending in a newline.
pub open spec fn listing_text(s: Seq<Snip>) -> Seq<char>
    decreases s.len(),
{
    if s.len() == 0 {
        Seq::empty()
    } else {
        listing_text(s.drop_last()) + signed_decimal(s.last().0 as int) + " "@ + decimal(
            s.last().1 as nat,
        ) + " "@ + s.last().2 + "\n"@
    }
}

/// The message after deleting the snippet with id `x` and text `t`.
pub open spec fn deleted_message(x: int, t: Seq<char>) -> Seq<char> {
    "successfully deleted meme "@ + signed_decimal(x) + ": "@ + t
}

/// Deleting a snippet whose id is not the largest, from a store whose cursor
/// sits on its largest id, leaves the cursor where it was: the largest id
/// that remains is the cursor.
pub proof fn law_inner_delete_keeps_cursor(store: &Memes, k: int)
    requires
        store.wf(),
        store.cursor() == max_id(store.snips()),
        0 <= k < store.snips().len(),
        store.snips()[k].0 != store.cursor(),
    ensures
        max_id(store.snips().remove(k)) == store.cursor(),
{
    lemma_max_id_remove_other(store.snips(), k);
}

/// Deleting the snippet with the largest id moves the cursor down: the largest
/// id that remains lies below it, and is 0 when nothing remains.
pub proof fn law_tail_delete_lowers_cursor(store: &Memes, k: int)
    requires
        store.wf(),
        0 <= k < store.snips().len(),
        store.snips()[k].0 == max_id(store.snips()),
    ensures
        max_id(store.snips().remove(k)) < store.snips()[k].0,
        store.snips().len() == 1 ==> max_id(store.snips().remove(k)) == 0,
{
    let s = store.snips();
    let t = s.remove(k);
    lemma_max_id_bounds(s);
    assert forall|i: int| 0 <= i < t.len() implies (#[trigger] t[i]).0 <= s[k].0 - 1 by {
        let j = if i < k { i } else { i + 1 };
        assert(t[i] == s[j]);
        assert(s[j].0 != s[k].0);
    }
    lemma_max_id_at_most(t, s[k].0 - 1);
}

/// The id named by a request argument: an optional sign and decimal digits
/// within the range of `i32`.
pub fn meme_id(arg: &str) -> (r: Option<i32>)
    ensures
        r matches Some(v) ==> signed_of(arg@) == Some(v as int),
        r is None ==> signed_of(arg@) is None,
{
    parse_i32(arg)
}

/// The message for the user after a delete request for id `id`.
pub fn delete_report(id: i32, outcome: &Result<String, MemeError>) -> (r: String)
    ensures
        outcome matches Ok(t) ==> r@ == deleted_message(id as int, t@),
        outcome is Err ==> r@ == "error deleting meme (it probably doesn't exist to begin with)"@,
{
    match outcome {
        Ok(text) => {
            let mut msg = String::from_str("successfully deleted meme ");
            let n = i32_text(id);
            msg.append(n.as_str());
            msg.append(": ");
            msg.append(text.as_str());
            msg
        },
        Err(_) => String::from_str("error deleting meme (it probably doesn't exist to begin with)"),
    }
}

impl Memes {
    /// The stored snippets, in storage order.
    pub closed spec fn snips(&self) -> Seq<Snip> {
        snips_of(self.rows@)
    }

    /// The last id handed out; the next one added gets the id after it.
    pub closed spec fn cursor(&self) -> int {
        self.seq as int
    }

    pub closed spec fn wf(&self) -> bool {
        store_wf(self.snips(), self.cursor())
    }

    /// An empty store whose cursor starts at `seq` (0 when `seq` is negative).
    pub fn with_cursor(seq: i32) -> (r: Memes)
        ensures
            r.wf(),
            r.snips() == Seq::<Snip>::empty(),
            r.cursor() == if seq < 0 { 0 } else { seq as int },
    {
        let r = Memes { rows: Vec::new(), seq: if seq < 0 { 0 } else { seq } };
        assert(r.snips() =~= Seq::<Snip>::empty());
        r
    }

    /// The index of the snippet with id `id`, if any.
    fn position(&self, id: i32) -> (r: Option<usize>)
        ensures
            r matches Some(k) ==> k < self.snips().len() && self.snips()[k as int].0 == id,
            r is None ==> !has_id(self.snips(), id),
    {
        let mut i: usize = 0;
        while i < self.rows.len()
            invariant
                0 <= i <= self.rows.len(),
                forall|j: int| 0 <= j < i ==> self.snips()[j].0 != id,
            decreases self.rows.len() - i,
        {
            if self.rows[i].id == id {
                return Some(i);
            }
            i += 1;
        }
        None
    }

    /// The largest id stored, or 0 when the store is empty.
    fn largest_id(&self) -> (r: i32)
        requires
            self.wf(),
        ensures
            r as int == max_id(self.snips()),
    {
        let ghost s = self.snips();
        let mut best: i32 = 0;
        let mut i: usize = 0;
        while i < self.rows.len()
            invariant
                0 <= i <= self.rows.len(),
                s == self.snips(),
                best as int == max_id(s.take(i as int)),
            decreases self.rows.len() - i,
        {
            assert(s.take(i + 1).drop_last() == s.take(i as int));
            if self.rows[i].id > best {
                best = self.rows[i].id;
            }
            i += 1;
        }
        assert(s.take(self.rows.len() as int) == s);
        best
    }

    /// Loads a snippet that storage already holds. Refused (false, store
    /// unchanged) when the id is not positive or is already present;
    /// otherwise the cursor moves up to the id if it was below it.
    pub fn restore(&mut self, id: i32, time: u64, text: String) -> (r: bool)
        requires
            old(self).wf(),
        ensures
            final(self).wf(),
            r == (id > 0 && !has_id(old(self).snips(), id)),
            r ==> final(self).snips() == old(self).snips().push((id, time, text@))
                && final(self).cursor() == if id > old(self).cursor() { id as int } else { old(self).cursor() },
            !r ==> final(self).snips() == old(self).snips() && final(self).cursor() == old(self).cursor(),
    {
        if id <= 0 {
            return false;
        }
        if self.position(id).is_some() {
            return false;
        }
        let ghost before = self.snips();
        let ghost t = text@;
        self.rows.push(Meme { id, time, text });
        if id > self.seq {
            self.seq = id;
        }
        assert(self.snips() =~= before.push((id, time, t)));
        true
    }

    /// Adds a snippet under the id after the cursor and moves the cursor to
    /// it. None, with the store unchanged, when the ids are exhausted.
    pub fn add(&mut self, time: u64, text: String) -> (r: Option<i32>)
        requires
            old(self).wf(),
        ensures
            final(self).wf(),
            old(self).cursor() < i32::MAX ==> r == Some((old(self).cursor() + 1) as i32)
                && final(self).snips() == old(self).snips().push(((old(self).cursor() + 1) as i32, time, text@))
                && final(self).cursor() == old(self).cursor() + 1,
            old(self).cursor() == i32::MAX ==> r is None && final(self).snips() == old(self).snips()
                && final(self).cursor() == old(self).cursor(),
    {
        if self.seq == i32::MAX {
            return None;
        }
        let id = self.seq + 1;
        let ghost before = self.snips();
        let ghost t = text@;
        self.rows.push(Meme { id, time, text });
        self.seq = id;
        assert(self.snips() =~= before.push((id, time, t)));
        Some(id)
    }

    /// Deletes the snippet with id `id` and returns its text; in the same
    /// step the cursor is set to the largest remaining id, or 0 when none
    /// remains. NotFound, with nothing changed, when no snippet has that id.
    pub fn delete_by_id(&mut self, id: i32) -> (r: Result<String, MemeError>)
        requires
            old(self).wf(),
        ensures
            final(self).wf(),
            r is Err <==> !has_id(old(self).snips(), id),
            r is Err ==> r == Err::<String, MemeError>(MemeError::NotFound)
                && final(self).snips() == old(self).snips() && final(self).cursor() == old(self).cursor(),
            r matches Ok(text) ==> exists|k: int|
                0 <= k < old(self).snips().len() && old(self).snips()[k].0 == id
                    && text@ == old(self).snips()[k].2
                    && final(self).snips() == old(self).snips().remove(k),
            r is Ok ==> final(self).cursor() == max_id(final(self).snips()),
    {
        let ghost before = self.snips();
        match self.position(id) {
            None => Err(MemeError::NotFound),
            Some(k) => {
                let removed = self.rows.remove(k);
                assert(self.snips() =~= before.remove(k as int));
                assert(forall|i: int| 0 <= i < self.snips().len() ==> #[trigger] self.snips()[i]
                    == before[if i < k { i } else { i + 1 }]);
                proof {
                    lemma_max_id_bounds(self.snips());
                    lemma_max_id_bounds(before);
                }
                let top = self.largest_id();
                proof {
                    lemma_max_id_at_most(self.snips(), self.seq as int);
                }
                self.seq = top;
                assert(self.snips() == before.remove(k as int));
                Ok(removed.text)
            },
        }
    }

    /// The text of the snippet with id `id`, if one is stored.
    pub fn get_by_id(&self, id: i32) -> (r: Option<String>)
        ensures
            r matches Some(t) ==> text_by_id(self.snips(), id) == Some(t@),
            r is None ==> text_by_id(self.snips(), id) is None,
    {
        let ghost s = self.snips();
        let mut i: usize = self.rows.len();
        assert(s.take(i as int) == s);
        while i > 0
            invariant
                0 <= i <= self.rows.len(),
                s == self.snips(),
                text_by_id(s, id) == text_by_id(s.take(i as int), id),
            decreases i,
        {
            assert(s.take(i as int).drop_last() == s.take(i - 1));
            if self.rows[i - 1].id == id {
                return Some(self.rows[i - 1].text.clone());
            }
            i -= 1;
        }
        None
    }

    /// The text of the snippet with the largest id, if any is stored.
    pub fn latest(&self) -> (r: Option<String>)
        requires
            self.wf(),
        ensures
            r matches Some(t) ==> latest_text(self.snips()) == Some(t@),
            r is None ==> latest_text(self.snips()) is None,
    {
        if self.rows.len() == 0 {
            return None;
        }
        let top = self.largest_id();
        self.get_by_id(top)
    }

    /// The text at position `r` modulo the number of snippets: with a uniform
    /// `r`, a uniformly chosen snippet.
    pub fn pick(&self, r: u64) -> (t: Option<String>)
        ensures
            t matches Some(x) ==> picked_text(self.snips(), r) == Some(x@),
            t is None ==> picked_text(self.snips(), r) is None,
    {
        if self.rows.len() == 0 {
            return None;
        }
        let k = (r % (self.rows.len() as u64)) as usize;
        Some(self.rows[k].text.clone())
    }

    /// A snippet whose text holds `query`, ignoring case: the match at position
    /// `r` modulo the number of matches.
    pub fn search_text(&self, query: &str, r: u64) -> (t: Option<String>)
        ensures
            t matches Some(x) ==> picked_text(text_hits(self.snips(), query@), r) == Some(x@),
            t is None ==> picked_text(text_hits(self.snips(), query@), r) is None,
    {
        let ghost s = self.snips();
        let folded_query = lowercase(query);
        let mut found: Vec<usize> = Vec::new();
        let mut i: usize = 0;
        while i < self.rows.len()
            invariant
                0 <= i <= self.rows.len(),
                s == self.snips(),
                folded_query@ == lower_of(query@),
                found@.len() == text_hits(s.take(i as int), query@).len(),
                forall|j: int| #![trigger found@[j]] 0 <= j < found@.len() ==> found@[j] < i && s[found@[j] as int]
                    == text_hits(s.take(i as int), query@)[j],
            decreases self.rows.len() - i,
        {
            assert(s.take(i + 1).drop_last() == s.take(i as int));
            assert(s.take(i + 1).last() == s[i as int]);
            let folded = lowercase(self.rows[i].text.as_str());
            assert(s[i as int].2 == self.rows@[i as int].text@);
            let ghost prev = found@;
            let ghost h = text_hits(s.take(i as int), query@);
            if contains_text(folded.as_str(), folded_query.as_str()) {
                found.push(i);
                assert(text_hits(s.take(i + 1), query@) == h.push(s[i as int]));
                assert forall|j: int| 0 <= j < found@.len() implies found@[j] < i + 1 && s[found@[j] as int]
                    == text_hits(s.take(i + 1), query@)[j] by {
                    if j < prev.len() {
                        assert(found@[j] == prev[j]);
                        assert(prev[j] < i && s[prev[j] as int] == h[j]);
                        assert(h.push(s[i as int])[j] == h[j]);
                    }
                }
            } else {
                assert(text_hits(s.take(i + 1), query@) == h);
                assert forall|j: int| 0 <= j < found@.len() implies found@[j] < i + 1 && s[found@[j] as int]
                    == text_hits(s.take(i + 1), query@)[j] by {
                    assert(found@[j] == prev[j]);
                    assert(prev[j] < i && s[prev[j] as int] == h[j]);
                }
            }
            i += 1;
        }
        assert(s.take(self.rows.len() as int) == s);
        if found.len() == 0 {
            return None;
        }
        let k = (r % (found.len() as u64)) as usize;
        Some(self.rows[found[k]].text.clone())
    }

    /// Answers a meme request with argument `arg`, where `r` is a random draw
    /// used to choose among several candidates.
    pub fn respond(&self, arg: &str, r: u64) -> (t: Option<String>)
        requires
            self.wf(),
        ensures
            t matches Some(x) ==> reply(self.snips(), arg@, r) == Some(x@),
            t is None ==> reply(self.snips(), arg@, r) is None,
    {
        if arg.is_empty() {
            return self.pick(r);
        }
        match parse_i32(arg) {
            Some(x) => {
                let found = if x != 0 { self.get_by_id(x) } else { self.latest() };
                match found {
                    Some(t) => Some(t),
                    None => {
                        let mut msg = String::from_str("meme ");
                        let n = i32_text(x);
                        msg.append(n.as_str());
                        msg.append(" not found");
                        Some(msg)
                    },
                }
            },
            None => match self.search_text(arg, r) {
                Some(t) => Some(t),
                None => {
                    let mut msg = String::from_str("meme matching \"");
                    msg.append(arg);
                    msg.append("\" not found");
                    Some(msg)
                },
            },
        }
    }

    /// One line per snippet, `<id> <time> <text>`, each ending in a newline.
    pub fn listing(&self) -> (r: String)
        ensures
            r@ == listing_text(self.snips()),
    {
        let ghost s = self.snips();
        let mut out = String::new();
        let mut i: usize = 0;
        while i < self.rows.len()
            invariant
                0 <= i <= self.rows.len(),
                s == self.snips(),
                out@ == listing_text(s.take(i as int)),
            decreases self.rows.len() - i,
        {
            assert(s.take(i + 1).drop_last() == s.take(i as int));
            assert(s.take(i + 1).last() == s[i as int]);
            let id = i32_text(self.rows[i].id);
            let time = u64_text(self.rows[i].time);
            out.append(id.as_str());
            out.append(" ");
            out.append(time.as_str());
            out.append(" ");
            out.append(self.rows[i].text.as_str());
            out.append("\n");
            i += 1;
        }
        assert(s.take(self.rows.len() as int) == s);
        out
    }

    /// The cursor: the last id handed out.
    pub fn seq(&self) -> (r: i32)
        ensures
            r as int == self.cursor(),
    {
        self.seq
    }
}

} // verus!
