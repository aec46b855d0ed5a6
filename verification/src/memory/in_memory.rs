//! A memory store kept in memory, for tests: memories are filed under the
//! key `tenant:session` and recalled by substring.
use vstd::prelude::*;

use crate::memory::store::MemoryError;
use crate::memory::types::MemoryContext;
use crate::text::{chars_of, contains_seq, occurs_at, occurs_at_exec, str_contains, str_eq};

verus! {

/// The key memories of a session are filed under.
pub open spec fn store_key(tenant: Seq<char>, session: Seq<char>) -> Seq<char> {
    tenant + ":"@ + session
}

/// The memories among `contents` that contain `query`, in order.
pub open spec fn matching(contents: Seq<Seq<char>>, query: Seq<char>) -> Seq<Seq<char>>
    decreases contents.len(),
{
    if contents.len() == 0 {
        Seq::empty()
    } else {
        let p = matching(contents.drop_last(), query);
        if contains_seq(contents.last(), query) {
            p.push(contents.last())
        } else {
            p
        }
    }
}

/// The memories under keys that start with `prefix` and contain `query`:
/// key by key in the order the keys were first used, each key's memories
/// in the order remembered.
pub open spec fn all_matches(entries: Seq<(Seq<char>, Seq<Seq<char>>)>, prefix: Seq<char>, query: Seq<char>) -> Seq<
    Seq<char>,
>
    decreases entries.len(),
{
    if entries.len() == 0 {
        Seq::empty()
    } else {
        all_matches(entries.drop_last(), prefix, query) + if occurs_at(entries.last().0, prefix, 0) {
            matching(entries.last().1, query)
        } else {
            Seq::empty()
        }
    }
}

/// What a recall returns: the first five matches.
pub open spec fn recall_spec(entries: Seq<(Seq<char>, Seq<Seq<char>>)>, prefix: Seq<char>, query: Seq<char>) -> Seq<
    Seq<char>,
> {
    let m = all_matches(entries, prefix, query);
    m.take(if m.len() < 5 { m.len() as int } else { 5 })
}

/// The memories under `key`.
pub open spec fn key_contents(entries: Seq<(Seq<char>, Seq<Seq<char>>)>, key: Seq<char>) -> Seq<Seq<char>>
    decreases entries.len(),
{
    if entries.len() == 0 {
        Seq::empty()
    } else if entries.last().0 == key {
        entries.last().1
    } else {
        key_contents(entries.drop_last(), key)
    }
}

/// One remembered memory: its content and the metadata it came with.
#[derive(Debug)]
struct MemoryRecord {
    content: String,
    metadata: String,
    timestamp: u64,
}

/// A memory store kept in memory: per key, the memories in the order
/// remembered; each key occurs once.
#[derive(Debug)]
pub struct InMemoryStore {
    data: Vec<(String, Vec<MemoryRecord>)>,
}

/// Abstract value of a key's records: their contents.
spec fn records_view(v: Seq<MemoryRecord>) -> Seq<Seq<char>> {
    v.map_values(|r: MemoryRecord| r.content@)
}

impl View for InMemoryStore {
    type V = Seq<(Seq<char>, Seq<Seq<char>>)>;

    closed spec fn view(&self) -> Seq<(Seq<char>, Seq<Seq<char>>)> {
        self.data@.map_values(|e: (String, Vec<MemoryRecord>)| (e.0@, records_view(e.1@)))
    }
}

/// Each key occurs once.
pub open spec fn keys_unique(s: Seq<(Seq<char>, Seq<Seq<char>>)>) -> bool {
    forall|i: int, j: int| 0 <= i < j < s.len() ==> (#[trigger] s[i]).0 != (#[trigger] s[j]).0
}

/// The memories of a key where it occurs at `i` (and only there).
proof fn lemma_key_contents_at(s: Seq<(Seq<char>, Seq<Seq<char>>)>, i: int)
    requires
        0 <= i < s.len(),
        keys_unique(s),
    ensures
        key_contents(s, s[i].0) == s[i].1,
    decreases s.len(),
{
    if i < s.len() - 1 {
        assert(s.drop_last()[i] == s[i]);
        assert(keys_unique(s.drop_last())) by {
            assert forall|a: int, b: int| 0 <= a < b < s.drop_last().len() implies (#[trigger] s.drop_last()[a]).0
                != (#[trigger] s.drop_last()[b]).0 by {
                assert(s.drop_last()[a] == s[a] && s.drop_last()[b] == s[b]);
            }
        }
        lemma_key_contents_at(s.drop_last(), i);
    }
}

/// A key that does not occur has no memories.
proof fn lemma_key_contents_absent(s: Seq<(Seq<char>, Seq<Seq<char>>)>, key: Seq<char>)
    requires
        forall|i: int| 0 <= i < s.len() ==> (#[trigger] s[i]).0 != key,
    ensures
        key_contents(s, key) == Seq::<Seq<char>>::empty(),
    decreases s.len(),
{
    if s.len() > 0 {
        assert forall|i: int| 0 <= i < s.drop_last().len() implies (#[trigger] s.drop_last()[i]).0 != key by {
            assert(s.drop_last()[i] == s[i]);
        }
        lemma_key_contents_absent(s.drop_last(), key);
    }
}

fn memory_key(ctx: &MemoryContext) -> (r: String)
    ensures
        r@ == store_key(ctx.tenant_id@, ctx.session_id@),
{
    ctx.tenant_id.clone().concat(":").concat(ctx.session_id.as_str())
}

impl InMemoryStore {
    /// Each key occurs once.
    pub closed spec fn wf(&self) -> bool {
        keys_unique(self@)
    }

    /// An empty store.
    pub fn new() -> (r: Self)
        ensures
            r.wf(),
            r@ == Seq::<(Seq<char>, Seq<Seq<char>>)>::empty(),
    {
        let r = InMemoryStore { data: Vec::new() };
        proof {
            assert(r@ =~= Seq::<(Seq<char>, Seq<Seq<char>>)>::empty());
        }
        r
    }

    fn position(&self, key: &str) -> (r: Option<usize>)
        ensures
            r matches Some(i) ==> i < self@.len() && self@[i as int].0 == key@,
            r is None ==> forall|i: int| 0 <= i < self@.len() ==> (#[trigger] self@[i]).0 != key@,
    {
        let mut i: usize = 0;
        while i < self.data.len()
            invariant
                i <= self.data@.len(),
                forall|j: int| 0 <= j < i ==> (#[trigger] self@[j]).0 != key@,
            decreases self.data@.len() - i,
        {
            if str_eq(self.data[i].0.as_str(), key) {
                return Some(i);
            }
            proof {
                assert(self@[i as int].0 == self.data@[i as int].0@);
            }
            i = i + 1;
        }
        None
    }

    /// Files `content` (with its `metadata`, JSON text) under the session of
    /// `ctx`, after the memories already there.
    pub fn remember(&mut self, ctx: &MemoryContext, content: &str, metadata: &str) -> (r: Result<(), MemoryError>)
        requires
            old(self).wf(),
        ensures
            final(self).wf(),
            r is Ok,
            key_contents(final(self)@, store_key(ctx.tenant_id@, ctx.session_id@)) == key_contents(
                old(self)@,
                store_key(ctx.tenant_id@, ctx.session_id@),
            ).push(content@),
            forall|k: Seq<char>|
                k != store_key(ctx.tenant_id@, ctx.session_id@) ==> key_contents(final(self)@, k)
                    == key_contents(old(self)@, k),
            final(self)@ == remember_spec(old(self)@, store_key(ctx.tenant_id@, ctx.session_id@), content@),
    {
        let key = memory_key(ctx);
        let record = MemoryRecord {
            content: content.to_owned(),
            metadata: metadata.to_owned(),
            timestamp: crate::system::unix_time_ms(),
        };
        let ghost s0 = self@;
        let ghost k = key@;
        proof {
            lemma_key_index(s0, k);
        }
        match self.position(key.as_str()) {
            Some(i) => {
                proof {
                    if key_index(s0, k) != i {
                        if key_index(s0, k) < i {
                            assert(s0[key_index(s0, k)].0 != s0[i as int].0);
                        } else {
                            assert(s0[i as int].0 != s0[key_index(s0, k)].0);
                        }
                    }
                }
                let (kk, mut records) = self.data.remove(i);
                let ghost rv0 = records_view(records@);
                records.push(record);
                self.data.insert(i, (kk, records));
                proof {
                    assert(records_view(records@) =~= rv0.push(content@));
                    assert(self@ =~= s0.update(i as int, (k, rv0.push(content@))));
                }
            },
            None => {
                let mut records: Vec<MemoryRecord> = Vec::new();
                records.push(record);
                self.data.push((key, records));
                proof {
                    assert(records_view(records@) =~= seq![content@]);
                    assert(self@ =~= s0.push((k, seq![content@])));
                }
            },
        }
        proof {
            lemma_remember(s0, k, content@);
        }
        Ok(())
    }

    /// Up to five memories of keys starting with `tenant:session` of `ctx`
    /// that contain `query`.
    pub fn recall(&self, ctx: &MemoryContext, query: &str) -> (r: Result<Vec<String>, MemoryError>)
        ensures
            r matches Ok(v) && v@.map_values(|s: String| s@) == recall_spec(
                self@,
                store_key(ctx.tenant_id@, ctx.session_id@),
                query@,
            ),
    {
        let prefix = memory_key(ctx);
        let pc = chars_of(prefix.as_str());
        let ghost s = self@;
        let ghost p = prefix@;
        let mut out: Vec<String> = Vec::new();
        for i in 0..self.data.len()
            invariant
                s == self@,
                pc@ == p,
                ({
                    let m = all_matches(s.take(i as int), p, query@);
                    out@.map_values(|x: String| x@) == m.take(if m.len() < 5 { m.len() as int } else { 5 })
                }),
        {
            let ghost m0 = all_matches(s.take(i as int), p, query@);
            proof {
                assert(s.take(i + 1).drop_last() =~= s.take(i as int));
                assert(s.take(i + 1).last() == s[i as int]);
                assert(s[i as int].0 == self.data@[i as int].0@);
                assert(s[i as int].1 == records_view(self.data@[i as int].1@));
            }
            let kc = chars_of(self.data[i].0.as_str());
            if occurs_at_exec(&kc, &pc, 0) {
                let records = &self.data[i].1;
                let ghost rv = records_view(records@);
                for j in 0..records.len()
                    invariant
                        rv == records_view(records@),
                        ({
                            let m = m0 + matching(rv.take(j as int), query@);
                            out@.map_values(|x: String| x@) == m.take(if m.len() < 5 { m.len() as int } else { 5 })
                        }),
                {
                    proof {
                        assert(rv.take(j + 1).drop_last() =~= rv.take(j as int));
                        assert(rv.take(j + 1).last() == records@[j as int].content@);
                    }
                    let ghost before = m0 + matching(rv.take(j as int), query@);
                    if str_contains(records[j].content.as_str(), query) {
                        let ghost after = before.push(records@[j as int].content@);
                        proof {
                            assert(m0 + matching(rv.take(j + 1), query@) =~= after);
                        }
                        let ghost ov = out@.map_values(|x: String| x@);
                        assert(ov.len() == out@.len());
                        if out.len() < 5 {
                            proof {
                                assert(before.len() < 5);
                                assert(ov =~= before);
                            }
                            out.push(records[j].content.clone());
                            proof {
                                assert(out@.map_values(|x: String| x@) =~= ov.push(records@[j as int].content@));
                                assert(after.take(after.len() as int) =~= after);
                            }
                        } else {
                            proof {
                                assert(before.len() >= 5);
                                assert(after.take(5) =~= before.take(5));
                            }
                        }
                    } else {
                        proof {
                            assert(m0 + matching(rv.take(j + 1), query@) =~= before);
                        }
                    }
                }
                proof {
                    assert(rv.take(records@.len() as int) =~= rv);
                    assert(all_matches(s.take(i + 1), p, query@) =~= m0 + matching(rv, query@));
                }
            } else {
                proof {
                    assert(all_matches(s.take(i + 1), p, query@) =~= m0);
                }
            }
        }
        proof {
            assert(s.take(self.data@.len() as int) =~= s);
        }
        Ok(out)
    }

    /// Drops every memory filed under the session of `ctx`.
    pub fn forget_session(&mut self, ctx: &MemoryContext) -> (r: Result<(), MemoryError>)
        requires
            old(self).wf(),
        ensures
            final(self).wf(),
            r is Ok,
            forall|i: int| 0 <= i < final(self)@.len() ==> (#[trigger] final(self)@[i]).0 != store_key(
                ctx.tenant_id@,
                ctx.session_id@,
            ),
            forall|k: Seq<char>|
                k != store_key(ctx.tenant_id@, ctx.session_id@) ==> key_contents(final(self)@, k)
                    == key_contents(old(self)@, k),
            key_contents(final(self)@, store_key(ctx.tenant_id@, ctx.session_id@)).len() == 0,
    {
        let key = memory_key(ctx);
        let ghost s0 = self@;
        match self.position(key.as_str()) {
            Some(i) => {
                let _ = self.data.remove(i);
                proof {
                    assert(self@ =~= s0.remove(i as int));
                    lemma_forget(s0, i as int);
                }
            },
            None => {},
        }
        proof {
            lemma_key_contents_absent(self@, key@);
        }
        Ok(())
    }
}

/// Index of the last entry under `k` (-1 when there is none).
pub open spec fn key_index(s: Seq<(Seq<char>, Seq<Seq<char>>)>, k: Seq<char>) -> int
    decreases s.len(),
{
    if s.len() == 0 {
        -1
    } else if s.last().0 == k {
        s.len() - 1
    } else {
        key_index(s.drop_last(), k)
    }
}

proof fn lemma_key_index(s: Seq<(Seq<char>, Seq<Seq<char>>)>, k: Seq<char>)
    ensures
        key_index(s, k) == -1 ==> forall|i: int| 0 <= i < s.len() ==> (#[trigger] s[i]).0 != k,
        key_index(s, k) != -1 ==> 0 <= key_index(s, k) < s.len() && s[key_index(s, k)].0 == k,
    decreases s.len(),
{
    if s.len() > 0 && s.last().0 != k {
        lemma_key_index(s.drop_last(), k);
        if key_index(s, k) == -1 {
            assert forall|i: int| 0 <= i < s.len() implies (#[trigger] s[i]).0 != k by {
                if i < s.len() - 1 {
                    assert(s[i] == s.drop_last()[i]);
                }
            }
        } else {
            assert(s[key_index(s, k)] == s.drop_last()[key_index(s, k)]);
        }
    }
}

/// The entries after remembering `c` under `k`: appended to the key's
/// memories, or a new key at the end.
pub open spec fn remember_spec(s: Seq<(Seq<char>, Seq<Seq<char>>)>, k: Seq<char>, c: Seq<char>) -> Seq<
    (Seq<char>, Seq<Seq<char>>),
> {
    let i = key_index(s, k);
    if i >= 0 {
        s.update(i, (k, s[i].1.push(c)))
    } else {
        s.push((k, seq![c]))
    }
}

proof fn lemma_key_contents_update(s: Seq<(Seq<char>, Seq<Seq<char>>)>, i: int, v: Seq<Seq<char>>, other: Seq<char>)
    requires
        0 <= i < s.len(),
        other != s[i].0,
    ensures
        key_contents(s.update(i, (s[i].0, v)), other) == key_contents(s, other),
    decreases s.len(),
{
    if i < s.len() - 1 {
        assert(s.update(i, (s[i].0, v)).drop_last() =~= s.drop_last().update(i, (s[i].0, v)));
        assert(s.drop_last()[i] == s[i]);
        lemma_key_contents_update(s.drop_last(), i, v, other);
    } else {
        assert(s.update(i, (s[i].0, v)).drop_last() =~= s.drop_last());
    }
}

proof fn lemma_remember(s: Seq<(Seq<char>, Seq<Seq<char>>)>, k: Seq<char>, c: Seq<char>)
    requires
        keys_unique(s),
    ensures
        keys_unique(remember_spec(s, k, c)),
        key_contents(remember_spec(s, k, c), k) == key_contents(s, k).push(c),
        forall|o: Seq<char>| o != k ==> key_contents(remember_spec(s, k, c), o) == key_contents(s, o),
{
    let t = remember_spec(s, k, c);
    lemma_key_index(s, k);
    let i = key_index(s, k);
    if i >= 0 {
        assert(keys_unique(t)) by {
            assert forall|a: int, b: int| 0 <= a < b < t.len() implies (#[trigger] t[a]).0 != (#[trigger] t[b]).0 by {
                assert(t[a].0 == s[a].0 && t[b].0 == s[b].0);
            }
        }
        lemma_key_contents_at(t, i);
        lemma_key_contents_at(s, i);
        assert forall|o: Seq<char>| o != k implies key_contents(t, o) == key_contents(s, o) by {
            lemma_key_contents_update(s, i, s[i].1.push(c), o);
        }
    } else {
        assert(keys_unique(t)) by {
            assert forall|a: int, b: int| 0 <= a < b < t.len() implies (#[trigger] t[a]).0 != (#[trigger] t[b]).0 by {
                if b == s.len() {
                    assert(t[a] == s[a]);
                } else {
                    assert(t[a] == s[a] && t[b] == s[b]);
                }
            }
        }
        lemma_key_contents_at(t, s.len() as int);
        lemma_key_contents_absent(s, k);
        assert forall|o: Seq<char>| o != k implies key_contents(t, o) == key_contents(s, o) by {
            assert(t.drop_last() =~= s);
        }
    }
}

proof fn lemma_forget(s: Seq<(Seq<char>, Seq<Seq<char>>)>, i: int)
    requires
        keys_unique(s),
        0 <= i < s.len(),
    ensures
        keys_unique(s.remove(i)),
        forall|o: Seq<char>| o != s[i].0 ==> key_contents(s.remove(i), o) == key_contents(s, o),
        forall|m: int| 0 <= m < s.remove(i).len() ==> (#[trigger] s.remove(i)[m]).0 != s[i].0,
    decreases s.len(),
{
    let t = s.remove(i);
    assert forall|m: int| 0 <= m < t.len() implies (#[trigger] t[m]).0 != s[i].0 by {
        if m < i {
            assert(t[m] == s[m]);
        } else {
            assert(t[m] == s[m + 1]);
        }
    }
    assert(keys_unique(t)) by {
        assert forall|a: int, b: int| 0 <= a < b < t.len() implies (#[trigger] t[a]).0 != (#[trigger] t[b]).0 by {
            let a2 = if a < i { a } else { a + 1 };
            let b2 = if b < i { b } else { b + 1 };
            assert(t[a] == s[a2] && t[b] == s[b2]);
        }
    }
    assert forall|o: Seq<char>| o != s[i].0 implies key_contents(t, o) == key_contents(s, o) by {
        lemma_forget_other(s, i, o);
    }
}

proof fn lemma_forget_other(s: Seq<(Seq<char>, Seq<Seq<char>>)>, i: int, o: Seq<char>)
    requires
        0 <= i < s.len(),
        o != s[i].0,
    ensures
        key_contents(s.remove(i), o) == key_contents(s, o),
    decreases s.len(),
{
    if i < s.len() - 1 {
        assert(s.remove(i).drop_last() =~= s.drop_last().remove(i));
        assert(s.remove(i).last() == s.last());
        assert(s.drop_last()[i] == s[i]);
        lemma_forget_other(s.drop_last(), i, o);
    } else {
        assert(s.remove(i) =~= s.drop_last());
    }
}

/// Law: a memory remembered for a session is recalled for it by any query
/// it contains, unless five earlier memories already match that query.
pub proof fn law_remember_then_recall(
    before: Seq<(Seq<char>, Seq<Seq<char>>)>,
    tenant: Seq<char>,
    session: Seq<char>,
    content: Seq<char>,
    query: Seq<char>,
)
    requires
        keys_unique(before),
        contains_seq(content, query),
        all_matches(before, store_key(tenant, session), query).len() < 5,
    ensures
        recall_spec(
            remember_spec(before, store_key(tenant, session), content),
            store_key(tenant, session),
            query,
        ).contains(content),
{
    let k = store_key(tenant, session);
    lemma_remember_matches(before, k, content, query);
    let m = all_matches(remember_spec(before, k, content), k, query);
    assert(m.take(m.len() as int) =~= m);
}

/// The matches an entry contributes.
pub open spec fn entry_matches(e: (Seq<char>, Seq<Seq<char>>), prefix: Seq<char>, query: Seq<char>) -> Seq<Seq<char>> {
    if occurs_at(e.0, prefix, 0) {
        matching(e.1, query)
    } else {
        Seq::empty()
    }
}

/// A match is a memory of the list that contains the query.
proof fn lemma_matching_member(v: Seq<Seq<char>>, q: Seq<char>, x: Seq<char>)
    requires
        matching(v, q).contains(x),
    ensures
        contains_seq(x, q),
        v.contains(x),
    decreases v.len(),
{
    let p = matching(v.drop_last(), q);
    if contains_seq(v.last(), q) && x == v.last() {
        assert(v[v.len() - 1] == x);
    } else {
        if contains_seq(v.last(), q) {
            let j = choose|j: int| 0 <= j < matching(v, q).len() && matching(v, q)[j] == x;
            assert(p.push(v.last())[j] == x);
            assert(j < p.len());
            assert(p[j] == x);
        }
        lemma_matching_member(v.drop_last(), q, x);
        let k = choose|k: int| 0 <= k < v.drop_last().len() && v.drop_last()[k] == x;
        assert(v[k] == x);
    }
}

/// Replacing entry `i` by one with the same key changes the matches by the
/// difference of the two entries' matches, and the new entry's matches are
/// among them.
proof fn lemma_all_matches_update(
    s: Seq<(Seq<char>, Seq<Seq<char>>)>,
    i: int,
    e: (Seq<char>, Seq<Seq<char>>),
    p: Seq<char>,
    q: Seq<char>,
)
    requires
        0 <= i < s.len(),
        e.0 == s[i].0,
    ensures
        all_matches(s.update(i, e), p, q).len() + entry_matches(s[i], p, q).len() == all_matches(s, p, q).len()
            + entry_matches(e, p, q).len(),
        forall|x: Seq<char>| entry_matches(e, p, q).contains(x) ==> all_matches(s.update(i, e), p, q).contains(x),
    decreases s.len(),
{
    let t = s.update(i, e);
    if i == s.len() - 1 {
        assert(t.drop_last() =~= s.drop_last());
        assert(t.last() == e);
        let a = all_matches(s.drop_last(), p, q);
        let m = entry_matches(e, p, q);
        assert(all_matches(t, p, q) == a + m);
        assert forall|x: Seq<char>| m.contains(x) implies (a + m).contains(x) by {
            let j = choose|j: int| 0 <= j < m.len() && m[j] == x;
            assert((a + m)[a.len() + j] == x);
        }
    } else {
        assert(t.drop_last() =~= s.drop_last().update(i, e));
        assert(t.last() == s.last());
        assert(s.drop_last()[i] == s[i]);
        lemma_all_matches_update(s.drop_last(), i, e, p, q);
        let a = all_matches(t.drop_last(), p, q);
        let m = entry_matches(s.last(), p, q);
        assert(all_matches(t, p, q) == a + m);
        assert forall|x: Seq<char>| entry_matches(e, p, q).contains(x) implies (a + m).contains(x) by {
            let j = choose|j: int| 0 <= j < a.len() && a[j] == x;
            assert((a + m)[j] == x);
        }
    }
}

/// Remembering adds one match of a query the memory contains.
proof fn lemma_remember_matches(
    s: Seq<(Seq<char>, Seq<Seq<char>>)>,
    k: Seq<char>,
    c: Seq<char>,
    q: Seq<char>,
)
    requires
        contains_seq(c, q),
    ensures
        all_matches(remember_spec(s, k, c), k, q).len() == all_matches(s, k, q).len() + 1,
        all_matches(remember_spec(s, k, c), k, q).contains(c),
{
    assert(occurs_at(k, k, 0)) by {
        assert(k.subrange(0, k.len() as int) =~= k);
    }
    lemma_key_index(s, k);
    let i = key_index(s, k);
    if i >= 0 {
        let e = (k, s[i].1.push(c));
        assert(e.1.drop_last() =~= s[i].1);
        assert(matching(e.1, q) == matching(s[i].1, q).push(c));
        assert(entry_matches(e, k, q) == matching(e.1, q));
        assert(entry_matches(s[i], k, q) == matching(s[i].1, q));
        lemma_all_matches_update(s, i, e, k, q);
        assert(entry_matches(e, k, q)[entry_matches(e, k, q).len() - 1] == c);
        assert(entry_matches(e, k, q).contains(c));
        assert(remember_spec(s, k, c) == s.update(i, e));
    } else {
        let t = s.push((k, seq![c]));
        assert(t.drop_last() =~= s);
        assert(seq![c].drop_last() =~= Seq::<Seq<char>>::empty());
        assert(matching(Seq::<Seq<char>>::empty(), q) =~= Seq::<Seq<char>>::empty());
        assert(matching(seq![c], q) =~= seq![c]);
        let a = all_matches(s, k, q);
        assert(all_matches(t, k, q) == a + seq![c]);
        assert((a + seq![c])[a.len() as int] == c);
    }
}

/// Law: a session's memories are gone once it is forgotten.
pub proof fn law_forget_then_lookup(before: Seq<(Seq<char>, Seq<Seq<char>>)>, i: int)
    requires
        keys_unique(before),
        0 <= i < before.len(),
    ensures
        key_contents(before.remove(i), before[i].0).len() == 0,
{
    lemma_forget(before, i);
    lemma_key_contents_absent(before.remove(i), before[i].0);
}

/// Law: a recall returns only memories filed under keys that start with the
/// session's key and that contain the query.
pub proof fn law_recall_isolated(entries: Seq<(Seq<char>, Seq<Seq<char>>)>, prefix: Seq<char>, query: Seq<char>, x: Seq<char>)
    requires
        recall_spec(entries, prefix, query).contains(x),
    ensures
        contains_seq(x, query),
        exists|i: int| 0 <= i < entries.len() && occurs_at((#[trigger] entries[i]).0, prefix, 0) && entries[i].1.contains(x),
{
    let m = all_matches(entries, prefix, query);
    let n = if m.len() < 5 { m.len() as int } else { 5 };
    let j = choose|j: int| 0 <= j < m.take(n).len() && m.take(n)[j] == x;
    assert(m[j] == x);
    lemma_all_matches_member(entries, prefix, query, x);
}

/// A match comes from an entry whose key has the prefix.
proof fn lemma_all_matches_member(s: Seq<(Seq<char>, Seq<Seq<char>>)>, p: Seq<char>, q: Seq<char>, x: Seq<char>)
    requires
        all_matches(s, p, q).contains(x),
    ensures
        contains_seq(x, q),
        exists|i: int| 0 <= i < s.len() && occurs_at((#[trigger] s[i]).0, p, 0) && s[i].1.contains(x),
    decreases s.len(),
{
    let a = all_matches(s.drop_last(), p, q);
    let m = entry_matches(s.last(), p, q);
    assert(all_matches(s, p, q) == a + m);
    let j = choose|j: int| 0 <= j < (a + m).len() && (a + m)[j] == x;
    if j < a.len() {
        assert(a[j] == x);
        lemma_all_matches_member(s.drop_last(), p, q, x);
        let i = choose|i: int| 0 <= i < s.drop_last().len() && occurs_at((#[trigger] s.drop_last()[i]).0, p, 0) && s.drop_last()[i].1.contains(x);
        assert(s[i] == s.drop_last()[i]);
    } else {
        assert(m[j - a.len()] == x);
        assert(occurs_at(s.last().0, p, 0));
        lemma_matching_member(s.last().1, q, x);
        assert(s[s.len() - 1] == s.last());
    }
}

} // verus!
