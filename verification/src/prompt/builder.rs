//! Ordered assembly of the system prompt.
use vstd::prelude::*;
use vstd::string::*;
use vstd::utf8::*;

use super::types::{
    fragments_view, FragmentKind, FragmentSource, FragmentView, PromptFragment, RenderedFragment,
    RenderedFragmentView, RenderedPrompt, RenderedPromptView, SourceView,
};
use crate::text::{
    ceil_quarter, ceil_quarter_exec, chars_of, lemma_encode_utf8_concat, lemma_newline_utf8_len,
    lemma_trim_end_prefix, lemma_utf8_len_zero, str_eq, trim_end_len, trim_end_spec, utf8_len,
    byte_prefix, cut_to_bytes,
};

verus! {

broadcast use vstd::utf8::encode_utf8_decode_utf8;

/// Maximum bytes of a single fragment's content.
pub open spec fn max_fragment_bytes() -> nat {
    256_000
}

/// Whether the fragments are ordered by non-decreasing priority.
pub open spec fn sorted_by_priority(s: Seq<FragmentView>) -> bool {
    forall|i: int, j: int| 0 <= i <= j < s.len() ==> s[i].priority <= s[j].priority
}

/// Index of the first fragment whose id is `id` (or the length if none).
pub open spec fn index_of_id(s: Seq<FragmentView>, id: Seq<char>) -> nat
    decreases s.len(),
{
    if s.len() == 0 {
        0
    } else if s[0].id == id {
        0
    } else {
        1 + index_of_id(s.drop_first(), id)
    }
}

/// Index of the first fragment whose priority exceeds `p` (or the length).
pub open spec fn first_greater(s: Seq<FragmentView>, p: i16) -> nat
    decreases s.len(),
{
    if s.len() == 0 {
        0
    } else if s[0].priority > p {
        0
    } else {
        1 + first_greater(s.drop_first(), p)
    }
}

/// `x` placed after every fragment of `s` whose priority is at most its own
/// (and before the first one with a greater priority).
pub open spec fn insert_by_priority(s: Seq<FragmentView>, x: FragmentView) -> Seq<FragmentView> {
    s.insert(first_greater(s, x.priority) as int, x)
}

/// Stable sort by priority: equal priorities keep their relative order.
pub open spec fn stable_sort(s: Seq<FragmentView>) -> Seq<FragmentView>
    decreases s.len(),
{
    if s.len() == 0 {
        s
    } else {
        insert_by_priority(stable_sort(s.drop_last()), s.last())
    }
}

/// The content kept of a fragment: its longest prefix, in whole
/// characters, of at most `max_fragment_bytes()` bytes.
pub open spec fn truncated_content(c: Seq<char>) -> Seq<char> {
    byte_prefix(c, max_fragment_bytes())
}

/// The fragment with its content cut to the byte limit.
pub open spec fn truncated(f: FragmentView) -> FragmentView {
    FragmentView { content: truncated_content(f.content), ..f }
}

/// Replace the first fragment with the same id, or append; then sort stably.
pub open spec fn upsert_spec(s: Seq<FragmentView>, f: FragmentView) -> Seq<FragmentView> {
    let pos = index_of_id(s, f.id);
    let updated = if pos < s.len() {
        s.update(pos as int, f)
    } else {
        s.push(f)
    };
    stable_sort(updated)
}

/// Removal of the first fragment with the given id (no change if none).
pub open spec fn remove_id_spec(s: Seq<FragmentView>, id: Seq<char>) -> Seq<FragmentView> {
    let pos = index_of_id(s, id);
    if pos < s.len() {
        s.remove(pos as int)
    } else {
        s
    }
}

/// The fragments whose source differs from `src`, in order.
pub open spec fn without_source(s: Seq<FragmentView>, src: SourceView) -> Seq<FragmentView>
    decreases s.len(),
{
    if s.len() == 0 {
        s
    } else if s.last().source == src {
        without_source(s.drop_last(), src)
    } else {
        without_source(s.drop_last(), src).push(s.last())
    }
}

/// The fragments whose kind differs from `k`, in order.
pub open spec fn without_kind(s: Seq<FragmentView>, k: FragmentKind) -> Seq<FragmentView>
    decreases s.len(),
{
    if s.len() == 0 {
        s
    } else if s.last().kind == k {
        without_kind(s.drop_last(), k)
    } else {
        without_kind(s.drop_last(), k).push(s.last())
    }
}

/// The single fragment a builder made from `base` holds.
pub open spec fn base_fragment(base: Seq<char>) -> FragmentView {
    FragmentView {
        id: "base-persona-0"@,
        kind: FragmentKind::BasePersona,
        source: SourceView::SessionParam,
        content: base,
        priority: 0,
    }
}

/// Rendered text: trimmed non-empty contents, in order, one per line.
pub open spec fn render_spec(s: Seq<FragmentView>) -> Seq<char>
    decreases s.len(),
{
    if s.len() == 0 {
        Seq::empty()
    } else {
        let prev = render_spec(s.drop_last());
        let t = trim_end_spec(s.last().content);
        if t.len() == 0 {
            prev
        } else if prev.len() == 0 {
            t
        } else {
            prev + seq!['\n'] + t
        }
    }
}

/// Per-fragment metadata of the rendered text.
pub open spec fn metadata_spec(s: Seq<FragmentView>) -> Seq<RenderedFragmentView>
    decreases s.len(),
{
    if s.len() == 0 {
        Seq::empty()
    } else {
        let prev_meta = metadata_spec(s.drop_last());
        let prev = render_spec(s.drop_last());
        let f = s.last();
        let t = trim_end_spec(f.content);
        if t.len() == 0 {
            prev_meta
        } else {
            prev_meta.push(
                RenderedFragmentView {
                    id: f.id,
                    kind: f.kind,
                    source: f.source,
                    byte_offset: if prev.len() == 0 {
                        0
                    } else {
                        utf8_len(prev) + 1
                    },
                    byte_len: utf8_len(t),
                    estimated_tokens: ceil_quarter(t.len()),
                },
            )
        }
    }
}

/// Total number of characters over all fragment contents.
pub open spec fn total_chars(s: Seq<FragmentView>) -> nat
    decreases s.len(),
{
    if s.len() == 0 {
        0
    } else {
        total_chars(s.drop_last()) + s.last().content.len()
    }
}

/// Assembles the final system prompt from ordered fragments.
#[derive(Debug)]
pub struct PromptBuilder {
    fragments: Vec<PromptFragment>,
}

impl View for PromptBuilder {
    type V = Seq<FragmentView>;

    closed spec fn view(&self) -> Seq<FragmentView> {
        fragments_view(self.fragments@)
    }
}

impl PromptBuilder {
    /// Fragments are kept ordered by priority.
    pub open spec fn wf(self) -> bool {
        sorted_by_priority(self@)
    }

    /// Maximum bytes allowed for a single fragment content.
    /// Fragments exceeding this limit are truncated.
    pub const MAX_FRAGMENT_BYTES: usize = 256_000;

    /// Create a builder with a single BasePersona fragment.
    pub fn from_base(base: String) -> (r: Self)
        ensures
            r@ == seq![base_fragment(base@)],
            r.wf(),
    {
        let mut fragments: Vec<PromptFragment> = Vec::new();
        fragments.push(
            PromptFragment {
                id: String::from_str("base-persona-0"),
                kind: FragmentKind::BasePersona,
                source: FragmentSource::SessionParam,
                content: base,
                priority: 0,
            },
        );
        let r = PromptBuilder { fragments };
        proof {
            assert(r@ =~= seq![base_fragment(base@)]);
        }
        r
    }

    /// Index of the first fragment with the given id, or the count if none.
    fn position_of_id(&self, id: &str) -> (i: usize)
        ensures
            i == index_of_id(self@, id@),
    {
        let mut i: usize = 0;
        while i < self.fragments.len()
            invariant
                i <= self.fragments@.len(),
                forall|m: int| 0 <= m < i ==> self@[m].id != id@,
            decreases self.fragments@.len() - i,
        {
            if str_eq(self.fragments[i].id.as_str(), id) {
                proof {
                    lemma_index_of_id_at(self@, id@, i as int);
                }
                return i;
            }
            i = i + 1;
        }
        proof {
            lemma_index_of_id_at(self@, id@, i as int);
        }
        i
    }

    /// Insert or replace a fragment by `id`. If an existing fragment has
    /// the same `id`, it is replaced; otherwise the fragment is appended.
    /// Then the list is re-sorted by `priority` (stable). Content longer than
    /// `MAX_FRAGMENT_BYTES` bytes is cut at the last character boundary
    /// within that many bytes.
    pub fn upsert_fragment(&mut self, fragment: PromptFragment)
        ensures
            final(self)@ == upsert_spec(old(self)@, truncated(fragment@)),
            final(self).wf(),
    {
        let mut fragment = fragment;
        let ghost given = fragment@;
        let cut = cut_to_bytes(fragment.content.as_str(), Self::MAX_FRAGMENT_BYTES);
        fragment.content = cut;
        assert(fragment@ == truncated(given));
        let pos = self.position_of_id(fragment.id.as_str());
        let mut updated: Vec<PromptFragment> = Vec::new();
        std::mem::swap(&mut updated, &mut self.fragments);
        proof {
            assert(fragments_view(updated@) == old(self)@);
        }
        if pos < updated.len() {
            updated.set(pos, fragment);
            proof {
                assert(fragments_view(updated@) =~= old(self)@.update(pos as int, truncated(given)));
            }
        } else {
            updated.push(fragment);
            proof {
                assert(fragments_view(updated@) =~= old(self)@.push(truncated(given)));
            }
        }
        self.fragments = sort_by_priority(&updated);
        proof {
            lemma_stable_sort_sorted(fragments_view(updated@));
        }
    }

    /// Remove all fragments whose `source` matches.
    pub fn remove_by_source(&mut self, source: &FragmentSource)
        ensures
            final(self)@ == without_source(old(self)@, source@),
            old(self).wf() ==> final(self).wf(),
    {
        let mut kept: Vec<PromptFragment> = Vec::new();
        let n = self.fragments.len();
        for i in 0..n
            invariant
                n == self.fragments@.len(),
                fragments_view(kept@) == without_source(self@.take(i as int), source@),
        {
            proof {
                assert(self@.take(i + 1).drop_last() =~= self@.take(i as int));
            }
            if !self.fragments[i].source.same_as(source) {
                kept.push(self.fragments[i].clone());
            }
            proof {
                assert(fragments_view(kept@) =~= without_source(self@.take(i + 1), source@));
            }
        }
        proof {
            assert(self@.take(n as int) =~= self@);
            lemma_without_source_subseq(self@, source@);
        }
        self.fragments = kept;
    }

    /// Remove all fragments whose `kind` matches.
    pub fn remove_by_kind(&mut self, kind: &FragmentKind)
        ensures
            final(self)@ == without_kind(old(self)@, *kind),
            old(self).wf() ==> final(self).wf(),
    {
        let mut kept: Vec<PromptFragment> = Vec::new();
        let n = self.fragments.len();
        for i in 0..n
            invariant
                n == self.fragments@.len(),
                fragments_view(kept@) == without_kind(self@.take(i as int), *kind),
        {
            proof {
                assert(self@.take(i + 1).drop_last() =~= self@.take(i as int));
            }
            if self.fragments[i].kind != *kind {
                kept.push(self.fragments[i].clone());
            }
            proof {
                assert(fragments_view(kept@) =~= without_kind(self@.take(i + 1), *kind));
            }
        }
        proof {
            assert(self@.take(n as int) =~= self@);
            lemma_without_kind_subseq(self@, *kind);
        }
        self.fragments = kept;
    }

    /// Remove a single fragment by `id`: the first one with that id, which is
    /// returned; `None` (and no change) if there is none.
    pub fn remove_by_id(&mut self, id: &str) -> (r: Option<PromptFragment>)
        ensures
            final(self)@ == remove_id_spec(old(self)@, id@),
            index_of_id(old(self)@, id@) < old(self)@.len() <==> r is Some,
            r matches Some(f) ==> f@ == old(self)@[index_of_id(old(self)@, id@) as int],
            old(self).wf() ==> final(self).wf(),
    {
        let pos = self.position_of_id(id);
        if pos < self.fragments.len() {
            let f = self.fragments.remove(pos);
            proof {
                assert(self@ =~= old(self)@.remove(pos as int));
            }
            Some(f)
        } else {
            None
        }
    }

    /// Render to plain string by concatenating fragments in priority order.
    /// Fragments are trimmed of trailing whitespace and joined with a single
    /// newline separator; fragments that trim to nothing are skipped.
    pub fn render(&self) -> (r: String)
        ensures
            r@ == render_spec(self@),
    {
        let mut text = String::new();
        let n = self.fragments.len();
        for i in 0..n
            invariant
                n == self.fragments@.len(),
                text@ == render_spec(self@.take(i as int)),
        {
            proof {
                assert(self@.take(i + 1).drop_last() =~= self@.take(i as int));
            }
            let content = self.fragments[i].content.as_str();
            let cs = chars_of(content);
            let k = trim_end_len(&cs);
            let ghost prev = text@;
            proof {
                lemma_utf8_len_zero(prev);
                assert(self@.take(i + 1).last().content == content@);
            }
            if k > 0 {
                if !text.as_str().is_empty() {
                    text.append("\n");
                }
                let piece = content.substring_char(0, k);
                assert(piece@ == trim_end_spec(content@));
                text.append(piece);
            }
            proof {
                reveal_strlit("\n");
                if k > 0 {
                    assert(text@ =~= render_spec(self@.take(i + 1)));
                }
            }
        }
        proof {
            assert(self@.take(n as int) =~= self@);
        }
        text
    }

    /// Render to `Option<String>`: `None` if the rendered text is empty.
    pub fn render_option(&self) -> (r: Option<String>)
        ensures
            render_spec(self@).len() == 0 <==> r is None,
            r matches Some(s) ==> s@ == render_spec(self@),
    {
        let text = self.render();
        if text.as_str().is_empty() {
            None
        } else {
            Some(text)
        }
    }

    /// Render with per-fragment metadata (byte offsets and lengths in the
    /// rendered text, and a chars/4 token estimate) for observability.
    pub fn render_with_metadata(&self) -> (r: RenderedPrompt)
        requires
            utf8_len(render_spec(self@)) <= usize::MAX,
        ensures
            r@ == (RenderedPromptView { text: render_spec(self@), fragments: metadata_spec(self@) }),
    {
        let mut text = String::new();
        let mut rendered: Vec<RenderedFragment> = Vec::new();
        let n = self.fragments.len();
        for i in 0..n
            invariant
                n == self.fragments@.len(),
                text@ == render_spec(self@.take(i as int)),
                rendered@.map_values(|f: RenderedFragment| f@) == metadata_spec(self@.take(i as int)),
                utf8_len(render_spec(self@)) <= usize::MAX,
        {
            proof {
                assert(self@.take(i + 1).drop_last() =~= self@.take(i as int));
            }
            let fragment = &self.fragments[i];
            let content = fragment.content.as_str();
            let cs = chars_of(content);
            let k = trim_end_len(&cs);
            let ghost prev = text@;
            proof {
                lemma_utf8_len_zero(prev);
                assert(self@.take(i + 1).last() == fragment@);
                lemma_render_prefix_len(self@, i + 1);
            }
            if k > 0 {
                if !text.as_str().is_empty() {
                    text.append("\n");
                }
                let ghost sep = text@;
                let trimmed = content.substring_char(0, k);
                assert(trimmed@ == trim_end_spec(content@));
                proof {
                    reveal_strlit("\n");
                    lemma_newline_utf8_len();
                    lemma_encode_utf8_concat(sep, trimmed@);
                    assert(render_spec(self@.take(i + 1)) == sep + trimmed@);
                    if prev.len() > 0 {
                        lemma_encode_utf8_concat(prev, seq!['\n']);
                        assert(sep == prev + seq!['\n']);
                    }
                }
                let offset = text.as_str().len();
                text.append(trimmed);
                let byte_len = trimmed.len();
                proof {
                    assert(offset == if prev.len() == 0 { 0 } else { utf8_len(prev) + 1 });
                }
                rendered.push(
                    RenderedFragment {
                        id: fragment.id.clone(),
                        kind: fragment.kind,
                        source: fragment.source.clone(),
                        byte_offset: offset,
                        byte_len,
                        estimated_tokens: ceil_quarter_exec(k),
                    },
                );
                proof {
                    assert(text@ =~= render_spec(self@.take(i + 1)));
                    assert(rendered@.map_values(|f: RenderedFragment| f@) =~= metadata_spec(
                        self@.take(i + 1),
                    ));
                }
            } else {
                proof {
                    assert(rendered@.map_values(|f: RenderedFragment| f@) =~= metadata_spec(
                        self@.take(i + 1),
                    ));
                }
            }
        }
        proof {
            assert(self@.take(n as int) =~= self@);
        }
        RenderedPrompt { text, fragments: rendered }
    }

    /// Estimate total token count: total characters over all fragments,
    /// divided by four and rounded up.
    pub fn estimate_tokens(&self) -> (r: usize)
        requires
            total_chars(self@) <= usize::MAX,
        ensures
            r == ceil_quarter(total_chars(self@)),
    {
        let mut total: usize = 0;
        let n = self.fragments.len();
        for i in 0..n
            invariant
                n == self.fragments@.len(),
                total == total_chars(self@.take(i as int)),
                total_chars(self@) <= usize::MAX,
        {
            proof {
                assert(self@.take(i + 1).drop_last() =~= self@.take(i as int));
                lemma_total_chars_prefix(self@, i + 1);
            }
            total = total + self.fragments[i].content.as_str().unicode_len();
        }
        proof {
            assert(self@.take(n as int) =~= self@);
        }
        ceil_quarter_exec(total)
    }
}

impl Default for PromptBuilder {
    fn default() -> (r: Self)
        ensures
            r@ == Seq::<FragmentView>::empty(),
    {
        let r = PromptBuilder { fragments: Vec::new() };
        proof {
            assert(r@ =~= Seq::<FragmentView>::empty());
        }
        r
    }
}

impl Clone for PromptBuilder {
    fn clone(&self) -> (r: Self)
        ensures
            r@ == self@,
    {
        let fragments = self.fragments.clone();
        proof {
            assert(fragments_view(fragments@) =~= fragments_view(self.fragments@));
        }
        PromptBuilder { fragments }
    }
}

/// Stable sort of fragments by priority.
fn sort_by_priority(v: &Vec<PromptFragment>) -> (r: Vec<PromptFragment>)
    ensures
        fragments_view(r@) == stable_sort(fragments_view(v@)),
{
    let mut r: Vec<PromptFragment> = Vec::new();
    let n = v.len();
    for i in 0..n
        invariant
            n == v@.len(),
            fragments_view(r@) == stable_sort(fragments_view(v@).take(i as int)),
    {
        let x = v[i].clone();
        let p = x.priority;
        let mut k: usize = 0;
        while k < r.len() && r[k].priority <= p
            invariant
                k <= r@.len(),
                forall|m: int| 0 <= m < k ==> fragments_view(r@)[m].priority <= p,
            decreases r@.len() - k,
        {
            k = k + 1;
        }
        proof {
            lemma_first_greater_at(fragments_view(r@), p, k as int);
            assert(fragments_view(v@).take(i + 1).drop_last() =~= fragments_view(v@).take(i as int));
            assert(fragments_view(v@).take(i + 1).last() == x@);
        }
        r.insert(k, x);
        proof {
            assert(fragments_view(r@) =~= stable_sort(fragments_view(v@).take(i + 1)));
        }
    }
    proof {
        assert(fragments_view(v@).take(n as int) =~= fragments_view(v@));
    }
    r
}

// ---------------------------------------------------------------------------
// Lemmas
// ---------------------------------------------------------------------------

/// `index_of_id` is the first index with the id.
pub proof fn lemma_index_of_id_at(s: Seq<FragmentView>, id: Seq<char>, i: int)
    requires
        0 <= i <= s.len(),
        forall|m: int| 0 <= m < i ==> s[m].id != id,
        i == s.len() || s[i].id == id,
    ensures
        index_of_id(s, id) == i,
    decreases i,
{
    if i > 0 {
        lemma_index_of_id_at(s.drop_first(), id, i - 1);
    }
}

/// `index_of_id` is at most the length, and names a fragment with the id
/// when it is smaller; every earlier fragment has another id.
pub proof fn lemma_index_of_id_props(s: Seq<FragmentView>, id: Seq<char>)
    ensures
        index_of_id(s, id) <= s.len(),
        index_of_id(s, id) < s.len() ==> s[index_of_id(s, id) as int].id == id,
        forall|m: int| 0 <= m < index_of_id(s, id) ==> s[m].id != id,
    decreases s.len(),
{
    if s.len() > 0 && s[0].id != id {
        lemma_index_of_id_props(s.drop_first(), id);
        assert forall|m: int| 0 <= m < index_of_id(s, id) implies s[m].id != id by {
            if m > 0 {
                assert(s[m] == s.drop_first()[m - 1]);
            }
        }
    }
}

/// `first_greater` is the first index with a larger priority.
pub proof fn lemma_first_greater_at(s: Seq<FragmentView>, p: i16, i: int)
    requires
        0 <= i <= s.len(),
        forall|m: int| 0 <= m < i ==> s[m].priority <= p,
        i == s.len() || s[i].priority > p,
    ensures
        first_greater(s, p) == i,
    decreases i,
{
    if i > 0 {
        lemma_first_greater_at(s.drop_first(), p, i - 1);
    }
}

/// In a sorted sequence, every element before `first_greater` has priority
/// at most `p` and every element from it on has a larger one.
pub proof fn lemma_first_greater_props(s: Seq<FragmentView>, p: i16)
    requires
        sorted_by_priority(s),
    ensures
        first_greater(s, p) <= s.len(),
        forall|m: int| 0 <= m < first_greater(s, p) ==> s[m].priority <= p,
        forall|m: int| first_greater(s, p) <= m < s.len() ==> s[m].priority > p,
    decreases s.len(),
{
    if s.len() > 0 && s[0].priority <= p {
        lemma_first_greater_props(s.drop_first(), p);
        assert forall|m: int| 0 <= m < first_greater(s, p) implies s[m].priority <= p by {
            if m > 0 {
                assert(s[m] == s.drop_first()[m - 1]);
            }
        }
        assert forall|m: int| first_greater(s, p) <= m < s.len() implies s[m].priority > p by {
            assert(s[m] == s.drop_first()[m - 1]);
        }
    } else if s.len() > 0 {
        assert forall|m: int| 0 <= m < s.len() implies s[m].priority > p by {
            assert(s[0].priority <= s[m].priority);
        }
    }
}

/// Inserting by priority into a sorted sequence keeps it sorted.
pub proof fn lemma_insert_by_priority_sorted(s: Seq<FragmentView>, x: FragmentView)
    requires
        sorted_by_priority(s),
    ensures
        sorted_by_priority(insert_by_priority(s, x)),
{
    lemma_first_greater_props(s, x.priority);
    let k = first_greater(s, x.priority) as int;
    let t = insert_by_priority(s, x);
    assert forall|i: int, j: int| 0 <= i <= j < t.len() implies t[i].priority <= t[j].priority by {
        if i < k && j < k {
        } else if i < k && j == k {
        } else if i < k {
            assert(t[j] == s[j - 1]);
        } else if i == k && j == k {
        } else if i == k {
            assert(t[j] == s[j - 1]);
        } else {
            assert(t[i] == s[i - 1]);
            assert(t[j] == s[j - 1]);
        }
    }
}

/// A stable sort is sorted.
pub proof fn lemma_stable_sort_sorted(s: Seq<FragmentView>)
    ensures
        sorted_by_priority(stable_sort(s)),
    decreases s.len(),
{
    if s.len() > 0 {
        lemma_stable_sort_sorted(s.drop_last());
        lemma_insert_by_priority_sorted(stable_sort(s.drop_last()), s.last());
    }
}

/// Sorting an already sorted sequence changes nothing.
pub proof fn lemma_stable_sort_of_sorted(s: Seq<FragmentView>)
    requires
        sorted_by_priority(s),
    ensures
        stable_sort(s) == s,
    decreases s.len(),
{
    if s.len() > 0 {
        let d = s.drop_last();
        assert(sorted_by_priority(d));
        lemma_stable_sort_of_sorted(d);
        lemma_first_greater_at(d, s.last().priority, d.len() as int);
        assert(d.insert(d.len() as int, s.last()) =~= s);
    }
}

/// The stable sort holds the same fragments, each as often.
pub proof fn lemma_stable_sort_permutes(s: Seq<FragmentView>)
    ensures
        stable_sort(s).to_multiset() == s.to_multiset(),
    decreases s.len(),
{
    broadcast use vstd::seq_lib::group_to_multiset_ensures;

    if s.len() > 0 {
        let d = s.drop_last();
        lemma_stable_sort_permutes(d);
        let t = stable_sort(d);
        let k = first_greater(t, s.last().priority) as int;
        lemma_first_greater_props_len(t, s.last().priority);
        t.insert_ensures(k, s.last());
        assert(t.insert(k, s.last()) =~= t.take(k) + seq![s.last()] + t.skip(k));
        assert(t =~= t.take(k) + t.skip(k));
        vstd::seq_lib::lemma_multiset_commutative(t.take(k), seq![s.last()]);
        vstd::seq_lib::lemma_multiset_commutative(t.take(k) + seq![s.last()], t.skip(k));
        vstd::seq_lib::lemma_multiset_commutative(t.take(k), t.skip(k));
        assert(s =~= d.push(s.last()));
    }
}

/// `first_greater` never exceeds the length.
pub proof fn lemma_first_greater_props_len(s: Seq<FragmentView>, p: i16)
    ensures
        first_greater(s, p) <= s.len(),
    decreases s.len(),
{
    if s.len() > 0 {
        lemma_first_greater_props_len(s.drop_first(), p);
    }
}

/// Dropping fragments by source keeps the order of the others.
pub proof fn lemma_without_source_subseq(s: Seq<FragmentView>, src: SourceView)
    ensures
        sorted_by_priority(s) ==> sorted_by_priority(without_source(s, src)),
        forall|f: FragmentView| #[trigger] without_source(s, src).contains(f) ==> s.contains(f) && f.source != src,
    decreases s.len(),
{
    if s.len() > 0 {
        let d = s.drop_last();
        lemma_without_source_subseq(d, src);
        assert forall|f: FragmentView| #[trigger] without_source(s, src).contains(f) implies s.contains(f) && f.source != src by {
            let w = without_source(d, src);
            if s.last().source != src && f == s.last() {
                assert(s[s.len() - 1] == f);
            } else {
                if s.last().source != src {
                    let j = choose|j: int| 0 <= j < w.push(s.last()).len() && w.push(s.last())[j] == f;
                    if j < w.len() {
                        assert(w.contains(f));
                    }
                }
                assert(w.contains(f));
                let j = choose|j: int| 0 <= j < d.len() && d[j] == f;
                assert(s[j] == f);
            }
        }
        if sorted_by_priority(s) {
            assert(sorted_by_priority(d));
            let w = without_source(d, src);
            if s.last().source != src {
                assert forall|i: int, j: int| 0 <= i <= j < w.len() + 1 implies #[trigger] w.push(s.last())[i].priority <= #[trigger] w.push(s.last())[j].priority by {
                    if j == w.len() && i < w.len() {
                        assert(w.contains(w[i]));
                        let m = choose|m: int| 0 <= m < d.len() && d[m] == w[i];
                        assert(s[m] == d[m]);
                    }
                }
            }
        }
    }
}

/// Dropping fragments by kind keeps the order of the others.
pub proof fn lemma_without_kind_subseq(s: Seq<FragmentView>, k: FragmentKind)
    ensures
        sorted_by_priority(s) ==> sorted_by_priority(without_kind(s, k)),
        forall|f: FragmentView| #[trigger] without_kind(s, k).contains(f) ==> s.contains(f) && f.kind != k,
    decreases s.len(),
{
    if s.len() > 0 {
        let d = s.drop_last();
        lemma_without_kind_subseq(d, k);
        assert forall|f: FragmentView| #[trigger] without_kind(s, k).contains(f) implies s.contains(f) && f.kind != k by {
            let w = without_kind(d, k);
            if s.last().kind != k && f == s.last() {
                assert(s[s.len() - 1] == f);
            } else {
                if s.last().kind != k {
                    let j = choose|j: int| 0 <= j < w.push(s.last()).len() && w.push(s.last())[j] == f;
                    if j < w.len() {
                        assert(w.contains(f));
                    }
                }
                assert(w.contains(f));
                let j = choose|j: int| 0 <= j < d.len() && d[j] == f;
                assert(s[j] == f);
            }
        }
        if sorted_by_priority(s) {
            assert(sorted_by_priority(d));
            let w = without_kind(d, k);
            if s.last().kind != k {
                assert forall|i: int, j: int| 0 <= i <= j < w.len() + 1 implies #[trigger] w.push(s.last())[i].priority <= #[trigger] w.push(s.last())[j].priority by {
                    if j == w.len() && i < w.len() {
                        assert(w.contains(w[i]));
                        let m = choose|m: int| 0 <= m < d.len() && d[m] == w[i];
                        assert(s[m] == d[m]);
                    }
                }
            }
        }
    }
}

/// Rendering more fragments never shortens the encoded text.
pub proof fn lemma_render_step_len(s: Seq<FragmentView>, i: int)
    requires
        0 <= i < s.len(),
    ensures
        utf8_len(render_spec(s.take(i))) <= utf8_len(render_spec(s.take(i + 1))),
{
    let d = s.take(i + 1);
    assert(d.drop_last() =~= s.take(i));
    let prev = render_spec(s.take(i));
    let t = trim_end_spec(d.last().content);
    if t.len() > 0 && prev.len() > 0 {
        lemma_encode_utf8_concat(prev, seq!['\n']);
        lemma_encode_utf8_concat(prev + seq!['\n'], t);
    } else if t.len() > 0 {
        lemma_utf8_len_zero(prev);
    }
}

/// The encoded text of a prefix is no longer than that of the whole.
pub proof fn lemma_render_prefix_len(s: Seq<FragmentView>, i: int)
    requires
        0 <= i <= s.len(),
    ensures
        utf8_len(render_spec(s.take(i))) <= utf8_len(render_spec(s)),
    decreases s.len() - i,
{
    if i < s.len() {
        lemma_render_step_len(s, i);
        lemma_render_prefix_len(s, i + 1);
    } else {
        assert(s.take(i) =~= s);
    }
}

/// Law: upserting a fragment under an id the builder does not hold, then
/// removing that id, gives back the starting (sorted) fragments.
pub proof fn law_fresh_upsert_then_remove(s: Seq<FragmentView>, f: FragmentView)
    requires
        sorted_by_priority(s),
        index_of_id(s, f.id) == s.len(),
    ensures
        remove_id_spec(upsert_spec(s, f), f.id) == s,
{
    lemma_index_of_id_props(s, f.id);
    assert(s.push(f).drop_last() =~= s);
    lemma_stable_sort_of_sorted(s);
    lemma_first_greater_props_len(s, f.priority);
    let k = first_greater(s, f.priority) as int;
    let t = s.insert(k, f);
    assert(upsert_spec(s, f) == t);
    assert forall|m: int| 0 <= m < k implies t[m].id != f.id by {
        assert(t[m] == s[m]);
    }
    lemma_index_of_id_at(t, f.id, k);
    assert(t.remove(k) =~= s);
}

/// Law: after an upsert the builder holds the upserted fragment, every
/// fragment is held as often as before except the replaced one, and the
/// fragments are ordered by priority.
pub proof fn law_upsert_holds_fragment(s: Seq<FragmentView>, f: FragmentView)
    ensures
        upsert_spec(s, f).contains(f),
        sorted_by_priority(upsert_spec(s, f)),
        index_of_id(s, f.id) < s.len() ==> upsert_spec(s, f).to_multiset() == s.to_multiset().insert(
            f,
        ).remove(s[index_of_id(s, f.id) as int]),
        index_of_id(s, f.id) >= s.len() ==> upsert_spec(s, f).to_multiset() == s.to_multiset().insert(f),
{
    broadcast use vstd::seq_lib::group_to_multiset_ensures;

    lemma_index_of_id_props(s, f.id);
    let pos = index_of_id(s, f.id);
    let updated = if pos < s.len() {
        s.update(pos as int, f)
    } else {
        s.push(f)
    };
    lemma_stable_sort_permutes(updated);
    lemma_stable_sort_sorted(updated);
    if pos < s.len() {
        vstd::seq_lib::to_multiset_update(s, pos as int, f);
        assert(updated[pos as int] == f);
    } else {
        assert(updated[s.len() as int] == f);
    }
    assert(updated.to_multiset().count(f) > 0);
    assert(stable_sort(updated).to_multiset().count(f) > 0);
}

/// Total characters of a prefix never exceed the total.
pub proof fn lemma_total_chars_prefix(s: Seq<FragmentView>, i: int)
    requires
        0 <= i <= s.len(),
    ensures
        total_chars(s.take(i)) <= total_chars(s),
    decreases s.len() - i,
{
    if i < s.len() {
        lemma_total_chars_prefix(s, i + 1);
        assert(s.take(i + 1).drop_last() =~= s.take(i));
    } else {
        assert(s.take(i) =~= s);
    }
}

/// No two fragments share an id.
pub open spec fn ids_distinct(s: Seq<FragmentView>) -> bool {
    forall|i: int, j: int| 0 <= i < j < s.len() ==> (#[trigger] s[i]).id != (#[trigger] s[j]).id
}

/// A stable sort of fragments with distinct ids keeps them distinct.
pub proof fn lemma_stable_sort_ids_distinct(s: Seq<FragmentView>)
    requires
        ids_distinct(s),
    ensures
        ids_distinct(stable_sort(s)),
    decreases s.len(),
{
    broadcast use vstd::seq_lib::group_to_multiset_ensures;

    if s.len() > 0 {
        let d = s.drop_last();
        let x = s.last();
        assert forall|i: int, j: int| 0 <= i < j < d.len() implies (#[trigger] d[i]).id != (#[trigger] d[j]).id by {
            assert(d[i] == s[i] && d[j] == s[j]);
        }
        lemma_stable_sort_ids_distinct(d);
        lemma_stable_sort_permutes(d);
        let t = stable_sort(d);
        assert forall|m: int| 0 <= m < t.len() implies (#[trigger] t[m]).id != x.id by {
            assert(t.to_multiset().count(t[m]) > 0);
            assert(d.contains(t[m]));
            let q = choose|q: int| 0 <= q < d.len() && d[q] == t[m];
            assert(s[q] == d[q]);
            assert(s[s.len() - 1] == x);
        }
        let k = first_greater(t, x.priority) as int;
        lemma_first_greater_props_len(t, x.priority);
        let u = t.insert(k, x);
        assert(stable_sort(s) == u);
        assert forall|i: int, j: int| 0 <= i < j < u.len() implies (#[trigger] u[i]).id != (#[trigger] u[j]).id by {
            if j < k {
                assert(u[i] == t[i] && u[j] == t[j]);
            } else if j == k {
                assert(u[i] == t[i]);
            } else if i < k {
                assert(u[i] == t[i] && u[j] == t[j - 1]);
            } else if i == k {
                assert(u[j] == t[j - 1]);
            } else {
                assert(u[i] == t[i - 1] && u[j] == t[j - 1]);
            }
        }
    }
}

/// Law: an upsert into fragments with distinct ids keeps the ids distinct;
/// exactly one fragment then has the upserted id, and it is the upserted
/// fragment; every other fragment is kept, and no other appears.
pub proof fn law_upsert_exact(s: Seq<FragmentView>, f: FragmentView)
    requires
        ids_distinct(s),
    ensures
        ids_distinct(upsert_spec(s, f)),
        upsert_spec(s, f).contains(f),
        forall|g: FragmentView| #[trigger] upsert_spec(s, f).contains(g) && g.id == f.id ==> g == f,
        forall|g: FragmentView| s.contains(g) && g.id != f.id ==> #[trigger] upsert_spec(s, f).contains(g),
        forall|g: FragmentView| #[trigger] upsert_spec(s, f).contains(g) && g.id != f.id ==> s.contains(g),
{
    broadcast use vstd::seq_lib::group_to_multiset_ensures;

    lemma_index_of_id_props(s, f.id);
    law_upsert_holds_fragment(s, f);
    let pos = index_of_id(s, f.id);
    let updated = if pos < s.len() {
        s.update(pos as int, f)
    } else {
        s.push(f)
    };
    assert(upsert_spec(s, f) == stable_sort(updated));
    assert forall|i: int, j: int| 0 <= i < j < updated.len() implies (#[trigger] updated[i]).id != (#[trigger] updated[j]).id by {
        if pos < s.len() {
            if i == pos {
                assert(s[j].id != s[pos as int].id);
            } else if j == pos {
                assert(s[i].id != s[pos as int].id);
            }
        } else {
            if j == s.len() {
                assert(updated[i] == s[i]);
            }
        }
    }
    lemma_stable_sort_ids_distinct(updated);
    lemma_stable_sort_permutes(updated);
    let r = upsert_spec(s, f);
    assert forall|g: FragmentView| #[trigger] r.contains(g) && g.id == f.id implies g == f by {
        let a = choose|a: int| 0 <= a < r.len() && r[a] == g;
        let b = choose|b: int| 0 <= b < r.len() && r[b] == f;
        if a < b {
        } else if b < a {
        }
    }
    assert forall|g: FragmentView| s.contains(g) && g.id != f.id implies #[trigger] r.contains(g) by {
        let q = choose|q: int| 0 <= q < s.len() && s[q] == g;
        assert(q != pos);
        assert(updated[q] == g);
        assert(updated.contains(g));
        assert(updated.to_multiset().count(g) > 0);
    }
    assert forall|g: FragmentView| #[trigger] r.contains(g) && g.id != f.id implies s.contains(g) by {
        assert(r.to_multiset().count(g) > 0);
        assert(updated.contains(g));
        let q = choose|q: int| 0 <= q < updated.len() && updated[q] == g;
        assert(q != pos);
        assert(q < s.len());
        assert(s[q] == g);
    }
}

} // verus!
