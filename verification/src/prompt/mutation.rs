//! Declarative modifications of a prompt builder.
use vstd::prelude::*;

use super::builder::{
    base_fragment, remove_id_spec, sorted_by_priority, truncated, upsert_spec,
    without_kind, without_source, PromptBuilder,
};
use super::types::{
    fragments_view, FragmentKind, FragmentSource, FragmentView, PromptFragment, SourceView,
};

verus! {

/// Auxiliary descriptor for modifying a PromptBuilder.
#[derive(Debug)]
pub struct PromptMutation {
    /// Replace the entire prompt with a single string.
    /// When present, all other fields are ignored and the builder is
    /// reset to a single BasePersona fragment.
    pub replace_all: Option<String>,
    /// Remove fragments by id.
    pub remove_ids: Vec<String>,
    /// Remove fragments by source.
    pub remove_sources: Vec<FragmentSource>,
    /// Remove fragments by kind.
    pub remove_kinds: Vec<FragmentKind>,
    /// Fragments to upsert.
    pub upsert_fragments: Vec<PromptFragment>,
}

impl Default for PromptMutation {
    fn default() -> (r: Self)
        ensures
            r.replace_all is None,
            r.remove_ids@.len() == 0,
            r.remove_sources@.len() == 0,
            r.remove_kinds@.len() == 0,
            r.upsert_fragments@.len() == 0,
    {
        PromptMutation {
            replace_all: None,
            remove_ids: Vec::new(),
            remove_sources: Vec::new(),
            remove_kinds: Vec::new(),
            upsert_fragments: Vec::new(),
        }
    }
}

/// Removal of each id in turn.
pub open spec fn remove_ids_spec(s: Seq<FragmentView>, ids: Seq<Seq<char>>) -> Seq<FragmentView>
    decreases ids.len(),
{
    if ids.len() == 0 {
        s
    } else {
        remove_id_spec(remove_ids_spec(s, ids.drop_last()), ids.last())
    }
}

/// Removal of each source in turn.
pub open spec fn remove_sources_spec(s: Seq<FragmentView>, srcs: Seq<SourceView>) -> Seq<
    FragmentView,
>
    decreases srcs.len(),
{
    if srcs.len() == 0 {
        s
    } else {
        without_source(remove_sources_spec(s, srcs.drop_last()), srcs.last())
    }
}

/// Removal of each kind in turn.
pub open spec fn remove_kinds_spec(s: Seq<FragmentView>, kinds: Seq<FragmentKind>) -> Seq<
    FragmentView,
>
    decreases kinds.len(),
{
    if kinds.len() == 0 {
        s
    } else {
        without_kind(remove_kinds_spec(s, kinds.drop_last()), kinds.last())
    }
}

/// Upsert of each fragment in turn (contents cut to the byte limit).
pub open spec fn upserts_spec(s: Seq<FragmentView>, fs: Seq<FragmentView>) -> Seq<FragmentView>
    decreases fs.len(),
{
    if fs.len() == 0 {
        s
    } else {
        upsert_spec(upserts_spec(s, fs.drop_last()), truncated(fs.last()))
    }
}

/// The fragments a mutation leaves: the replacement alone, or the removals
/// (ids, then sources, then kinds) followed by the upserts.
pub open spec fn apply_mutation_spec(s: Seq<FragmentView>, m: PromptMutation) -> Seq<FragmentView> {
    match m.replace_all {
        Some(text) => seq![base_fragment(text@)],
        None => upserts_spec(
            remove_kinds_spec(
                remove_sources_spec(
                    remove_ids_spec(s, m.remove_ids@.map_values(|x: String| x@)),
                    m.remove_sources@.map_values(|x: FragmentSource| x@),
                ),
                m.remove_kinds@,
            ),
            fragments_view(m.upsert_fragments@),
        ),
    }
}

impl PromptBuilder {
    /// Apply a PromptMutation to this builder.
    /// Order: replace_all (short-circuit), remove_ids, remove_sources,
    /// remove_kinds, upsert_fragments.
    pub fn apply_mutation(&mut self, mutation: PromptMutation)
        ensures
            final(self)@ == apply_mutation_spec(old(self)@, mutation),
            old(self).wf() ==> final(self).wf(),
    {
        let PromptMutation { replace_all, remove_ids, remove_sources, remove_kinds, upsert_fragments } =
            mutation;
        if let Some(text) = replace_all {
            *self = PromptBuilder::from_base(text);
            return ;
        }
        let ghost s0 = self@;
        let ghost wf0 = old(self).wf();
        let n = remove_ids.len();
        for i in 0..n
            invariant
                n == remove_ids@.len(),
                self@ == remove_ids_spec(s0, remove_ids@.map_values(|x: String| x@).take(i as int)),
                wf0 ==> self.wf(),
        {
            proof {
                assert(remove_ids@.map_values(|x: String| x@).take(i + 1).drop_last()
                    =~= remove_ids@.map_values(|x: String| x@).take(i as int));
            }
            self.remove_by_id(remove_ids[i].as_str());
        }
        proof {
            assert(remove_ids@.map_values(|x: String| x@).take(n as int) =~= remove_ids@.map_values(
                |x: String| x@,
            ));
        }
        let ghost s1 = self@;
        let n = remove_sources.len();
        for i in 0..n
            invariant
                n == remove_sources@.len(),
                self@ == remove_sources_spec(
                    s1,
                    remove_sources@.map_values(|x: FragmentSource| x@).take(i as int),
                ),
                wf0 ==> self.wf(),
        {
            proof {
                assert(remove_sources@.map_values(|x: FragmentSource| x@).take(i + 1).drop_last()
                    =~= remove_sources@.map_values(|x: FragmentSource| x@).take(i as int));
            }
            self.remove_by_source(&remove_sources[i]);
        }
        proof {
            assert(remove_sources@.map_values(|x: FragmentSource| x@).take(n as int)
                =~= remove_sources@.map_values(|x: FragmentSource| x@));
        }
        let ghost s2 = self@;
        let n = remove_kinds.len();
        for i in 0..n
            invariant
                n == remove_kinds@.len(),
                self@ == remove_kinds_spec(s2, remove_kinds@.take(i as int)),
                wf0 ==> self.wf(),
        {
            proof {
                assert(remove_kinds@.take(i + 1).drop_last() =~= remove_kinds@.take(i as int));
            }
            self.remove_by_kind(&remove_kinds[i]);
        }
        proof {
            assert(remove_kinds@.take(n as int) =~= remove_kinds@);
        }
        let ghost s3 = self@;
        let ghost ups = fragments_view(upsert_fragments@);
        let n = upsert_fragments.len();
        for f in it: upsert_fragments
            invariant
                n == ups.len(),
                it.seq() == upsert_fragments@,
                ups == fragments_view(upsert_fragments@),
                self@ == upserts_spec(s3, ups.take(it.index() as int)),
                wf0 ==> self.wf(),
        {
            proof {
                let i = it.index() as int;
                assert(f@ == ups[i]);
                assert(ups.take(i + 1).drop_last() =~= ups.take(i));
            }
            self.upsert_fragment(f);
        }
        proof {
            assert(ups.take(n as int) =~= ups);
        }
    }
}

impl From<String> for PromptBuilder {
    fn from(s: String) -> (r: Self)
        ensures
            r@ == seq![base_fragment(s@)],
    {
        PromptBuilder::from_base(s)
    }
}

/// Law: a mutation that replaces nothing, removes nothing and upserts
/// nothing leaves every builder unchanged.
pub proof fn law_empty_mutation_is_noop(s: Seq<FragmentView>, m: PromptMutation)
    requires
        m.replace_all is None,
        m.remove_ids@.len() == 0,
        m.remove_sources@.len() == 0,
        m.remove_kinds@.len() == 0,
        m.upsert_fragments@.len() == 0,
    ensures
        apply_mutation_spec(s, m) == s,
{
    assert(m.remove_ids@.map_values(|x: String| x@).len() == 0);
    assert(m.remove_sources@.map_values(|x: FragmentSource| x@).len() == 0);
    assert(fragments_view(m.upsert_fragments@).len() == 0);
}

impl vstd::std_specs::convert::FromSpecImpl<String> for PromptBuilder {
    open spec fn obeys_from_spec() -> bool {
        false
    }

    open spec fn from_spec(v: String) -> Self {
        vstd::pervasive::arbitrary()
    }
}

impl From<&str> for PromptBuilder {
    fn from(s: &str) -> (r: Self)
        ensures
            r@ == seq![base_fragment(s@)],
    {
        PromptBuilder::from_base(s.to_owned())
    }
}

impl vstd::std_specs::convert::FromSpecImpl<&str> for PromptBuilder {
    open spec fn obeys_from_spec() -> bool {
        false
    }

    open spec fn from_spec(v: &str) -> Self {
        vstd::pervasive::arbitrary()
    }
}

} // verus!
