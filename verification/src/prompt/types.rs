//! Fragment types of the prompt builder.
use vstd::prelude::*;

verus! {

/// Semantic category of a prompt fragment.
#[derive(Debug, Clone, Copy, PartialEq, Eq, Hash, Structural)]
pub enum FragmentKind {
    /// Core persona / role definition.
    BasePersona,
    /// Tenant-specific metadata (name, plan, region).
    TenantContext,
    /// The `<available_skills>` XML directory block.
    SkillsDirectory,
    /// Full content of an invoked skill.
    SkillBody,
    /// Dynamic injections from the steer queue or compaction.
    RuntimeInjection,
    /// Generic contribution from an extension.
    Extension,
    /// Hard safety constraints.
    SafetyGuard,
}

/// Origin of a prompt fragment, for observability and conflict resolution.
#[derive(Debug, PartialEq, Eq, Hash)]
pub enum FragmentSource {
    TenantDefault,
    SessionParam,
    SkillsInjector,
    Extension { name: String },
    CompactionSummary,
    System,
}

/// Abstract value of a fragment source.
pub enum SourceView {
    TenantDefault,
    SessionParam,
    SkillsInjector,
    Extension { name: Seq<char> },
    CompactionSummary,
    System,
}

impl View for FragmentSource {
    type V = SourceView;

    open spec fn view(&self) -> SourceView {
        match self {
            FragmentSource::TenantDefault => SourceView::TenantDefault,
            FragmentSource::SessionParam => SourceView::SessionParam,
            FragmentSource::SkillsInjector => SourceView::SkillsInjector,
            FragmentSource::Extension { name } => SourceView::Extension { name: name@ },
            FragmentSource::CompactionSummary => SourceView::CompactionSummary,
            FragmentSource::System => SourceView::System,
        }
    }
}

impl Clone for FragmentSource {
    fn clone(&self) -> (r: Self)
        ensures
            r@ == self@,
    {
        match self {
            FragmentSource::TenantDefault => FragmentSource::TenantDefault,
            FragmentSource::SessionParam => FragmentSource::SessionParam,
            FragmentSource::SkillsInjector => FragmentSource::SkillsInjector,
            FragmentSource::Extension { name } => FragmentSource::Extension { name: name.clone() },
            FragmentSource::CompactionSummary => FragmentSource::CompactionSummary,
            FragmentSource::System => FragmentSource::System,
        }
    }
}

impl FragmentSource {
    /// Whether two sources denote the same origin.
    pub fn same_as(&self, other: &FragmentSource) -> (b: bool)
        ensures
            b == (self@ == other@),
    {
        match (self, other) {
            (FragmentSource::TenantDefault, FragmentSource::TenantDefault) => true,
            (FragmentSource::SessionParam, FragmentSource::SessionParam) => true,
            (FragmentSource::SkillsInjector, FragmentSource::SkillsInjector) => true,
            (FragmentSource::Extension { name: a }, FragmentSource::Extension { name: b }) => {
                crate::text::str_eq(a.as_str(), b.as_str())
            },
            (FragmentSource::CompactionSummary, FragmentSource::CompactionSummary) => true,
            (FragmentSource::System, FragmentSource::System) => true,
            _ => false,
        }
    }
}

/// A semantic segment of the system prompt.
#[derive(Debug, PartialEq, Eq)]
pub struct PromptFragment {
    /// Unique identifier within a builder instance.
    pub id: String,
    /// Semantic category of this fragment.
    pub kind: FragmentKind,
    /// Origin of this fragment.
    pub source: FragmentSource,
    /// Raw text content.
    pub content: String,
    /// Sort priority. Lower values appear earlier in rendered output.
    pub priority: i16,
}

/// Abstract value of a fragment.
pub struct FragmentView {
    pub id: Seq<char>,
    pub kind: FragmentKind,
    pub source: SourceView,
    pub content: Seq<char>,
    pub priority: i16,
}

impl View for PromptFragment {
    type V = FragmentView;

    open spec fn view(&self) -> FragmentView {
        FragmentView {
            id: self.id@,
            kind: self.kind,
            source: self.source@,
            content: self.content@,
            priority: self.priority,
        }
    }
}

impl Clone for PromptFragment {
    fn clone(&self) -> (r: Self)
        ensures
            r@ == self@,
    {
        PromptFragment {
            id: self.id.clone(),
            kind: self.kind,
            source: self.source.clone(),
            content: self.content.clone(),
            priority: self.priority,
        }
    }
}

/// Abstract value of a list of fragments.
pub open spec fn fragments_view(v: Seq<PromptFragment>) -> Seq<FragmentView> {
    v.map_values(|f: PromptFragment| f@)
}

/// Metadata for a single rendered fragment.
#[derive(Debug)]
pub struct RenderedFragment {
    pub id: String,
    pub kind: FragmentKind,
    pub source: FragmentSource,
    pub byte_offset: usize,
    pub byte_len: usize,
    pub estimated_tokens: usize,
}

/// Abstract value of a rendered fragment's metadata.
pub struct RenderedFragmentView {
    pub id: Seq<char>,
    pub kind: FragmentKind,
    pub source: SourceView,
    pub byte_offset: nat,
    pub byte_len: nat,
    pub estimated_tokens: nat,
}

impl View for RenderedFragment {
    type V = RenderedFragmentView;

    open spec fn view(&self) -> RenderedFragmentView {
        RenderedFragmentView {
            id: self.id@,
            kind: self.kind,
            source: self.source@,
            byte_offset: self.byte_offset as nat,
            byte_len: self.byte_len as nat,
            estimated_tokens: self.estimated_tokens as nat,
        }
    }
}

/// Rendered prompt with per-fragment metadata.
#[derive(Debug)]
pub struct RenderedPrompt {
    pub text: String,
    pub fragments: Vec<RenderedFragment>,
}

/// Abstract value of a rendered prompt.
pub struct RenderedPromptView {
    pub text: Seq<char>,
    pub fragments: Seq<RenderedFragmentView>,
}

impl View for RenderedPrompt {
    type V = RenderedPromptView;

    open spec fn view(&self) -> RenderedPromptView {
        RenderedPromptView {
            text: self.text@,
            fragments: self.fragments@.map_values(|f: RenderedFragment| f@),
        }
    }
}

} // verus!
