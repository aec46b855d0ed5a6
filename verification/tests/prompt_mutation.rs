use agent_core::hook::mutations::{merge_before_agent_start, BeforeAgentStartMutation};
use agent_core::prompt::{FragmentKind, FragmentSource, PromptBuilder, PromptFragment, PromptMutation};

#[test]
fn test_replace_all_short_circuits() {
    let mut builder = PromptBuilder::from_base("Original".into());
    builder.upsert_fragment(PromptFragment {
        id: "ext".into(),
        kind: FragmentKind::Extension,
        source: FragmentSource::Extension { name: "x".into() },
        content: "Extra".into(),
        priority: 10,
    });

    let mutation = PromptMutation {
        replace_all: Some("Replaced".into()),
        ..Default::default()
    };
    builder.apply_mutation(mutation);

    assert_eq!(builder.render(), "Replaced");
}

#[test]
fn test_remove_ids() {
    let mut builder = PromptBuilder::from_base("Base".into());
    builder.upsert_fragment(PromptFragment {
        id: "ext".into(),
        kind: FragmentKind::Extension,
        source: FragmentSource::Extension { name: "x".into() },
        content: "Extra".into(),
        priority: 10,
    });

    let mutation = PromptMutation {
        remove_ids: vec!["ext".into()],
        ..Default::default()
    };
    builder.apply_mutation(mutation);
    assert_eq!(builder.render(), "Base");
}

#[test]
fn test_remove_sources() {
    let mut builder = PromptBuilder::from_base("Base".into());
    builder.upsert_fragment(PromptFragment {
        id: "ext".into(),
        kind: FragmentKind::Extension,
        source: FragmentSource::Extension { name: "x".into() },
        content: "Extra".into(),
        priority: 10,
    });

    let mutation = PromptMutation {
        remove_sources: vec![FragmentSource::Extension { name: "x".into() }],
        ..Default::default()
    };
    builder.apply_mutation(mutation);
    assert_eq!(builder.render(), "Base");
}

#[test]
fn test_remove_kinds() {
    let mut builder = PromptBuilder::from_base("Base".into());
    builder.upsert_fragment(PromptFragment {
        id: "skills".into(),
        kind: FragmentKind::SkillsDirectory,
        source: FragmentSource::SkillsInjector,
        content: "<skills/>".into(),
        priority: 10,
    });

    let mutation = PromptMutation {
        remove_kinds: vec![FragmentKind::SkillsDirectory],
        ..Default::default()
    };
    builder.apply_mutation(mutation);
    assert_eq!(builder.render(), "Base");
}

#[test]
fn test_upsert_fragments() {
    let mut builder = PromptBuilder::from_base("Base".into());

    let mutation = PromptMutation {
        upsert_fragments: vec![PromptFragment {
            id: "safety".into(),
            kind: FragmentKind::SafetyGuard,
            source: FragmentSource::Extension { name: "guard".into() },
            content: "Be safe.".into(),
            priority: -100,
        }],
        ..Default::default()
    };
    builder.apply_mutation(mutation);
    assert_eq!(builder.render(), "Be safe.\nBase");
}

#[test]
fn test_combined_mutation() {
    let mut builder = PromptBuilder::from_base("Base".into());
    builder.upsert_fragment(PromptFragment {
        id: "old-ext".into(),
        kind: FragmentKind::Extension,
        source: FragmentSource::Extension { name: "old".into() },
        content: "Old".into(),
        priority: 10,
    });

    let mutation = PromptMutation {
        remove_ids: vec!["old-ext".into()],
        upsert_fragments: vec![PromptFragment {
            id: "new-ext".into(),
            kind: FragmentKind::Extension,
            source: FragmentSource::Extension { name: "new".into() },
            content: "New".into(),
            priority: 20,
        }],
        ..Default::default()
    };
    builder.apply_mutation(mutation);
    assert_eq!(builder.render(), "Base\nNew");
}

#[test]
fn test_empty_mutation_is_noop() {
    let mut builder = PromptBuilder::from_base("Base".into());
    builder.apply_mutation(PromptMutation::default());
    assert_eq!(builder.render(), "Base");
}

fn ext_fragment(id: &str, content: &str, priority: i16) -> PromptFragment {
    PromptFragment {
        id: id.into(),
        kind: FragmentKind::Extension,
        source: FragmentSource::Extension { name: id.into() },
        content: content.into(),
        priority,
    }
}

#[test]
fn chained_hooks_keep_each_upsert() {
    let mut builder = PromptBuilder::from_base("Base".into());
    let mut messages = Vec::new();
    let m1 = PromptMutation { upsert_fragments: vec![ext_fragment("f1", "One", 10)], ..Default::default() };
    let m2 = PromptMutation { upsert_fragments: vec![ext_fragment("f2", "Two", 20)], ..Default::default() };
    merge_before_agent_start(
        &mut builder,
        &mut messages,
        BeforeAgentStartMutation { system_prompt: None, prompt_mutation: Some(m1), messages: None },
    );
    merge_before_agent_start(
        &mut builder,
        &mut messages,
        BeforeAgentStartMutation { system_prompt: None, prompt_mutation: Some(m2), messages: None },
    );
    assert_eq!(builder.render(), "Base\nOne\nTwo");
}

#[test]
fn oversized_fragment_cut_at_char_boundary() {
    let mut builder = PromptBuilder::from_base("".into());
    builder.remove_by_id("base-persona-0");
    let content = format!("a{}", "é".repeat(128_000));
    builder.upsert_fragment(ext_fragment("big", &content, 10));
    let rendered = builder.render();
    assert_eq!(rendered.len(), 255_999);
    assert!(content.starts_with(&rendered));
    let mut b2 = PromptBuilder::from_base("x".into());
    b2.remove_by_id("base-persona-0");
    b2.upsert_fragment(ext_fragment("big", &"x".repeat(266_000), 10));
    assert_eq!(b2.render().len(), 256_000);
}
