use templater::formatter::Color;
use templater::formatter::Formatter;
use templater::formatter::StyleRules;
use templater::ids::CommitOrChangeId;
use templater::properties::AuthorProperty;
use templater::properties::BranchProperty;
use templater::properties::CommitIdProperty;
use templater::properties::ConflictProperty;
use templater::properties::DescriptionProperty;
use templater::properties::DivergentProperty;
use templater::properties::EmptyProperty;
use templater::properties::GitRefsProperty;
use templater::properties::IsGitHeadProperty;
use templater::properties::IsWorkingCopyProperty;
use templater::properties::SignatureTimestamp;
use templater::properties::TagProperty;
use templater::properties::WorkingCopiesProperty;
use templater::repo::BranchTarget;
use templater::repo::Commit;
use templater::repo::PrefixIndex;
use templater::repo::RefTarget;
use templater::repo::RepoView;
use templater::repo::Signature;
use templater::repo::Timestamp;
use templater::templater::ConditionalTemplate;
use templater::templater::ConstantTemplateProperty;
use templater::templater::Context;
use templater::templater::LabelTemplate;
use templater::templater::LiteralTemplate;
use templater::templater::ListTemplate;
use templater::templater::StringPropertyTemplate;
use templater::templater::Template;
use templater::templater::TemplateFormatter;
use templater::templater::TemplateFunction;
use templater::templater::TemplateProperty;
use templater::templater::Transform;
use templater::templater::Value;
use templater::text::FormattedString;

fn s(text: &str) -> String {
    text.to_string()
}

fn ts() -> Timestamp {
    Timestamp {
        millis_since_epoch: 0,
        tz_offset_minutes: 0,
    }
}

fn sig(name: &str) -> Signature {
    Signature {
        name: s(name),
        email: s("someone@example.com"),
        timestamp: ts(),
    }
}

fn commit(id: Vec<u8>, change_id: Vec<u8>, description: &str) -> Commit {
    Commit {
        id,
        change_id,
        description: s(description),
        author: sig("author"),
        committer: sig("committer"),
        tree_id: vec![9],
        parent_tree_id: vec![9],
        tree_has_conflict: false,
    }
}

fn empty_view() -> RepoView {
    RepoView {
        branches: vec![],
        tags: vec![],
        git_refs: vec![],
        git_head: None,
        wc_commit_ids: vec![],
    }
}

fn sibling_rules() -> StyleRules {
    let mut rules = StyleRules::new();
    rules.set(vec![s("first"), s("second")], Color::Blue);
    rules.set(vec![s("second"), s("first")], Color::Red);
    rules.set(vec![s("second")], Color::Green);
    rules
}

#[test]
fn test_color_formatter_sibling() {
    // A partial match on one rule does not eliminate other rules.
    let input = vec![
        FormattedString::from_text(s(r#"prepend_label("first") => no color"#))
            .prepend_label(s("first")),
        FormattedString::from_text(s(r#"prepend_label("second") => green"#))
            .prepend_label(s("second")),
        FormattedString::from_text(s(r#"prepend_label("first").prepend_label("second") => red"#))
            .prepend_label(s("first"))
            .prepend_label(s("second")),
        FormattedString::from_text(s(r#"prepend_label("second").prepend_label("first") => blue"#))
            .prepend_label(s("second"))
            .prepend_label(s("first")),
    ];
    let mut formatter = Formatter::with_rules(sibling_rules());
    FormattedString::join(input, FormattedString::from_text(s("\n"))).format(&mut formatter);
    let output = formatter.take_output();
    let expected = "prepend_label(\"first\") => no color\n\u{1b}[38;5;2mprepend_label(\"second\") => green\u{1b}[39m\n\u{1b}[38;5;1mprepend_label(\"first\").prepend_label(\"second\") => red\u{1b}[39m\n\u{1b}[38;5;4mprepend_label(\"second\").prepend_label(\"first\") => blue\u{1b}[39m";
    assert_eq!(output, expected);
}

#[test]
fn test_style_resolution_scenario() {
    let rules = sibling_rules();
    assert_eq!(rules.resolve(&vec![s("first")]), None);
    assert_eq!(rules.resolve(&vec![s("second")]), Some(Color::Green));
    assert_eq!(
        rules.resolve(&vec![s("first"), s("second")]),
        Some(Color::Blue)
    );
    assert_eq!(
        rules.resolve(&vec![s("second"), s("first")]),
        Some(Color::Red)
    );
}

#[test]
fn test_style_resolution_prefix_fallback() {
    let mut rules = StyleRules::new();
    rules.set(vec![s("outer")], Color::Cyan);
    // The innermost labels are dropped until a rule matches.
    assert_eq!(
        rules.resolve(&vec![s("outer"), s("inner"), s("deep")]),
        Some(Color::Cyan)
    );
    assert_eq!(rules.resolve(&vec![s("inner")]), None);
    assert_eq!(rules.resolve(&vec![]), None);
}

#[test]
fn test_style_resolution_deterministic() {
    let rules = sibling_rules();
    let stack = vec![s("second"), s("first")];
    let first = rules.resolve(&stack);
    let second = rules.resolve(&stack);
    assert_eq!(first, second);
}

#[test]
fn test_concat_empty_law_on_values() {
    let combos = [("", "", true), ("", "x", false), ("x", "", false), ("x", "y", false)];
    for (a, b, want) in combos {
        let joined = FormattedString::concat(vec![
            FormattedString::from_text(s(a)),
            FormattedString::from_text(s(b)),
        ]);
        assert_eq!(joined.is_empty(), want);
        assert_eq!(
            joined.is_empty(),
            FormattedString::from_text(s(a)).is_empty()
                && FormattedString::from_text(s(b)).is_empty()
        );
    }
}

#[test]
fn test_is_empty_sees_through_labels() {
    let labeled_empty = FormattedString::from_text(s("")).prepend_label(s("x"));
    assert!(labeled_empty.is_empty());
    let labeled_full = FormattedString::from_text(s("t")).prepend_label(s("x"));
    assert!(!labeled_full.is_empty());
}

#[test]
fn test_prepend_label_pair_renders_like_label_node() {
    let mut rules = StyleRules::new();
    rules.set(vec![s("y"), s("x")], Color::Magenta);
    let via_prepend = FormattedString::from_text(s("body"))
        .prepend_label(s("x"))
        .prepend_label(s("y"));
    let direct = FormattedString::Labeled {
        content: Box::new(FormattedString::from_text(s("body"))),
        labels: vec![s("y"), s("x")],
    };
    let mut f1 = Formatter::with_rules(rules);
    via_prepend.format(&mut f1);
    let mut rules2 = StyleRules::new();
    rules2.set(vec![s("y"), s("x")], Color::Magenta);
    let mut f2 = Formatter::with_rules(rules2);
    direct.format(&mut f2);
    let rendered = f1.take_output();
    assert_eq!(rendered, "\u{1b}[38;5;5mbody\u{1b}[39m");
    assert_eq!(rendered, f2.take_output());
}

#[test]
fn test_join_intersperses_separator() {
    let joined = FormattedString::join(
        vec![
            FormattedString::from_text(s("a")),
            FormattedString::from_text(s("b")),
            FormattedString::from_text(s("c")),
        ],
        FormattedString::from_text(s(", ")),
    );
    assert_eq!(joined.to_plain_text(), "a, b, c");
    let single = FormattedString::join(
        vec![FormattedString::from_text(s("only"))],
        FormattedString::from_text(s(", ")),
    );
    assert_eq!(single.to_plain_text(), "only");
    let none = FormattedString::join(vec![], FormattedString::from_text(s(", ")));
    assert_eq!(none.to_plain_text(), "");
}

#[test]
fn test_divergent_detection() {
    let a = vec![1u8];
    let b = vec![2u8];
    let history = vec![a.clone(), b.clone(), b.clone()];
    let property = DivergentProperty::new(&history);
    assert!(property.extract(&commit(vec![10], b.clone(), "")));
    assert!(!property.extract(&commit(vec![11], a.clone(), "")));
}

#[test]
fn test_divergent_empty_history() {
    let property = DivergentProperty::new(&vec![]);
    assert!(!property.extract(&commit(vec![10], vec![1], "")));
}

#[test]
fn test_description_extractor() {
    let property = DescriptionProperty;
    assert_eq!(
        property.extract(&commit(vec![1], vec![1], "")),
        "(no description set)\n"
    );
    assert_eq!(property.extract(&commit(vec![1], vec![1], "hello")), "hello\n");
    assert_eq!(
        property.extract(&commit(vec![1], vec![1], "hello\n")),
        "hello\n"
    );
}

#[test]
fn test_identifier_hex_and_short() {
    let id = CommitOrChangeId::new(vec![0xab, 0xcd, 0xef, 0x01, 0x23, 0x45, 0x67, 0x89]);
    assert_eq!(id.hex(), "abcdef0123456789");
    assert_eq!(id.short(), "abcdef012345");
    let tiny = CommitOrChangeId::new(vec![0x0f]);
    assert_eq!(tiny.hex(), "0f");
    assert_eq!(tiny.short(), "0f");
}

#[test]
fn test_identifier_shortening_brackets() {
    let bytes = vec![0xab, 0xcd, 0xef, 0x01, 0x23, 0x45, 0x67, 0x89];
    let id = CommitOrChangeId::new(bytes.clone());
    let index = PrefixIndex {
        entries: vec![(bytes.clone(), 4)],
    };
    assert_eq!(id.short_prefix_and_brackets(&index), "abcd[ef0123]");
    let index_long = PrefixIndex {
        entries: vec![(bytes.clone(), 10)],
    };
    assert_eq!(id.short_prefix_and_brackets(&index_long), "abcdef012345");
    let index_unknown = PrefixIndex { entries: vec![] };
    assert_eq!(id.short_prefix_and_brackets(&index_unknown), "abcdef012345");
}

fn branch_view(branches: Vec<(String, BranchTarget)>) -> RepoView {
    RepoView {
        branches,
        ..empty_view()
    }
}

#[test]
fn test_branch_rendering_remote_equal_and_diverged() {
    let x = vec![7u8];
    let y = vec![8u8];
    // One remote equal to local: just the branch name, no marker.
    let equal = BranchProperty {
        view: branch_view(vec![(
            s("main"),
            BranchTarget {
                local_target: Some(RefTarget::Normal(x.clone())),
                remote_targets: vec![(s("origin"), RefTarget::Normal(x.clone()))],
            },
        )]),
    };
    let text = equal.extract(&commit(x.clone(), vec![1], ""));
    assert_eq!(text.to_plain_text(), "main");

    // A second remote that differs: the branch name plus a `*` marker
    // labeled `remote diff`.
    let diverged = BranchProperty {
        view: branch_view(vec![(
            s("main"),
            BranchTarget {
                local_target: Some(RefTarget::Normal(x.clone())),
                remote_targets: vec![
                    (s("origin"), RefTarget::Normal(x.clone())),
                    (s("other"), RefTarget::Normal(y.clone())),
                ],
            },
        )]),
    };
    let text = diverged.extract(&commit(x.clone(), vec![1], ""));
    assert_eq!(text.to_plain_text(), "main*");
    let mut rules = StyleRules::new();
    rules.set(vec![s("remote"), s("diff")], Color::Red);
    let mut formatter = Formatter::with_rules(rules);
    let text = diverged.extract(&commit(x.clone(), vec![1], ""));
    text.format(&mut formatter);
    assert_eq!(
        formatter.take_output(),
        "main\u{1b}[38;5;1m*\u{1b}[39m"
    );
}

#[test]
fn test_branch_rendering_remote_only_and_conflict() {
    let x = vec![7u8];
    let property = BranchProperty {
        view: branch_view(vec![(
            s("feature"),
            BranchTarget {
                local_target: None,
                remote_targets: vec![(s("origin"), RefTarget::Normal(x.clone()))],
            },
        )]),
    };
    let text = property.extract(&commit(x.clone(), vec![1], ""));
    assert_eq!(text.to_plain_text(), "feature@origin");

    let conflicted = BranchProperty {
        view: branch_view(vec![(
            s("main"),
            BranchTarget {
                local_target: Some(RefTarget::Conflict {
                    removes: vec![],
                    adds: vec![x.clone(), vec![9u8]],
                }),
                remote_targets: vec![],
            },
        )]),
    };
    let text = conflicted.extract(&commit(x.clone(), vec![1], ""));
    assert_eq!(text.to_plain_text(), "main??");
}

#[test]
fn test_branch_rendering_joins_with_spaces() {
    let x = vec![7u8];
    let property = BranchProperty {
        view: branch_view(vec![
            (
                s("alpha"),
                BranchTarget {
                    local_target: Some(RefTarget::Normal(x.clone())),
                    remote_targets: vec![],
                },
            ),
            (
                s("beta"),
                BranchTarget {
                    local_target: Some(RefTarget::Normal(x.clone())),
                    remote_targets: vec![],
                },
            ),
        ]),
    };
    let text = property.extract(&commit(x.clone(), vec![1], ""));
    assert_eq!(text.to_plain_text(), "alpha beta");
}

#[test]
fn test_tag_and_git_refs_rendering() {
    let x = vec![7u8];
    let view = RepoView {
        tags: vec![
            (s("v1"), RefTarget::Normal(x.clone())),
            (
                s("v2"),
                RefTarget::Conflict {
                    removes: vec![],
                    adds: vec![x.clone(), vec![9u8]],
                },
            ),
            (s("elsewhere"), RefTarget::Normal(vec![9u8])),
        ],
        ..empty_view()
    };
    let tags = TagProperty { view };
    assert_eq!(tags.extract(&commit(x.clone(), vec![1], "")), "v1 v2?");

    let view = RepoView {
        git_refs: vec![(s("refs/heads/main"), RefTarget::Normal(x.clone()))],
        ..empty_view()
    };
    let refs = GitRefsProperty { view };
    assert_eq!(
        refs.extract(&commit(x.clone(), vec![1], "")),
        "refs/heads/main"
    );
}

#[test]
fn test_working_copies_property() {
    let x = vec![7u8];
    let multi = WorkingCopiesProperty {
        view: RepoView {
            wc_commit_ids: vec![
                (s("default"), x.clone()),
                (s("second"), x.clone()),
                (s("third"), vec![9u8]),
            ],
            ..empty_view()
        },
    };
    assert_eq!(multi.extract(&commit(x.clone(), vec![1], "")), "default@ second@");

    let single = WorkingCopiesProperty {
        view: RepoView {
            wc_commit_ids: vec![(s("default"), x.clone())],
            ..empty_view()
        },
    };
    assert_eq!(single.extract(&commit(x.clone(), vec![1], "")), "");
}

#[test]
fn test_is_working_copy_and_git_head() {
    let x = vec![7u8];
    let property = IsWorkingCopyProperty {
        view: RepoView {
            wc_commit_ids: vec![(s("default"), x.clone())],
            ..empty_view()
        },
        workspace_id: s("default"),
    };
    assert!(property.extract(&commit(x.clone(), vec![1], "")));
    assert!(!property.extract(&commit(vec![9], vec![1], "")));

    let head = IsGitHeadProperty::new(RepoView {
        git_head: Some(x.clone()),
        ..empty_view()
    });
    assert!(head.extract(&commit(x.clone(), vec![1], "")));
    assert!(!head.extract(&commit(vec![9], vec![1], "")));
}

#[test]
fn test_conflict_and_empty_properties() {
    let mut c = commit(vec![1], vec![1], "");
    assert!(!ConflictProperty.extract(&c));
    c.tree_has_conflict = true;
    assert!(ConflictProperty.extract(&c));

    let mut c = commit(vec![1], vec![1], "");
    assert!(EmptyProperty.extract(&c));
    c.tree_id = vec![1, 2];
    assert!(!EmptyProperty.extract(&c));
}

#[test]
fn test_template_formatter_literal_and_conditional() {
    let template = Template::List(ListTemplate(vec![
        Template::Literal(LiteralTemplate(s("commit: "))),
        Template::Conditional(ConditionalTemplate::new(
            TemplateProperty::Conflict(ConflictProperty),
            Box::new(Template::Literal(LiteralTemplate(s("conflict")))),
            Some(Box::new(Template::Literal(LiteralTemplate(s("clean"))))),
        )),
    ]));
    let mut tf = TemplateFormatter::new(template, Formatter::new_plain());
    tf.format(&Context::Commit(commit(vec![1], vec![1], "")));
    let mut c = commit(vec![1], vec![1], "");
    c.tree_has_conflict = true;
    tf.format(&Context::Commit(c));
    assert_eq!(
        tf.into_formatter().take_output(),
        "commit: cleancommit: conflict"
    );
}

#[test]
fn test_label_template_styles_content() {
    let mut rules = StyleRules::new();
    rules.set(vec![s("heading")], Color::Yellow);
    let template = Template::Label(LabelTemplate::new(
        Box::new(Template::Literal(LiteralTemplate(s("title")))),
        vec![s("heading")],
    ));
    let mut formatter = Formatter::with_rules(rules);
    template.format(&Context::Unit, &mut formatter);
    assert_eq!(formatter.take_output(), "\u{1b}[38;5;3mtitle\u{1b}[39m");
}

#[test]
fn test_string_property_template_writes_description() {
    let template = Template::StringProperty(StringPropertyTemplate {
        property: TemplateProperty::Description(DescriptionProperty),
    });
    let mut formatter = Formatter::new_plain();
    template.format(
        &Context::Commit(commit(vec![1], vec![1], "subject")),
        &mut formatter,
    );
    assert_eq!(formatter.take_output(), "subject\n");
}

#[test]
fn test_template_function_composes_author_timestamp() {
    let when = Timestamp {
        millis_since_epoch: 1234,
        tz_offset_minutes: 60,
    };
    let mut c = commit(vec![1], vec![1], "");
    c.author.timestamp = when;
    let function = TemplateFunction::new(
        Box::new(TemplateProperty::Author(AuthorProperty)),
        Transform::SignatureTimestamp(SignatureTimestamp),
    );
    let property = TemplateProperty::Function(Box::new(function));
    let value = property.extract(&Context::Commit(c));
    match value {
        Value::Timestamp(got) => assert_eq!(got, when),
        other => panic!("expected a timestamp value, got {:?}", other),
    }
}

#[test]
fn test_constant_property_and_commit_id() {
    let constant = TemplateProperty::Constant(ConstantTemplateProperty {
        output: Value::Str(s("fixed")),
    });
    match constant.extract(&Context::Unit) {
        Value::Str(text) => assert_eq!(text, "fixed"),
        other => panic!("expected a string value, got {:?}", other),
    }
    let id = CommitIdProperty.extract(&commit(vec![0xab], vec![1], ""));
    assert_eq!(id.hex(), "ab");
}

#[test]
fn test_to_template_renders_identically() {
    let text = FormattedString::concat(vec![
        FormattedString::from_text(s("one ")).prepend_label(s("second")),
        FormattedString::from_text(s("two")),
    ]);
    let mut direct = Formatter::with_rules(sibling_rules());
    text.format(&mut direct);
    let via_template = text.to_template();
    let mut converted = Formatter::with_rules(sibling_rules());
    via_template.format(&Context::Unit, &mut converted);
    assert_eq!(direct.take_output(), converted.take_output());
}

#[test]
fn test_ref_target_equality_and_queries() {
    let x = vec![7u8];
    let y = vec![8u8];
    assert!(RefTarget::Normal(x.clone()) == RefTarget::Normal(x.clone()));
    assert!(RefTarget::Normal(x.clone()) != RefTarget::Normal(y.clone()));
    let conflict = RefTarget::Conflict {
        removes: vec![x.clone()],
        adds: vec![y.clone(), x.clone()],
    };
    assert!(conflict.is_conflict());
    assert!(!RefTarget::Normal(x.clone()).is_conflict());
    assert!(conflict.has_add(&x));
    assert!(RefTarget::Normal(x.clone()).has_add(&x));
    assert!(!RefTarget::Normal(y.clone()).has_add(&x));
}
