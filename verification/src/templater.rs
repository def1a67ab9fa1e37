//! The template composition algebra: renderer nodes that consume a context
//! and drive the output sink.
//!
//! Templates and properties are closed sums: each variant holds its owned
//! children, and one recursive render function dispatches on the variant.

use vstd::prelude::*;
use crate::formatter::Color;
use crate::formatter::Formatter;
use crate::formatter::styled_leaf;
use crate::formatter::styled_list;
use crate::formatter::styled_text;
use crate::ids::CommitOrChangeId;
use crate::ids::hex_seq;
use crate::ids::highlighted;
use crate::ids::truncated;
use crate::properties::AuthorProperty;
use crate::properties::BranchProperty;
use crate::properties::ChangeIdProperty;
use crate::properties::CommitIdProperty;
use crate::properties::CommitOrChangeIdShort;
use crate::properties::CommitOrChangeIdShortPrefixAndBrackets;
use crate::properties::CommitterProperty;
use crate::properties::ConflictProperty;
use crate::properties::DescriptionProperty;
use crate::properties::DivergentProperty;
use crate::properties::EmptyProperty;
use crate::properties::GitRefsProperty;
use crate::properties::IsGitHeadProperty;
use crate::properties::IsWorkingCopyProperty;
use crate::properties::SignatureTimestamp;
use crate::properties::TagProperty;
use crate::properties::WorkingCopiesProperty;
use crate::properties::branches_text;
use crate::properties::description_text;
use crate::properties::join_space;
use crate::properties::ref_names;
use crate::properties::wc_lookup;
use crate::properties::working_copies_text;
use crate::repo::Commit;
use crate::repo::SigView;
use crate::repo::Signature;
use crate::repo::Timestamp;
use crate::repo::id_in;
use crate::repo::prefix_lookup;
use crate::text::FormattedString;
use crate::text::FtView;
use crate::text::labels_view;

verus! {

/// The value a template or property is evaluated against.
#[derive(Debug)]
pub enum Context {
    Unit,
    Commit(Commit),
    Signature(Signature),
    Id(CommitOrChangeId),
}

/// A value that a property extractor can produce.
#[derive(Debug)]
pub enum Value {
    Str(String),
    Bool(bool),
    Signature(Signature),
    Timestamp(Timestamp),
    Id(CommitOrChangeId),
    Text(FormattedString),
}

/// The model of a `Value`.
#[verifier::ext_equal]
pub enum ValueView {
    Str(Seq<char>),
    Bool(bool),
    Signature(SigView),
    Timestamp(Timestamp),
    Id(Seq<u8>),
    Text(FtView),
}

impl View for Value {
    type V = ValueView;

    open spec fn view(&self) -> ValueView {
        match self {
            Value::Str(s) => ValueView::Str(s@),
            Value::Bool(b) => ValueView::Bool(*b),
            Value::Signature(s) => ValueView::Signature(s@),
            Value::Timestamp(t) => ValueView::Timestamp(*t),
            Value::Id(i) => ValueView::Id(i@),
            Value::Text(t) => ValueView::Text(t@),
        }
    }
}

/// The string a value renders as: only strings carry text.
pub open spec fn value_str(v: ValueView) -> Seq<char> {
    match v {
        ValueView::Str(s) => s,
        _ => Seq::empty(),
    }
}

/// The condition a value decides: only a true boolean is true.
pub open spec fn value_bool(v: ValueView) -> bool {
    match v {
        ValueView::Bool(b) => b,
        _ => false,
    }
}

/// The formatted text a value renders as: anything else is empty text.
pub open spec fn value_text(v: ValueView) -> FtView {
    match v {
        ValueView::Text(t) => t,
        _ => FtView::Plain(Seq::empty()),
    }
}

/// The neutral value extractors return on a context of the wrong kind.
pub open spec fn neutral_value() -> ValueView {
    ValueView::Str(Seq::empty())
}

fn clone_value(v: &Value) -> (r: Value)
    ensures
        r@ == v@,
{
    match v {
        Value::Str(s) => Value::Str(s.clone()),
        Value::Bool(b) => Value::Bool(*b),
        Value::Signature(s) => Value::Signature(s.clone()),
        Value::Timestamp(t) => Value::Timestamp(*t),
        Value::Id(i) => Value::Id(i.clone()),
        Value::Text(t) => Value::Text(t.clone()),
    }
}

fn value_to_bool(v: &Value) -> (r: bool)
    ensures
        r == value_bool(v@),
{
    match v {
        Value::Bool(b) => *b,
        _ => false,
    }
}

/// Supplies a fixed value regardless of context.
#[derive(Debug)]
pub struct ConstantTemplateProperty {
    pub output: Value,
}

/// A pure transform applied to an extracted value.
#[derive(Debug)]
pub enum Transform {
    SignatureTimestamp(SignatureTimestamp),
}

/// What a transform turns a value into.
pub open spec fn transform_spec(t: Transform, v: ValueView) -> ValueView {
    match t {
        Transform::SignatureTimestamp(_) => match v {
            ValueView::Signature(s) => ValueView::Timestamp(s.timestamp),
            _ => neutral_value(),
        },
    }
}

fn apply_transform(t: &Transform, v: Value) -> (r: Value)
    ensures
        r@ == transform_spec(*t, v@),
{
    match t {
        Transform::SignatureTimestamp(st) => match v {
            Value::Signature(s) => Value::Timestamp(st.extract(&s)),
            _ => Value::Str(String::new()),
        },
    }
}

/// Composes an inner property with a pure transform of its value.
#[derive(Debug)]
pub struct TemplateFunction {
    pub property: Box<TemplateProperty>,
    pub function: Transform,
}

impl TemplateFunction {
    pub fn new(property: Box<TemplateProperty>, function: Transform) -> (r: Self)
        ensures
            r == (TemplateFunction { property, function }),
    {
        TemplateFunction { property, function }
    }
}

/// A property extractor: a capability from a context to a value, one
/// variant per extractor.
#[derive(Debug)]
pub enum TemplateProperty {
    Constant(ConstantTemplateProperty),
    Description(DescriptionProperty),
    Author(AuthorProperty),
    Committer(CommitterProperty),
    WorkingCopies(WorkingCopiesProperty),
    IsWorkingCopy(IsWorkingCopyProperty),
    Branch(BranchProperty),
    Tag(TagProperty),
    GitRefs(GitRefsProperty),
    IsGitHead(IsGitHeadProperty),
    Divergent(DivergentProperty),
    Conflict(ConflictProperty),
    Empty(EmptyProperty),
    CommitId(CommitIdProperty),
    ChangeId(ChangeIdProperty),
    IdShort(CommitOrChangeIdShort),
    IdShortPrefixAndBrackets(CommitOrChangeIdShortPrefixAndBrackets),
    SignatureTimestamp(SignatureTimestamp),
    Function(Box<TemplateFunction>),
}

/// What each property extracts from each context: its typed result, or the
/// neutral value when the context is not of the kind it reads.
pub open spec fn extract_spec(p: TemplateProperty, ctx: Context) -> ValueView
    decreases p,
{
    match p {
        TemplateProperty::Constant(c) => c.output@,
        TemplateProperty::Description(_) => match ctx {
            Context::Commit(c) => ValueView::Str(description_text(c)),
            _ => neutral_value(),
        },
        TemplateProperty::Author(_) => match ctx {
            Context::Commit(c) => ValueView::Signature(c.author@),
            _ => neutral_value(),
        },
        TemplateProperty::Committer(_) => match ctx {
            Context::Commit(c) => ValueView::Signature(c.committer@),
            _ => neutral_value(),
        },
        TemplateProperty::WorkingCopies(p) => match ctx {
            Context::Commit(c) => ValueView::Str(working_copies_text(p.view, c)),
            _ => neutral_value(),
        },
        TemplateProperty::IsWorkingCopy(p) => match ctx {
            Context::Commit(c) => ValueView::Bool(
                wc_lookup(p.view.wc_commit_ids@, p.workspace_id@) == Some(c.id@),
            ),
            _ => ValueView::Bool(false),
        },
        TemplateProperty::Branch(p) => match ctx {
            Context::Commit(c) => ValueView::Text(branches_text(p.view, c)),
            _ => neutral_value(),
        },
        TemplateProperty::Tag(p) => match ctx {
            Context::Commit(c) => ValueView::Str(join_space(ref_names(p.view.tags@, c.id@))),
            _ => neutral_value(),
        },
        TemplateProperty::GitRefs(p) => match ctx {
            Context::Commit(c) => ValueView::Str(join_space(ref_names(p.view.git_refs@, c.id@))),
            _ => neutral_value(),
        },
        TemplateProperty::IsGitHead(p) => match ctx {
            Context::Commit(c) => ValueView::Bool(
                match p.view.git_head {
                    Some(h) => h@ == c.id@,
                    None => false,
                },
            ),
            _ => ValueView::Bool(false),
        },
        TemplateProperty::Divergent(d) => match ctx {
            Context::Commit(c) => ValueView::Bool(id_in(d.divergent_set(), c.change_id@)),
            _ => ValueView::Bool(false),
        },
        TemplateProperty::Conflict(_) => match ctx {
            Context::Commit(c) => ValueView::Bool(c.tree_has_conflict),
            _ => ValueView::Bool(false),
        },
        TemplateProperty::Empty(_) => match ctx {
            Context::Commit(c) => ValueView::Bool(c.tree_id@ == c.parent_tree_id@),
            _ => ValueView::Bool(false),
        },
        TemplateProperty::CommitId(_) => match ctx {
            Context::Commit(c) => ValueView::Id(c.id@),
            _ => neutral_value(),
        },
        TemplateProperty::ChangeId(_) => match ctx {
            Context::Commit(c) => ValueView::Id(c.change_id@),
            _ => neutral_value(),
        },
        TemplateProperty::IdShort(_) => match ctx {
            Context::Id(i) => ValueView::Str(truncated(hex_seq(i@), 12)),
            _ => neutral_value(),
        },
        TemplateProperty::IdShortPrefixAndBrackets(p) => match ctx {
            Context::Id(i) => ValueView::Str(
                highlighted(hex_seq(i@), prefix_lookup(p.index.entries@, i@), 12),
            ),
            _ => neutral_value(),
        },
        TemplateProperty::SignatureTimestamp(_) => match ctx {
            Context::Signature(s) => ValueView::Timestamp(s.timestamp),
            _ => neutral_value(),
        },
        TemplateProperty::Function(f) => transform_spec(
            f.function,
            extract_spec(*f.property, ctx),
        ),
    }
}

impl TemplateProperty {
    /// Extracts this property's value from the context.
    pub fn extract(&self, context: &Context) -> (r: Value)
        ensures
            r@ == extract_spec(*self, *context),
        decreases *self,
    {
        match self {
            TemplateProperty::Constant(c) => clone_value(&c.output),
            TemplateProperty::Description(p) => match context {
                Context::Commit(c) => Value::Str(p.extract(c)),
                _ => Value::Str(String::new()),
            },
            TemplateProperty::Author(p) => match context {
                Context::Commit(c) => Value::Signature(p.extract(c)),
                _ => Value::Str(String::new()),
            },
            TemplateProperty::Committer(p) => match context {
                Context::Commit(c) => Value::Signature(p.extract(c)),
                _ => Value::Str(String::new()),
            },
            TemplateProperty::WorkingCopies(p) => match context {
                Context::Commit(c) => Value::Str(p.extract(c)),
                _ => Value::Str(String::new()),
            },
            TemplateProperty::IsWorkingCopy(p) => match context {
                Context::Commit(c) => Value::Bool(p.extract(c)),
                _ => Value::Bool(false),
            },
            TemplateProperty::Branch(p) => match context {
                Context::Commit(c) => Value::Text(p.extract(c)),
                _ => Value::Str(String::new()),
            },
            TemplateProperty::Tag(p) => match context {
                Context::Commit(c) => Value::Str(p.extract(c)),
                _ => Value::Str(String::new()),
            },
            TemplateProperty::GitRefs(p) => match context {
                Context::Commit(c) => Value::Str(p.extract(c)),
                _ => Value::Str(String::new()),
            },
            TemplateProperty::IsGitHead(p) => match context {
                Context::Commit(c) => Value::Bool(p.extract(c)),
                _ => Value::Bool(false),
            },
            TemplateProperty::Divergent(d) => match context {
                Context::Commit(c) => Value::Bool(d.extract(c)),
                _ => Value::Bool(false),
            },
            TemplateProperty::Conflict(p) => match context {
                Context::Commit(c) => Value::Bool(p.extract(c)),
                _ => Value::Bool(false),
            },
            TemplateProperty::Empty(p) => match context {
                Context::Commit(c) => Value::Bool(p.extract(c)),
                _ => Value::Bool(false),
            },
            TemplateProperty::CommitId(p) => match context {
                Context::Commit(c) => Value::Id(p.extract(c)),
                _ => Value::Str(String::new()),
            },
            TemplateProperty::ChangeId(p) => match context {
                Context::Commit(c) => Value::Id(p.extract(c)),
                _ => Value::Str(String::new()),
            },
            TemplateProperty::IdShort(p) => match context {
                Context::Id(i) => Value::Str(p.extract(i)),
                _ => Value::Str(String::new()),
            },
            TemplateProperty::IdShortPrefixAndBrackets(p) => match context {
                Context::Id(i) => Value::Str(p.extract(i)),
                _ => Value::Str(String::new()),
            },
            TemplateProperty::SignatureTimestamp(p) => match context {
                Context::Signature(s) => Value::Timestamp(p.extract(s)),
                _ => Value::Str(String::new()),
            },
            TemplateProperty::Function(f) => {
                let inner = f.property.extract(context);
                apply_transform(&f.function, inner)
            },
        }
    }
}

/// The labels a dynamic-label node computes from the context.
#[derive(Debug)]
pub enum LabelsProperty {
    Constant(Vec<String>),
    Conditional {
        condition: Box<TemplateProperty>,
        true_labels: Vec<String>,
        false_labels: Vec<String>,
    },
}

/// What labels a labels property yields for a context.
pub open spec fn labels_of(lp: LabelsProperty, ctx: Context) -> Seq<Seq<char>> {
    match lp {
        LabelsProperty::Constant(ls) => labels_view(ls@),
        LabelsProperty::Conditional { condition, true_labels, false_labels } => if value_bool(
            extract_spec(*condition, ctx),
        ) {
            labels_view(true_labels@)
        } else {
            labels_view(false_labels@)
        },
    }
}

/// Writes fixed text, ignoring the context.
#[derive(Debug)]
pub struct LiteralTemplate(pub String);

/// Renders its content inside a fixed list of labels, outermost first.
#[derive(Debug)]
pub struct LabelTemplate {
    pub content: Box<Template>,
    pub labels: Vec<String>,
}

impl LabelTemplate {
    pub fn new(content: Box<Template>, labels: Vec<String>) -> (r: Self)
        ensures
            r == (LabelTemplate { content, labels }),
    {
        LabelTemplate { content, labels }
    }
}

/// Renders its content inside labels computed from the context.
#[derive(Debug)]
pub struct DynamicLabelTemplate {
    pub content: Box<Template>,
    pub label_property: LabelsProperty,
}

impl DynamicLabelTemplate {
    pub fn new(content: Box<Template>, label_property: LabelsProperty) -> (r: Self)
        ensures
            r == (DynamicLabelTemplate { content, label_property }),
    {
        DynamicLabelTemplate { content, label_property }
    }
}

/// Renders each template in order.
#[derive(Debug)]
pub struct ListTemplate(pub Vec<Template>);

/// Evaluates a boolean property once and renders exactly one branch.
#[derive(Debug)]
pub struct ConditionalTemplate {
    pub condition: TemplateProperty,
    pub true_template: Box<Template>,
    pub false_template: Option<Box<Template>>,
}

impl ConditionalTemplate {
    pub fn new(
        condition: TemplateProperty,
        true_template: Box<Template>,
        false_template: Option<Box<Template>>,
    ) -> (r: Self)
        ensures
            r == (ConditionalTemplate { condition, true_template, false_template }),
    {
        ConditionalTemplate { condition, true_template, false_template }
    }
}

/// Writes the string a property extracts.
#[derive(Debug)]
pub struct StringPropertyTemplate {
    pub property: TemplateProperty,
}

/// Renders the formatted text a property extracts.
#[derive(Debug)]
pub struct FormattedStringPropertyTemplate {
    pub property: TemplateProperty,
}

/// A renderer node: consumes a context and drives the output sink.
#[derive(Debug)]
pub enum Template {
    Literal(LiteralTemplate),
    Label(LabelTemplate),
    DynamicLabel(DynamicLabelTemplate),
    List(ListTemplate),
    Conditional(ConditionalTemplate),
    StringProperty(StringPropertyTemplate),
    TextProperty(FormattedStringPropertyTemplate),
}

/// What rendering a template under `stack` appends to the output.
pub open spec fn rendered(
    m: Map<Seq<Seq<char>>, Color>,
    stack: Seq<Seq<char>>,
    t: Template,
    ctx: Context,
) -> Seq<char>
    decreases t, 1int,
{
    match t {
        Template::Literal(lt) => styled_leaf(m, stack, lt.0@),
        Template::Label(lt) => rendered(m, stack + labels_view(lt.labels@), *lt.content, ctx),
        Template::DynamicLabel(dt) => rendered(
            m,
            stack + labels_of(dt.label_property, ctx),
            *dt.content,
            ctx,
        ),
        Template::List(l) => rendered_list(m, stack, l.0@, ctx),
        Template::Conditional(ct) => if value_bool(extract_spec(ct.condition, ctx)) {
            rendered(m, stack, *ct.true_template, ctx)
        } else {
            match ct.false_template {
                Some(f) => rendered(m, stack, *f, ctx),
                None => Seq::empty(),
            }
        },
        Template::StringProperty(st) => styled_leaf(m, stack, value_str(extract_spec(st.property, ctx))),
        Template::TextProperty(tt) => styled_text(m, stack, value_text(extract_spec(tt.property, ctx))),
    }
}

pub open spec fn rendered_list(
    m: Map<Seq<Seq<char>>, Color>,
    stack: Seq<Seq<char>>,
    ts: Seq<Template>,
    ctx: Context,
) -> Seq<char>
    decreases ts, 0int,
{
    if ts.len() == 0 {
        Seq::empty()
    } else {
        rendered(m, stack, ts[0], ctx) + rendered_list(m, stack, ts.subrange(1, ts.len() as int), ctx)
    }
}

pub proof fn lemma_rendered_list_push(
    m: Map<Seq<Seq<char>>, Color>,
    stack: Seq<Seq<char>>,
    ts: Seq<Template>,
    x: Template,
    ctx: Context,
)
    ensures
        rendered_list(m, stack, ts.push(x), ctx) == rendered_list(m, stack, ts, ctx) + rendered(
            m,
            stack,
            x,
            ctx,
        ),
    decreases ts.len(),
{
    if ts.len() == 0 {
        assert(ts.push(x)[0] == x);
        assert(ts.push(x).subrange(1, 1) =~= Seq::<Template>::empty());
        assert(rendered_list(m, stack, Seq::<Template>::empty(), ctx) == Seq::<char>::empty());
        assert(rendered_list(m, stack, ts.push(x), ctx) =~= rendered_list(m, stack, ts, ctx)
            + rendered(m, stack, x, ctx));
    } else {
        let rest = ts.subrange(1, ts.len() as int);
        assert(ts.push(x).subrange(1, ts.push(x).len() as int) =~= rest.push(x));
        assert(ts.push(x)[0] == ts[0]);
        lemma_rendered_list_push(m, stack, rest, x, ctx);
        assert(rendered(m, stack, ts[0], ctx) + (rendered_list(m, stack, rest, ctx) + rendered(
            m,
            stack,
            x,
            ctx,
        )) =~= (rendered(m, stack, ts[0], ctx) + rendered_list(m, stack, rest, ctx)) + rendered(
            m,
            stack,
            x,
            ctx,
        ));
    }
}

/// Renders `content` inside the given labels: pushes them outermost first,
/// renders, and pops them again.
#[verifier::loop_isolation(false)]
fn format_with_labels(
    content: &Template,
    labels: &Vec<String>,
    context: &Context,
    formatter: &mut Formatter,
)
    ensures
        final(formatter).out_text() == old(formatter).out_text() + rendered(
            old(formatter).style_rules(),
            old(formatter).label_stack() + labels_view(labels@),
            *content,
            *context,
        ),
        final(formatter).label_stack() == old(formatter).label_stack(),
        final(formatter).style_rules() == old(formatter).style_rules(),
    decreases *content, 1int,
{
    let ghost rules = formatter.style_rules();
    let ghost stack0 = formatter.label_stack();
    let ghost out0 = formatter.out_text();
    let ghost ls = labels_view(labels@);
    let n = labels.len();
    let mut i: usize = 0;
    while i < n
        invariant
            i <= n,
            formatter.label_stack() == stack0 + ls.take(i as int),
            formatter.out_text() == out0,
            formatter.style_rules() == rules,
        decreases n - i,
    {
        formatter.push_label(labels[i].as_str());
        proof {
            assert(ls[i as int] == labels@[i as int]@);
            assert((stack0 + ls.take(i as int)).push(ls[i as int]) =~= stack0 + ls.take(
                i as int + 1,
            ));
        }
        i += 1;
    }
    proof {
        assert(ls.take(n as int) =~= ls);
    }
    content.format(context, formatter);
    let mut j: usize = 0;
    while j < n
        invariant
            j <= n,
            formatter.label_stack() == stack0 + ls.take(n - j),
            formatter.out_text() == out0 + rendered(rules, stack0 + ls, *content, *context),
            formatter.style_rules() == rules,
        decreases n - j,
    {
        proof {
            assert(formatter.label_stack().len() == stack0.len() + (n - j));
        }
        formatter.pop_label();
        proof {
            assert((stack0 + ls.take(n - j)).take(stack0.len() + (n - j) - 1) =~= stack0 + ls.take(
                n - j - 1,
            ));
        }
        j += 1;
    }
    proof {
        assert(stack0 + ls.take(0) =~= stack0);
    }
}

impl LiteralTemplate {
    /// Writes this literal's text, ignoring the context.
    pub fn format(&self, context: &Context, formatter: &mut Formatter)
        ensures
            final(formatter).out_text() == old(formatter).out_text() + rendered(
                old(formatter).style_rules(),
                old(formatter).label_stack(),
                Template::Literal(LiteralTemplate(self.0)),
                *context,
            ),
            final(formatter).label_stack() == old(formatter).label_stack(),
            final(formatter).style_rules() == old(formatter).style_rules(),
    {
        formatter.write_str(self.0.as_str());
    }
}

impl LabelTemplate {
    /// Pushes the labels, renders the content, and pops them again, even
    /// order kept balanced.
    pub fn format(&self, context: &Context, formatter: &mut Formatter)
        ensures
            final(formatter).out_text() == old(formatter).out_text() + rendered(
                old(formatter).style_rules(),
                old(formatter).label_stack(),
                Template::Label(*self),
                *context,
            ),
            final(formatter).label_stack() == old(formatter).label_stack(),
            final(formatter).style_rules() == old(formatter).style_rules(),
        decreases *self, 2int,
    {
        format_with_labels(&self.content, &self.labels, context, formatter);
    }
}

impl DynamicLabelTemplate {
    /// Computes the labels from the context, then renders like a label node.
    pub fn format(&self, context: &Context, formatter: &mut Formatter)
        ensures
            final(formatter).out_text() == old(formatter).out_text() + rendered(
                old(formatter).style_rules(),
                old(formatter).label_stack(),
                Template::DynamicLabel(*self),
                *context,
            ),
            final(formatter).label_stack() == old(formatter).label_stack(),
            final(formatter).style_rules() == old(formatter).style_rules(),
        decreases *self, 2int,
    {
        let labels: &Vec<String> = match &self.label_property {
            LabelsProperty::Constant(ls) => ls,
            LabelsProperty::Conditional { condition, true_labels, false_labels } => {
                let c = condition.extract(context);
                if value_to_bool(&c) {
                    true_labels
                } else {
                    false_labels
                }
            },
        };
        proof {
            assert(labels_view(labels@) == labels_of(self.label_property, *context));
        }
        format_with_labels(&self.content, labels, context, formatter);
    }
}

impl ListTemplate {
    /// Renders each template in order.
    #[verifier::loop_isolation(false)]
    pub fn format(&self, context: &Context, formatter: &mut Formatter)
        ensures
            final(formatter).out_text() == old(formatter).out_text() + rendered(
                old(formatter).style_rules(),
                old(formatter).label_stack(),
                Template::List(ListTemplate(self.0)),
                *context,
            ),
            final(formatter).label_stack() == old(formatter).label_stack(),
            final(formatter).style_rules() == old(formatter).style_rules(),
        decreases *self, 0int,
    {
        let ghost rules = formatter.style_rules();
        let ghost stack0 = formatter.label_stack();
        let ghost out0 = formatter.out_text();
        let n = self.0.len();
        let mut i: usize = 0;
        while i < n
            invariant
                i <= n,
                formatter.out_text() == out0 + rendered_list(
                    rules,
                    stack0,
                    self.0@.take(i as int),
                    *context,
                ),
                formatter.label_stack() == stack0,
                formatter.style_rules() == rules,
            decreases n - i,
        {
            self.0[i].format(context, formatter);
            proof {
                lemma_rendered_list_push(rules, stack0, self.0@.take(i as int), self.0@[i as int], *context);
                assert(self.0@.take(i as int).push(self.0@[i as int]) =~= self.0@.take(
                    i as int + 1,
                ));
            }
            i += 1;
        }
        proof {
            assert(self.0@.take(n as int) =~= self.0@);
        }
    }
}

impl ConditionalTemplate {
    /// Evaluates the condition once and renders exactly one branch; with no
    /// false branch, a false condition writes nothing.
    pub fn format(&self, context: &Context, formatter: &mut Formatter)
        ensures
            final(formatter).out_text() == old(formatter).out_text() + rendered(
                old(formatter).style_rules(),
                old(formatter).label_stack(),
                Template::Conditional(*self),
                *context,
            ),
            final(formatter).label_stack() == old(formatter).label_stack(),
            final(formatter).style_rules() == old(formatter).style_rules(),
        decreases *self, 0int,
    {
        let c = self.condition.extract(context);
        if value_to_bool(&c) {
            self.true_template.format(context, formatter);
        } else {
            match &self.false_template {
                Some(f) => {
                    f.format(context, formatter);
                },
                None => {},
            }
        }
    }
}

impl StringPropertyTemplate {
    /// Writes the string the property extracts.
    pub fn format(&self, context: &Context, formatter: &mut Formatter)
        ensures
            final(formatter).out_text() == old(formatter).out_text() + rendered(
                old(formatter).style_rules(),
                old(formatter).label_stack(),
                Template::StringProperty(StringPropertyTemplate { property: self.property }),
                *context,
            ),
            final(formatter).label_stack() == old(formatter).label_stack(),
            final(formatter).style_rules() == old(formatter).style_rules(),
    {
        let v = self.property.extract(context);
        match &v {
            Value::Str(s) => {
                formatter.write_str(s.as_str());
            },
            _ => {},
        }
    }
}

impl FormattedStringPropertyTemplate {
    /// Extracts a formatted text value and renders it recursively.
    pub fn format(&self, context: &Context, formatter: &mut Formatter)
        ensures
            final(formatter).out_text() == old(formatter).out_text() + rendered(
                old(formatter).style_rules(),
                old(formatter).label_stack(),
                Template::TextProperty(
                    FormattedStringPropertyTemplate { property: self.property },
                ),
                *context,
            ),
            final(formatter).label_stack() == old(formatter).label_stack(),
            final(formatter).style_rules() == old(formatter).style_rules(),
    {
        let v = self.property.extract(context);
        match &v {
            Value::Text(t) => {
                t.format(formatter);
            },
            _ => {},
        }
    }
}

impl Template {
    /// Renders this template against the context, appending to the sink's
    /// output and leaving its label stack as it was.
    pub fn format(&self, context: &Context, formatter: &mut Formatter)
        ensures
            final(formatter).out_text() == old(formatter).out_text() + rendered(
                old(formatter).style_rules(),
                old(formatter).label_stack(),
                *self,
                *context,
            ),
            final(formatter).label_stack() == old(formatter).label_stack(),
            final(formatter).style_rules() == old(formatter).style_rules(),
        decreases *self, 0int,
    {
        match self {
            Template::Literal(t) => t.format(context, formatter),
            Template::Label(t) => t.format(context, formatter),
            Template::DynamicLabel(t) => t.format(context, formatter),
            Template::List(t) => t.format(context, formatter),
            Template::Conditional(t) => t.format(context, formatter),
            Template::StringProperty(t) => t.format(context, formatter),
            Template::TextProperty(t) => t.format(context, formatter),
        }
    }
}

/// True when the template renders exactly like the text tree under every
/// rule set, outer stack and context.
pub open spec fn renders_like(t: Template, v: FtView) -> bool {
    forall|m: Map<Seq<Seq<char>>, Color>, stack: Seq<Seq<char>>, ctx: Context|
        #[trigger] rendered(m, stack, t, ctx) == styled_text(m, stack, v)
}

pub proof fn lemma_rendered_list_pointwise(
    m: Map<Seq<Seq<char>>, Color>,
    stack: Seq<Seq<char>>,
    ts: Seq<Template>,
    vs: Seq<FtView>,
    ctx: Context,
)
    requires
        ts.len() == vs.len(),
        forall|k: int|
            0 <= k < ts.len() ==> #[trigger] rendered(m, stack, ts[k], ctx) == styled_text(
                m,
                stack,
                vs[k],
            ),
    ensures
        rendered_list(m, stack, ts, ctx) == styled_list(m, stack, vs),
    decreases ts.len(),
{
    if ts.len() > 0 {
        let trest = ts.subrange(1, ts.len() as int);
        let vrest = vs.subrange(1, vs.len() as int);
        assert forall|k: int| 0 <= k < trest.len() implies #[trigger] rendered(
            m,
            stack,
            trest[k],
            ctx,
        ) == styled_text(m, stack, vrest[k]) by {
            assert(trest[k] == ts[k + 1]);
            assert(vrest[k] == vs[k + 1]);
        }
        lemma_rendered_list_pointwise(m, stack, trest, vrest, ctx);
        assert(rendered(m, stack, ts[0], ctx) == styled_text(m, stack, vs[0]));
    }
}

impl FormattedString {
    /// Converts this value to the equivalent template tree: a literal for a
    /// leaf, a label node for a labeled subtree, a list for a concatenation.
    /// The conversion renders identically under every rule set, stack and
    /// context.
    #[verifier::loop_isolation(false)]
    pub fn to_template(&self) -> (r: Template)
        ensures
            renders_like(r, self@),
        decreases *self,
    {
        match self {
            FormattedString::Plain(s) => {
                let r = Template::Literal(LiteralTemplate(s.clone()));
                proof {
                    assert forall|m: Map<Seq<Seq<char>>, Color>, stack: Seq<Seq<char>>, ctx: Context| #[trigger] rendered(
                        m,
                        stack,
                        r,
                        ctx,
                    ) == styled_text(m, stack, self@) by {
                        assert(rendered(m, stack, r, ctx) == styled_leaf(m, stack, s@));
                        assert(styled_text(m, stack, self@) == styled_leaf(m, stack, s@));
                    }
                    assert(renders_like(r, self@));
                }
                r
            },
            FormattedString::Labeled { content, labels } => {
                let t = (**content).to_template();
                let lc = labels.clone();
                proof {
                    assert(forall|i: int| 0 <= i < labels@.len() ==> lc@[i] == labels@[i]);
                    assert(lc@ =~= labels@);
                }
                let ghost tg = t;
                let r = Template::Label(LabelTemplate { content: Box::new(t), labels: lc });
                proof {
                    assert forall|m: Map<Seq<Seq<char>>, Color>, stack: Seq<Seq<char>>, ctx: Context| #[trigger] rendered(
                        m,
                        stack,
                        r,
                        ctx,
                    ) == styled_text(m, stack, self@) by {
                        let lv = labels_view(labels@);
                        assert(rendered(m, stack, r, ctx) == rendered(m, stack + lv, tg, ctx));
                        assert(rendered(m, stack + lv, tg, ctx) == styled_text(
                            m,
                            stack + lv,
                            (**content)@,
                        ));
                        assert(styled_text(m, stack, self@) == styled_text(
                            m,
                            stack + lv,
                            (**content)@,
                        ));
                    }
                    assert(renders_like(r, self@));
                }
                r
            },
            FormattedString::Concat(elems) => {
                let n = elems.len();
                let mut ts: Vec<Template> = Vec::new();
                let mut i: usize = 0;
                while i < n
                    invariant
                        i <= n,
                        ts@.len() == i,
                        forall|k: int, m: Map<Seq<Seq<char>>, Color>, stack: Seq<Seq<char>>, ctx: Context|
                            0 <= k < i ==> #[trigger] rendered(m, stack, ts@[k], ctx)
                                == styled_text(m, stack, crate::text::ftv(elems@[k])),
                    decreases n - i,
                {
                    let t = elems[i].to_template();
                    ts.push(t);
                    i += 1;
                }
                let r = Template::List(ListTemplate(ts));
                proof {
                    crate::text::lemma_ftv_list(elems@);
                    assert forall|m: Map<Seq<Seq<char>>, Color>, stack: Seq<Seq<char>>, ctx: Context| #[trigger] rendered(
                        m,
                        stack,
                        r,
                        ctx,
                    ) == styled_text(m, stack, self@) by {
                        let vs = crate::text::ftv_list(elems@);
                        assert forall|k: int| 0 <= k < ts@.len() implies #[trigger] rendered(
                            m,
                            stack,
                            ts@[k],
                            ctx,
                        ) == styled_text(m, stack, vs[k]) by {
                            assert(vs[k] == crate::text::ftv(elems@[k]));
                        }
                        lemma_rendered_list_pointwise(m, stack, ts@, vs, ctx);
                        assert(rendered(m, stack, r, ctx) == rendered_list(m, stack, ts@, ctx));
                        assert(styled_text(m, stack, self@) == styled_list(m, stack, vs));
                    }
                    assert(renders_like(r, self@));
                }
                r
            },
        }
    }
}

/// Binds a template to an owned sink, formatting contexts one at a time.
#[derive(Debug)]
pub struct TemplateFormatter {
    pub template: Template,
    pub formatter: Formatter,
}

impl TemplateFormatter {
    pub fn new(template: Template, formatter: Formatter) -> (r: Self)
        ensures
            r == (TemplateFormatter { template, formatter }),
    {
        TemplateFormatter { template, formatter }
    }

    /// Renders the bound template against one context.
    pub fn format(&mut self, context: &Context)
        ensures
            final(self).formatter.out_text() == old(self).formatter.out_text() + rendered(
                old(self).formatter.style_rules(),
                old(self).formatter.label_stack(),
                old(self).template,
                *context,
            ),
            final(self).formatter.label_stack() == old(self).formatter.label_stack(),
            final(self).formatter.style_rules() == old(self).formatter.style_rules(),
            final(self).template == old(self).template,
    {
        self.template.format(context, &mut self.formatter);
    }

    /// Hands the sink back, with everything formatted so far.
    pub fn into_formatter(self) -> (r: Formatter)
        ensures
            r == self.formatter,
    {
        self.formatter
    }
}

} // verus!
