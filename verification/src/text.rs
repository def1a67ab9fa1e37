//! The formatted text tree: plain text annotated with nested style labels.
//!
//! A `FormattedString` is an immutable value; its mathematical model is the
//! `FtView` tree of character sequences. Concatenation never merges labels
//! across siblings, so each branch keeps its own label scoping.

use vstd::prelude::*;
use crate::formatter::Color;
use crate::formatter::Formatter;
use crate::formatter::lemma_resolve_empty;
use crate::formatter::styled_list;
use crate::formatter::styled_text;

verus! {

/// Mathematical model of a formatted text tree: a leaf of plain text, a
/// subtree annotated with a non-empty stack of labels (outermost first), or
/// an ordered concatenation.
#[verifier::ext_equal]
pub enum FtView {
    Plain(Seq<char>),
    Labeled(Box<FtView>, Seq<Seq<char>>),
    Concat(Seq<FtView>),
}

/// The view of a list of labels: each label as its character sequence.
pub open spec fn labels_view(ls: Seq<String>) -> Seq<Seq<char>> {
    ls.map_values(|l: String| l@)
}

/// Immutable formatted text value: plain text plus nested style labels.
#[derive(Debug)]
pub enum FormattedString {
    Plain(String),
    Labeled { content: Box<FormattedString>, labels: Vec<String> },
    Concat(Vec<FormattedString>),
}

/// The model of a `FormattedString`.
pub open spec fn ftv(f: FormattedString) -> FtView
    decreases f,
{
    match f {
        FormattedString::Plain(s) => FtView::Plain(s@),
        FormattedString::Labeled { content, labels } => FtView::Labeled(
            Box::new(ftv(*content)),
            labels_view(labels@),
        ),
        FormattedString::Concat(elems) => FtView::Concat(ftv_list(elems@)),
    }
}

/// The models of a list of `FormattedString` values, in order.
pub open spec fn ftv_list(s: Seq<FormattedString>) -> Seq<FtView>
    decreases s,
{
    if s.len() == 0 {
        Seq::empty()
    } else {
        seq![ftv(s[0])] + ftv_list(s.subrange(1, s.len() as int))
    }
}

impl View for FormattedString {
    type V = FtView;

    open spec fn view(&self) -> FtView {
        ftv(*self)
    }
}

pub proof fn lemma_ftv_list(s: Seq<FormattedString>)
    ensures
        ftv_list(s).len() == s.len(),
        forall|i: int| 0 <= i < s.len() ==> #[trigger] ftv_list(s)[i] == ftv(s[i]),
    decreases s.len(),
{
    if s.len() > 0 {
        lemma_ftv_list(s.subrange(1, s.len() as int));
    }
}

pub proof fn lemma_ftv_list_push(s: Seq<FormattedString>, x: FormattedString)
    ensures
        ftv_list(s.push(x)) =~= ftv_list(s).push(ftv(x)),
    decreases s.len(),
{
    if s.len() == 0 {
        assert(s.push(x).len() == 1);
        assert(s.push(x)[0] == x);
        assert(s.push(x).subrange(1, 1) =~= Seq::<FormattedString>::empty());
        assert(ftv_list(s.push(x)) == seq![ftv(s.push(x)[0])] + ftv_list(
            s.push(x).subrange(1, s.push(x).len() as int),
        ));
        assert(ftv_list(Seq::<FormattedString>::empty()) == Seq::<FtView>::empty());
        assert(ftv_list(s.push(x)) =~= seq![ftv(x)]);
        assert(ftv_list(s) == Seq::<FtView>::empty());
        assert(ftv_list(s).push(ftv(x)) =~= seq![ftv(x)]);
    } else {
        let rest = s.subrange(1, s.len() as int);
        assert(s.push(x).subrange(1, s.push(x).len() as int) =~= rest.push(x));
        lemma_ftv_list_push(rest, x);
        assert(s.push(x)[0] == s[0]);
        assert(ftv_list(s.push(x)) == seq![ftv(s[0])] + ftv_list(rest.push(x)));
        assert((seq![ftv(s[0])] + ftv_list(rest)).push(ftv(x)) =~= seq![ftv(s[0])] + ftv_list(
            rest,
        ).push(ftv(x)));
    }
}

/// All text reachable in the tree, in order, ignoring labels.
pub open spec fn plain_text(v: FtView) -> Seq<char>
    decreases v,
{
    match v {
        FtView::Plain(t) => t,
        FtView::Labeled(inner, _) => plain_text(*inner),
        FtView::Concat(elems) => plain_text_list(elems),
    }
}

pub open spec fn plain_text_list(elems: Seq<FtView>) -> Seq<char>
    decreases elems,
{
    if elems.len() == 0 {
        Seq::empty()
    } else {
        plain_text(elems[0]) + plain_text_list(elems.subrange(1, elems.len() as int))
    }
}

/// A text list is all-empty exactly when each element's text is empty.
pub proof fn lemma_plain_text_list_empty(elems: Seq<FtView>)
    ensures
        (plain_text_list(elems).len() == 0) <==> (forall|i: int|
            0 <= i < elems.len() ==> #[trigger] plain_text(elems[i]).len() == 0),
    decreases elems.len(),
{
    if elems.len() > 0 {
        let rest = elems.subrange(1, elems.len() as int);
        lemma_plain_text_list_empty(rest);
        assert(plain_text_list(elems) == plain_text(elems[0]) + plain_text_list(rest));
        if plain_text_list(elems).len() == 0 {
            assert forall|i: int| 0 <= i < elems.len() implies #[trigger] plain_text(
                elems[i],
            ).len() == 0 by {
                if i >= 1 {
                    assert(rest[i - 1] == elems[i]);
                    assert(plain_text(rest[i - 1]).len() == 0);
                }
            }
        }
        if forall|i: int| 0 <= i < elems.len() ==> #[trigger] plain_text(elems[i]).len() == 0 {
            assert forall|j: int| 0 <= j < rest.len() implies #[trigger] plain_text(rest[j]).len()
                == 0 by {
                assert(rest[j] == elems[j + 1]);
                assert(plain_text(elems[j + 1]).len() == 0);
            }
            assert(plain_text(elems[0]).len() == 0);
            assert(plain_text_list(rest).len() == 0);
        }
    }
}

/// What `prepend_label` builds: the label becomes the new outermost label of
/// a `Labeled` node, and wraps any other node in a fresh `Labeled` node.
pub open spec fn prepend_view(v: FtView, label: Seq<char>) -> FtView {
    match v {
        FtView::Labeled(inner, ls) => FtView::Labeled(inner, seq![label] + ls),
        _ => FtView::Labeled(Box::new(v), seq![label]),
    }
}

/// What `join` builds: the separator between each pair of neighbours.
pub open spec fn interspersed(s: Seq<FtView>, sep: FtView) -> Seq<FtView>
    decreases s.len(),
{
    if s.len() <= 1 {
        s
    } else {
        seq![s[0], sep] + interspersed(s.subrange(1, s.len() as int), sep)
    }
}

impl Clone for FormattedString {
    /// A clone models the same tree.
    #[verifier::loop_isolation(false)]
    fn clone(&self) -> (r: Self)
        ensures
            r@ == self@,
        decreases *self,
    {
        match self {
            FormattedString::Plain(s) => FormattedString::Plain(s.clone()),
            FormattedString::Labeled { content, labels } => {
                let lc = labels.clone();
                proof {
                    assert(forall|i: int| 0 <= i < labels@.len() ==> lc@[i] == labels@[i]);
                    assert(lc@ =~= labels@);
                }
                FormattedString::Labeled { content: Box::new((**content).clone()), labels: lc }
            },
            FormattedString::Concat(elems) => {
                let n = elems.len();
                let mut out: Vec<FormattedString> = Vec::new();
                let mut i: usize = 0;
                while i < n
                    invariant
                        n == elems@.len(),
                        i <= n,
                        ftv_list(out@) =~= ftv_list(elems@.take(i as int)),
                    decreases n - i,
                {
                    let c = elems[i].clone();
                    proof {
                        lemma_ftv_list_push(out@, c);
                        lemma_ftv_list_push(elems@.take(i as int), elems@[i as int]);
                        assert(elems@.take(i as int).push(elems@[i as int]) =~= elems@.take(
                            i as int + 1,
                        ));
                    }
                    out.push(c);
                    i += 1;
                }
                proof {
                    assert(elems@.take(n as int) =~= elems@);
                }
                FormattedString::Concat(out)
            },
        }
    }
}

impl FormattedString {
    /// A plain leaf holding the given text.
    pub fn from_text(text: String) -> (r: Self)
        ensures
            r@ == FtView::Plain(text@),
    {
        FormattedString::Plain(text)
    }

    /// Prepends `label` as the new outermost label of this value.
    pub fn prepend_label(self, label: String) -> (r: Self)
        ensures
            r@ == prepend_view(self@, label@),
    {
        let ghost g = self;
        match self {
            FormattedString::Labeled { content, labels } => {
                let mut labels = labels;
                let ghost l0 = labels@;
                labels.insert(0, label);
                let r = FormattedString::Labeled { content, labels };
                proof {
                    assert(labels_view(labels@) =~= seq![label@] + labels_view(l0));
                }
                r
            },
            other => {
                let ghost lb = label@;
                let labels = vec![label];
                let r = FormattedString::Labeled { content: Box::new(other), labels };
                proof {
                    assert(labels_view(labels@) =~= seq![lb]);
                }
                r
            },
        }
    }

    /// True exactly when all reachable leaf text is empty.
    #[verifier::loop_isolation(false)]
    pub fn is_empty(&self) -> (r: bool)
        ensures
            r == (plain_text(self@).len() == 0),
        decreases *self,
    {
        match self {
            FormattedString::Plain(s) => s.as_str().is_empty(),
            FormattedString::Labeled { content, .. } => content.is_empty(),
            FormattedString::Concat(elems) => {
                let ghost vs = ftv_list(elems@);
                proof {
                    lemma_ftv_list(elems@);
                    lemma_plain_text_list_empty(vs);
                }
                let n = elems.len();
                let mut i: usize = 0;
                while i < n
                    invariant
                        n == elems@.len(),
                        i <= n,
                        vs == ftv_list(elems@),
                        vs.len() == n,
                        forall|j: int| 0 <= j < vs.len() ==> #[trigger] vs[j] == ftv(elems@[j]),
                        (plain_text_list(vs).len() == 0) <==> (forall|j: int|
                            0 <= j < vs.len() ==> #[trigger] plain_text(vs[j]).len() == 0),
                        forall|j: int| 0 <= j < i ==> #[trigger] plain_text(vs[j]).len() == 0,
                    decreases n - i,
                {
                    if !elems[i].is_empty() {
                        proof {
                            assert(vs[i as int] == ftv(elems@[i as int]));
                            assert(plain_text(vs[i as int]).len() != 0);
                            assert(plain_text_list(vs).len() != 0);
                        }
                        return false;
                    }
                    i += 1;
                }
                true
            },
        }
    }

    /// The ordered concatenation of the given values.
    pub fn concat(elems: Vec<FormattedString>) -> (r: Self)
        ensures
            r@ == FtView::Concat(ftv_list(elems@)),
    {
        FormattedString::Concat(elems)
    }

    /// The concatenation of the given values with `with` between neighbours.
    pub fn join(strs: Vec<FormattedString>, with: FormattedString) -> (r: Self)
        ensures
            r@ == FtView::Concat(interspersed(ftv_list(strs@), with@)),
    {
        Self::concat(intersperse_elements(strs, with))
    }
}

/// Relies on itertools::intersperse: iterates the elements of `elems` with a
/// clone of `sep` inserted between each pair of neighbours.
#[verifier::external_body]
fn intersperse_elements(elems: Vec<FormattedString>, sep: FormattedString) -> (r: Vec<
    FormattedString,
>)
    ensures
        ftv_list(r@) == interspersed(ftv_list(elems@), ftv(sep)),
{
    itertools::intersperse(elems, sep).collect()
}

pub proof fn lemma_styled_list_push(
    m: Map<Seq<Seq<char>>, Color>,
    stack: Seq<Seq<char>>,
    s: Seq<FtView>,
    x: FtView,
)
    ensures
        styled_list(m, stack, s.push(x)) == styled_list(m, stack, s) + styled_text(m, stack, x),
    decreases s.len(),
{
    if s.len() == 0 {
        assert(s.push(x)[0] == x);
        assert(s.push(x).subrange(1, 1) =~= Seq::<FtView>::empty());
        assert(styled_list(m, stack, Seq::<FtView>::empty()) == Seq::<char>::empty());
        assert(styled_list(m, stack, s.push(x)) =~= styled_list(m, stack, s) + styled_text(
            m,
            stack,
            x,
        ));
    } else {
        let rest = s.subrange(1, s.len() as int);
        assert(s.push(x).subrange(1, s.push(x).len() as int) =~= rest.push(x));
        assert(s.push(x)[0] == s[0]);
        lemma_styled_list_push(m, stack, rest, x);
        assert(styled_list(m, stack, s.push(x)) == styled_text(m, stack, s[0]) + (styled_list(
            m,
            stack,
            rest,
        ) + styled_text(m, stack, x)));
        assert(styled_text(m, stack, s[0]) + (styled_list(m, stack, rest) + styled_text(
            m,
            stack,
            x,
        )) =~= (styled_text(m, stack, s[0]) + styled_list(m, stack, rest)) + styled_text(
            m,
            stack,
            x,
        ));
    }
}

/// With no rules at all, rendering produces exactly the plain text, whatever
/// the label stack holds.
pub proof fn lemma_styled_text_no_rules(stack: Seq<Seq<char>>, v: FtView)
    ensures
        styled_text(Map::empty(), stack, v) == plain_text(v),
    decreases v,
{
    match v {
        FtView::Plain(t) => {
            lemma_resolve_empty(stack);
        },
        FtView::Labeled(inner, ls) => {
            lemma_styled_text_no_rules(stack + ls, *inner);
        },
        FtView::Concat(elems) => {
            lemma_styled_list_no_rules(stack, elems);
        },
    }
}

pub proof fn lemma_styled_list_no_rules(stack: Seq<Seq<char>>, elems: Seq<FtView>)
    ensures
        styled_list(Map::empty(), stack, elems) == plain_text_list(elems),
    decreases elems,
{
    if elems.len() > 0 {
        lemma_styled_text_no_rules(stack, elems[0]);
        lemma_styled_list_no_rules(stack, elems.subrange(1, elems.len() as int));
    }
}

impl FormattedString {
    /// Renders this value through the sink: pushes each node's labels, writes
    /// each leaf under the stack open at that point, and pops the labels
    /// again, leaving the sink's stack as it was.
    #[verifier::loop_isolation(false)]
    pub fn format(&self, fmt: &mut Formatter)
        ensures
            final(fmt).out_text() == old(fmt).out_text() + styled_text(
                old(fmt).style_rules(),
                old(fmt).label_stack(),
                self@,
            ),
            final(fmt).label_stack() == old(fmt).label_stack(),
            final(fmt).style_rules() == old(fmt).style_rules(),
        decreases *self,
    {
        let ghost rules = fmt.style_rules();
        let ghost stack0 = fmt.label_stack();
        let ghost out0 = fmt.out_text();
        match self {
            FormattedString::Plain(s) => {
                fmt.write_str(s.as_str());
            },
            FormattedString::Labeled { content, labels } => {
                let ghost ls = labels_view(labels@);
                let n = labels.len();
                let mut i: usize = 0;
                while i < n
                    invariant
                        i <= n,
                        fmt.label_stack() == stack0 + ls.take(i as int),
                        fmt.out_text() == out0,
                        fmt.style_rules() == rules,
                    decreases n - i,
                {
                    proof {
                        assert(stack0 + ls.take(i as int) =~= stack0 + ls.take(i as int));
                    }
                    fmt.push_label(labels[i].as_str());
                    proof {
                        assert(ls[i as int] == labels@[i as int]@);
                        assert((stack0 + ls.take(i as int)).push(ls[i as int]) =~= stack0 + ls.take(
                            i as int + 1,
                        ));
                    }
                    i += 1;
                }
                proof {
                    assert(ls.take(n as int) =~= ls);
                }
                content.format(fmt);
                let mut j: usize = 0;
                while j < n
                    invariant
                        j <= n,
                        fmt.label_stack() == stack0 + ls.take(n - j),
                        fmt.out_text() == out0 + styled_text(rules, stack0 + ls, (*content)@),
                        fmt.style_rules() == rules,
                    decreases n - j,
                {
                    proof {
                        assert(fmt.label_stack().len() == stack0.len() + (n - j));
                    }
                    fmt.pop_label();
                    proof {
                        assert((stack0 + ls.take(n - j)).take(stack0.len() + (n - j) - 1)
                            =~= stack0 + ls.take(n - j - 1));
                    }
                    j += 1;
                }
                proof {
                    assert(stack0 + ls.take(0) =~= stack0);
                }
            },
            FormattedString::Concat(elems) => {
                let ghost vs = ftv_list(elems@);
                proof {
                    lemma_ftv_list(elems@);
                }
                let n = elems.len();
                let mut i: usize = 0;
                while i < n
                    invariant
                        i <= n,
                        fmt.out_text() == out0 + styled_list(rules, stack0, vs.take(i as int)),
                        fmt.label_stack() == stack0,
                        fmt.style_rules() == rules,
                    decreases n - i,
                {
                    elems[i].format(fmt);
                    proof {
                        assert(vs[i as int] == ftv(elems@[i as int]));
                        lemma_styled_list_push(rules, stack0, vs.take(i as int), vs[i as int]);
                        assert(vs.take(i as int).push(vs[i as int]) =~= vs.take(i as int + 1));
                    }
                    i += 1;
                }
                proof {
                    assert(vs.take(n as int) =~= vs);
                }
            },
        }
    }

    /// The plain text of this value: the result of rendering it through a
    /// sink that applies no styling.
    pub fn to_plain_text(&self) -> (r: String)
        ensures
            r@ == plain_text(self@),
    {
        let mut fmt = Formatter::new_plain();
        self.format(&mut fmt);
        proof {
            lemma_styled_text_no_rules(Seq::empty(), self@);
        }
        fmt.take_output()
    }
}

/// Law: prepending label `x` and then label `y` renders exactly like a
/// `Labeled` node carrying the label stack `[y, x]` around the same content,
/// under every rule set and every outer stack.
pub proof fn lemma_prepend_label_pair(
    v: FtView,
    x: Seq<char>,
    y: Seq<char>,
    m: Map<Seq<Seq<char>>, Color>,
    stack: Seq<Seq<char>>,
)
    ensures
        styled_text(m, stack, prepend_view(prepend_view(v, x), y)) == styled_text(
            m,
            stack,
            FtView::Labeled(Box::new(v), seq![y, x]),
        ),
{
    match v {
        FtView::Labeled(inner, ls) => {
            assert(prepend_view(v, x) == FtView::Labeled(inner, seq![x] + ls));
            assert(prepend_view(prepend_view(v, x), y) == FtView::Labeled(
                inner,
                seq![y] + (seq![x] + ls),
            ));
            assert(seq![y] + (seq![x] + ls) =~= seq![y, x] + ls);
            assert(styled_text(m, stack, prepend_view(prepend_view(v, x), y)) == styled_text(
                m,
                stack + (seq![y, x] + ls),
                *inner,
            ));
            assert(styled_text(m, stack, FtView::Labeled(Box::new(v), seq![y, x])) == styled_text(
                m,
                stack + seq![y, x],
                v,
            ));
            assert(styled_text(m, stack + seq![y, x], v) == styled_text(
                m,
                (stack + seq![y, x]) + ls,
                *inner,
            ));
            assert(stack + (seq![y, x] + ls) =~= (stack + seq![y, x]) + ls);
        },
        _ => {
            assert(prepend_view(v, x) == FtView::Labeled(Box::new(v), seq![x]));
            assert(prepend_view(prepend_view(v, x), y) == FtView::Labeled(
                Box::new(v),
                seq![y] + seq![x],
            ));
            assert(seq![y] + seq![x] =~= seq![y, x]);
        },
    }
}

/// Law: the concatenation of two texts is empty exactly when both are empty.
pub proof fn lemma_concat_pair_is_empty(a: FtView, b: FtView)
    ensures
        (plain_text(FtView::Concat(seq![a, b])).len() == 0) <==> (plain_text(a).len() == 0
            && plain_text(b).len() == 0),
{
    let s = seq![a, b];
    assert(s[0] == a);
    assert(s.subrange(1, 2) =~= seq![b]);
    assert(seq![b][0] == b);
    assert(seq![b].subrange(1, 1) =~= Seq::<FtView>::empty());
    assert(plain_text_list(seq![b]) == plain_text(b) + plain_text_list(Seq::<FtView>::empty()));
    assert(plain_text_list(s) == plain_text(a) + plain_text_list(seq![b]));
}

} // verus!
