//! The output sink and the label stack style resolver.
//!
//! A `Formatter` accumulates rendered text while tracking the stack of
//! currently open style labels. At every write the active stack is resolved
//! against the rule set: the full stack is looked up first, then the
//! innermost label is dropped and the lookup retried, until a rule matches or
//! the stack is empty ("no style"). A formatter constructed without rules
//! never styles anything and so yields plain text.

use vstd::prelude::*;
use vstd::string::StrSliceExecFns;
use vstd::string::StringExecFns;
use crate::text::FtView;
use crate::text::labels_view;

verus! {

/// A visual style: one of the eight base terminal colors.
#[derive(Clone, Copy, PartialEq, Eq, Structural, Debug)]
pub enum Color {
    Black,
    Red,
    Green,
    Yellow,
    Blue,
    Magenta,
    Cyan,
    White,
}

/// The mapping that a rule list denotes: label path to color, where an
/// earlier entry overrides a later one with the same path.
pub open spec fn rules_map(s: Seq<(Vec<String>, Color)>) -> Map<Seq<Seq<char>>, Color>
    decreases s.len(),
{
    if s.len() == 0 {
        Map::empty()
    } else {
        rules_map(s.subrange(1, s.len() as int)).insert(labels_view(s[0].0@), s[0].1)
    }
}

/// Immutable set of style rules: label paths (outermost label first) mapped
/// to colors.
#[derive(Debug)]
pub struct StyleRules {
    entries: Vec<(Vec<String>, Color)>,
}

impl View for StyleRules {
    type V = Map<Seq<Seq<char>>, Color>;

    closed spec fn view(&self) -> Map<Seq<Seq<char>>, Color> {
        rules_map(self.entries@)
    }
}

/// Longest-prefix-with-fallback resolution: the exact stack first, then ever
/// shorter prefixes, then "no style".
pub open spec fn resolve_spec(m: Map<Seq<Seq<char>>, Color>, stack: Seq<Seq<char>>) -> Option<
    Color,
>
    decreases stack.len(),
{
    if m.contains_key(stack) {
        Some(m[stack])
    } else if stack.len() == 0 {
        None
    } else {
        resolve_spec(m, stack.subrange(0, stack.len() - 1))
    }
}

/// An empty rule set never resolves to a style.
pub proof fn lemma_resolve_empty(stack: Seq<Seq<char>>)
    ensures
        resolve_spec(Map::empty(), stack) == None::<Color>,
    decreases stack.len(),
{
    if stack.len() > 0 {
        lemma_resolve_empty(stack.subrange(0, stack.len() - 1));
    }
}

/// Law: style resolution is a pure function of the label stack and the rule
/// set; identical inputs always yield the identical style decision.
pub proof fn lemma_style_resolution_deterministic(
    m1: Map<Seq<Seq<char>>, Color>,
    m2: Map<Seq<Seq<char>>, Color>,
    s1: Seq<Seq<char>>,
    s2: Seq<Seq<char>>,
)
    requires
        m1 == m2,
        s1 == s2,
    ensures
        resolve_spec(m1, s1) == resolve_spec(m2, s2),
{
}

impl StyleRules {
    /// A rule set with no rules.
    pub fn new() -> (r: Self)
        ensures
            r@ == Map::<Seq<Seq<char>>, Color>::empty(),
    {
        StyleRules { entries: Vec::new() }
    }

    /// Adds a rule, overriding any earlier rule for the same path.
    pub fn set(&mut self, path: Vec<String>, color: Color)
        ensures
            final(self)@ == old(self)@.insert(labels_view(path@), color),
    {
        let ghost old_entries = self.entries@;
        let ghost key = labels_view(path@);
        self.entries.insert(0, (path, color));
        proof {
            assert(self.entries@.subrange(1, self.entries@.len() as int) =~= old_entries);
            assert(self.entries@[0].1 == color);
            assert(labels_view(self.entries@[0].0@) == key);
        }
    }

    /// True when `path` equals the first `k` labels of `stack`.
    fn matches_prefix(path: &Vec<String>, stack: &Vec<String>, k: usize) -> (r: bool)
        requires
            k <= stack@.len(),
        ensures
            r == (labels_view(path@) == labels_view(stack@).take(k as int)),
    {
        let ghost pv = labels_view(path@);
        let ghost sv = labels_view(stack@).take(k as int);
        if path.len() != k {
            proof {
                assert(pv.len() == path@.len());
                assert(sv.len() == k);
            }
            return false;
        }
        let mut i: usize = 0;
        while i < k
            invariant
            k <= stack@.len(),
            path@.len() == k,
            i <= k,
            pv == labels_view(path@),
            sv == labels_view(stack@).take(k as int),
            forall|j: int| 0 <= j < i ==> #[trigger] pv[j] == sv[j],
            decreases k - i,
        {
            if path[i] != stack[i] {
                proof {
                    assert(pv[i as int] == path@[i as int]@);
                    assert(sv[i as int] == stack@[i as int]@);
                }
                return false;
            }
            i += 1;
        }
        proof {
            assert(pv =~= sv);
        }
        true
    }

    /// The rule for the first `k` labels of `stack`, if one is set.
    fn lookup_prefix(&self, stack: &Vec<String>, k: usize) -> (r: Option<Color>)
        requires
            k <= stack@.len(),
        ensures
            r == (if self@.contains_key(labels_view(stack@).take(k as int)) {
                Some(self@[labels_view(stack@).take(k as int)])
            } else {
                None::<Color>
            }),
    {
        let ghost key = labels_view(stack@).take(k as int);
        let n = self.entries.len();
        let mut i: usize = 0;
        proof {
            assert(self.entries@.subrange(0, n as int) =~= self.entries@);
        }
        while i < n
            invariant
            k <= stack@.len(),
            n == self.entries@.len(),
            i <= n,
            key == labels_view(stack@).take(k as int),
            rules_map(self.entries@).contains_key(key) == rules_map(
                self.entries@.subrange(i as int, n as int),
            ).contains_key(key),
            rules_map(self.entries@).contains_key(key) ==> rules_map(self.entries@)[key]
                == rules_map(self.entries@.subrange(i as int, n as int))[key],
            decreases n - i,
        {
            let ghost rest = self.entries@.subrange(i as int, n as int);
            proof {
                assert(rest.subrange(1, rest.len() as int) =~= self.entries@.subrange(
                    i as int + 1,
                    n as int,
                ));
                assert(rest[0] == self.entries@[i as int]);
            }
            if Self::matches_prefix(&self.entries[i].0, stack, k) {
                return Some(self.entries[i].1);
            }
            i += 1;
        }
        proof {
            assert(self.entries@.subrange(n as int, n as int) =~= Seq::<(
                Vec<String>,
                Color,
            )>::empty());
        }
        None
    }

    /// Resolves the active label stack to a style, trying the whole stack
    /// first and then ever shorter prefixes.
    pub fn resolve(&self, stack: &Vec<String>) -> (r: Option<Color>)
        ensures
            r == resolve_spec(self@, labels_view(stack@)),
    {
        let ghost full = labels_view(stack@);
        let mut k = stack.len();
        proof {
            assert(full.take(stack@.len() as int) =~= full);
        }
        loop
            invariant
            k <= stack@.len(),
            full == labels_view(stack@),
            resolve_spec(self@, full) == resolve_spec(self@, full.take(k as int)),
            decreases k,
        {
            let found = self.lookup_prefix(stack, k);
            if found.is_some() {
                return found;
            }
            if k == 0 {
                return None;
            }
            proof {
                assert(full.take(k as int).subrange(0, k - 1) =~= full.take(k - 1));
            }
            k = k - 1;
        }
    }
}

/// The escape sequence that precedes text styled with `c`.
pub open spec fn color_prefix(c: Color) -> Seq<char> {
    match c {
        Color::Black => "\u{1b}[38;5;0m"@,
        Color::Red => "\u{1b}[38;5;1m"@,
        Color::Green => "\u{1b}[38;5;2m"@,
        Color::Yellow => "\u{1b}[38;5;3m"@,
        Color::Blue => "\u{1b}[38;5;4m"@,
        Color::Magenta => "\u{1b}[38;5;5m"@,
        Color::Cyan => "\u{1b}[38;5;6m"@,
        Color::White => "\u{1b}[38;5;7m"@,
    }
}

/// The escape sequence that restores the default color.
pub open spec fn color_reset() -> Seq<char> {
    "\u{1b}[39m"@
}

/// What one write of `t` under `stack` appends to the output: nothing for
/// empty text, the text alone when no rule matches, and the text wrapped in
/// color escapes when one does.
pub open spec fn styled_leaf(
    m: Map<Seq<Seq<char>>, Color>,
    stack: Seq<Seq<char>>,
    t: Seq<char>,
) -> Seq<char> {
    if t.len() == 0 {
        Seq::empty()
    } else {
        match resolve_spec(m, stack) {
            None => t,
            Some(c) => color_prefix(c) + t + color_reset(),
        }
    }
}

/// What rendering a whole text tree under `stack` appends to the output.
pub open spec fn styled_text(m: Map<Seq<Seq<char>>, Color>, stack: Seq<Seq<char>>, v: FtView) -> Seq<
    char,
>
    decreases v,
{
    match v {
        FtView::Plain(t) => styled_leaf(m, stack, t),
        FtView::Labeled(inner, ls) => styled_text(m, stack + ls, *inner),
        FtView::Concat(elems) => styled_list(m, stack, elems),
    }
}

pub open spec fn styled_list(
    m: Map<Seq<Seq<char>>, Color>,
    stack: Seq<Seq<char>>,
    elems: Seq<FtView>,
) -> Seq<char>
    decreases elems,
{
    if elems.len() == 0 {
        Seq::empty()
    } else {
        styled_text(m, stack, elems[0]) + styled_list(
            m,
            stack,
            elems.subrange(1, elems.len() as int),
        )
    }
}

/// The output sink: accumulates rendered text, tracks the active label
/// stack, and consults the style rules at every write. With an empty rule
/// set it acts as the no-op styling sink.
#[derive(Debug)]
pub struct Formatter {
    rules: StyleRules,
    stack: Vec<String>,
    out: String,
}

impl Formatter {
    /// The text accumulated so far.
    pub closed spec fn out_text(&self) -> Seq<char> {
        self.out@
    }

    /// The active label stack, outermost label first.
    pub closed spec fn label_stack(&self) -> Seq<Seq<char>> {
        labels_view(self.stack@)
    }

    /// The style rules consulted at each write.
    pub closed spec fn style_rules(&self) -> Map<Seq<Seq<char>>, Color> {
        self.rules@
    }

    /// A sink that applies no styling: plain text accumulation.
    pub fn new_plain() -> (r: Self)
        ensures
            r.out_text() == Seq::<char>::empty(),
            r.label_stack() == Seq::<Seq<char>>::empty(),
            r.style_rules() == Map::<Seq<Seq<char>>, Color>::empty(),
    {
        let r = Formatter { rules: StyleRules::new(), stack: Vec::new(), out: String::new() };
        proof {
            assert(labels_view(r.stack@) =~= Seq::<Seq<char>>::empty());
        }
        r
    }

    /// A sink that styles writes according to `rules`.
    pub fn with_rules(rules: StyleRules) -> (r: Self)
        ensures
            r.out_text() == Seq::<char>::empty(),
            r.label_stack() == Seq::<Seq<char>>::empty(),
            r.style_rules() == rules@,
    {
        let r = Formatter { rules, stack: Vec::new(), out: String::new() };
        proof {
            assert(labels_view(r.stack@) =~= Seq::<Seq<char>>::empty());
        }
        r
    }

    /// Writes `text`, styled by the rule the active stack resolves to.
    pub fn write_str(&mut self, text: &str)
        ensures
            final(self).out_text() == old(self).out_text() + styled_leaf(
                old(self).style_rules(),
                old(self).label_stack(),
                text@,
            ),
            final(self).label_stack() == old(self).label_stack(),
            final(self).style_rules() == old(self).style_rules(),
    {
        if text.is_empty() {
            return ;
        }
        let style = self.rules.resolve(&self.stack);
        match style {
            Option::None => {
                self.out.append(text);
            },
            Option::Some(c) => {
                match c {
                    Color::Black => self.out.append("\u{1b}[38;5;0m"),
                    Color::Red => self.out.append("\u{1b}[38;5;1m"),
                    Color::Green => self.out.append("\u{1b}[38;5;2m"),
                    Color::Yellow => self.out.append("\u{1b}[38;5;3m"),
                    Color::Blue => self.out.append("\u{1b}[38;5;4m"),
                    Color::Magenta => self.out.append("\u{1b}[38;5;5m"),
                    Color::Cyan => self.out.append("\u{1b}[38;5;6m"),
                    Color::White => self.out.append("\u{1b}[38;5;7m"),
                }
                self.out.append(text);
                self.out.append("\u{1b}[39m");
            },
        }
    }

    /// Opens `label` as the new innermost label.
    pub fn push_label(&mut self, label: &str)
        ensures
            final(self).label_stack() == old(self).label_stack().push(label@),
            final(self).out_text() == old(self).out_text(),
            final(self).style_rules() == old(self).style_rules(),
    {
        self.stack.push(label.to_owned());
        proof {
            assert(labels_view(self.stack@) =~= labels_view(old(self).stack@).push(label@));
        }
    }

    /// Closes the innermost open label.
    pub fn pop_label(&mut self)
        requires
            old(self).label_stack().len() > 0,
        ensures
            final(self).label_stack() == old(self).label_stack().take(
                old(self).label_stack().len() - 1,
            ),
            final(self).out_text() == old(self).out_text(),
            final(self).style_rules() == old(self).style_rules(),
    {
        self.stack.pop();
        proof {
            assert(labels_view(self.stack@) =~= labels_view(old(self).stack@).take(
                old(self).stack@.len() - 1,
            ));
        }
    }

    /// Hands the accumulated output out.
    pub fn take_output(self) -> (r: String)
        ensures
            r@ == self.out_text(),
    {
        self.out
    }
}

} // verus!
