//! Property extractors: pure functions from a context value (a commit, a
//! signature, an identifier, or no context) to a derived value.

use vstd::prelude::*;
use vstd::string::StrSliceExecFns;
use vstd::string::StringExecFns;
use crate::ids::CommitOrChangeId;
use crate::ids::hex_seq;
use crate::ids::highlighted;
use crate::ids::truncated;
use crate::repo::Commit;
use crate::repo::PrefixIndex;
use crate::repo::RepoView;
use crate::repo::Signature;
use crate::repo::Timestamp;
use crate::repo::clone_bytes;
use crate::repo::id_in;
use crate::repo::ids_contain;
use crate::repo::ids_view;
use crate::repo::prefix_lookup;
use crate::repo::target_has_add;
use crate::repo::TargetView;
use crate::repo::RefTarget;
use crate::repo::BranchTarget;
use crate::text::FtView;
use crate::text::FormattedString;
use crate::text::ftv_list;
use crate::text::lemma_ftv_list;
use crate::text::lemma_ftv_list_push;
use crate::text::interspersed;

verus! {

/// The views of a list of strings.
pub open spec fn strings_view(s: Seq<String>) -> Seq<Seq<char>> {
    s.map_values(|x: String| x@)
}

/// The given parts joined with single spaces.
pub open spec fn join_space(parts: Seq<Seq<char>>) -> Seq<char>
    decreases parts.len(),
{
    if parts.len() == 0 {
        Seq::empty()
    } else if parts.len() == 1 {
        parts[0]
    } else {
        parts[0] + " "@ + join_space(parts.subrange(1, parts.len() as int))
    }
}

pub proof fn lemma_join_space_push(parts: Seq<Seq<char>>, x: Seq<char>)
    ensures
        join_space(parts.push(x)) == if parts.len() == 0 {
            x
        } else {
            join_space(parts) + " "@ + x
        },
    decreases parts.len(),
{
    if parts.len() == 0 {
        assert(parts.push(x).len() == 1);
        assert(parts.push(x)[0] == x);
    } else if parts.len() == 1 {
        assert(parts.push(x)[0] == parts[0]);
        assert(parts.push(x).subrange(1, 2) =~= seq![x]);
        assert(join_space(seq![x]) == x);
    } else {
        let rest = parts.subrange(1, parts.len() as int);
        assert(parts.push(x).subrange(1, parts.push(x).len() as int) =~= rest.push(x));
        assert(parts.push(x)[0] == parts[0]);
        lemma_join_space_push(rest, x);
        assert(parts[0] + " "@ + (join_space(rest) + " "@ + x) =~= (parts[0] + " "@ + join_space(
            rest,
        )) + " "@ + x);
    }
}

/// Joins the given strings with single spaces.
fn join_with_space(parts: &Vec<String>) -> (r: String)
    ensures
        r@ == join_space(strings_view(parts@)),
{
    let ghost sv = strings_view(parts@);
    let n = parts.len();
    let mut out = String::new();
    let mut i: usize = 0;
    while i < n
        invariant
            n == parts@.len(),
            i <= n,
            sv == strings_view(parts@),
            sv.len() == n,
            out@ == join_space(sv.take(i as int)),
        decreases n - i,
    {
        if i > 0 {
            out.append(" ");
        }
        out.append(parts[i].as_str());
        proof {
            assert(sv[i as int] == parts@[i as int]@);
            assert(sv.take(i as int).push(sv[i as int]) =~= sv.take(i as int + 1));
            lemma_join_space_push(sv.take(i as int), sv[i as int]);
        }
        i += 1;
    }
    proof {
        assert(sv.take(n as int) =~= sv);
    }
    out
}

/// Extracts a commit's description: a fixed placeholder when it is empty,
/// otherwise the description with exactly one trailing newline ensured.
#[derive(Debug)]
pub struct DescriptionProperty;

/// What the description extractor returns.
pub open spec fn description_text(c: Commit) -> Seq<char> {
    if c.description@.len() == 0 {
        "(no description set)\n"@
    } else if c.description@.last() == '\n' {
        c.description@
    } else {
        c.description@ + "\n"@
    }
}

impl DescriptionProperty {
    pub fn extract(&self, context: &Commit) -> (r: String)
        ensures
            r@ == description_text(*context),
    {
        let n = context.description.as_str().unicode_len();
        if n == 0 {
            String::from_str("(no description set)\n")
        } else {
            let last = context.description.as_str().get_char(n - 1);
            let mut d = context.description.clone();
            if last != '\n' {
                d.append("\n");
            }
            d
        }
    }
}

/// Extracts a commit's author signature unchanged.
#[derive(Debug)]
pub struct AuthorProperty;

impl AuthorProperty {
    pub fn extract(&self, context: &Commit) -> (r: Signature)
        ensures
            r@ == context.author@,
    {
        context.author.clone()
    }
}

/// Extracts a commit's committer signature unchanged.
#[derive(Debug)]
pub struct CommitterProperty;

impl CommitterProperty {
    pub fn extract(&self, context: &Commit) -> (r: Signature)
        ensures
            r@ == context.committer@,
    {
        context.committer.clone()
    }
}

/// The `"<workspace>@"` names of the workspaces whose working copy is `id`.
pub open spec fn wc_names(entries: Seq<(String, Vec<u8>)>, id: Seq<u8>) -> Seq<Seq<char>>
    decreases entries.len(),
{
    if entries.len() == 0 {
        Seq::empty()
    } else {
        let rest = wc_names(entries.subrange(1, entries.len() as int), id);
        if entries[0].1@ == id {
            seq![entries[0].0@ + "@"@] + rest
        } else {
            rest
        }
    }
}

pub proof fn lemma_wc_names_push(entries: Seq<(String, Vec<u8>)>, x: (String, Vec<u8>), id: Seq<
    u8,
>)
    ensures
        wc_names(entries.push(x), id) == wc_names(entries, id) + (if x.1@ == id {
            seq![x.0@ + "@"@]
        } else {
            Seq::<Seq<char>>::empty()
        }),
    decreases entries.len(),
{
    let tail: Seq<Seq<char>> = if x.1@ == id {
        seq![x.0@ + "@"@]
    } else {
        Seq::empty()
    };
    if entries.len() == 0 {
        assert(entries.push(x)[0] == x);
        assert(entries.push(x).subrange(1, 1) =~= Seq::<(String, Vec<u8>)>::empty());
        assert(wc_names(Seq::<(String, Vec<u8>)>::empty(), id) == Seq::<Seq<char>>::empty());
        assert(wc_names(entries.push(x), id) =~= tail);
        assert(wc_names(entries, id) + tail =~= tail);
    } else {
        let rest = entries.subrange(1, entries.len() as int);
        assert(entries.push(x).subrange(1, entries.push(x).len() as int) =~= rest.push(x));
        assert(entries.push(x)[0] == entries[0]);
        lemma_wc_names_push(rest, x, id);
        if entries[0].1@ == id {
            assert(seq![entries[0].0@ + "@"@] + (wc_names(rest, id) + tail) =~= (seq![
                entries[0].0@ + "@"@,
            ] + wc_names(rest, id)) + tail);
        }
    }
}

/// What the working-copies extractor returns: nothing when the repository
/// has at most one workspace, else the space-joined `"<workspace>@"` names
/// of every workspace whose working-copy commit is the context commit.
pub open spec fn working_copies_text(view: RepoView, c: Commit) -> Seq<char> {
    if view.wc_commit_ids@.len() <= 1 {
        Seq::empty()
    } else {
        join_space(wc_names(view.wc_commit_ids@, c.id@))
    }
}

/// Extracts the `"<workspace>@"` markers of the workspaces at this commit.
#[derive(Debug)]
pub struct WorkingCopiesProperty {
    pub view: RepoView,
}

impl WorkingCopiesProperty {
    pub fn extract(&self, context: &Commit) -> (r: String)
        ensures
            r@ == working_copies_text(self.view, *context),
    {
        let entries = &self.view.wc_commit_ids;
        if entries.len() <= 1 {
            return String::new();
        }
        let ghost id = context.id@;
        let n = entries.len();
        let mut parts: Vec<String> = Vec::new();
        let mut i: usize = 0;
        while i < n
            invariant
                n == entries@.len(),
                i <= n,
                id == context.id@,
                strings_view(parts@) == wc_names(entries@.take(i as int), id),
            decreases n - i,
        {
            let ghost prefix = entries@.take(i as int);
            proof {
                assert(prefix.push(entries@[i as int]) =~= entries@.take(i as int + 1));
                lemma_wc_names_push(prefix, entries@[i as int], id);
            }
            if crate::repo::bytes_eq(&entries[i].1, &context.id) {
                let mut name = entries[i].0.clone();
                name.append("@");
                parts.push(name);
                proof {
                    assert(strings_view(parts@) =~= wc_names(entries@.take(i as int + 1), id));
                }
            } else {
                proof {
                    assert(strings_view(parts@) =~= wc_names(entries@.take(i as int + 1), id));
                }
            }
            i += 1;
        }
        proof {
            assert(entries@.take(n as int) =~= entries@);
        }
        join_with_space(&parts)
    }
}

/// The working-copy commit recorded for the named workspace, if any.
pub open spec fn wc_lookup(entries: Seq<(String, Vec<u8>)>, workspace: Seq<char>) -> Option<
    Seq<u8>,
>
    decreases entries.len(),
{
    if entries.len() == 0 {
        None
    } else if entries[0].0@ == workspace {
        Some(entries[0].1@)
    } else {
        wc_lookup(entries.subrange(1, entries.len() as int), workspace)
    }
}

/// Tests whether one workspace's working copy is the context commit.
#[derive(Debug)]
pub struct IsWorkingCopyProperty {
    pub view: RepoView,
    pub workspace_id: String,
}

impl IsWorkingCopyProperty {
    #[verifier::loop_isolation(false)]
    pub fn extract(&self, context: &Commit) -> (r: bool)
        ensures
            r == (wc_lookup(self.view.wc_commit_ids@, self.workspace_id@) == Some(context.id@)),
    {
        let entries = &self.view.wc_commit_ids;
        let n = entries.len();
        let mut i: usize = 0;
        proof {
            assert(entries@.subrange(0, n as int) =~= entries@);
        }
        while i < n
            invariant
                n == entries@.len(),
                i <= n,
                wc_lookup(entries@, self.workspace_id@) == wc_lookup(
                    entries@.subrange(i as int, n as int),
                    self.workspace_id@,
                ),
            decreases n - i,
        {
            let ghost rest = entries@.subrange(i as int, n as int);
            proof {
                assert(rest[0] == entries@[i as int]);
                assert(rest.subrange(1, rest.len() as int) =~= entries@.subrange(
                    i as int + 1,
                    n as int,
                ));
            }
            if entries[i].0 == self.workspace_id {
                proof {
                    assert(rest[0].0@ == self.workspace_id@);
                    assert(wc_lookup(rest, self.workspace_id@) == Some(entries@[i as int].1@));
                }
                return crate::repo::bytes_eq(&entries[i].1, &context.id);
            }
            i += 1;
        }
        proof {
            assert(entries@.subrange(n as int, n as int) =~= Seq::<(String, Vec<u8>)>::empty());
        }
        false
    }
}

/// The names of the refs among `entries` that added `id`, a `?` appended to
/// each conflicted one.
pub open spec fn ref_names(entries: Seq<(String, RefTarget)>, id: Seq<u8>) -> Seq<Seq<char>>
    decreases entries.len(),
{
    if entries.len() == 0 {
        Seq::empty()
    } else {
        let rest = ref_names(entries.subrange(1, entries.len() as int), id);
        if target_has_add(entries[0].1@, id) {
            seq![
                if entries[0].1@ is Conflict {
                    entries[0].0@ + "?"@
                } else {
                    entries[0].0@
                },
            ] + rest
        } else {
            rest
        }
    }
}

pub proof fn lemma_ref_names_push(entries: Seq<(String, RefTarget)>, x: (String, RefTarget), id: Seq<
    u8,
>)
    ensures
        ref_names(entries.push(x), id) == ref_names(entries, id) + (if target_has_add(x.1@, id) {
            seq![if x.1@ is Conflict { x.0@ + "?"@ } else { x.0@ }]
        } else {
            Seq::<Seq<char>>::empty()
        }),
    decreases entries.len(),
{
    let tail: Seq<Seq<char>> = if target_has_add(x.1@, id) {
        seq![if x.1@ is Conflict { x.0@ + "?"@ } else { x.0@ }]
    } else {
        Seq::empty()
    };
    if entries.len() == 0 {
        assert(entries.push(x)[0] == x);
        assert(entries.push(x).subrange(1, 1) =~= Seq::<(String, RefTarget)>::empty());
        assert(ref_names(Seq::<(String, RefTarget)>::empty(), id) == Seq::<Seq<char>>::empty());
        assert(ref_names(entries.push(x), id) =~= tail);
        assert(ref_names(entries, id) + tail =~= tail);
    } else {
        let rest = entries.subrange(1, entries.len() as int);
        assert(entries.push(x).subrange(1, entries.push(x).len() as int) =~= rest.push(x));
        assert(entries.push(x)[0] == entries[0]);
        lemma_ref_names_push(rest, x, id);
        if target_has_add(entries[0].1@, id) {
            let head = seq![
                if entries[0].1@ is Conflict {
                    entries[0].0@ + "?"@
                } else {
                    entries[0].0@
                },
            ];
            assert(head + (ref_names(rest, id) + tail) =~= (head + ref_names(rest, id)) + tail);
        }
    }
}

/// Collects the names of the refs that added the context commit.
fn ref_name_list(entries: &Vec<(String, RefTarget)>, id: &Vec<u8>) -> (r: Vec<String>)
    ensures
        strings_view(r@) == ref_names(entries@, id@),
{
    let n = entries.len();
    let mut parts: Vec<String> = Vec::new();
    let mut i: usize = 0;
    while i < n
        invariant
            n == entries@.len(),
            i <= n,
            strings_view(parts@) == ref_names(entries@.take(i as int), id@),
        decreases n - i,
    {
        let ghost prefix = entries@.take(i as int);
        proof {
            assert(prefix.push(entries@[i as int]) =~= entries@.take(i as int + 1));
            lemma_ref_names_push(prefix, entries@[i as int], id@);
        }
        if entries[i].1.has_add(id) {
            let mut name = entries[i].0.clone();
            if entries[i].1.is_conflict() {
                name.append("?");
            }
            parts.push(name);
            proof {
                assert(strings_view(parts@) =~= ref_names(entries@.take(i as int + 1), id@));
            }
        } else {
            proof {
                assert(strings_view(parts@) =~= ref_names(entries@.take(i as int + 1), id@));
            }
        }
        i += 1;
    }
    proof {
        assert(entries@.take(n as int) =~= entries@);
    }
    parts
}

/// Extracts the space-joined tag names pointing at the context commit.
#[derive(Debug)]
pub struct TagProperty {
    pub view: RepoView,
}

impl TagProperty {
    pub fn extract(&self, context: &Commit) -> (r: String)
        ensures
            r@ == join_space(ref_names(self.view.tags@, context.id@)),
    {
        let parts = ref_name_list(&self.view.tags, &context.id);
        join_with_space(&parts)
    }
}

/// Extracts the space-joined git ref names pointing at the context commit.
#[derive(Debug)]
pub struct GitRefsProperty {
    pub view: RepoView,
}

impl GitRefsProperty {
    pub fn extract(&self, context: &Commit) -> (r: String)
        ensures
            r@ == join_space(ref_names(self.view.git_refs@, context.id@)),
    {
        let parts = ref_name_list(&self.view.git_refs, &context.id);
        join_with_space(&parts)
    }
}

/// Tests whether the git-HEAD pointer is the context commit.
#[derive(Debug)]
pub struct IsGitHeadProperty {
    pub view: RepoView,
}

impl IsGitHeadProperty {
    pub fn new(view: RepoView) -> (r: Self)
        ensures
            r == (IsGitHeadProperty { view }),
    {
        IsGitHeadProperty { view }
    }

    pub fn extract(&self, context: &Commit) -> (r: bool)
        ensures
            r == (match self.view.git_head {
                Some(h) => h@ == context.id@,
                None => false,
            }),
    {
        match &self.view.git_head {
            Some(h) => crate::repo::bytes_eq(h, &context.id),
            None => false,
        }
    }
}

/// How often `id` occurs in the list.
pub open spec fn count_matches(ids: Seq<Seq<u8>>, id: Seq<u8>) -> int
    decreases ids.len(),
{
    if ids.len() == 0 {
        0
    } else {
        (if ids[0] == id {
            1int
        } else {
            0int
        }) + count_matches(ids.subrange(1, ids.len() as int), id)
    }
}

pub proof fn lemma_count_matches_push(ids: Seq<Seq<u8>>, x: Seq<u8>, id: Seq<u8>)
    ensures
        count_matches(ids.push(x), id) == count_matches(ids, id) + (if x == id {
            1int
        } else {
            0int
        }),
    decreases ids.len(),
{
    if ids.len() == 0 {
        assert(ids.push(x)[0] == x);
        assert(ids.push(x).subrange(1, 1) =~= Seq::<Seq<u8>>::empty());
        assert(count_matches(Seq::<Seq<u8>>::empty(), id) == 0);
    } else {
        let rest = ids.subrange(1, ids.len() as int);
        assert(ids.push(x).subrange(1, ids.push(x).len() as int) =~= rest.push(x));
        assert(ids.push(x)[0] == ids[0]);
        lemma_count_matches_push(rest, x, id);
    }
}

/// An id with a positive count occurs in the list, and conversely.
pub proof fn lemma_count_matches_in(ids: Seq<Seq<u8>>, id: Seq<u8>)
    ensures
        (count_matches(ids, id) > 0) <==> id_in(ids, id),
        count_matches(ids, id) >= 0,
    decreases ids.len(),
{
    if ids.len() > 0 {
        let rest = ids.subrange(1, ids.len() as int);
        lemma_count_matches_in(rest, id);
        if ids[0] == id {
            assert(id_in(ids, id));
        } else {
            if id_in(rest, id) {
                let i = choose|i: int| 0 <= i < rest.len() && rest[i] == id;
                assert(ids[i + 1] == id);
            }
            if id_in(ids, id) {
                let i = choose|i: int| 0 <= i < ids.len() && ids[i] == id;
                assert(rest[i - 1] == id);
            }
        }
    }
}

/// Counts the occurrences of `id`.
fn count_ids(ids: &Vec<Vec<u8>>, id: &Vec<u8>) -> (r: usize)
    ensures
        r as int == count_matches(ids_view(ids@), id@),
{
    let ghost sv = ids_view(ids@);
    let n = ids.len();
    let mut count: usize = 0;
    let mut i: usize = 0;
    while i < n
        invariant
            n == ids@.len(),
            i <= n,
            count <= i,
            sv == ids_view(ids@),
            sv.len() == n,
            count as int == count_matches(sv.take(i as int), id@),
        decreases n - i,
    {
        proof {
            assert(sv[i as int] == ids@[i as int]@);
            assert(sv.take(i as int).push(sv[i as int]) =~= sv.take(i as int + 1));
            lemma_count_matches_push(sv.take(i as int), sv[i as int], id@);
        }
        if crate::repo::bytes_eq(&ids[i], id) {
            count += 1;
        }
        i += 1;
    }
    proof {
        assert(sv.take(n as int) =~= sv);
    }
    count
}

/// Tests whether a commit's change-identity is shared by more than one
/// commit anywhere in history. The set of divergent change-identities is
/// computed once, by one scan over the whole history, and then reused for
/// every commit of the render session.
#[derive(Debug)]
pub struct DivergentProperty {
    divergent_changes: Vec<Vec<u8>>,
}

impl DivergentProperty {
    /// The set of divergent change-identities this property holds.
    pub closed spec fn divergent_set(&self) -> Seq<Seq<u8>> {
        ids_view(self.divergent_changes@)
    }

    /// Scans the change-identities of the whole history, as the history
    /// evaluation collaborator yields them: a change-identity is divergent
    /// exactly when it belongs to two or more commits.
    pub fn new(history_change_ids: &Vec<Vec<u8>>) -> (r: Self)
        ensures
            forall|id: Seq<u8>|
                #[trigger] id_in(r.divergent_set(), id) <==> count_matches(
                    ids_view(history_change_ids@),
                    id,
                ) >= 2,
    {
        let ghost hv = ids_view(history_change_ids@);
        let n = history_change_ids.len();
        let mut divergent: Vec<Vec<u8>> = Vec::new();
        let mut i: usize = 0;
        while i < n
            invariant
                n == history_change_ids@.len(),
                i <= n,
                hv == ids_view(history_change_ids@),
                hv.len() == n,
                forall|id: Seq<u8>|
                    #[trigger] id_in(ids_view(divergent@), id) <==> (count_matches(hv, id) >= 2
                        && id_in(hv.take(i as int), id)),
            decreases n - i,
        {
            let ghost dv0 = ids_view(divergent@);
            proof {
                assert(hv[i as int] == history_change_ids@[i as int]@);
                assert(hv.take(i as int).push(hv[i as int]) =~= hv.take(i as int + 1));
            }
            let c = count_ids(history_change_ids, &history_change_ids[i]);
            if c >= 2 {
                divergent.push(clone_bytes(&history_change_ids[i]));
                proof {
                    assert(ids_view(divergent@) =~= dv0.push(hv[i as int]));
                    assert forall|id: Seq<u8>| #[trigger] id_in(ids_view(divergent@), id) implies (
                    count_matches(hv, id) >= 2 && id_in(hv.take(i as int + 1), id)) by {
                        let k = choose|k: int|
                            0 <= k < ids_view(divergent@).len() && ids_view(divergent@)[k] == id;
                        if k < dv0.len() {
                            assert(dv0[k] == id);
                            assert(id_in(dv0, id));
                            let t0 = hv.take(i as int);
                            let j = choose|j: int| 0 <= j < t0.len() && #[trigger] t0[j] == id;
                            assert(t0[j] == id);
                            assert(hv.take(i as int + 1)[j] == id);
                        } else {
                            assert(id == hv[i as int]);
                            assert(hv.take(i as int + 1)[i as int] == id);
                        }
                    }
                    assert forall|id: Seq<u8>| (count_matches(hv, id) >= 2 && id_in(
                        hv.take(i as int + 1),
                        id,
                    )) implies #[trigger] id_in(ids_view(divergent@), id) by {
                        let t = hv.take(i as int + 1);
                        let j = choose|j: int| 0 <= j < t.len() && #[trigger] t[j] == id;
                        assert(t[j] == id);
                        if j < i {
                            assert(hv.take(i as int)[j] == id);
                            assert(id_in(hv.take(i as int), id));
                            assert(id_in(dv0, id));
                            let k = choose|k: int| 0 <= k < dv0.len() && dv0[k] == id;
                            assert(ids_view(divergent@)[k] == id);
                        } else {
                            assert(id == hv[i as int]);
                            assert(ids_view(divergent@)[dv0.len() as int] == id);
                        }
                    }
                }
            } else {
                proof {
                    assert forall|id: Seq<u8>| #[trigger] id_in(dv0, id) implies (count_matches(
                        hv,
                        id,
                    ) >= 2 && id_in(hv.take(i as int + 1), id)) by {
                        let t0 = hv.take(i as int);
                        let j = choose|j: int| 0 <= j < t0.len() && #[trigger] t0[j] == id;
                        assert(t0[j] == id);
                        assert(hv.take(i as int + 1)[j] == id);
                    }
                    assert forall|id: Seq<u8>| (count_matches(hv, id) >= 2 && id_in(
                        hv.take(i as int + 1),
                        id,
                    )) implies #[trigger] id_in(dv0, id) by {
                        let t = hv.take(i as int + 1);
                        let j = choose|j: int| 0 <= j < t.len() && #[trigger] t[j] == id;
                        assert(t[j] == id);
                        if j < i {
                            assert(hv.take(i as int)[j] == id);
                        } else {
                            assert(id == hv[i as int]);
                            assert(count_matches(hv, id) >= 2);
                            assert(c as int == count_matches(hv, hv[i as int]));
                            assert(false);
                        }
                    }
                }
            }
            i += 1;
        }
        proof {
            assert(hv.take(n as int) =~= hv);
            assert forall|id: Seq<u8>| (count_matches(hv, id) >= 2) implies id_in(hv, id) by {
                lemma_count_matches_in(hv, id);
            }
        }
        DivergentProperty { divergent_changes: divergent }
    }

    pub fn extract(&self, context: &Commit) -> (r: bool)
        ensures
            r == id_in(self.divergent_set(), context.change_id@),
    {
        ids_contain(&self.divergent_changes, &context.change_id)
    }
}

/// Tests whether the commit's tree records an unresolved content conflict.
#[derive(Debug)]
pub struct ConflictProperty;

impl ConflictProperty {
    pub fn extract(&self, context: &Commit) -> (r: bool)
        ensures
            r == context.tree_has_conflict,
    {
        context.tree_has_conflict
    }
}

/// Tests whether the commit introduces no changes relative to its parents:
/// its tree equals the merge of its parent trees.
#[derive(Debug)]
pub struct EmptyProperty;

impl EmptyProperty {
    pub fn extract(&self, context: &Commit) -> (r: bool)
        ensures
            r == (context.tree_id@ == context.parent_tree_id@),
    {
        crate::repo::bytes_eq(&context.tree_id, &context.parent_tree_id)
    }
}

/// Extracts the commit's own identifier, type-erased.
#[derive(Debug)]
pub struct CommitIdProperty;

impl CommitIdProperty {
    pub fn extract(&self, context: &Commit) -> (r: CommitOrChangeId)
        ensures
            r@ == context.id@,
    {
        CommitOrChangeId::new(clone_bytes(&context.id))
    }
}

/// Extracts the commit's change-identity, type-erased.
#[derive(Debug)]
pub struct ChangeIdProperty;

impl ChangeIdProperty {
    pub fn extract(&self, context: &Commit) -> (r: CommitOrChangeId)
        ensures
            r@ == context.change_id@,
    {
        CommitOrChangeId::new(clone_bytes(&context.change_id))
    }
}

/// Extracts a signature's timestamp.
#[derive(Debug)]
pub struct SignatureTimestamp;

impl SignatureTimestamp {
    pub fn extract(&self, context: &Signature) -> (r: Timestamp)
        ensures
            r == context.timestamp,
    {
        context.timestamp
    }
}

/// Renders an identifier as its twelve-character truncation.
#[derive(Debug)]
pub struct CommitOrChangeIdShort;

impl CommitOrChangeIdShort {
    pub fn extract(&self, context: &CommitOrChangeId) -> (r: String)
        ensures
            r@ == truncated(hex_seq(context@), 12),
    {
        context.short()
    }
}

/// Renders an identifier with its shortest unique prefix highlighted.
#[derive(Debug)]
pub struct CommitOrChangeIdShortPrefixAndBrackets {
    pub index: PrefixIndex,
}

impl CommitOrChangeIdShortPrefixAndBrackets {
    pub fn extract(&self, context: &CommitOrChangeId) -> (r: String)
        ensures
            r@ == highlighted(hex_seq(context@), prefix_lookup(self.index.entries@, context@), 12),
    {
        context.short_prefix_and_brackets(&self.index)
    }
}

/// The marker that follows a branch name whose local target added the
/// commit: `??` labeled `divergent` when the local target is conflicted,
/// else `*` labeled `remote diff` when some remote target differs from it.
pub open spec fn local_marker(local: TargetView, remotes: Seq<(String, RefTarget)>) -> Seq<
    FtView,
> {
    if local is Conflict {
        seq![FtView::Labeled(Box::new(FtView::Plain("??"@)), seq!["divergent"@])]
    } else if exists|i: int| 0 <= i < remotes.len() && remotes[i].1@ != local {
        seq![FtView::Labeled(Box::new(FtView::Plain("*"@)), seq!["remote"@, "diff"@])]
    } else {
        Seq::empty()
    }
}

/// The piece emitted for a branch's local target, when it added the commit.
pub open spec fn local_piece(name: Seq<char>, bt: BranchTarget, id: Seq<u8>) -> Seq<FtView> {
    match bt.local_target {
        Some(lt) => if target_has_add(lt@, id) {
            seq![
                FtView::Concat(seq![FtView::Plain(name)] + local_marker(lt@, bt.remote_targets@)),
            ]
        } else {
            Seq::empty()
        },
        None => Seq::empty(),
    }
}

/// The piece emitted for one remote target: shown when it differs from the
/// local target (or stands without one) and added the commit, as
/// `<branch>@<remote>` with the separator and remote name labeled, plus a
/// `??` marker when the remote target is conflicted.
pub open spec fn remote_piece(
    name: Seq<char>,
    remote: (String, RefTarget),
    local: Option<RefTarget>,
    id: Seq<u8>,
) -> Seq<FtView> {
    let differs = match local {
        Some(l) => remote.1@ != l@,
        None => true,
    };
    if differs && target_has_add(remote.1@, id) {
        seq![
            FtView::Concat(
                seq![
                    FtView::Plain(name),
                    FtView::Labeled(Box::new(FtView::Plain("@"@)), seq!["separator"@]),
                    FtView::Labeled(Box::new(FtView::Plain(remote.0@)), seq!["remote"@]),
                ] + if remote.1@ is Conflict {
                    seq![FtView::Labeled(Box::new(FtView::Plain("??"@)), seq!["divergent"@])]
                } else {
                    Seq::<FtView>::empty()
                },
            ),
        ]
    } else {
        Seq::empty()
    }
}

pub open spec fn remote_pieces(
    name: Seq<char>,
    remotes: Seq<(String, RefTarget)>,
    local: Option<RefTarget>,
    id: Seq<u8>,
) -> Seq<FtView>
    decreases remotes.len(),
{
    if remotes.len() == 0 {
        Seq::empty()
    } else {
        remote_piece(name, remotes[0], local, id) + remote_pieces(
            name,
            remotes.subrange(1, remotes.len() as int),
            local,
            id,
        )
    }
}

pub proof fn lemma_remote_pieces_push(
    name: Seq<char>,
    remotes: Seq<(String, RefTarget)>,
    x: (String, RefTarget),
    local: Option<RefTarget>,
    id: Seq<u8>,
)
    ensures
        remote_pieces(name, remotes.push(x), local, id) == remote_pieces(name, remotes, local, id)
            + remote_piece(name, x, local, id),
    decreases remotes.len(),
{
    if remotes.len() == 0 {
        assert(remotes.push(x)[0] == x);
        assert(remotes.push(x).subrange(1, 1) =~= Seq::<(String, RefTarget)>::empty());
        assert(remote_pieces(name, Seq::<(String, RefTarget)>::empty(), local, id) == Seq::<
            FtView,
        >::empty());
        assert(remote_pieces(name, remotes.push(x), local, id) =~= remote_piece(
            name,
            x,
            local,
            id,
        ));
        assert(remote_pieces(name, remotes, local, id) + remote_piece(name, x, local, id)
            =~= remote_piece(name, x, local, id));
    } else {
        let rest = remotes.subrange(1, remotes.len() as int);
        assert(remotes.push(x).subrange(1, remotes.push(x).len() as int) =~= rest.push(x));
        assert(remotes.push(x)[0] == remotes[0]);
        lemma_remote_pieces_push(name, rest, x, local, id);
        assert(remote_piece(name, remotes[0], local, id) + (remote_pieces(name, rest, local, id)
            + remote_piece(name, x, local, id)) =~= (remote_piece(name, remotes[0], local, id)
            + remote_pieces(name, rest, local, id)) + remote_piece(name, x, local, id));
    }
}

/// The pieces emitted for all branches, in branch order: each branch's local
/// piece first, then its remote pieces.
pub open spec fn branch_pieces(branches: Seq<(String, BranchTarget)>, id: Seq<u8>) -> Seq<FtView>
    decreases branches.len(),
{
    if branches.len() == 0 {
        Seq::empty()
    } else {
        local_piece(branches[0].0@, branches[0].1, id) + remote_pieces(
            branches[0].0@,
            branches[0].1.remote_targets@,
            branches[0].1.local_target,
            id,
        ) + branch_pieces(branches.subrange(1, branches.len() as int), id)
    }
}

pub proof fn lemma_branch_pieces_push(
    branches: Seq<(String, BranchTarget)>,
    x: (String, BranchTarget),
    id: Seq<u8>,
)
    ensures
        branch_pieces(branches.push(x), id) == branch_pieces(branches, id) + local_piece(
            x.0@,
            x.1,
            id,
        ) + remote_pieces(x.0@, x.1.remote_targets@, x.1.local_target, id),
    decreases branches.len(),
{
    let tail = local_piece(x.0@, x.1, id) + remote_pieces(
        x.0@,
        x.1.remote_targets@,
        x.1.local_target,
        id,
    );
    if branches.len() == 0 {
        assert(branches.push(x)[0] == x);
        assert(branches.push(x).subrange(1, 1) =~= Seq::<(String, BranchTarget)>::empty());
        assert(branch_pieces(Seq::<(String, BranchTarget)>::empty(), id) == Seq::<FtView>::empty());
        assert(branch_pieces(branches.push(x), id) =~= tail);
        assert(branch_pieces(branches, id) + local_piece(x.0@, x.1, id) + remote_pieces(
            x.0@,
            x.1.remote_targets@,
            x.1.local_target,
            id,
        ) =~= tail);
    } else {
        let rest = branches.subrange(1, branches.len() as int);
        assert(branches.push(x).subrange(1, branches.push(x).len() as int) =~= rest.push(x));
        assert(branches.push(x)[0] == branches[0]);
        lemma_branch_pieces_push(rest, x, id);
        let head = local_piece(branches[0].0@, branches[0].1, id) + remote_pieces(
            branches[0].0@,
            branches[0].1.remote_targets@,
            branches[0].1.local_target,
            id,
        );
        assert(branch_pieces(branches.push(x), id) == head + (branch_pieces(rest, id) + tail));
        assert(head + (branch_pieces(rest, id) + tail) =~= (head + branch_pieces(rest, id))
            + tail);
        assert(branch_pieces(branches, id) + local_piece(x.0@, x.1, id) + remote_pieces(
            x.0@,
            x.1.remote_targets@,
            x.1.local_target,
            id,
        ) =~= (head + branch_pieces(rest, id)) + tail);
    }
}

/// What the branch extractor renders: the pieces of all branches joined
/// with single spaces.
pub open spec fn branches_text(view: RepoView, c: Commit) -> FtView {
    FtView::Concat(interspersed(branch_pieces(view.branches@, c.id@), FtView::Plain(" "@)))
}

/// True when some remote target differs from the local target.
fn any_remote_differs(remotes: &Vec<(String, RefTarget)>, local: &RefTarget) -> (r: bool)
    ensures
        r == exists|i: int| 0 <= i < remotes@.len() && remotes@[i].1@ != local@,
{
    let n = remotes.len();
    let mut i: usize = 0;
    while i < n
        invariant
            n == remotes@.len(),
            i <= n,
            forall|j: int| 0 <= j < i ==> #[trigger] remotes@[j].1@ == local@,
        decreases n - i,
    {
        if !(remotes[i].1 == *local) {
            return true;
        }
        i += 1;
    }
    false
}

/// Extracts the formatted branch decorations of the context commit.
#[derive(Debug)]
pub struct BranchProperty {
    pub view: RepoView,
}

impl BranchProperty {
    #[verifier::loop_isolation(false)]
    pub fn extract(&self, context: &Commit) -> (r: FormattedString)
        ensures
            r@ == branches_text(self.view, *context),
    {
        let ghost id = context.id@;
        let branches = &self.view.branches;
        let n = branches.len();
        let mut names: Vec<FormattedString> = Vec::new();
        let mut i: usize = 0;
        while i < n
            invariant
                i <= n,
                ftv_list(names@) == branch_pieces(branches@.take(i as int), id),
            decreases n - i,
        {
            let ghost prefix = branches@.take(i as int);
            let ghost entry = branches@[i as int];
            proof {
                assert(prefix.push(entry) =~= branches@.take(i as int + 1));
                lemma_branch_pieces_push(prefix, entry, id);
            }
            let branch_name = &branches[i].0;
            let bt = &branches[i].1;
            match &bt.local_target {
                Some(local) => {
                    if local.has_add(&context.id) {
                        let mut pieces: Vec<FormattedString> = Vec::new();
                        pieces.push(FormattedString::from_text(branch_name.clone()));
                        if local.is_conflict() {
                            pieces.push(
                                FormattedString::from_text(
                                    String::from_str("??"),
                                ).prepend_label(String::from_str("divergent")),
                            );
                        } else if any_remote_differs(&bt.remote_targets, local) {
                            pieces.push(
                                FormattedString::from_text(String::from_str("*")).prepend_label(
                                    String::from_str("diff"),
                                ).prepend_label(String::from_str("remote")),
                            );
                        }
                        let piece = FormattedString::concat(pieces);
                        proof {
                            lemma_ftv_list(pieces@);
                            assert(ftv_list(pieces@) =~~= seq![FtView::Plain(entry.0@)]
                                + local_marker(entry.1.local_target->0@, entry.1.remote_targets@));
                            assert(piece@ =~~= local_piece(entry.0@, entry.1, id)[0]);
                            lemma_ftv_list_push(names@, piece);
                            assert(ftv_list(names@.push(piece)) =~= branch_pieces(prefix, id)
                                + local_piece(entry.0@, entry.1, id));
                        }
                        names.push(piece);
                    }
                },
                None => {},
            }
            proof {
                assert(ftv_list(names@) == branch_pieces(prefix, id) + local_piece(
                    entry.0@,
                    entry.1,
                    id,
                ));
                assert(entry.1.remote_targets@.take(0) =~= Seq::<(String, RefTarget)>::empty());
                assert(remote_pieces(entry.0@, entry.1.remote_targets@.take(0), entry.1.local_target, id)
                    == Seq::<FtView>::empty());
            }
            let m = bt.remote_targets.len();
            let mut j: usize = 0;
            while j < m
                invariant
                    j <= m,
                    ftv_list(names@) == branch_pieces(branches@.take(i as int), id) + local_piece(
                        branches@[i as int].0@,
                        branches@[i as int].1,
                        id,
                    ) + remote_pieces(
                        branches@[i as int].0@,
                        branches@[i as int].1.remote_targets@.take(j as int),
                        branches@[i as int].1.local_target,
                        id,
                    ),
                decreases m - j,
            {
                let ghost rprefix = entry.1.remote_targets@.take(j as int);
                let ghost rentry = entry.1.remote_targets@[j as int];
                proof {
                    assert(rprefix.push(rentry) =~= entry.1.remote_targets@.take(j as int + 1));
                    lemma_remote_pieces_push(entry.0@, rprefix, rentry, entry.1.local_target, id);
                }
                let remote = &bt.remote_targets[j];
                let differs = match &bt.local_target {
                    Some(l) => !(remote.1 == *l),
                    None => true,
                };
                if differs && remote.1.has_add(&context.id) {
                    let mut pieces: Vec<FormattedString> = Vec::new();
                    pieces.push(FormattedString::from_text(branch_name.clone()));
                    pieces.push(
                        FormattedString::from_text(String::from_str("@")).prepend_label(
                            String::from_str("separator"),
                        ),
                    );
                    pieces.push(
                        FormattedString::from_text(remote.0.clone()).prepend_label(
                            String::from_str("remote"),
                        ),
                    );
                    if remote.1.is_conflict() {
                        pieces.push(
                            FormattedString::from_text(String::from_str("??")).prepend_label(
                                String::from_str("divergent"),
                            ),
                        );
                    }
                    let piece = FormattedString::concat(pieces);
                    proof {
                        lemma_ftv_list(pieces@);
                        assert(ftv_list(pieces@) =~~= seq![
                            FtView::Plain(entry.0@),
                            FtView::Labeled(Box::new(FtView::Plain("@"@)), seq!["separator"@]),
                            FtView::Labeled(Box::new(FtView::Plain(rentry.0@)), seq!["remote"@]),
                        ] + if rentry.1@ is Conflict {
                            seq![
                                FtView::Labeled(
                                    Box::new(FtView::Plain("??"@)),
                                    seq!["divergent"@],
                                ),
                            ]
                        } else {
                            Seq::<FtView>::empty()
                        });
                        assert(piece@ =~~= remote_piece(entry.0@, rentry, entry.1.local_target, id)[0]);
                        lemma_ftv_list_push(names@, piece);
                        assert(ftv_list(names@.push(piece)) =~= branch_pieces(prefix, id)
                            + local_piece(entry.0@, entry.1, id) + remote_pieces(
                            entry.0@,
                            entry.1.remote_targets@.take(j as int + 1),
                            entry.1.local_target,
                            id,
                        ));
                    }
                    names.push(piece);
                } else {
                    proof {
                        assert(remote_piece(entry.0@, rentry, entry.1.local_target, id) =~= Seq::<
                            FtView,
                        >::empty());
                        assert(branch_pieces(prefix, id) + local_piece(entry.0@, entry.1, id)
                            + remote_pieces(
                            entry.0@,
                            entry.1.remote_targets@.take(j as int + 1),
                            entry.1.local_target,
                            id,
                        ) =~= ftv_list(names@));
                    }
                }
                j += 1;
            }
            proof {
                assert(entry.1.remote_targets@.take(m as int) =~= entry.1.remote_targets@);
                assert(ftv_list(names@) =~= branch_pieces(branches@.take(i as int + 1), id));
            }
            i += 1;
        }
        proof {
            assert(branches@.take(n as int) =~= branches@);
        }
        FormattedString::join(names, FormattedString::from_text(String::from_str(" ")))
    }
}

} // verus!
