//! The repository state model that the property extractors read.
//!
//! These are plain-value snapshots of what the repository collaborators
//! expose: commits, signatures, ref targets, the view of branches, tags,
//! git refs and working copies, and the reported shortest-unique-prefix
//! lengths. The driver fills them in and hands them to the renderer, which
//! never mutates them.

use vstd::prelude::*;

verus! {

/// An instant in time with its display time zone offset.
#[derive(Clone, Copy, PartialEq, Eq, Structural, Debug)]
pub struct Timestamp {
    pub millis_since_epoch: i64,
    pub tz_offset_minutes: i32,
}

/// Who wrote or committed: display name, address, and when.
#[derive(Debug)]
pub struct Signature {
    pub name: String,
    pub email: String,
    pub timestamp: Timestamp,
}

/// The model of a `Signature`.
#[verifier::ext_equal]
pub struct SigView {
    pub name: Seq<char>,
    pub email: Seq<char>,
    pub timestamp: Timestamp,
}

impl View for Signature {
    type V = SigView;

    open spec fn view(&self) -> SigView {
        SigView { name: self.name@, email: self.email@, timestamp: self.timestamp }
    }
}

impl Clone for Signature {
    /// A clone models the same signature.
    fn clone(&self) -> (r: Self)
        ensures
            r@ == self@,
    {
        Signature {
            name: self.name.clone(),
            email: self.email.clone(),
            timestamp: self.timestamp,
        }
    }
}

/// A commit as the driver supplies it: identifiers, description, signatures,
/// and what the tree collaborators report about its tree.
#[derive(Debug)]
pub struct Commit {
    pub id: Vec<u8>,
    pub change_id: Vec<u8>,
    pub description: String,
    pub author: Signature,
    pub committer: Signature,
    pub tree_id: Vec<u8>,
    /// The id of the tree obtained by merging all parent trees, as the
    /// tree-merge collaborator reports it.
    pub parent_tree_id: Vec<u8>,
    /// Whether the commit's tree records an unresolved content conflict.
    pub tree_has_conflict: bool,
}

/// Byte-for-byte equality of two identifiers.
pub fn bytes_eq(a: &Vec<u8>, b: &Vec<u8>) -> (r: bool)
    ensures
        r == (a@ == b@),
{
    if a.len() != b.len() {
        return false;
    }
    let n = a.len();
    let mut i: usize = 0;
    while i < n
        invariant
            n == a@.len(),
            a@.len() == b@.len(),
            i <= n,
            forall|j: int| 0 <= j < i ==> a@[j] == b@[j],
        decreases n - i,
    {
        if a[i] != b[i] {
            return false;
        }
        i += 1;
    }
    proof {
        assert(a@ =~= b@);
    }
    true
}

/// Copies an identifier.
pub fn clone_bytes(v: &Vec<u8>) -> (r: Vec<u8>)
    ensures
        r@ == v@,
{
    let n = v.len();
    let mut r: Vec<u8> = Vec::new();
    let mut i: usize = 0;
    while i < n
        invariant
            n == v@.len(),
            i <= n,
            r@ == v@.take(i as int),
        decreases n - i,
    {
        r.push(v[i]);
        proof {
            assert(v@.take(i as int).push(v@[i as int]) =~= v@.take(i as int + 1));
        }
        i += 1;
    }
    proof {
        assert(v@.take(n as int) =~= v@);
    }
    r
}

/// The models of a list of identifiers.
pub open spec fn ids_view(s: Seq<Vec<u8>>) -> Seq<Seq<u8>> {
    s.map_values(|v: Vec<u8>| v@)
}

/// Whether `id` occurs in the list.
pub open spec fn id_in(ids: Seq<Seq<u8>>, id: Seq<u8>) -> bool {
    exists|i: int| 0 <= i < ids.len() && ids[i] == id
}

/// Byte-for-byte membership of an identifier in a list.
pub fn ids_contain(ids: &Vec<Vec<u8>>, id: &Vec<u8>) -> (r: bool)
    ensures
        r == id_in(ids_view(ids@), id@),
{
    let n = ids.len();
    let mut i: usize = 0;
    while i < n
        invariant
            n == ids@.len(),
            i <= n,
            forall|j: int| 0 <= j < i ==> ids_view(ids@)[j] != id@,
        decreases n - i,
    {
        if bytes_eq(&ids[i], id) {
            proof {
                assert(ids_view(ids@)[i as int] == id@);
            }
            return true;
        }
        proof {
            assert(ids_view(ids@)[i as int] == ids@[i as int]@);
        }
        i += 1;
    }
    false
}

/// Elementwise equality of two identifier lists.
pub fn id_lists_eq(a: &Vec<Vec<u8>>, b: &Vec<Vec<u8>>) -> (r: bool)
    ensures
        r == (ids_view(a@) == ids_view(b@)),
{
    if a.len() != b.len() {
        proof {
            assert(ids_view(a@).len() == a@.len());
            assert(ids_view(b@).len() == b@.len());
        }
        return false;
    }
    let n = a.len();
    let mut i: usize = 0;
    while i < n
        invariant
            n == a@.len(),
            a@.len() == b@.len(),
            i <= n,
            forall|j: int| 0 <= j < i ==> ids_view(a@)[j] == ids_view(b@)[j],
        decreases n - i,
    {
        if !bytes_eq(&a[i], &b[i]) {
            proof {
                assert(ids_view(a@)[i as int] == a@[i as int]@);
                assert(ids_view(b@)[i as int] == b@[i as int]@);
            }
            return false;
        }
        proof {
            assert(ids_view(a@)[i as int] == a@[i as int]@);
            assert(ids_view(b@)[i as int] == b@[i as int]@);
        }
        i += 1;
    }
    proof {
        assert(ids_view(a@) =~= ids_view(b@));
    }
    true
}

/// What a ref points at: a single commit, or several divergent commits when
/// the ref is conflicted.
#[derive(Debug)]
pub enum RefTarget {
    Normal(Vec<u8>),
    Conflict { removes: Vec<Vec<u8>>, adds: Vec<Vec<u8>> },
}

/// The model of a `RefTarget`.
#[verifier::ext_equal]
pub enum TargetView {
    Normal(Seq<u8>),
    Conflict { removes: Seq<Seq<u8>>, adds: Seq<Seq<u8>> },
}

impl View for RefTarget {
    type V = TargetView;

    open spec fn view(&self) -> TargetView {
        match self {
            RefTarget::Normal(id) => TargetView::Normal(id@),
            RefTarget::Conflict { removes, adds } => TargetView::Conflict {
                removes: ids_view(removes@),
                adds: ids_view(adds@),
            },
        }
    }
}

/// Whether the target added `id`: a normal target added exactly the commit
/// it points at, a conflicted target added each id on its add side.
pub open spec fn target_has_add(t: TargetView, id: Seq<u8>) -> bool {
    match t {
        TargetView::Normal(c) => c == id,
        TargetView::Conflict { adds, .. } => id_in(adds, id),
    }
}

impl RefTarget {
    /// True when this target added the commit with the given id.
    pub fn has_add(&self, id: &Vec<u8>) -> (r: bool)
        ensures
            r == target_has_add(self@, id@),
    {
        match self {
            RefTarget::Normal(c) => bytes_eq(c, id),
            RefTarget::Conflict { adds, .. } => ids_contain(adds, id),
        }
    }

    /// True when this target points at multiple divergent commits.
    pub fn is_conflict(&self) -> (r: bool)
        ensures
            r == (self@ is Conflict),
    {
        match self {
            RefTarget::Normal(_) => false,
            RefTarget::Conflict { .. } => true,
        }
    }
}

impl PartialEq for RefTarget {
    fn eq(&self, other: &RefTarget) -> (r: bool) {
        match (self, other) {
            (RefTarget::Normal(a), RefTarget::Normal(b)) => bytes_eq(a, b),
            (
                RefTarget::Conflict { removes: r1, adds: a1 },
                RefTarget::Conflict { removes: r2, adds: a2 },
            ) => id_lists_eq(r1, r2) && id_lists_eq(a1, a2),
            _ => false,
        }
    }
}

impl vstd::std_specs::cmp::PartialEqSpecImpl for RefTarget {
    open spec fn obeys_eq_spec() -> bool {
        true
    }

    open spec fn eq_spec(&self, other: &RefTarget) -> bool {
        self@ == other@
    }
}

/// The local and per-remote targets of one branch.
#[derive(Debug)]
pub struct BranchTarget {
    pub local_target: Option<RefTarget>,
    pub remote_targets: Vec<(String, RefTarget)>,
}

/// Read-only snapshot of the repository view during one render pass.
#[derive(Debug)]
pub struct RepoView {
    pub branches: Vec<(String, BranchTarget)>,
    pub tags: Vec<(String, RefTarget)>,
    pub git_refs: Vec<(String, RefTarget)>,
    pub git_head: Option<Vec<u8>>,
    /// One entry per workspace: workspace name and its working-copy commit,
    /// in the order the driver supplies them.
    pub wc_commit_ids: Vec<(String, Vec<u8>)>,
}

/// The first reported prefix length for `id`, if any.
pub open spec fn prefix_lookup(entries: Seq<(Vec<u8>, usize)>, id: Seq<u8>) -> Option<usize>
    decreases entries.len(),
{
    if entries.len() == 0 {
        None
    } else if entries[0].0@ == id {
        Some(entries[0].1)
    } else {
        prefix_lookup(entries.subrange(1, entries.len() as int), id)
    }
}

/// The shortest-unique-prefix lengths that the identifier-index collaborator
/// reports, one entry per known identifier.
#[derive(Debug)]
pub struct PrefixIndex {
    pub entries: Vec<(Vec<u8>, usize)>,
}

impl PrefixIndex {
    /// The reported shortest unique prefix length of `id`, if it is known.
    pub fn lookup(&self, id: &Vec<u8>) -> (r: Option<usize>)
        ensures
            r == prefix_lookup(self.entries@, id@),
    {
        let n = self.entries.len();
        let mut i: usize = 0;
        proof {
            assert(self.entries@.subrange(0, n as int) =~= self.entries@);
        }
        while i < n
            invariant
                n == self.entries@.len(),
                i <= n,
                prefix_lookup(self.entries@, id@) == prefix_lookup(
                    self.entries@.subrange(i as int, n as int),
                    id@,
                ),
            decreases n - i,
        {
            let ghost rest = self.entries@.subrange(i as int, n as int);
            proof {
                assert(rest[0] == self.entries@[i as int]);
                assert(rest.subrange(1, rest.len() as int) =~= self.entries@.subrange(
                    i as int + 1,
                    n as int,
                ));
            }
            if bytes_eq(&self.entries[i].0, id) {
                return Some(self.entries[i].1);
            }
            i += 1;
        }
        proof {
            assert(self.entries@.subrange(n as int, n as int) =~= Seq::<(Vec<u8>, usize)>::empty());
        }
        None
    }
}

} // verus!
