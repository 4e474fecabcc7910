//! The explorer sidebar: file-tree rows (with in-place drafts for new
//! files, folders and renames) and the Changes panel's badges.
use vstd::prelude::*;
use crate::paths::{path_eq, path_eq_is_equivalence, paths_equal};
use crate::text::{decimal, dec_str};

verus! {

/// What an open inline draft creates or changes.
#[derive(Clone, Copy, Debug, PartialEq, Eq, Structural)]
pub enum DraftKind {
    NewFile,
    NewFolder,
    Rename,
}

/// An inline text-input draft in the file tree.
#[derive(Clone, Debug)]
pub struct Draft {
    pub kind: DraftKind,
    /// Directory a new file or folder goes into.
    pub dir: String,
    /// The node being renamed.
    pub target: Option<String>,
    pub text: String,
}

/// The `NEW`/`DIR`/`REN` badge text of a draft kind.
pub open spec fn spec_draft_glyph(kind: DraftKind) -> Seq<char> {
    match kind {
        DraftKind::NewFile => seq!['N', 'E', 'W'],
        DraftKind::NewFolder => seq!['D', 'I', 'R'],
        DraftKind::Rename => seq!['R', 'E', 'N'],
    }
}

/// The badge glyph for a draft.
pub fn draft_glyph(kind: DraftKind) -> (g: &'static str)
    ensures
        g@ == spec_draft_glyph(kind),
{
    proof {
        reveal_strlit("NEW");
        reveal_strlit("DIR");
        reveal_strlit("REN");
    }
    match kind {
        DraftKind::NewFile => "NEW",
        DraftKind::NewFolder => "DIR",
        DraftKind::Rename => "REN",
    }
}

/// The placeholder text of a draft's input.
pub open spec fn spec_draft_placeholder(kind: DraftKind) -> Seq<char> {
    match kind {
        DraftKind::NewFile => seq!['f', 'i', 'l', 'e', 'n', 'a', 'm', 'e', '.', 'r', 's'],
        DraftKind::NewFolder => seq!['f', 'o', 'l', 'd', 'e', 'r', ' ', 'n', 'a', 'm', 'e'],
        DraftKind::Rename => seq!['n', 'e', 'w', ' ', 'n', 'a', 'm', 'e'],
    }
}

/// The placeholder shown in a draft's empty input.
pub fn draft_placeholder(kind: DraftKind) -> (g: &'static str)
    ensures
        g@ == spec_draft_placeholder(kind),
{
    proof {
        reveal_strlit("filename.rs");
        reveal_strlit("folder name");
        reveal_strlit("new name");
    }
    match kind {
        DraftKind::NewFile => "filename.rs",
        DraftKind::NewFolder => "folder name",
        DraftKind::Rename => "new name",
    }
}

/// `draft` creates a new file or folder inside `dir`.
pub open spec fn spec_targets_dir(draft: Option<Draft>, dir: Seq<char>) -> bool {
    draft matches Some(d) && d.kind != DraftKind::Rename && path_eq(d.dir@, dir)
}

/// `true` when `draft` is a new-file/new-folder draft targeting `dir` —
/// the signal to insert the draft's input row at the top of that
/// directory's children.
pub fn draft_targets_dir(draft: Option<&Draft>, dir: &str) -> (b: bool)
    ensures
        b == spec_targets_dir(
            match draft {
                Some(d) => Some(*d),
                None => None,
            },
            dir@,
        ),
{
    match draft {
        Some(d) => d.kind != DraftKind::Rename && paths_equal(d.dir.as_str(), dir),
        None => false,
    }
}

/// `draft` renames the node at `path`.
pub open spec fn spec_renames(draft: Option<Draft>, path: Seq<char>) -> bool {
    draft matches Some(d) && d.kind == DraftKind::Rename && (d.target matches Some(t) && path_eq(
        t@,
        path,
    ))
}

/// `true` when `draft` is a rename in progress for `path` — the signal to
/// replace that node's own row with the draft's input.
pub fn draft_renames(draft: Option<&Draft>, path: &str) -> (b: bool)
    ensures
        b == spec_renames(
            match draft {
                Some(d) => Some(*d),
                None => None,
            },
            path@,
        ),
{
    match draft {
        Some(d) => d.kind == DraftKind::Rename && match &d.target {
            Some(t) => paths_equal(t.as_str(), path),
            None => false,
        },
        None => false,
    }
}

/// How a file differs from the repository's HEAD.
#[derive(Clone, Copy, Debug, PartialEq, Eq, Structural)]
pub enum ChangeKind {
    Modified,
    Added,
    Untracked,
    Deleted,
}

/// The theme color role a badge is drawn in.
#[derive(Clone, Copy, Debug, PartialEq, Eq, Structural)]
pub enum Tone {
    Warning,
    Success,
    Info,
    Danger,
}

/// The single-letter badge and its color role for a change kind.
pub open spec fn spec_kind_letter(kind: ChangeKind) -> (Seq<char>, Tone) {
    match kind {
        ChangeKind::Modified => (seq!['M'], Tone::Warning),
        ChangeKind::Added => (seq!['A'], Tone::Success),
        ChangeKind::Untracked => (seq!['U'], Tone::Info),
        ChangeKind::Deleted => (seq!['D'], Tone::Danger),
    }
}

/// The single-letter badge + its color role for a `ChangeKind`, shared by
/// the Changes panel rows and the file tree's per-file badges.
pub fn kind_letter(kind: ChangeKind) -> (r: (&'static str, Tone))
    ensures
        (r.0@, r.1) == spec_kind_letter(kind),
{
    proof {
        reveal_strlit("M");
        reveal_strlit("A");
        reveal_strlit("U");
        reveal_strlit("D");
    }
    match kind {
        ChangeKind::Modified => ("M", Tone::Warning),
        ChangeKind::Added => ("A", Tone::Success),
        ChangeKind::Untracked => ("U", Tone::Info),
        ChangeKind::Deleted => ("D", Tone::Danger),
    }
}

/// The `+N` / `−N` line-change labels of a Changes row, each only when
/// non-zero; `true` marks insertions.
pub open spec fn spec_change_stats(insertions: nat, deletions: nat) -> Seq<(bool, Seq<char>)> {
    (if insertions > 0 { seq![(true, seq!['+'] + dec_str(insertions))] } else { seq![] }) + (if deletions
        > 0 {
        seq![(false, seq!['\u{2212}'] + dec_str(deletions))]
    } else {
        seq![]
    })
}

/// The insertion and deletion counts shown on a Changes row.
pub fn change_stats(insertions: u64, deletions: u64) -> (r: Vec<(bool, String)>)
    ensures
        r@.map_values(|x: (bool, String)| (x.0, x.1@)) == spec_change_stats(
            insertions as nat,
            deletions as nat,
        ),
{
    proof {
        reveal_strlit("+");
        reveal_strlit("\u{2212}");
    }
    let mut r: Vec<(bool, String)> = Vec::new();
    if insertions > 0 {
        let mut s = "+".to_owned();
        s.append(decimal(insertions as u128).as_str());
        proof {
            assert(s@ =~= seq!['+'] + dec_str(insertions as nat));
        }
        r.push((true, s));
    }
    let ghost mid = r@.map_values(|x: (bool, String)| (x.0, x.1@));
    if deletions > 0 {
        let mut s = "\u{2212}".to_owned();
        s.append(decimal(deletions as u128).as_str());
        proof {
            assert(s@ =~= seq!['\u{2212}'] + dec_str(deletions as nat));
        }
        r.push((false, s));
        proof {
            assert(r@.map_values(|x: (bool, String)| (x.0, x.1@)) =~= mid.push(
                (false, seq!['\u{2212}'] + dec_str(deletions as nat)),
            ));
        }
    }
    proof {
        assert(r@.map_values(|x: (bool, String)| (x.0, x.1@)) =~= spec_change_stats(
            insertions as nat,
            deletions as nat,
        ));
    }
    r
}

/// A node of the project's file tree.
#[derive(Debug)]
pub enum Node {
    Dir { name: String, path: String, children: Vec<Node> },
    /// `badge` is the short language code shown before the name.
    File { name: String, path: String, badge: String },
}

/// What one file-tree row shows.
#[derive(Clone, Debug, PartialEq, Eq)]
pub enum TreeRowKind {
    /// The open draft's input row.
    Draft,
    /// A directory header with its disclosure state.
    Dir { name: String, path: String, collapsed: bool },
    /// A file with its language badge, whether it is the selected one,
    /// and its change badge.
    File { name: String, path: String, badge: String, selected: bool, change: Option<ChangeKind> },
}

/// One file-tree row at an indent depth.
#[derive(Clone, Debug, PartialEq, Eq)]
pub struct TreeRow {
    pub depth: usize,
    pub kind: TreeRowKind,
}

/// `TreeRowKind` with its strings as character sequences.
pub enum TreeRowView {
    Draft { depth: int },
    Dir { depth: int, name: Seq<char>, path: Seq<char>, collapsed: bool },
    File {
        depth: int,
        name: Seq<char>,
        path: Seq<char>,
        badge: Seq<char>,
        selected: bool,
        change: Option<ChangeKind>,
    },
}

impl View for TreeRow {
    type V = TreeRowView;

    open spec fn view(&self) -> TreeRowView {
        match self.kind {
            TreeRowKind::Draft => TreeRowView::Draft { depth: self.depth as int },
            TreeRowKind::Dir { name, path, collapsed } => TreeRowView::Dir {
                depth: self.depth as int,
                name: name@,
                path: path@,
                collapsed,
            },
            TreeRowKind::File { name, path, badge, selected, change } => TreeRowView::File {
                depth: self.depth as int,
                name: name@,
                path: path@,
                badge: badge@,
                selected,
                change,
            },
        }
    }
}

/// The views of `rows`, in order.
pub open spec fn tree_view(rows: Seq<TreeRow>) -> Seq<TreeRowView> {
    rows.map_values(|r: TreeRow| r@)
}

/// The per-render lookups the tree rows depend on.
#[derive(Clone, Debug)]
pub struct TreeCtx {
    /// The file selected in the editor.
    pub selected: Option<String>,
    /// Directories the user collapsed.
    pub collapsed_dirs: Vec<String>,
    /// Changed files and how they changed.
    pub changes: Vec<(String, ChangeKind)>,
    /// The open inline draft.
    pub draft: Option<Draft>,
}

impl TreeCtx {
    /// Each path has at most one recorded change and is collapsed at most
    /// once: the lookups these lists stand for hold each key once.
    pub open spec fn well_formed(&self) -> bool {
        &&& forall|i: int, j: int|
            #![trigger self.changes@[i], self.changes@[j]]
            0 <= i < j < self.changes@.len() ==> !path_eq(self.changes@[i].0@, self.changes@[j].0@)
        &&& forall|i: int, j: int|
            #![trigger self.collapsed_dirs@[i], self.collapsed_dirs@[j]]
            0 <= i < j < self.collapsed_dirs@.len() ==> !path_eq(
                self.collapsed_dirs@[i]@,
                self.collapsed_dirs@[j]@,
            )
    }
}

proof fn lemma_change_from_reaches(changes: Seq<(String, ChangeKind)>, path: Seq<char>, i: int, k: int)
    requires
        path_eq_is_equivalence(),
        forall|a: int, b: int|
            #![trigger changes[a], changes[b]]
            0 <= a < b < changes.len() ==> !path_eq(changes[a].0@, changes[b].0@),
        0 <= k <= i < changes.len(),
        path_eq(changes[i].0@, path),
    ensures
        change_from(changes, path, k) == Some(changes[i].1),
    decreases i - k,
{
    if path_eq(changes[k].0@, path) {
        if k < i {
            assert(path_eq(path, changes[i].0@));
            assert(path_eq(changes[k].0@, changes[i].0@));
            assert(!path_eq(changes[k].0@, changes[i].0@));
        }
    } else {
        lemma_change_from_reaches(changes, path, i, k + 1);
    }
}

/// Law: where path equality is an equivalence (as `Path`'s `Eq` promises)
/// and the context is well formed, the change shown for a path is the one
/// recorded for it, whichever entry of the list that is.
pub proof fn lemma_change_lookup(ctx: TreeCtx, path: Seq<char>, i: int)
    requires
        ctx.well_formed(),
        path_eq_is_equivalence(),
        0 <= i < ctx.changes@.len(),
        path_eq(ctx.changes@[i].0@, path),
    ensures
        change_from(ctx.changes@, path, 0) == Some(ctx.changes@[i].1),
{
    lemma_change_from_reaches(ctx.changes@, path, i, 0);
}

/// `path` is one of the collapsed directories.
pub open spec fn dir_collapsed(ctx: TreeCtx, path: Seq<char>) -> bool {
    exists|i: int| 0 <= i < ctx.collapsed_dirs@.len() && path_eq(#[trigger] ctx.collapsed_dirs@[i]@, path)
}

/// The change recorded for `path` among `changes[i..]`, if any.
pub open spec fn change_from(changes: Seq<(String, ChangeKind)>, path: Seq<char>, i: int) -> Option<
    ChangeKind,
>
    decreases changes.len() - i,
{
    if i < 0 || i >= changes.len() {
        None
    } else if path_eq(changes[i].0@, path) {
        Some(changes[i].1)
    } else {
        change_from(changes, path, i + 1)
    }
}

/// `path` is the selected file.
pub open spec fn is_selected(ctx: TreeCtx, path: Seq<char>) -> bool {
    ctx.selected matches Some(s) && path_eq(s@, path)
}

/// Rows of `node` at `depth`: a node being renamed is replaced by the
/// draft's input; a directory shows its header and, unless collapsed, the
/// draft's input (when the draft creates something inside it) followed by
/// its children one level deeper; a file shows its own row.
pub open spec fn tree_rows(node: Node, ctx: TreeCtx, depth: int) -> Seq<TreeRowView>
    decreases node, 1int, 0int,
{
    match node {
        Node::Dir { name, path, children } => if spec_renames(ctx.draft, path@) {
            seq![TreeRowView::Draft { depth }]
        } else {
            let c = dir_collapsed(ctx, path@);
            let header = TreeRowView::Dir { depth, name: name@, path: path@, collapsed: c };
            if c {
                seq![header]
            } else {
                let draft_row = if spec_targets_dir(ctx.draft, path@) {
                    seq![TreeRowView::Draft { depth: depth + 1 }]
                } else {
                    seq![]
                };
                seq![header] + draft_row + children_rows(node, children@.len() as int, ctx, depth + 1)
            }
        },
        Node::File { name, path, badge } => if spec_renames(ctx.draft, path@) {
            seq![TreeRowView::Draft { depth }]
        } else {
            seq![
                TreeRowView::File {
                    depth,
                    name: name@,
                    path: path@,
                    badge: badge@,
                    selected: is_selected(ctx, path@),
                    change: change_from(ctx.changes@, path@, 0),
                },
            ]
        },
    }
}

/// Rows of the first `i` children of the directory `node`, at `depth`.
pub open spec fn children_rows(node: Node, i: int, ctx: TreeCtx, depth: int) -> Seq<TreeRowView>
    decreases node, 0int, i,
{
    if i <= 0 {
        seq![]
    } else {
        match node {
            Node::Dir { children, .. } => if i <= children@.len() {
                children_rows(node, i - 1, ctx, depth) + tree_rows(children@[i - 1], ctx, depth)
            } else {
                seq![]
            },
            _ => seq![],
        }
    }
}

/// Nesting depth of directories below `node`.
pub open spec fn tree_height(node: Node) -> nat
    decreases node, 1int, 0int,
{
    match node {
        Node::Dir { children, .. } => 1 + children_height(node, children@.len() as int),
        _ => 0,
    }
}

/// The greatest height among the first `i` children of `node`.
pub open spec fn children_height(node: Node, i: int) -> nat
    decreases node, 0int, i,
{
    if i <= 0 {
        0
    } else {
        match node {
            Node::Dir { children, .. } => if i <= children@.len() {
                let h = tree_height(children@[i - 1]);
                let rest = children_height(node, i - 1);
                if h > rest {
                    h
                } else {
                    rest
                }
            } else {
                0
            },
            _ => 0,
        }
    }
}

proof fn lemma_children_height_mono(node: Node, i: int, j: int)
    requires
        i <= j,
        node matches Node::Dir { children, .. } && j <= children@.len(),
    ensures
        children_height(node, i) <= children_height(node, j),
    decreases j - i,
{
    if i < j {
        lemma_children_height_mono(node, i, j - 1);
    }
}

fn is_dir_collapsed(ctx: &TreeCtx, path: &str) -> (b: bool)
    ensures
        b == dir_collapsed(*ctx, path@),
{
    let n = ctx.collapsed_dirs.len();
    let mut i: usize = 0;
    while i < n
        invariant
            n == ctx.collapsed_dirs@.len(),
            i <= n,
            forall|j: int| 0 <= j < i ==> !path_eq(#[trigger] ctx.collapsed_dirs@[j]@, path@),
        decreases n - i,
    {
        if paths_equal(ctx.collapsed_dirs[i].as_str(), path) {
            return true;
        }
        i = i + 1;
    }
    false
}

fn change_for(ctx: &TreeCtx, path: &str) -> (c: Option<ChangeKind>)
    ensures
        c == change_from(ctx.changes@, path@, 0),
{
    let n = ctx.changes.len();
    let mut i: usize = 0;
    while i < n
        invariant
            n == ctx.changes@.len(),
            i <= n,
            change_from(ctx.changes@, path@, 0) == change_from(ctx.changes@, path@, i as int),
        decreases n - i,
    {
        if paths_equal(ctx.changes[i].0.as_str(), path) {
            return Some(ctx.changes[i].1);
        }
        i = i + 1;
    }
    None
}

fn selected_is(ctx: &TreeCtx, path: &str) -> (b: bool)
    ensures
        b == is_selected(*ctx, path@),
{
    match &ctx.selected {
        Some(s) => paths_equal(s.as_str(), path),
        None => false,
    }
}

proof fn lemma_tree_view_push(rows: Seq<TreeRow>, r: TreeRow)
    ensures
        tree_view(rows.push(r)) == tree_view(rows).push(r@),
{
    assert(tree_view(rows.push(r)) =~= tree_view(rows).push(r@));
}

/// Appends the rows of `node` (at indent `depth`) to `out`, recursing into
/// expanded directories.
pub fn node_view(node: &Node, depth: usize, ctx: &TreeCtx, out: &mut Vec<TreeRow>)
    requires
        ctx.well_formed(),
        depth + tree_height(*node) <= usize::MAX,
    ensures
        tree_view(final(out)@) == tree_view(old(out)@) + tree_rows(*node, *ctx, depth as int),
    decreases node,
{
    let ghost start = tree_view(out@);
    let draft = match &ctx.draft {
        Some(d) => Some(d),
        None => None,
    };
    match node {
        Node::Dir { name, path, children } => {
            if draft_renames(draft, path.as_str()) {
                let row = TreeRow { depth, kind: TreeRowKind::Draft };
                let ghost pre = out@;
                out.push(row);
                proof {
                    lemma_tree_view_push(pre, row);
                }
                return;
            }
            let collapsed = is_dir_collapsed(ctx, path.as_str());
            let header = TreeRow {
                depth,
                kind: TreeRowKind::Dir { name: name.clone(), path: path.clone(), collapsed },
            };
            let ghost pre = out@;
            out.push(header);
            proof {
                lemma_tree_view_push(pre, header);
            }
            if collapsed {
                return;
            }
            if draft_targets_dir(draft, path.as_str()) {
                let row = TreeRow { depth: depth + 1, kind: TreeRowKind::Draft };
                let ghost pre = out@;
                out.push(row);
                proof {
                    lemma_tree_view_push(pre, row);
                }
            }
            let ghost head = tree_view(out@);
            let n = children.len();
            let mut i: usize = 0;
            proof {
                assert(head + children_rows(*node, 0, *ctx, depth as int + 1) =~= head);
            }
            while i < n
                invariant
                    i <= n,
                    n == children@.len(),
                    *node == (Node::Dir { name: *name, path: *path, children: *children }),
                    depth + tree_height(*node) <= usize::MAX,
                    tree_view(out@) == head + children_rows(*node, i as int, *ctx, depth as int + 1),
                    ctx.well_formed(),
                decreases n - i,
            {
                proof {
                    lemma_children_height_mono(*node, i as int + 1, n as int);
                    assert(decreases_to!(*node => node->Dir_children));
                    assert(decreases_to!(*children => children@));
                    assert(decreases_to!(children@ => children@[i as int]));
                }
                node_view(&children[i], depth + 1, ctx, out);
                proof {
                    assert(tree_view(out@) =~= head + children_rows(*node, i as int + 1, *ctx, depth as int + 1));
                }
                i = i + 1;
            }
            proof {
                assert(tree_view(out@) =~= start + tree_rows(*node, *ctx, depth as int));
            }
        },
        Node::File { name, path, badge } => {
            let row = if draft_renames(draft, path.as_str()) {
                TreeRow { depth, kind: TreeRowKind::Draft }
            } else {
                TreeRow {
                    depth,
                    kind: TreeRowKind::File {
                        name: name.clone(),
                        path: path.clone(),
                        badge: badge.clone(),
                        selected: selected_is(ctx, path.as_str()),
                        change: change_for(ctx, path.as_str()),
                    },
                }
            };
            let ghost pre = out@;
            out.push(row);
            proof {
                lemma_tree_view_push(pre, row);
            }
        },
    }
}

/// Whether no two of `paths` name the same path.
fn all_distinct(paths: &Vec<String>) -> (b: bool)
    ensures
        b == forall|i: int, j: int|
            #![trigger paths@[i], paths@[j]]
            0 <= i < j < paths@.len() ==> !path_eq(paths@[i]@, paths@[j]@),
{
    let n = paths.len();
    let mut j: usize = 0;
    while j < n
        invariant
            n == paths@.len(),
            j <= n,
            forall|a: int, b: int| #![trigger paths@[a], paths@[b]] 0 <= a < b < j ==> !path_eq(paths@[a]@, paths@[b]@),
        decreases n - j,
    {
        let mut i: usize = 0;
        while i < j
            invariant
                n == paths@.len(),
                i <= j < n,
                forall|a: int| 0 <= a < i ==> !path_eq(#[trigger] paths@[a]@, paths@[j as int]@),
            decreases j - i,
        {
            if paths_equal(paths[i].as_str(), paths[j].as_str()) {
                return false;
            }
            i = i + 1;
        }
        j = j + 1;
    }
    true
}

/// The changed paths of `changes`, in order.
fn change_paths(changes: &Vec<(String, ChangeKind)>) -> (ps: Vec<String>)
    ensures
        ps@.len() == changes@.len(),
        forall|i: int| 0 <= i < ps@.len() ==> #[trigger] ps@[i]@ == changes@[i].0@,
{
    let mut ps: Vec<String> = Vec::new();
    let n = changes.len();
    let mut i: usize = 0;
    while i < n
        invariant
            n == changes@.len(),
            i <= n,
            ps@.len() == i,
            forall|k: int| 0 <= k < i ==> #[trigger] ps@[k]@ == changes@[k].0@,
        decreases n - i,
    {
        ps.push(changes[i].0.clone());
        i = i + 1;
    }
    ps
}

/// Whether `ctx` lists no path twice among its changes or its collapsed
/// folders.
pub fn ctx_well_formed(ctx: &TreeCtx) -> (b: bool)
    ensures
        b == ctx.well_formed(),
{
    let ps = change_paths(&ctx.changes);
    let changes_ok = all_distinct(&ps);
    proof {
        if changes_ok {
            assert forall|i: int, j: int| 0 <= i < j < ctx.changes@.len() implies !path_eq(
                #[trigger] ctx.changes@[i].0@,
                #[trigger] ctx.changes@[j].0@,
            ) by {
                assert(ps@[i]@ == ctx.changes@[i].0@);
                assert(ps@[j]@ == ctx.changes@[j].0@);
            }
        } else {
            let (i, j) = choose|i: int, j: int| 0 <= i < j < ps@.len() && path_eq(ps@[i]@, ps@[j]@);
            assert(ps@[i]@ == ctx.changes@[i].0@);
            assert(ps@[j]@ == ctx.changes@[j].0@);
            assert(path_eq(ctx.changes@[i].0@, ctx.changes@[j].0@));
        }
    }
    changes_ok && all_distinct(&ctx.collapsed_dirs)
}

/// The file-tree rows of `node` for a context checked first: `None` where
/// the context lists a path twice among its changes or collapsed folders
/// (which `node_view` rules out).
pub fn tree_rows_checked(node: &Node, ctx: &TreeCtx) -> (rows: Option<Vec<TreeRow>>)
    requires
        tree_height(*node) <= usize::MAX,
    ensures
        match rows {
            Some(v) => ctx.well_formed() && tree_view(v@) == tree_rows(*node, *ctx, 0),
            None => !ctx.well_formed(),
        },
{
    if !ctx_well_formed(ctx) {
        return None;
    }
    let mut out: Vec<TreeRow> = Vec::new();
    node_view(node, 0, ctx, &mut out);
    proof {
        assert(tree_view(Seq::<TreeRow>::empty()) =~= Seq::<TreeRowView>::empty());
        assert(Seq::<TreeRowView>::empty() + tree_rows(*node, *ctx, 0) =~= tree_rows(*node, *ctx, 0));
    }
    Some(out)
}

/// One changed file of the working tree, as the Changes panel lists it.
#[derive(Clone, Debug)]
pub struct ChangesEntry {
    pub path: String,
    pub kind: ChangeKind,
    pub insertions: usize,
    pub deletions: usize,
}

/// The lines inserted, and deleted, over all of `entries`.
pub open spec fn total_changes(entries: Seq<ChangesEntry>) -> (nat, nat)
    decreases entries.len(),
{
    if entries.len() == 0 {
        (0, 0)
    } else {
        let rest = total_changes(entries.drop_last());
        (rest.0 + entries.last().insertions as nat, rest.1 + entries.last().deletions as nat)
    }
}

proof fn lemma_total_changes_prefix(entries: Seq<ChangesEntry>, i: int, j: int)
    requires
        0 <= i <= j <= entries.len(),
    ensures
        total_changes(entries.take(i)).0 <= total_changes(entries.take(j)).0,
        total_changes(entries.take(i)).1 <= total_changes(entries.take(j)).1,
    decreases j - i,
{
    if i < j {
        lemma_total_changes_prefix(entries, i, j - 1);
        assert(entries.take(j).drop_last() =~= entries.take(j - 1));
    }
}

/// The Changes header's totals: lines inserted and deleted over every
/// changed file.
pub fn change_totals(entries: &[ChangesEntry]) -> (r: (usize, usize))
    requires
        total_changes(entries@).0 <= usize::MAX,
        total_changes(entries@).1 <= usize::MAX,
    ensures
        (r.0 as nat, r.1 as nat) == total_changes(entries@),
{
    let n = entries.len();
    let mut ins: usize = 0;
    let mut del: usize = 0;
    let mut i: usize = 0;
    proof {
        assert(entries@.take(0) =~= Seq::<ChangesEntry>::empty());
        assert(entries@.take(n as int) =~= entries@);
    }
    while i < n
        invariant
            n == entries@.len(),
            i <= n,
            (ins as nat, del as nat) == total_changes(entries@.take(i as int)),
            total_changes(entries@.take(n as int)).0 <= usize::MAX,
            total_changes(entries@.take(n as int)).1 <= usize::MAX,
        decreases n - i,
    {
        proof {
            lemma_total_changes_prefix(entries@, i + 1, n as int);
            assert(entries@.take(i + 1).drop_last() =~= entries@.take(i as int));
        }
        ins = ins + entries[i].insertions;
        del = del + entries[i].deletions;
        i = i + 1;
    }
    (ins, del)
}

/// `"CHANGES [N]"`: the Changes header's title for `count` changed files.
pub fn changes_title(count: usize) -> (s: String)
    ensures
        s@ == "CHANGES ["@ + dec_str(count as nat) + "]"@,
{
    let mut s = "CHANGES [".to_owned();
    s.append(decimal(count as u128).as_str());
    s.append("]");
    s
}

/// The disclosure triangle of a collapsible header.
pub fn disclosure_glyph(open: bool) -> (g: &'static str)
    ensures
        g@ == (if open { "\u{25be}"@ } else { "\u{25b8}"@ }),
{
    if open {
        "\u{25be}"
    } else {
        "\u{25b8}"
    }
}

/// The branch line of the sidebar's git header: the branch name, or
/// `"detached HEAD"` without one.
pub fn branch_label(branch: Option<&str>) -> (s: String)
    ensures
        s@ == match branch {
            Some(b) => b@,
            None => "detached HEAD"@,
        },
{
    match branch {
        Some(b) => b.to_owned(),
        None => "detached HEAD".to_owned(),
    }
}

/// `"▲A ▼B"`: how far the branch is ahead of and behind its upstream.
pub fn ahead_behind_label(ahead: usize, behind: usize) -> (s: String)
    ensures
        s@ == "\u{25b2}"@ + dec_str(ahead as nat) + " \u{25bc}"@ + dec_str(behind as nat),
{
    let mut s = "\u{25b2}".to_owned();
    s.append(decimal(ahead as u128).as_str());
    s.append(" \u{25bc}");
    s.append(decimal(behind as u128).as_str());
    s
}

/// The question asked before discarding the changes to the file `name`.
pub fn discard_prompt(name: &str) -> (s: String)
    ensures
        s@ == "Discard changes to "@ + name@ + "?"@,
{
    let mut s = "Discard changes to ".to_owned();
    s.append(name);
    s.append("?");
    s
}

/// The question the file tree's context menu asks before deleting a
/// folder (with everything in it) or a file.
pub fn delete_prompt(is_dir: bool) -> (s: &'static str)
    ensures
        s@ == (if is_dir { "Delete this folder and everything in it?"@ } else { "Delete this file?"@ }),
{
    if is_dir {
        "Delete this folder and everything in it?"
    } else {
        "Delete this file?"
    }
}

} // verus!
