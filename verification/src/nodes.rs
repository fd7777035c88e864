//! The tree of nodes of a shared folder.
use crate::link::optional_view;
use crate::names::{component, is_component, sanitize_component};
use crate::settings::copy_text;
use crate::text::{same_text, views};
use crate::textmap::TextMap;
use vstd::prelude::*;

verus! {

/// The kind of a node that is a file.
pub const FILE_NODE: u8 = 0;

/// The kind of a node that is a folder.
pub const FOLDER_NODE: u8 = 1;

/// A file or a folder of a shared folder.
#[derive(Debug)]
pub struct FolderNode {
    pub name: String,
    /// The handle of the folder that it stands in.
    pub parent: Option<String>,
    pub kind: u8,
}

/// The mathematical form of a `FolderNode`.
pub struct NodeView {
    pub name: Seq<char>,
    pub parent: Option<Seq<char>>,
    pub kind: u8,
}

impl View for FolderNode {
    type V = NodeView;

    open spec fn view(&self) -> NodeView {
        NodeView { name: self.name@, parent: optional_view(self.parent), kind: self.kind }
    }
}

/// The nodes of a shared folder by their handles.
pub open spec fn node_views(nodes: Map<Seq<char>, FolderNode>) -> Map<Seq<char>, NodeView> {
    nodes.map_values(|node: FolderNode| node@)
}

/// The folder that a node stands in, as far as it is known.
pub open spec fn parent_of(nodes: Map<Seq<char>, NodeView>, handle: Seq<char>) -> Option<
    Seq<char>,
> {
    if nodes.contains_key(handle) {
        nodes[handle].parent
    } else {
        None
    }
}

/// What is reached from a node by going up `n` times.
pub open spec fn ancestor(nodes: Map<Seq<char>, NodeView>, handle: Seq<char>, n: nat) -> Option<
    Seq<char>,
>
    decreases n,
{
    if n == 0 {
        Some(handle)
    } else {
        match ancestor(nodes, handle, (n - 1) as nat) {
            Some(below) => parent_of(nodes, below),
            None => None,
        }
    }
}

/// Whether going up `n` times ends at the top or at `stop`.
pub open spec fn ends_after(
    nodes: Map<Seq<char>, NodeView>,
    handle: Seq<char>,
    stop: Seq<char>,
    n: nat,
) -> bool {
    1 <= n && (ancestor(nodes, handle, n) is None || ancestor(nodes, handle, n) == Some(stop))
}

/// Whether going up from a node ends at the top or at `stop`, and not in a circle.
pub open spec fn walk_ends(
    nodes: Map<Seq<char>, NodeView>,
    handle: Seq<char>,
    stop: Seq<char>,
) -> bool {
    exists|n: nat| #[trigger] ends_after(nodes, handle, stop, n)
}

/// Whether `above` is reached from a node by going up.
pub open spec fn is_below(
    nodes: Map<Seq<char>, NodeView>,
    handle: Seq<char>,
    above: Seq<char>,
) -> bool {
    exists|n: nat| 1 <= n && #[trigger] ancestor(nodes, handle, n) == Some(above)
}

/// Above the top there is nothing.
proof fn lemma_nothing_above(
    nodes: Map<Seq<char>, NodeView>,
    handle: Seq<char>,
    n: nat,
    m: nat,
)
    requires
        n <= m,
        ancestor(nodes, handle, n) is None,
    ensures
        ancestor(nodes, handle, m) is None,
    decreases m,
{
    if n < m {
        lemma_nothing_above(nodes, handle, n, (m - 1) as nat);
    }
}

/// From the same node the same nodes are reached.
proof fn lemma_repeats(
    nodes: Map<Seq<char>, NodeView>,
    handle: Seq<char>,
    i: nat,
    j: nat,
    k: nat,
)
    requires
        ancestor(nodes, handle, i) == ancestor(nodes, handle, j),
    ensures
        ancestor(nodes, handle, i + k) == ancestor(nodes, handle, j + k),
    decreases k,
{
    if k > 0 {
        lemma_repeats(nodes, handle, i, j, (k - 1) as nat);
        assert((i + k - 1) as nat == i + (k - 1) as nat);
        assert((j + k - 1) as nat == j + (k - 1) as nat);
    }
}

/// Where a walk comes by a node twice without having ended in between, it never ends.
proof fn lemma_circle_never_ends(
    nodes: Map<Seq<char>, NodeView>,
    handle: Seq<char>,
    stop: Seq<char>,
    i: nat,
    j: nat,
    n: nat,
)
    requires
        i < j,
        ancestor(nodes, handle, i) == ancestor(nodes, handle, j),
        forall|m: nat| 1 <= m <= j ==> !#[trigger] ends_after(nodes, handle, stop, m),
    ensures
        !ends_after(nodes, handle, stop, n),
    decreases n,
{
    if n > j {
        let back = (n - (j - i)) as nat;
        lemma_circle_never_ends(nodes, handle, stop, i, j, back);
        lemma_repeats(nodes, handle, i, j, (n - j) as nat);
        assert(i + (n - j) as nat == back);
        assert(j + (n - j) as nat == n);
        assert(1 <= back);
        assert(ends_after(nodes, handle, stop, n) == ends_after(nodes, handle, stop, back));
    }
}

/// A walk that has not ended after one step more than there are nodes never ends.
pub proof fn long_walks_never_end(
    nodes: Map<Seq<char>, NodeView>,
    handle: Seq<char>,
    stop: Seq<char>,
)
    requires
        nodes.dom().finite(),
        forall|m: nat|
            1 <= m <= nodes.dom().len() + 1 ==> !#[trigger] ends_after(nodes, handle, stop, m),
    ensures
        !walk_ends(nodes, handle, stop),
{
    let count = nodes.dom().len();
    let passed = Seq::new(count + 1, |i: int| ancestor(nodes, handle, i as nat)->0);
    assert forall|i: int| 0 <= i < passed.len() implies nodes.dom().contains(#[trigger] passed[i])
        && ancestor(nodes, handle, i as nat) == Some(passed[i]) by {
        assert(!ends_after(nodes, handle, stop, (i + 1) as nat));
        assert(ancestor(nodes, handle, (i + 1) as nat) is Some);
        assert(((i + 1) as nat - 1) as nat == i as nat);
        assert(ancestor(nodes, handle, i as nat) is Some);
    }
    if passed.no_duplicates() {
        passed.unique_seq_to_set();
        assert(passed.to_set().subset_of(nodes.dom())) by {
            assert forall|h: Seq<char>| passed.to_set().contains(h) implies nodes.dom().contains(
                h,
            ) by {
                let i = choose|i: int| 0 <= i < passed.len() && passed[i] == h;
                assert(nodes.dom().contains(passed[i]));
            }
        }
        vstd::set_lib::lemma_len_subset(passed.to_set(), nodes.dom());
        assert(false);
    } else {
        let (a, b) = choose|a: int, b: int|
            0 <= a < passed.len() && 0 <= b < passed.len() && a != b && passed[a] == passed[b];
        let i = if a < b {
            a
        } else {
            b
        };
        let j = if a < b {
            b
        } else {
            a
        };
        assert(nodes.dom().contains(passed[i]) && nodes.dom().contains(passed[j]));
        assert forall|n: nat| !#[trigger] ends_after(nodes, handle, stop, n) by {
            lemma_circle_never_ends(nodes, handle, stop, i as nat, j as nat, n);
        }
    }
}

/// A copy of the handle of the folder that a node stands in.
fn parent_in(nodes: &TextMap<FolderNode>, handle: &str) -> (parent: Option<String>)
    requires
        nodes.wf(),
    ensures
        optional_view(parent) == parent_of(node_views(nodes@), handle@),
{
    match nodes.get(handle) {
        Some(node) => copy_text(&node.parent),
        None => None,
    }
}

/// Whether going up from a node ends at the top or at `stop`, and not in a circle.
pub fn has_end(handle: &str, stop: &str, nodes: &TextMap<FolderNode>) -> (ends: bool)
    requires
        nodes.wf(),
    ensures
        ends == walk_ends(node_views(nodes@), handle@, stop@),
{
    let ghost tree = node_views(nodes@);
    let count: usize = nodes.entries.len();
    proof {
        nodes.lemma_len();
        assert(tree.dom() == nodes@.dom());
    }
    let mut current = parent_in(nodes, handle);
    reveal_with_fuel(ancestor, 2);
    let mut i: usize = 0;
    loop
        invariant
            nodes.wf(),
            tree == node_views(nodes@),
            tree.dom().finite(),
            count == tree.dom().len(),
            i <= count,
            optional_view(current) == ancestor(tree, handle@, (i + 1) as nat),
            forall|m: nat| 1 <= m <= i ==> !#[trigger] ends_after(tree, handle@, stop@, m),
        decreases count - i,
    {
        match &current {
            None => {
                assert(ends_after(tree, handle@, stop@, (i + 1) as nat));
                return true;
            },
            Some(parent) => {
                if same_text(parent, stop) {
                    assert(ends_after(tree, handle@, stop@, (i + 1) as nat));
                    return true;
                }
                if i == count {
                    proof {
                        long_walks_never_end(tree, handle@, stop@);
                    }
                    return false;
                }
                let next = parent_in(nodes, parent);
                assert(((i + 2) as nat - 1) as nat == (i + 1) as nat);
                assert(optional_view(next) == ancestor(tree, handle@, (i + 2) as nat));
                current = next;
                i = i + 1;
            },
        }
    }
}

/// Whether a node stands somewhere below another.
pub fn is_descendant_of(
    handle: &str,
    ancestor_handle: &str,
    nodes: &TextMap<FolderNode>,
) -> (below: bool)
    requires
        nodes.wf(),
        walk_ends(node_views(nodes@), handle@, ancestor_handle@),
    ensures
        below == is_below(node_views(nodes@), handle@, ancestor_handle@),
{
    let ghost tree = node_views(nodes@);
    let ghost end = choose|n: nat| #[trigger] ends_after(tree, handle@, ancestor_handle@, n);
    let ghost mut i: nat = 1;
    let mut current = parent_in(nodes, handle);
    reveal_with_fuel(ancestor, 2);
    loop
        invariant
            nodes.wf(),
            tree == node_views(nodes@),
            ends_after(tree, handle@, ancestor_handle@, end),
            1 <= i <= end,
            optional_view(current) == ancestor(tree, handle@, i),
            forall|m: nat|
                1 <= m < i ==> #[trigger] ancestor(tree, handle@, m) != Some(ancestor_handle@),
        decreases end - i,
    {
        match &current {
            None => {
                assert(!is_below(tree, handle@, ancestor_handle@)) by {
                    if is_below(tree, handle@, ancestor_handle@) {
                        let n = choose|n: nat|
                            1 <= n && #[trigger] ancestor(tree, handle@, n) == Some(
                                ancestor_handle@,
                            );
                        if n >= i {
                            lemma_nothing_above(tree, handle@, i, n);
                        }
                    }
                }
                return false;
            },
            Some(parent) => {
                if same_text(parent, ancestor_handle) {
                    return true;
                }
                let next = parent_in(nodes, parent);
                current = next;
                proof {
                    i = i + 1;
                    assert((i - 1) as nat + 1 == i);
                }
            },
        }
    }
}

/// Whether the folders above a node, going up, end before the one that is reached by `n` steps:
/// it is `root`, or there is none, or nothing is known of it.
pub open spec fn path_ends_at(
    nodes: Map<Seq<char>, NodeView>,
    handle: Seq<char>,
    root: Seq<char>,
    n: nat,
) -> bool {
    match ancestor(nodes, handle, n) {
        None => true,
        Some(above) => above == root || !nodes.contains_key(above),
    }
}

/// Whether `n` is the first step up at which the folders above a node end.
pub open spec fn is_path_end(
    nodes: Map<Seq<char>, NodeView>,
    handle: Seq<char>,
    root: Seq<char>,
    n: nat,
) -> bool {
    &&& 1 <= n
    &&& path_ends_at(nodes, handle, root, n)
    &&& forall|m: nat| 1 <= m < n ==> !#[trigger] path_ends_at(nodes, handle, root, m)
}

/// The names of the folders that are reached from a node by fewer than `n` steps up, the outermost
/// first.
pub open spec fn folders_below(
    nodes: Map<Seq<char>, NodeView>,
    handle: Seq<char>,
    n: nat,
    windows: bool,
) -> Seq<Seq<char>>
    decreases n,
{
    if n <= 1 {
        Seq::empty()
    } else {
        let outer = nodes[ancestor(nodes, handle, (n - 1) as nat)->0];
        let inner = folders_below(nodes, handle, (n - 1) as nat, windows);
        if outer.kind == FOLDER_NODE {
            seq![component(outer.name, windows)] + inner
        } else {
            inner
        }
    }
}

/// The path of a file below `root`: the names of the folders in between, then its own.
pub open spec fn relative_path(
    nodes: Map<Seq<char>, NodeView>,
    handle: Seq<char>,
    file_name: Seq<char>,
    root: Seq<char>,
    windows: bool,
) -> Seq<Seq<char>> {
    let end = choose|n: nat| is_path_end(nodes, handle, root, n);
    folders_below(nodes, handle, end, windows).push(component(file_name, windows))
}

/// The path of a file below `root`. Each of its parts names one entry of a folder, so that the
/// path never leads out of the folder that it starts in.
pub fn build_relative_path(
    handle: &str,
    file_name: &str,
    nodes: &TextMap<FolderNode>,
    root_handle: &str,
    windows: bool,
) -> (path: Vec<String>)
    requires
        nodes.wf(),
        walk_ends(node_views(nodes@), handle@, root_handle@),
    ensures
        views(path@) == relative_path(
            node_views(nodes@),
            handle@,
            file_name@,
            root_handle@,
            windows,
        ),
        path@.len() > 0,
        forall|i: int| 0 <= i < path@.len() ==> is_component(#[trigger] path@[i]@),
{
    let ghost tree = node_views(nodes@);
    let ghost end = choose|n: nat| #[trigger] ends_after(tree, handle@, root_handle@, n);
    let ghost mut n: nat = 1;
    let mut path: Vec<String> = Vec::new();
    path.push(sanitize_component(file_name, windows));
    let ghost leaf = component(file_name@, windows);
    let mut current = parent_in(nodes, handle);
    reveal_with_fuel(ancestor, 2);
    assert(views(path@) == folders_below(tree, handle@, 1, windows).push(leaf));
    loop
        invariant
            nodes.wf(),
            tree == node_views(nodes@),
            ends_after(tree, handle@, root_handle@, end),
            1 <= n <= end,
            leaf == component(file_name@, windows),
            optional_view(current) == ancestor(tree, handle@, n),
            forall|m: nat| 1 <= m < n ==> !#[trigger] path_ends_at(tree, handle@, root_handle@, m),
            views(path@) == folders_below(tree, handle@, n, windows).push(leaf),
            path@.len() > 0,
            forall|i: int| 0 <= i < path@.len() ==> is_component(#[trigger] path@[i]@),
        ensures
            is_path_end(tree, handle@, root_handle@, n),
        decreases end - n,
    {
        match &current {
            None => {
                break;
            },
            Some(parent) => {
                if same_text(parent, root_handle) {
                    break;
                }
                match nodes.get(parent) {
                    None => {
                        break;
                    },
                    Some(node) => {
                        assert(!path_ends_at(tree, handle@, root_handle@, n));
                        assert(tree[parent@] == node@);
                        assert(((n + 1) as nat - 1) as nat == n);
                        if node.kind == FOLDER_NODE {
                            let ghost before = path@;
                            path.insert(0, sanitize_component(&node.name, windows));
                            assert(views(path@) == seq![component(node.name@, windows)] + views(
                                before,
                            ));
                            assert(views(path@) == folders_below(
                                tree,
                                handle@,
                                n + 1,
                                windows,
                            ).push(leaf));
                        }
                        let next = copy_text(&node.parent);
                        current = next;
                        proof {
                            n = n + 1;
                        }
                    },
                }
            },
        }
    }
    proof {
        let chosen = choose|n: nat| is_path_end(tree, handle@, root_handle@, n);
        assert(is_path_end(tree, handle@, root_handle@, chosen));
        assert(chosen == n);
    }
    path
}

/// Whether `chain` leads up from its first node to its last: each node but the last is known, and
/// stands in the next.
pub open spec fn leads_up(nodes: Map<Seq<char>, NodeView>, chain: Seq<Seq<char>>) -> bool {
    &&& chain.len() > 0
    &&& forall|i: int|
        0 <= i < chain.len() - 1 ==> nodes.contains_key(#[trigger] chain[i])
            && nodes[chain[i]].parent == Some(chain[i + 1])
}

proof fn lemma_chain(nodes: Map<Seq<char>, NodeView>, chain: Seq<Seq<char>>, n: nat)
    requires
        leads_up(nodes, chain),
        n < chain.len(),
    ensures
        ancestor(nodes, chain[0], n) == Some(chain[n as int]),
    decreases n,
{
    if n > 0 {
        lemma_chain(nodes, chain, (n - 1) as nat);
        assert(nodes.contains_key(chain[n - 1]));
    }
}

/// A node stands below another exactly if a chain of one step or more leads up from it to the
/// other.
pub proof fn chains_lead_to_what_is_above(
    nodes: Map<Seq<char>, NodeView>,
    handle: Seq<char>,
    above: Seq<char>,
)
    ensures
        is_below(nodes, handle, above) <==> exists|chain: Seq<Seq<char>>| #[trigger]
            leads_up(nodes, chain) && chain.len() >= 2 && chain[0] == handle && chain.last()
                == above,
{
    if is_below(nodes, handle, above) {
        let n = choose|n: nat| 1 <= n && #[trigger] ancestor(nodes, handle, n) == Some(above);
        let chain = Seq::new(n + 1, |i: int| ancestor(nodes, handle, i as nat)->0);
        assert forall|i: int| 0 <= i < chain.len() - 1 implies nodes.contains_key(
            #[trigger] chain[i],
        ) && nodes[chain[i]].parent == Some(chain[i + 1]) by {
            if ancestor(nodes, handle, (i + 1) as nat) is None {
                lemma_nothing_above(nodes, handle, (i + 1) as nat, n);
            }
            assert(((i + 1) as nat - 1) as nat == i as nat);
        }
        assert(leads_up(nodes, chain) && chain.len() >= 2 && chain[0] == handle && chain.last()
            == above);
    }
    if exists|chain: Seq<Seq<char>>| #[trigger]
        leads_up(nodes, chain) && chain.len() >= 2 && chain[0] == handle && chain.last()
            == above {
        let chain = choose|chain: Seq<Seq<char>>| #[trigger]
            leads_up(nodes, chain) && chain.len() >= 2 && chain[0] == handle && chain.last()
                == above;
        lemma_chain(nodes, chain, (chain.len() - 1) as nat);
    }
}

/// Whether nothing that counts stands above a node: nothing at all, the root, or something unknown.
pub open spec fn is_top(
    nodes: Map<Seq<char>, NodeView>,
    handle: Seq<char>,
    root: Seq<char>,
) -> bool {
    !nodes.contains_key(handle) || match nodes[handle].parent {
        None => true,
        Some(parent) => parent == root || !nodes.contains_key(parent),
    }
}

/// A chain of folders above a node gives the end of its path.
proof fn lemma_path_end(
    nodes: Map<Seq<char>, NodeView>,
    chain: Seq<Seq<char>>,
    root: Seq<char>,
)
    requires
        leads_up(nodes, chain),
        forall|i: int| 0 < i < chain.len() ==> #[trigger] chain[i] != root && nodes.contains_key(
            chain[i],
        ),
        is_top(nodes, chain.last(), root),
    ensures
        is_path_end(nodes, chain[0], root, chain.len()),
        forall|n: nat| is_path_end(nodes, chain[0], root, n) ==> n == chain.len(),
{
    let n = chain.len();
    lemma_chain(nodes, chain, (n - 1) as nat);
    assert((n - 1) as nat + 1 == n);
    assert(ancestor(nodes, chain[0], n) == parent_of(nodes, chain.last()));
    assert forall|m: nat| 1 <= m < n implies !#[trigger] path_ends_at(
        nodes,
        chain[0],
        root,
        m,
    ) by {
        lemma_chain(nodes, chain, m);
        assert(chain[m as int] != root);
    }
    assert forall|k: nat| is_path_end(nodes, chain[0], root, k) implies k == n by {
        if k < n {
            assert(!path_ends_at(nodes, chain[0], root, k));
        } else if k > n {
            assert(!path_ends_at(nodes, chain[0], root, n));
        }
    }
}

proof fn lemma_folder_names(
    nodes: Map<Seq<char>, NodeView>,
    chain: Seq<Seq<char>>,
    n: nat,
    windows: bool,
)
    requires
        leads_up(nodes, chain),
        1 <= n <= chain.len(),
        forall|i: int| 0 < i < chain.len() ==> nodes[#[trigger] chain[i]].kind == FOLDER_NODE,
    ensures
        folders_below(nodes, chain[0], n, windows).len() == n - 1,
        forall|i: int|
            0 <= i < n - 1 ==> #[trigger] folders_below(nodes, chain[0], n, windows)[i]
                == component(nodes[chain[n - 1 - i]].name, windows),
    decreases n,
{
    if n > 1 {
        lemma_folder_names(nodes, chain, (n - 1) as nat, windows);
        lemma_chain(nodes, chain, (n - 1) as nat);
        assert(nodes[chain[n - 1]].kind == FOLDER_NODE);
        let inner = folders_below(nodes, chain[0], (n - 1) as nat, windows);
        let all = folders_below(nodes, chain[0], n, windows);
        assert(all == seq![component(nodes[chain[n - 1]].name, windows)] + inner);
        assert forall|i: int| 0 <= i < n - 1 implies #[trigger] all[i] == component(
            nodes[chain[n - 1 - i]].name,
            windows,
        ) by {
            if i > 0 {
                assert(all[i] == inner[i - 1]);
                assert((n - 1) - 1 - (i - 1) == n - 1 - i);
            }
        }
    }
}

/// The path of a file has a part for every folder that is passed on the way up to the root, the
/// outermost first, and one for the file itself, at any depth.
pub proof fn paths_have_a_part_for_every_folder(
    nodes: Map<Seq<char>, NodeView>,
    chain: Seq<Seq<char>>,
    file_name: Seq<char>,
    root: Seq<char>,
    windows: bool,
)
    requires
        leads_up(nodes, chain),
        forall|i: int|
            0 < i < chain.len() ==> #[trigger] chain[i] != root && nodes.contains_key(chain[i])
                && nodes[chain[i]].kind == 1,
        is_top(nodes, chain.last(), root),
    ensures
        relative_path(nodes, chain[0], file_name, root, windows).len() == chain.len(),
        relative_path(nodes, chain[0], file_name, root, windows).last() == component(
            file_name,
            windows,
        ),
        forall|i: int|
            0 <= i < chain.len() - 1 ==> #[trigger] relative_path(
                nodes,
                chain[0],
                file_name,
                root,
                windows,
            )[i] == component(nodes[chain[chain.len() - 1 - i]].name, windows),
{
    lemma_path_end(nodes, chain, root);
    lemma_folder_names(nodes, chain, chain.len(), windows);
    let end = choose|n: nat| is_path_end(nodes, chain[0], root, n);
    assert(end == chain.len());
}

/// The path of a file in a folder is the path of that folder with the file's name behind it.
pub proof fn paths_grow_by_the_name(
    nodes: Map<Seq<char>, NodeView>,
    chain: Seq<Seq<char>>,
    file_name: Seq<char>,
    root: Seq<char>,
    windows: bool,
)
    requires
        chain.len() >= 2,
        leads_up(nodes, chain),
        forall|i: int|
            0 < i < chain.len() ==> #[trigger] chain[i] != root && nodes.contains_key(chain[i])
                && nodes[chain[i]].kind == 1,
        is_top(nodes, chain.last(), root),
    ensures
        relative_path(nodes, chain[0], file_name, root, windows) == relative_path(
            nodes,
            chain[1],
            nodes[chain[1]].name,
            root,
            windows,
        ).push(component(file_name, windows)),
{
    let upper = chain.skip(1);
    assert forall|i: int| 0 <= i < upper.len() - 1 implies nodes.contains_key(#[trigger] upper[i])
        && nodes[upper[i]].parent == Some(upper[i + 1]) by {
        assert(upper[i] == chain[i + 1] && upper[i + 1] == chain[i + 2]);
    }
    assert forall|i: int| 0 < i < upper.len() implies #[trigger] upper[i] != root
        && nodes.contains_key(upper[i]) && nodes[upper[i]].kind == 1 by {
        assert(upper[i] == chain[i + 1]);
    }
    assert(upper.last() == chain.last());
    paths_have_a_part_for_every_folder(nodes, chain, file_name, root, windows);
    paths_have_a_part_for_every_folder(nodes, upper, nodes[chain[1]].name, root, windows);
    let left = relative_path(nodes, chain[0], file_name, root, windows);
    let above = relative_path(nodes, chain[1], nodes[chain[1]].name, root, windows);
    let right = above.push(component(file_name, windows));
    assert forall|i: int| 0 <= i < left.len() implies left[i] == right[i] by {
        if i < chain.len() - 2 {
            assert(above[i] == component(nodes[upper[upper.len() - 1 - i]].name, windows));
            assert(upper[upper.len() - 1 - i] == chain[chain.len() - 1 - i]);
        } else if i == chain.len() - 2 {
            assert(above[i] == above.last());
        }
    }
    assert(left =~= right);
}

/// Going up from the foot of a chain that leads to the top ends, whatever it is to stop at.
pub proof fn walks_end_at_the_top(
    nodes: Map<Seq<char>, NodeView>,
    chain: Seq<Seq<char>>,
    stop: Seq<char>,
)
    requires
        leads_up(nodes, chain),
        !nodes.contains_key(chain.last()) || nodes[chain.last()].parent is None,
    ensures
        walk_ends(nodes, chain[0], stop),
{
    lemma_chain(nodes, chain, (chain.len() - 1) as nat);
    assert((chain.len() as nat - 1) as nat == (chain.len() - 1) as nat);
    assert(ends_after(nodes, chain[0], stop, chain.len()));
}

/// What stands above a file but is no folder leaves no part in its path: the path is that of the
/// thing above without its own part.
pub proof fn only_folders_leave_a_part(
    nodes: Map<Seq<char>, NodeView>,
    chain: Seq<Seq<char>>,
    n: nat,
    windows: bool,
)
    requires
        leads_up(nodes, chain),
        2 <= n <= chain.len(),
    ensures
        folders_below(nodes, chain[0], n, windows) == folders_below(
            nodes,
            chain[1],
            (n - 1) as nat,
            windows,
        ) + (if nodes[chain[1]].kind == 1 {
            seq![component(nodes[chain[1]].name, windows)]
        } else {
            Seq::empty()
        }),
    decreases n,
{
    let upper = chain.skip(1);
    assert forall|i: int| 0 <= i < upper.len() - 1 implies nodes.contains_key(#[trigger] upper[i])
        && nodes[upper[i]].parent == Some(upper[i + 1]) by {
        assert(upper[i] == chain[i + 1] && upper[i + 1] == chain[i + 2]);
    }
    lemma_chain(nodes, chain, (n - 1) as nat);
    if n == 2 {
        assert(folders_below(nodes, chain[0], 1, windows) == Seq::<Seq<char>>::empty());
        assert(folders_below(nodes, chain[1], 1, windows) == Seq::<Seq<char>>::empty());
    } else {
        only_folders_leave_a_part(nodes, chain, (n - 1) as nat, windows);
        lemma_chain(nodes, upper, (n - 2) as nat);
        assert(upper[n - 2] == chain[n - 1]);
        assert(((n - 1) as nat - 1) as nat == (n - 2) as nat);
    }
}

/// The path that is built for a file has one part more than there are folders on the way up, and
/// the path of a file in a folder is the path of that folder with the file's own name behind it.
pub proof fn built_paths_grow_by_the_name(
    nodes: &TextMap<FolderNode>,
    chain: Seq<Seq<char>>,
    handle: &str,
    file_name: &str,
    folder: &str,
    folder_name: &str,
    root: &str,
    windows: bool,
    path: Vec<String>,
    folder_path: Vec<String>,
)
    requires
        chain.len() >= 2,
        leads_up(node_views(nodes@), chain),
        chain[0] == handle@,
        chain[1] == folder@,
        node_views(nodes@)[folder@].name == folder_name@,
        forall|i: int|
            0 < i < chain.len() ==> #[trigger] chain[i] != root@ && node_views(
                nodes@,
            ).contains_key(chain[i]) && node_views(nodes@)[chain[i]].kind == 1,
        is_top(node_views(nodes@), chain.last(), root@),
        call_ensures(build_relative_path, (handle, file_name, nodes, root, windows), path),
        call_ensures(build_relative_path, (folder, folder_name, nodes, root, windows), folder_path),
    ensures
        path@.len() == chain.len(),
        views(path@) == views(folder_path@).push(component(file_name@, windows)),
{
    paths_grow_by_the_name(node_views(nodes@), chain, file_name@, root@, windows);
    paths_have_a_part_for_every_folder(
        node_views(nodes@),
        chain,
        file_name@,
        root@,
        windows,
    );
    assert(views(path@).len() == path@.len());
}

} // verus!
