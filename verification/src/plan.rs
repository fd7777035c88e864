//! Which files of a shared folder are downloaded, where they go, and in which order.
use crate::error::{failure, DownloadError, ErrorView};
use crate::folder::{
    contents_of, file_views, folder_key, raw_views, read_nodes, shared_key_of,
    FileView, FolderContents, FolderFilePlan, FolderPlan, PlanView, RawNode, RawView,
    MAX_FOLDER_FILES_PER_TASK,
};
use crate::link::{optional_view, MegaFolderLink};
use crate::names::is_component;
use crate::nodes::{
    build_relative_path, chains_lead_to_what_is_above, has_end, is_below, is_descendant_of, leads_up,
    node_views, relative_path, walk_ends, walks_end_at_the_top, FolderNode, NodeView, FILE_NODE,
    FOLDER_NODE,
};
use crate::order::{path_before, path_less, paths_are_ordered};
use crate::text::{decimal, push_decimal, same_text, views};
use vstd::prelude::*;

verus! {

/// The mathematical form of a link to a folder.
pub struct FolderRef {
    pub folder_id: Seq<char>,
    pub key: Seq<char>,
    pub selected_handle: Option<Seq<char>>,
}

/// The mathematical form of a link to a folder.
pub open spec fn folder_ref(link: MegaFolderLink) -> FolderRef {
    FolderRef {
        folder_id: link.folder_id@,
        key: link.key@,
        selected_handle: optional_view(link.selected_handle),
    }
}

/// The node that a link singles out, if it does.
pub open spec fn selected_node(nodes: Map<Seq<char>, NodeView>, link: FolderRef) -> Result<
    Option<NodeView>,
    ErrorView,
> {
    match link.selected_handle {
        None => Ok(None),
        Some(handle) => if nodes.contains_key(handle) {
            Ok(Some(nodes[handle]))
        } else {
            Err(ErrorView::Message("selected MEGA folder item was not found"@))
        },
    }
}

/// The folder from which the paths of the files are counted: the selected folder, the folder of
/// the selected file, or the shared folder.
pub open spec fn path_root(link: FolderRef, selected: Option<NodeView>) -> Seq<char> {
    match selected {
        None => link.folder_id,
        Some(node) => if node.kind == FOLDER_NODE {
            link.selected_handle->0
        } else {
            match node.parent {
                Some(parent) => parent,
                None => link.folder_id,
            }
        },
    }
}

/// Whether a file is downloaded: all files are, unless the link singles out a file, or a folder
/// other than the shared one. Then that file is, or the files below that folder.
pub open spec fn is_wanted(
    nodes: Map<Seq<char>, NodeView>,
    link: FolderRef,
    selected: Option<NodeView>,
    handle: Seq<char>,
) -> bool {
    match selected {
        None => true,
        Some(node) => if node.kind == FILE_NODE {
            handle == link.selected_handle->0
        } else {
            link.selected_handle == Some(link.folder_id) || is_below(
                nodes,
                handle,
                link.selected_handle->0,
            )
        },
    }
}

/// The files that are downloaded.
pub open spec fn wanted_files(
    nodes: Map<Seq<char>, NodeView>,
    files: Seq<FileView>,
    link: FolderRef,
    selected: Option<NodeView>,
) -> Seq<FileView> {
    files.filter(|file: FileView| is_wanted(nodes, link, selected, file.handle))
}

/// A file with its place.
pub open spec fn placed(
    nodes: Map<Seq<char>, NodeView>,
    file: FileView,
    root: Seq<char>,
    windows: bool,
) -> FileView {
    FileView {
        relative_path: relative_path(nodes, file.handle, file.name, root, windows),
        ..file
    }
}

/// The files with their places.
pub open spec fn placed_files(
    nodes: Map<Seq<char>, NodeView>,
    files: Seq<FileView>,
    root: Seq<char>,
    windows: bool,
) -> Seq<FileView> {
    Seq::new(files.len(), |i: int| placed(nodes, files[i], root, windows))
}

/// Where a file goes among the first `end` of files that are in order: behind all that do not come
/// after it.
pub open spec fn insertion_point(files: Seq<FileView>, path: Seq<Seq<char>>, end: nat) -> nat
    decreases end,
{
    if end > 0 && path_less(path, files[end - 1].relative_path) {
        insertion_point(files, path, (end - 1) as nat)
    } else {
        end
    }
}

/// The files in the order of their paths. Files with the same path stay in the order in which they
/// are listed.
pub open spec fn arranged(files: Seq<FileView>) -> Seq<FileView>
    decreases files.len(),
{
    if files.len() == 0 {
        Seq::empty()
    } else {
        let before = arranged(files.drop_last());
        before.insert(
            insertion_point(before, files.last().relative_path, before.len()) as int,
            files.last(),
        )
    }
}

/// Whether files are in the order of their paths.
pub open spec fn in_order(files: Seq<FileView>) -> bool {
    forall|i: int, j: int|
        0 <= i < j < files.len() ==> !path_less(
            (#[trigger] files[j]).relative_path,
            (#[trigger] files[i]).relative_path,
        )
}

/// The files that have this path.
pub open spec fn at_path(files: Seq<FileView>, path: Seq<Seq<char>>) -> Seq<FileView> {
    files.filter(|file: FileView| file.relative_path == path)
}

proof fn lemma_insertion_point(files: Seq<FileView>, path: Seq<Seq<char>>, end: nat)
    requires
        end <= files.len(),
    ensures
        ({
            let at = insertion_point(files, path, end);
            &&& at <= end
            &&& at > 0 ==> !path_less(path, files[at - 1].relative_path)
            &&& forall|i: int|
                at <= i < end ==> path_less(path, (#[trigger] files[i]).relative_path)
        }),
    decreases end,
{
    if end > 0 && path_less(path, files[end - 1].relative_path) {
        lemma_insertion_point(files, path, (end - 1) as nat);
    }
}

proof fn lemma_insert_keeps_order(files: Seq<FileView>, file: FileView)
    requires
        in_order(files),
    ensures
        in_order(
            files.insert(
                insertion_point(files, file.relative_path, files.len()) as int,
                file,
            ),
        ),
{
    let at = insertion_point(files, file.relative_path, files.len()) as int;
    let path = file.relative_path;
    lemma_insertion_point(files, path, files.len());
    let after = files.insert(at, file);
    assert forall|i: int, j: int| 0 <= i < j < after.len() implies !path_less(
        (#[trigger] after[j]).relative_path,
        (#[trigger] after[i]).relative_path,
    ) by {
        if i == at {
            assert(after[j] == files[j - 1]);
            paths_are_ordered(path, files[j - 1].relative_path, path);
        } else if j == at {
            assert(after[i] == files[i]);
            if i < at - 1 {
                paths_are_ordered(path, files[at - 1].relative_path, files[i].relative_path);
            }
        } else {
            let a = if i < at {
                i
            } else {
                i - 1
            };
            let b = if j < at {
                j
            } else {
                j - 1
            };
            assert(after[i] == files[a] && after[j] == files[b]);
        }
    }
}

/// The files that are arranged are the files that were listed, and they are in order. Files with
/// the same path keep the order in which they were listed.
pub proof fn arranging_sorts(files: Seq<FileView>)
    ensures
        arranged(files).len() == files.len(),
        arranged(files).to_multiset() == files.to_multiset(),
        in_order(arranged(files)),
        forall|path: Seq<Seq<char>>| #[trigger]
            at_path(arranged(files), path) == at_path(files, path),
    decreases files.len(),
{
    broadcast use vstd::seq_lib::group_to_multiset_ensures;

    if files.len() == 0 {
        assert(files == Seq::<FileView>::empty());
    } else {
        let rest = files.drop_last();
        let file = files.last();
        arranging_sorts(rest);
        let before = arranged(rest);
        let at = insertion_point(before, file.relative_path, before.len()) as int;
        lemma_insertion_point(before, file.relative_path, before.len());
        lemma_insert_keeps_order(before, file);
        let after = before.insert(at, file);
        assert(files == rest.push(file));
        assert(after.to_multiset() == before.to_multiset().insert(file)) by {
            vstd::seq_lib::to_multiset_insert(before, at, file);
        }
        assert forall|path: Seq<Seq<char>>| #[trigger]
            at_path(arranged(files), path) == at_path(files, path) by {
            lemma_filter_of_insert(before, at, file, path);
            assert(at_path(before, path) == at_path(rest, path));
            reveal(Seq::filter);
        }
    }
}

/// A file that goes behind all of its own path is the last of them.
proof fn lemma_filter_of_insert(
    files: Seq<FileView>,
    at: int,
    file: FileView,
    path: Seq<Seq<char>>,
)
    requires
        0 <= at <= files.len(),
        forall|i: int|
            at <= i < files.len() ==> path_less(
                file.relative_path,
                (#[trigger] files[i]).relative_path,
            ),
    ensures
        at_path(files.insert(at, file), path) == if file.relative_path == path {
            at_path(files, path).push(file)
        } else {
            at_path(files, path)
        },
    decreases files.len(),
{
    reveal(Seq::filter);
    let after = files.insert(at, file);
    if at == files.len() {
        assert(after.drop_last() == files);
    } else {
        let rest = files.drop_last();
        lemma_filter_of_insert(rest, at, file, path);
        assert(after.drop_last() == rest.insert(at, file));
        assert(after.last() == files.last());
        paths_are_ordered(file.relative_path, files.last().relative_path, path);
    }
}

/// The sum of the sizes of files.
pub open spec fn sizes_of(files: Seq<FileView>) -> int
    decreases files.len(),
{
    if files.len() == 0 {
        0
    } else {
        sizes_of(files.drop_last()) + files.last().size
    }
}

/// A listing of a folder's files is a plan for their download.
pub open spec fn plan_of(
    nodes: Map<Seq<char>, NodeView>,
    files: Seq<FileView>,
    link: FolderRef,
    windows: bool,
) -> Result<PlanView, ErrorView> {
    match selected_node(nodes, link) {
        Err(error) => Err(error),
        Ok(selected) => {
            let wanted = wanted_files(nodes, files, link, selected);
            if wanted.len() > MAX_FOLDER_FILES_PER_TASK {
                Err(
                    ErrorView::Message(
                        "folder contains "@ + decimal(wanted.len())
                            + " files, exceeding the current 50 file limit"@,
                    ),
                )
            } else {
                Ok(
                    PlanView {
                        name: plan_name(nodes, link, selected),
                        total_bytes: sizes_of(wanted) as u64,
                        files: arranged(
                            placed_files(nodes, wanted, path_root(link, selected), windows),
                        ),
                        folder_id: link.folder_id,
                        create_root_dir: !(selected matches Some(node) && node.kind == FILE_NODE),
                    },
                )
            }
        },
    }
}

/// The name of what is downloaded: of the selected node, or of the shared folder.
pub open spec fn plan_name(
    nodes: Map<Seq<char>, NodeView>,
    link: FolderRef,
    selected: Option<NodeView>,
) -> Seq<char> {
    match selected {
        Some(node) => node.name,
        None => if nodes.contains_key(link.folder_id) && nodes[link.folder_id].kind
            == FOLDER_NODE {
            nodes[link.folder_id].name
        } else {
            "MEGA Folder"@
        },
    }
}

/// Whether going up from the files ends wherever a plan needs it.
pub open spec fn walks_end(
    nodes: Map<Seq<char>, NodeView>,
    files: Seq<FileView>,
    link: FolderRef,
    selected: Option<NodeView>,
) -> bool {
    &&& (selected matches Some(node) && node.kind != FILE_NODE && link.selected_handle != Some(
        link.folder_id,
    )) ==> forall|i: int|
        0 <= i < files.len() ==> walk_ends(
            nodes,
            (#[trigger] files[i]).handle,
            link.selected_handle->0,
        )
    &&& forall|i: int|
        0 <= i < wanted_files(nodes, files, link, selected).len() ==> walk_ends(
            nodes,
            (#[trigger] wanted_files(nodes, files, link, selected)[i]).handle,
            path_root(link, selected),
        )
}

/// Whether a plan can be made of a listing: no folders that contain one another stand in the way,
/// and the sizes add up to a number of 64 bits.
pub open spec fn is_orderly(
    nodes: Map<Seq<char>, NodeView>,
    files: Seq<FileView>,
    link: FolderRef,
) -> bool {
    selected_node(nodes, link) matches Ok(selected) ==> {
        &&& walks_end(nodes, files, link, selected)
        &&& wanted_files(nodes, files, link, selected).len() <= MAX_FOLDER_FILES_PER_TASK
            ==> sizes_of(wanted_files(nodes, files, link, selected)) <= u64::MAX
    }
}

/// Whether each part of a file's path names one entry of a folder.
pub open spec fn stays_inside(file: FolderFilePlan) -> bool {
    &&& file.relative_path@.len() > 0
    &&& forall|i: int|
        0 <= i < file.relative_path@.len() ==> is_component(#[trigger] file.relative_path@[i]@)
}

/// The node that a link singles out, if it does.
fn find_selected<'a>(contents: &'a FolderContents, link: &MegaFolderLink) -> (selected: Result<
    Option<&'a FolderNode>,
    DownloadError,
>)
    requires
        contents.wf(),
    ensures
        match selected {
            Ok(Some(node)) => selected_node(node_views(contents.nodes@), folder_ref(*link))
                == Ok::<Option<NodeView>, ErrorView>(Some(node@)) && (node.kind == FILE_NODE
                || node.kind == FOLDER_NODE),
            Ok(None) => selected_node(node_views(contents.nodes@), folder_ref(*link)) == Ok::<
                Option<NodeView>,
                ErrorView,
            >(None),
            Err(error) => selected_node(node_views(contents.nodes@), folder_ref(*link)) == Err::<
                Option<NodeView>,
                ErrorView,
            >(error@),
        },
{
    match &link.selected_handle {
        None => Ok(None),
        Some(handle) => match contents.nodes.get(handle) {
            Some(node) => Ok(Some(node)),
            None => Err(failure("selected MEGA folder item was not found")),
        },
    }
}

/// The mathematical form of a node that may be there.
pub open spec fn optional_node(node: Option<&FolderNode>) -> Option<NodeView> {
    match node {
        Some(found) => Some(found@),
        None => None,
    }
}

/// The folder from which the paths of the files are counted.
fn find_root(link: &MegaFolderLink, selected: Option<&FolderNode>) -> (root: String)
    requires
        selected is Some ==> link.selected_handle is Some,
    ensures
        root@ == path_root(folder_ref(*link), optional_node(selected)),
{
    match selected {
        None => link.folder_id.clone(),
        Some(node) => if node.kind == FOLDER_NODE {
            match &link.selected_handle {
                Some(handle) => handle.clone(),
                None => link.folder_id.clone(),
            }
        } else {
            match &node.parent {
                Some(parent) => parent.clone(),
                None => link.folder_id.clone(),
            }
        },
    }
}

/// Whether the file of this handle is downloaded.
fn wants(
    contents: &FolderContents,
    link: &MegaFolderLink,
    selected: Option<&FolderNode>,
    handle: &str,
) -> (wanted: bool)
    requires
        contents.wf(),
        selected is Some ==> link.selected_handle is Some,
        (selected matches Some(node) && node.kind != FILE_NODE && folder_ref(
            *link,
        ).selected_handle != Some(link.folder_id@)) ==> walk_ends(
            node_views(contents.nodes@),
            handle@,
            folder_ref(*link).selected_handle->0,
        ),
    ensures
        wanted == is_wanted(
            node_views(contents.nodes@),
            folder_ref(*link),
            optional_node(selected),
            handle@,
        ),
{
    match selected {
        None => true,
        Some(node) => match &link.selected_handle {
            None => true,
            Some(chosen) => if node.kind == FILE_NODE {
                same_text(handle, chosen)
            } else if same_text(chosen, &link.folder_id) {
                true
            } else {
                is_descendant_of(handle, chosen, &contents.nodes)
            },
        },
    }
}

/// Copies of the files that are downloaded.
fn collect_wanted(
    contents: &FolderContents,
    link: &MegaFolderLink,
    selected: Option<&FolderNode>,
) -> (wanted: Vec<FolderFilePlan>)
    requires
        contents.wf(),
        selected is Some ==> link.selected_handle is Some,
        (selected matches Some(node) && node.kind != FILE_NODE && folder_ref(
            *link,
        ).selected_handle != Some(link.folder_id@)) ==> forall|i: int|
            0 <= i < contents.files@.len() ==> walk_ends(
                node_views(contents.nodes@),
                (#[trigger] file_views(contents.files@)[i]).handle,
                folder_ref(*link).selected_handle->0,
            ),
    ensures
        file_views(wanted@) == wanted_files(
            node_views(contents.nodes@),
            file_views(contents.files@),
            folder_ref(*link),
            optional_node(selected),
        ),
{
    let ghost tree = node_views(contents.nodes@);
    let ghost all = file_views(contents.files@);
    let ghost chosen = |file: FileView|
        is_wanted(tree, folder_ref(*link), optional_node(selected), file.handle);
    let mut wanted: Vec<FolderFilePlan> = Vec::new();
    let mut i: usize = 0;
    assert(all.take(0).filter(chosen) == Seq::<FileView>::empty()) by {
        reveal(Seq::filter);
    }
    assert(file_views(wanted@) == Seq::<FileView>::empty());
    while i < contents.files.len()
        invariant
            contents.wf(),
            selected is Some ==> link.selected_handle is Some,
            tree == node_views(contents.nodes@),
            all == file_views(contents.files@),
            chosen == (|file: FileView|
                is_wanted(tree, folder_ref(*link), optional_node(selected), file.handle)),
            (selected matches Some(node) && node.kind != FILE_NODE && folder_ref(
                *link,
            ).selected_handle != Some(link.folder_id@)) ==> forall|i: int|
                0 <= i < contents.files@.len() ==> walk_ends(
                    tree,
                    (#[trigger] all[i]).handle,
                    folder_ref(*link).selected_handle->0,
                ),
            i <= contents.files@.len(),
            file_views(wanted@) == all.take(i as int).filter(chosen),
        decreases contents.files@.len() - i,
    {
        let file = &contents.files[i];
        assert(all[i as int] == file@);
        assert(all.take(i + 1).filter(chosen) == if chosen(file@) {
            all.take(i as int).filter(chosen).push(file@)
        } else {
            all.take(i as int).filter(chosen)
        }) by {
            reveal(Seq::filter);
            assert(all.take(i + 1).drop_last() == all.take(i as int));
        }
        if wants(contents, link, selected, &file.handle) {
            let ghost before = wanted@;
            wanted.push(copy_file(file));
            assert(file_views(wanted@) == file_views(before).push(file@));
        }
        i = i + 1;
    }
    assert(all.take(all.len() as int) == all);
    wanted
}

/// A copy of a file of a plan.
pub fn copy_file(file: &FolderFilePlan) -> (copy: FolderFilePlan)
    ensures
        copy@ == file@,
{
    FolderFilePlan {
        name: file.name.clone(),
        relative_path: copy_texts(&file.relative_path),
        size: file.size,
        handle: file.handle.clone(),
        crypto: file.crypto,
        manifest_id: file.manifest_id.clone(),
    }
}

/// Copies of strings.
pub fn copy_texts(texts: &Vec<String>) -> (copies: Vec<String>)
    ensures
        views(copies@) == views(texts@),
{
    let mut copies: Vec<String> = Vec::new();
    let mut i: usize = 0;
    while i < texts.len()
        invariant
            i <= texts@.len(),
            copies@.len() == i,
            forall|j: int| 0 <= j < i ==> #[trigger] copies@[j]@ == texts@[j]@,
        decreases texts@.len() - i,
    {
        copies.push(texts[i].clone());
        i = i + 1;
    }
    assert(views(copies@) == views(texts@));
    copies
}

proof fn lemma_sizes_grow(files: Seq<FileView>, n: int)
    requires
        0 <= n <= files.len(),
    ensures
        0 <= sizes_of(files.take(n)) <= sizes_of(files),
    decreases files.len(),
{
    if n < files.len() {
        lemma_sizes_grow(files.drop_last(), n);
        assert(files.drop_last().take(n) == files.take(n));
    } else {
        assert(files.take(n) == files);
        if n > 0 {
            lemma_sizes_grow(files.drop_last(), n - 1);
            assert(files.drop_last().take(n - 1) == files.drop_last());
        }
    }
}

/// Puts a file behind all files that do not come after it.
fn insert_in_order(files: &mut Vec<FolderFilePlan>, file: FolderFilePlan)
    requires
        forall|i: int| 0 <= i < old(files)@.len() ==> stays_inside(#[trigger] old(files)@[i]),
        stays_inside(file),
    ensures
        file_views(final(files)@) == file_views(old(files)@).insert(
            insertion_point(
                file_views(old(files)@),
                file@.relative_path,
                old(files)@.len(),
            ) as int,
            file@,
        ),
        forall|i: int| 0 <= i < final(files)@.len() ==> stays_inside(#[trigger] final(files)@[i]),
{
    let ghost all = file_views(files@);
    let ghost path = file@.relative_path;
    let mut at: usize = files.len();
    while at > 0 && path_before(&file.relative_path, &files[at - 1].relative_path)
        invariant
            at <= files@.len(),
            all == file_views(files@),
            path == file@.relative_path,
            insertion_point(all, path, at as nat) == insertion_point(all, path, files@.len()),
        decreases at,
    {
        assert(all[at - 1] == files@[at - 1]@);
        at = at - 1;
    }
    assert(at > 0 ==> all[at - 1] == files@[at - 1]@);
    let ghost before = files@;
    files.insert(at, file);
    assert(file_views(files@) == all.insert(at as int, file@));
    assert forall|i: int| 0 <= i < files@.len() implies stays_inside(#[trigger] files@[i]) by {
        if i < at {
            assert(files@[i] == before[i]);
        } else if i > at {
            assert(files@[i] == before[i - 1]);
        }
    }
}

/// The files with their places, in order, and the sum of their sizes.
fn place_files(
    contents: &FolderContents,
    wanted: &Vec<FolderFilePlan>,
    root: &str,
    windows: bool,
) -> (result: (Vec<FolderFilePlan>, u64))
    requires
        contents.wf(),
        forall|i: int|
            0 <= i < wanted@.len() ==> walk_ends(
                node_views(contents.nodes@),
                (#[trigger] file_views(wanted@)[i]).handle,
                root@,
            ),
        sizes_of(file_views(wanted@)) <= u64::MAX,
    ensures
        file_views(result.0@) == arranged(
            placed_files(
                node_views(contents.nodes@),
                file_views(wanted@),
                root@,
                windows,
            ),
        ),
        forall|i: int| 0 <= i < result.0@.len() ==> stays_inside(#[trigger] result.0@[i]),
        result.1 == sizes_of(file_views(wanted@)),
{
    let ghost tree = node_views(contents.nodes@);
    let ghost all = file_views(wanted@);
    let mut files: Vec<FolderFilePlan> = Vec::new();
    let mut total: u64 = 0;
    let mut i: usize = 0;
    assert(file_views(files@) == Seq::<FileView>::empty());
    assert(placed_files(tree, all.take(0), root@, windows).len() == 0);
    while i < wanted.len()
        invariant
            contents.wf(),
            tree == node_views(contents.nodes@),
            all == file_views(wanted@),
            forall|i: int|
                0 <= i < wanted@.len() ==> walk_ends(tree, (#[trigger] all[i]).handle, root@),
            sizes_of(all) <= u64::MAX,
            i <= wanted@.len(),
            file_views(files@) == arranged(placed_files(tree, all.take(i as int), root@, windows)),
            forall|i: int| 0 <= i < files@.len() ==> stays_inside(#[trigger] files@[i]),
            total == sizes_of(all.take(i as int)),
        decreases wanted@.len() - i,
    {
        let file = &wanted[i];
        assert(all[i as int] == file@);
        assert(all.take(i + 1).drop_last() == all.take(i as int));
        proof {
            lemma_sizes_grow(all, i + 1);
        }
        total = total + file.size;
        let mut next = copy_file(file);
        next.relative_path = build_relative_path(
            &file.handle,
            &file.name,
            &contents.nodes,
            root,
            windows,
        );
        let ghost place = placed(tree, file@, root@, windows);
        assert(next@ == place);
        let ghost before = placed_files(tree, all.take(i as int), root@, windows);
        let ghost after = placed_files(tree, all.take(i + 1), root@, windows);
        assert(after == before.push(place));
        assert(after.drop_last() == before);
        insert_in_order(&mut files, next);
        i = i + 1;
    }
    assert(all.take(all.len() as int) == all);
    (files, total)
}

/// The name of what is downloaded.
fn name_plan(
    contents: &FolderContents,
    link: &MegaFolderLink,
    selected: Option<&FolderNode>,
) -> (name: String)
    requires
        contents.wf(),
    ensures
        name@ == plan_name(
            node_views(contents.nodes@),
            folder_ref(*link),
            optional_node(selected),
        ),
{
    match selected {
        Some(node) => node.name.clone(),
        None => {
            if let Some(node) = contents.nodes.get(&link.folder_id) {
                if node.kind == FOLDER_NODE {
                    return node.name.clone();
                }
            }
            "MEGA Folder".to_string()
        },
    }
}

/// The error that a folder has too many files.
fn too_many_files(count: usize) -> (error: DownloadError)
    ensures
        error@ == ErrorView::Message(
            "folder contains "@ + decimal(count as nat)
                + " files, exceeding the current 50 file limit"@,
        ),
{
    let mut text = "folder contains ".to_string();
    push_decimal(&mut text, count as u128);
    text.append(" files, exceeding the current 50 file limit");
    DownloadError::Message(text)
}

/// A plan for the download of what a link to a folder singles out.
pub fn arrange_plan(contents: &FolderContents, link: &MegaFolderLink, windows: bool) -> (plan:
    Result<FolderPlan, DownloadError>)
    requires
        contents.wf(),
        is_orderly(contents.content().0, contents.content().1, folder_ref(*link)),
    ensures
        match plan {
            Ok(found) => plan_of(
                contents.content().0,
                contents.content().1,
                folder_ref(*link),
                windows,
            ) == Ok::<PlanView, ErrorView>(found@) && found.files@.len()
                <= MAX_FOLDER_FILES_PER_TASK && forall|i: int|
                0 <= i < found.files@.len() ==> stays_inside(#[trigger] found.files@[i]),
            Err(error) => plan_of(
                contents.content().0,
                contents.content().1,
                folder_ref(*link),
                windows,
            ) == Err::<PlanView, ErrorView>(error@),
        },
{
    let selected = match find_selected(contents, link) {
        Ok(found) => found,
        Err(error) => return Err(error),
    };
    let wanted = collect_wanted(contents, link, selected);
    if wanted.len() > MAX_FOLDER_FILES_PER_TASK {
        return Err(too_many_files(wanted.len()));
    }
    let root = find_root(link, selected);
    let (files, total_bytes) = place_files(contents, &wanted, &root, windows);
    proof {
        arranging_sorts(
            placed_files(
                node_views(contents.nodes@),
                file_views(wanted@),
                root@,
                windows,
            ),
        );
    }
    Ok(
        FolderPlan {
            name: name_plan(contents, link, selected),
            total_bytes,
            files,
            folder_id: link.folder_id.clone(),
            create_root_dir: match selected {
                Some(node) => node.kind != FILE_NODE,
                None => true,
            },
        },
    )
}

/// Whether going up from each of `files` ends at the top or at `stop`.
fn all_have_ends(contents: &FolderContents, files: &Vec<FolderFilePlan>, stop: &str) -> (ends: bool)
    requires
        contents.wf(),
    ensures
        ends == forall|i: int|
            0 <= i < files@.len() ==> walk_ends(
                node_views(contents.nodes@),
                (#[trigger] file_views(files@)[i]).handle,
                stop@,
            ),
{
    let ghost tree = node_views(contents.nodes@);
    let ghost all = file_views(files@);
    let mut i: usize = 0;
    while i < files.len()
        invariant
            contents.wf(),
            tree == node_views(contents.nodes@),
            all == file_views(files@),
            i <= files@.len(),
            forall|j: int| 0 <= j < i ==> walk_ends(tree, (#[trigger] all[j]).handle, stop@),
        decreases files@.len() - i,
    {
        assert(all[i as int] == files@[i as int]@);
        if !has_end(&files[i].handle, stop, &contents.nodes) {
            return false;
        }
        i = i + 1;
    }
    true
}

/// Whether the sizes of files add up to a number of 64 bits.
fn sizes_fit(files: &Vec<FolderFilePlan>) -> (fit: bool)
    ensures
        fit == (sizes_of(file_views(files@)) <= u64::MAX),
{
    let ghost all = file_views(files@);
    let mut total: u64 = 0;
    let mut i: usize = 0;
    while i < files.len()
        invariant
            all == file_views(files@),
            i <= files@.len(),
            total == sizes_of(all.take(i as int)),
        decreases files@.len() - i,
    {
        assert(all.take(i + 1).drop_last() == all.take(i as int));
        assert(all[i as int] == files@[i as int]@);
        proof {
            lemma_sizes_grow(all, i + 1);
        }
        if files[i].size > u64::MAX - total {
            return false;
        }
        total = total + files[i].size;
        i = i + 1;
    }
    assert(all.take(all.len() as int) == all);
    true
}

/// Whether a plan can be made of a listing.
pub fn check_orderly(contents: &FolderContents, link: &MegaFolderLink) -> (orderly: bool)
    requires
        contents.wf(),
    ensures
        orderly == is_orderly(contents.content().0, contents.content().1, folder_ref(*link)),
{
    let selected = match find_selected(contents, link) {
        Ok(found) => found,
        Err(_) => return true,
    };
    if let Some(node) = selected {
        if let Some(handle) = &link.selected_handle {
            if node.kind != FILE_NODE && !same_text(handle, &link.folder_id) {
                if !all_have_ends(contents, &contents.files, handle) {
                    return false;
                }
            }
        }
    }
    let wanted = collect_wanted(contents, link, selected);
    let root = find_root(link, selected);
    if !all_have_ends(contents, &wanted, &root) {
        return false;
    }
    wanted.len() > MAX_FOLDER_FILES_PER_TASK || sizes_fit(&wanted)
}

/// The nodes in a reply, in mathematical form: missing, unreadable, or there.
pub open spec fn listing_view(listing: Option<Result<Vec<RawNode>, String>>) -> Option<
    Result<Seq<RawView>, Seq<char>>,
> {
    match listing {
        None => None,
        Some(Ok(raws)) => Some(Ok(raw_views(raws@))),
        Some(Err(cause)) => Some(Err(cause@)),
    }
}

/// The plan for the download of what a link to a folder singles out, given what the service has
/// listed. There is none where folders that contain one another stand in the way, or where the
/// sizes do not add up to a number of 64 bits.
pub open spec fn folder_plan_of(
    link: FolderRef,
    listing: Option<Result<Seq<RawView>, Seq<char>>>,
    windows: bool,
) -> Option<Result<PlanView, ErrorView>> {
    match shared_key_of(link.key) {
        Err(error) => Some(Err(error)),
        Ok(shared_key) => match listing {
            None => Some(Err(ErrorView::Message("MEGA folder response is missing nodes"@))),
            Some(Err(cause)) => Some(Err(ErrorView::Json(cause))),
            Some(Ok(raws)) => match contents_of(
                raws,
                link.folder_id,
                link.key,
                shared_key,
                windows,
            ) {
                Err(error) => Some(Err(error)),
                Ok((nodes, files)) => if is_orderly(nodes, files, link) {
                    Some(plan_of(nodes, files, link, windows))
                } else {
                    None
                },
            },
        },
    }
}

/// The plan for the download of what a link to a folder singles out, given what the service has
/// listed. The path of every file stays inside the folder that it starts in.
pub fn plan_folder(
    link: &MegaFolderLink,
    listing: Option<Result<Vec<RawNode>, String>>,
    windows: bool,
) -> (plan: Option<Result<FolderPlan, DownloadError>>)
    ensures
        match plan {
            None => folder_plan_of(folder_ref(*link), listing_view(listing), windows) is None,
            Some(Ok(found)) => folder_plan_of(
                folder_ref(*link),
                listing_view(listing),
                windows,
            ) == Some(Ok::<PlanView, ErrorView>(found@)) && found.files@.len()
                <= MAX_FOLDER_FILES_PER_TASK && forall|i: int|
                0 <= i < found.files@.len() ==> stays_inside(#[trigger] found.files@[i]),
            Some(Err(error)) => folder_plan_of(
                folder_ref(*link),
                listing_view(listing),
                windows,
            ) == Some(Err::<PlanView, ErrorView>(error@)),
        },
{
    let shared_key = match folder_key(link) {
        Ok(found) => found,
        Err(error) => return Some(Err(error)),
    };
    let raws = match listing {
        None => return Some(Err(failure("MEGA folder response is missing nodes"))),
        Some(Err(cause)) => return Some(Err(DownloadError::Json(cause))),
        Some(Ok(found)) => found,
    };
    let contents = match read_nodes(&raws, link, &shared_key, windows) {
        Ok(found) => found,
        Err(error) => return Some(Err(error)),
    };
    if check_orderly(&contents, link) {
        Some(arrange_plan(&contents, link, windows))
    } else {
        None
    }
}

/// A link that singles out a file leads to a plan for that file alone.
pub proof fn selecting_a_file_downloads_it_alone(
    nodes: Map<Seq<char>, NodeView>,
    files: Seq<FileView>,
    link: FolderRef,
    handle: Seq<char>,
    windows: bool,
    i: int,
)
    requires
        link.selected_handle == Some(handle),
        nodes.contains_key(handle),
        nodes[handle].kind == FILE_NODE,
        plan_of(nodes, files, link, windows) matches Ok(plan) && 0 <= i < plan.files.len(),
    ensures
        plan_of(nodes, files, link, windows)->Ok_0.files[i].handle == handle,
        !plan_of(nodes, files, link, windows)->Ok_0.create_root_dir,
{
    let plan = plan_of(nodes, files, link, windows)->Ok_0;
    let selected = Some(nodes[handle]);
    let wanted = wanted_files(nodes, files, link, selected);
    let all = placed_files(nodes, wanted, path_root(link, selected), windows);
    arranging_sorts(all);
    lemma_arranged_member(all, i);
    let k = choose|k: int| 0 <= k < all.len() && all[k] == arranged(all)[i];
    files.lemma_filter_pred(
        |file: FileView| is_wanted(nodes, link, selected, file.handle),
        k,
    );
}

/// A link that singles out nothing leads to a plan for every file, whatever the folders.
pub proof fn selecting_nothing_downloads_everything(
    nodes: Map<Seq<char>, NodeView>,
    files: Seq<FileView>,
    link: FolderRef,
    windows: bool,
)
    requires
        link.selected_handle is None,
        files.len() <= MAX_FOLDER_FILES_PER_TASK,
    ensures
        plan_of(nodes, files, link, windows) matches Ok(plan) && plan.files.to_multiset()
            == placed_files(nodes, files, link.folder_id, windows).to_multiset()
            && plan.create_root_dir,
{
    lemma_all_wanted(nodes, files, link);
    arranging_sorts(placed_files(nodes, files, link.folder_id, windows));
}

proof fn lemma_all_wanted(
    nodes: Map<Seq<char>, NodeView>,
    files: Seq<FileView>,
    link: FolderRef,
)
    ensures
        wanted_files(nodes, files, link, None) == files,
    decreases files.len(),
{
    reveal(Seq::filter);
    if files.len() > 0 {
        lemma_all_wanted(nodes, files.drop_last(), link);
        assert(files.drop_last().push(files.last()) =~= files);
    } else {
        assert(files =~= Seq::<FileView>::empty());
    }
}

/// What is arranged was listed.
proof fn lemma_arranged_member(files: Seq<FileView>, i: int)
    requires
        0 <= i < arranged(files).len(),
    ensures
        exists|k: int| 0 <= k < files.len() && files[k] == arranged(files)[i],
    decreases files.len(),
{
    let rest = files.drop_last();
    arranging_sorts(files);
    arranging_sorts(rest);
    let before = arranged(rest);
    let at = insertion_point(before, files.last().relative_path, before.len()) as int;
    lemma_insertion_point(before, files.last().relative_path, before.len());
    if i == at {
        assert(files[files.len() - 1] == arranged(files)[i]);
    } else {
        let j = if i < at {
            i
        } else {
            i - 1
        };
        assert(arranged(files)[i] == before[j]);
        lemma_arranged_member(rest, j);
        let k = choose|k: int| 0 <= k < rest.len() && rest[k] == before[j];
        assert(files[k] == arranged(files)[i]);
    }
}

/// The sizes of files are added up, and no order changes their sum.
pub proof fn sizes_are_added_up(files: Seq<FileView>, file: FileView)
    ensures
        sizes_of(Seq::empty()) == 0,
        sizes_of(files.push(file)) == sizes_of(files) + file.size,
        sizes_of(arranged(files)) == sizes_of(files),
    decreases files.len(),
{
    assert(files.push(file).drop_last() =~= files);
    if files.len() > 0 {
        let rest = files.drop_last();
        sizes_are_added_up(rest, files.last());
        let before = arranged(rest);
        let at = insertion_point(before, files.last().relative_path, before.len()) as int;
        lemma_insertion_point(before, files.last().relative_path, before.len());
        lemma_sizes_of_insert(before, at, files.last());
    }
}

proof fn lemma_sizes_of_insert(files: Seq<FileView>, at: int, file: FileView)
    requires
        0 <= at <= files.len(),
    ensures
        sizes_of(files.insert(at, file)) == sizes_of(files) + file.size,
    decreases files.len(),
{
    let after = files.insert(at, file);
    if at == files.len() {
        assert(after.drop_last() =~= files);
    } else {
        lemma_sizes_of_insert(files.drop_last(), at, file);
        assert(after.drop_last() =~= files.drop_last().insert(at, file));
        assert(after.last() == files.last());
    }
}

proof fn lemma_placing_keeps_sizes(
    nodes: Map<Seq<char>, NodeView>,
    files: Seq<FileView>,
    root: Seq<char>,
    windows: bool,
)
    ensures
        sizes_of(placed_files(nodes, files, root, windows)) == sizes_of(files),
    decreases files.len(),
{
    if files.len() > 0 {
        lemma_placing_keeps_sizes(nodes, files.drop_last(), root, windows);
        assert(placed_files(nodes, files, root, windows).drop_last() =~= placed_files(
            nodes,
            files.drop_last(),
            root,
            windows,
        ));
    }
}

/// A plan holds its files in the order of their paths, and as many bytes as they have together. It
/// is named after what the link singles out, or after the shared folder, and makes a folder of its
/// own unless a single file is singled out.
pub proof fn plans_describe_their_files(
    nodes: Map<Seq<char>, NodeView>,
    files: Seq<FileView>,
    link: FolderRef,
    windows: bool,
)
    requires
        plan_of(nodes, files, link, windows) is Ok,
    ensures
        ({
            let plan = plan_of(nodes, files, link, windows)->Ok_0;
            &&& plan.files.len() <= 50
            &&& forall|i: int, j: int|
                0 <= i < j < plan.files.len() ==> !path_less(
                    (#[trigger] plan.files[j]).relative_path,
                    (#[trigger] plan.files[i]).relative_path,
                )
            &&& plan.total_bytes == sizes_of(plan.files) as u64
            &&& plan.folder_id == link.folder_id
            &&& match link.selected_handle {
                Some(handle) => {
                    &&& nodes.contains_key(handle)
                    &&& plan.name == nodes[handle].name
                    &&& plan.create_root_dir <==> nodes[handle].kind != 0
                },
                None => {
                    &&& plan.create_root_dir
                    &&& nodes.contains_key(link.folder_id) && nodes[link.folder_id].kind == 1
                        ==> plan.name == nodes[link.folder_id].name
                    &&& !nodes.contains_key(link.folder_id) ==> plan.name == "MEGA Folder"@
                },
            }
        }),
{
    let selected = selected_node(nodes, link)->Ok_0;
    let wanted = wanted_files(nodes, files, link, selected);
    let root = path_root(link, selected);
    let all = placed_files(nodes, wanted, root, windows);
    arranging_sorts(all);
    lemma_placing_keeps_sizes(nodes, wanted, root, windows);
    if all.len() > 0 {
        sizes_are_added_up(all, all[0]);
    } else {
        assert(arranged(all) =~= all);
    }
}

/// Which files a plan holds, and where they go. Without a selection it holds every file, below the
/// shared folder. A selected file is held alone, below its own folder. Of a selected folder it
/// holds the files from which a chain of folders leads up to it, below that folder, and every file
/// where the shared folder itself is selected. All else about a file stays as it is listed.
pub proof fn plans_hold_what_is_selected(
    nodes: Map<Seq<char>, NodeView>,
    files: Seq<FileView>,
    link: FolderRef,
    windows: bool,
    k: int,
)
    requires
        plan_of(nodes, files, link, windows) is Ok,
        0 <= k < files.len(),
    ensures
        ({
            let plan = plan_of(nodes, files, link, windows)->Ok_0;
            let file = files[k];
            match link.selected_handle {
                None => holds(plan, nodes, file, link.folder_id, windows),
                Some(handle) => if nodes[handle].kind == 0 {
                    holds(
                        plan,
                        nodes,
                        file,
                        match nodes[handle].parent {
                            Some(parent) => parent,
                            None => link.folder_id,
                        },
                        windows,
                    ) <==> file.handle == handle
                } else if nodes[handle].kind == 1 {
                    holds(plan, nodes, file, handle, windows) <==> handle == link.folder_id
                        || exists|chain: Seq<Seq<char>>| #[trigger]
                        leads_up(nodes, chain) && chain.len() >= 2 && chain[0] == file.handle
                            && chain.last() == handle
                } else {
                    true
                },
            }
        }),
{
    let plan = plan_of(nodes, files, link, windows)->Ok_0;
    let file = files[k];
    let selected = selected_node(nodes, link)->Ok_0;
    let wanted = wanted_files(nodes, files, link, selected);
    let root = path_root(link, selected);
    let all = placed_files(nodes, wanted, root, windows);
    let pred = |file: FileView| is_wanted(nodes, link, selected, file.handle);
    let here = placed(nodes, file, root, windows);
    arranging_sorts(all);
    if let Some(handle) = link.selected_handle {
        chains_lead_to_what_is_above(nodes, file.handle, handle);
    }
    if is_wanted(nodes, link, selected, file.handle) {
        files.lemma_filter_contains(pred, k);
        let m = choose|m: int| 0 <= m < wanted.len() && wanted[m] == file;
        assert(all[m] == here);
        assert(all.contains(here));
        vstd::seq_lib::to_multiset_contains(all, here);
        vstd::seq_lib::to_multiset_contains(plan.files, here);
    }
    if plan.files.contains(here) {
        let i = choose|i: int| 0 <= i < plan.files.len() && plan.files[i] == here;
        lemma_arranged_member(all, i);
        let m = choose|m: int| 0 <= m < all.len() && all[m] == arranged(all)[i];
        files.lemma_filter_pred(pred, m);
        assert(all[m].handle == wanted[m].handle);
        assert(is_wanted(nodes, link, selected, file.handle));
    }
}

/// Whether a plan holds a file as it is listed, with its path below this folder.
pub open spec fn holds(
    plan: PlanView,
    nodes: Map<Seq<char>, NodeView>,
    file: FileView,
    root: Seq<char>,
    windows: bool,
) -> bool {
    plan.files.contains(
        FileView {
            relative_path: relative_path(nodes, file.handle, file.name, root, windows),
            ..file
        },
    )
}

/// A link that singles out what is not there leads to no plan, and neither does one to more than
/// fifty files.
pub proof fn plans_are_refused(
    nodes: Map<Seq<char>, NodeView>,
    files: Seq<FileView>,
    link: FolderRef,
    windows: bool,
)
    ensures
        link.selected_handle matches Some(handle) && !nodes.contains_key(handle) ==> plan_of(
            nodes,
            files,
            link,
            windows,
        ) == Err::<PlanView, ErrorView>(
            ErrorView::Message("selected MEGA folder item was not found"@),
        ),
        link.selected_handle is None && files.len() > 50 ==> plan_of(nodes, files, link, windows)
            == Err::<PlanView, ErrorView>(
            ErrorView::Message(
                "folder contains "@ + decimal(files.len())
                    + " files, exceeding the current 50 file limit"@,
            ),
        ),
        (link.selected_handle matches Some(handle) ==> nodes.contains_key(handle)) && files.len()
            <= 50 ==> plan_of(nodes, files, link, windows) is Ok,
{
    lemma_all_wanted(nodes, files, link);
    if let Ok(selected) = selected_node(nodes, link) {
        files.lemma_filter_len(
            |file: FileView| is_wanted(nodes, link, selected, file.handle),
        );
    }
}

/// Whether a chain of folders leads up from a node to the top, where nothing stands above.
pub open spec fn reaches_the_top(nodes: Map<Seq<char>, NodeView>, handle: Seq<char>) -> bool {
    exists|chain: Seq<Seq<char>>| #[trigger]
        leads_up(nodes, chain) && chain[0] == handle && (!nodes.contains_key(chain.last())
            || nodes[chain.last()].parent is None)
}

/// Nothing stands in the way of a plan where every file has a chain of folders that leads up to
/// the top, and the sizes add up to a number of 64 bits.
pub proof fn trees_are_orderly(
    nodes: Map<Seq<char>, NodeView>,
    files: Seq<FileView>,
    link: FolderRef,
)
    requires
        forall|i: int| 0 <= i < files.len() ==> reaches_the_top(nodes, (#[trigger] files[i]).handle),
        sizes_of(files) <= u64::MAX,
    ensures
        is_orderly(nodes, files, link),
{
    if let Ok(selected) = selected_node(nodes, link) {
        let wanted = wanted_files(nodes, files, link, selected);
        let pred = |file: FileView| is_wanted(nodes, link, selected, file.handle);
        assert forall|i: int, stop: Seq<char>| 0 <= i < files.len() implies #[trigger] walk_ends(
            nodes,
            files[i].handle,
            stop,
        ) by {
            let handle = files[i].handle;
            assert(reaches_the_top(nodes, handle));
            let chain = choose|chain: Seq<Seq<char>>| #[trigger]
                leads_up(nodes, chain) && chain[0] == handle && (!nodes.contains_key(chain.last())
                    || nodes[chain.last()].parent is None);
            walks_end_at_the_top(nodes, chain, stop);
        }
        assert forall|i: int| 0 <= i < wanted.len() implies walk_ends(
            nodes,
            (#[trigger] wanted[i]).handle,
            path_root(link, selected),
        ) by {
            assert(wanted.contains(wanted[i]));
            files.lemma_filter_contains_rev(pred, wanted[i]);
            let m = choose|m: int| 0 <= m < files.len() && files[m] == wanted[i];
            assert(walk_ends(nodes, files[m].handle, path_root(link, selected)));
        }
        lemma_wanted_sizes(files, pred);
    }
}

proof fn lemma_wanted_sizes(files: Seq<FileView>, pred: spec_fn(FileView) -> bool)
    ensures
        0 <= sizes_of(files.filter(pred)) <= sizes_of(files),
    decreases files.len(),
{
    reveal(Seq::filter);
    if files.len() > 0 {
        lemma_wanted_sizes(files.drop_last(), pred);
        let before = files.drop_last().filter(pred);
        if pred(files.last()) {
            assert(before.push(files.last()).drop_last() =~= before);
        }
    }
}

/// A reply without nodes, or with nodes that cannot be read, leads to no plan, and neither does a
/// key of the wrong length. Otherwise the plan is that of the nodes that were read.
pub proof fn replies_lead_to_plans(
    link: FolderRef,
    listing: Option<Result<Seq<RawView>, Seq<char>>>,
    windows: bool,
)
    ensures
        shared_key_of(link.key) matches Err(error) ==> folder_plan_of(link, listing, windows)
            == Some(Err::<PlanView, ErrorView>(error)),
        shared_key_of(link.key) is Ok && listing is None ==> folder_plan_of(link, listing, windows)
            == Some(
            Err::<PlanView, ErrorView>(
                ErrorView::Message("MEGA folder response is missing nodes"@),
            ),
        ),
        shared_key_of(link.key) matches Ok(shared_key) ==> (listing matches Some(Ok(raws)) ==> (
        contents_of(raws, link.folder_id, link.key, shared_key, windows) matches Ok(contents) ==> (
        is_orderly(contents.0, contents.1, link) ==> folder_plan_of(link, listing, windows) == Some(
            plan_of(contents.0, contents.1, link, windows),
        )))),
{
}

} // verus!
