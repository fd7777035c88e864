//! What is to be downloaded of a shared folder.
use crate::crypto::FileCrypto;
use crate::error::{failure, DownloadError, ErrorView};
use crate::keys::{
    attr_key, bytes_of, decode_key_words, decrypt_key_words, decrypt_node_name,
    derive_file_attr_key_words, derive_file_crypto, extract_node_key, first_four_words, key_words,
    node_key, node_name, words_and_bytes_read_back, words_decrypted, words_of, words_to_16_bytes,
};
use crate::link::{optional_view, MegaFolderLink};
use crate::names::{component, sanitize_component};
use crate::nodes::{node_views, FolderNode, NodeView, FILE_NODE, FOLDER_NODE};
use crate::settings::copy_text;
use crate::text::views;
use crate::textmap::TextMap;
use vstd::prelude::*;

verus! {

/// The largest number of files that one task downloads of a folder.
pub const MAX_FOLDER_FILES_PER_TASK: usize = 50;

/// A node as the service lists it.
#[derive(Debug)]
pub struct RawNode {
    /// The handle.
    pub h: String,
    /// The handle of the folder that it stands in.
    pub p: Option<String>,
    /// The kind.
    pub t: u8,
    /// The encrypted attributes.
    pub a: Option<String>,
    /// The encrypted keys.
    pub k: Option<String>,
    /// The size.
    pub s: Option<u64>,
}

/// The mathematical form of a `RawNode`.
pub struct RawView {
    pub h: Seq<char>,
    pub p: Option<Seq<char>>,
    pub t: u8,
    pub a: Option<Seq<char>>,
    pub k: Option<Seq<char>>,
    pub s: Option<u64>,
}

impl View for RawNode {
    type V = RawView;

    open spec fn view(&self) -> RawView {
        RawView {
            h: self.h@,
            p: optional_view(self.p),
            t: self.t,
            a: optional_view(self.a),
            k: optional_view(self.k),
            s: self.s,
        }
    }
}

/// The mathematical form of a list of nodes.
pub open spec fn raw_views(raws: Seq<RawNode>) -> Seq<RawView> {
    Seq::new(raws.len(), |i: int| raws[i]@)
}

/// The parts of a file's key, in mathematical form: the cipher key, the upper half of the counter
/// block, and the condensed authentication code.
pub struct CryptoView {
    pub aes_key: Seq<u8>,
    pub iv_words: Seq<u32>,
    pub meta_mac: Seq<u32>,
}

/// The mathematical form of a `FileCrypto`.
pub open spec fn crypto_view(crypto: FileCrypto) -> CryptoView {
    CryptoView {
        aes_key: crypto.aes_key@,
        iv_words: crypto.iv_words@,
        meta_mac: crypto.meta_mac@,
    }
}

/// The parts of the key that `words` are.
pub open spec fn crypto_of(words: Seq<u32>) -> CryptoView {
    CryptoView {
        aes_key: bytes_of(attr_key(words)),
        iv_words: words.subrange(4, 6),
        meta_mac: words.subrange(6, 8),
    }
}

/// A file of a folder that is to be downloaded.
#[derive(Debug)]
pub struct FolderFilePlan {
    pub name: String,
    /// Where it goes below the folder that the download is saved in, part by part.
    pub relative_path: Vec<String>,
    pub size: u64,
    pub handle: String,
    pub crypto: FileCrypto,
    pub manifest_id: String,
}

/// The mathematical form of a `FolderFilePlan`.
pub struct FileView {
    pub name: Seq<char>,
    pub relative_path: Seq<Seq<char>>,
    pub size: u64,
    pub handle: Seq<char>,
    pub crypto: CryptoView,
    pub manifest_id: Seq<char>,
}

impl View for FolderFilePlan {
    type V = FileView;

    open spec fn view(&self) -> FileView {
        FileView {
            name: self.name@,
            relative_path: views(self.relative_path@),
            size: self.size,
            handle: self.handle@,
            crypto: crypto_view(self.crypto),
            manifest_id: self.manifest_id@,
        }
    }
}

/// The mathematical form of a list of files.
pub open spec fn file_views(files: Seq<FolderFilePlan>) -> Seq<FileView> {
    Seq::new(files.len(), |i: int| files[i]@)
}

/// What a download of a folder consists of.
#[derive(Debug)]
pub struct FolderPlan {
    pub name: String,
    pub total_bytes: u64,
    pub files: Vec<FolderFilePlan>,
    pub folder_id: String,
    /// Whether the files go into a folder of their own.
    pub create_root_dir: bool,
}

/// The mathematical form of a `FolderPlan`.
pub struct PlanView {
    pub name: Seq<char>,
    pub total_bytes: u64,
    pub files: Seq<FileView>,
    pub folder_id: Seq<char>,
    pub create_root_dir: bool,
}

impl View for FolderPlan {
    type V = PlanView;

    open spec fn view(&self) -> PlanView {
        PlanView {
            name: self.name@,
            total_bytes: self.total_bytes,
            files: file_views(self.files@),
            folder_id: self.folder_id@,
            create_root_dir: self.create_root_dir,
        }
    }
}

/// The bytes of a folder's key.
pub open spec fn shared_key_of(key: Seq<char>) -> Result<Seq<u8>, ErrorView> {
    match key_words(key) {
        Err(error) => Err(error),
        Ok(words) => if words.len() != 4 {
            Err(ErrorView::Message("MEGA folder key must decode to 128 bits"@))
        } else {
            Ok(bytes_of(words))
        },
    }
}

/// The bytes of a folder's key.
pub fn folder_key(link: &MegaFolderLink) -> (key: Result<[u8; 16], DownloadError>)
    ensures
        match key {
            Ok(found) => shared_key_of(link.key@) == Ok::<Seq<u8>, ErrorView>(found@),
            Err(error) => shared_key_of(link.key@) == Err::<Seq<u8>, ErrorView>(error@),
        },
{
    let words = match decode_key_words(&link.key) {
        Ok(found) => found,
        Err(error) => return Err(error),
    };
    if words.len() != 4 {
        return Err(failure("MEGA folder key must decode to 128 bits"));
    }
    words_to_16_bytes(&words)
}

/// The key of a node's attributes.
pub open spec fn attribute_key(kind: u8, words: Seq<u32>) -> Result<Seq<u32>, ErrorView> {
    if kind == FILE_NODE {
        if words.len() < 8 {
            Err(ErrorView::Message("file key is shorter than expected"@))
        } else {
            Ok(attr_key(words))
        }
    } else {
        if words.len() < 4 {
            Err(ErrorView::Message("folder key is shorter than expected"@))
        } else {
            Ok(words.take(4))
        }
    }
}

/// The decrypted key of a node.
pub open spec fn node_words(raw: RawView, shared_key: Seq<u8>) -> Result<Seq<u32>, ErrorView> {
    let encrypted = match raw.k {
        Some(keys) => node_key(keys),
        None => None,
    };
    match encrypted {
        None => Err(ErrorView::Message("folder node is missing key data"@)),
        Some(key) => match key_words(key) {
            Err(error) => Err(error),
            Ok(words) => if words.len() % 4 != 0 {
                Err(ErrorView::Message("encrypted key is not AES block-aligned"@))
            } else {
                Ok(words_decrypted(words, shared_key))
            },
        },
    }
}

/// The name on disk of a node, and its decrypted key.
pub open spec fn node_content(raw: RawView, shared_key: Seq<u8>, windows: bool) -> Result<
    (Seq<char>, Seq<u32>),
    ErrorView,
> {
    match node_words(raw, shared_key) {
        Err(error) => Err(error),
        Ok(words) => match attribute_key(raw.t, words) {
            Err(error) => Err(error),
            Ok(key) => match raw.a {
                None => Err(ErrorView::Message("folder node is missing attributes"@)),
                Some(attributes) => match node_name(attributes, bytes_of(key)) {
                    Err(error) => Err(error),
                    Ok(name) => Ok((component(name, windows), words)),
                },
            },
        },
    }
}

/// The decrypted key of a node.
fn read_node_words(raw: &RawNode, shared_key: &[u8; 16]) -> (words: Result<
    Vec<u32>,
    DownloadError,
>)
    ensures
        match words {
            Ok(found) => node_words(raw@, shared_key@) == Ok::<Seq<u32>, ErrorView>(found@),
            Err(error) => node_words(raw@, shared_key@) == Err::<Seq<u32>, ErrorView>(error@),
        },
{
    let encrypted = match &raw.k {
        Some(keys) => extract_node_key(keys),
        None => None,
    };
    match encrypted {
        None => Err(failure("folder node is missing key data")),
        Some(key) => match decode_key_words(&key) {
            Err(error) => Err(error),
            Ok(words) => decrypt_key_words(&words, shared_key),
        },
    }
}

/// The name on disk of a node, and its decrypted key.
pub fn read_node(raw: &RawNode, shared_key: &[u8; 16], windows: bool) -> (content: Result<
    (String, Vec<u32>),
    DownloadError,
>)
    ensures
        match content {
            Ok(found) => node_content(raw@, shared_key@, windows) == Ok::<
                (Seq<char>, Seq<u32>),
                ErrorView,
            >((found.0@, found.1@)),
            Err(error) => node_content(raw@, shared_key@, windows) == Err::<
                (Seq<char>, Seq<u32>),
                ErrorView,
            >(error@),
        },
{
    let words = match read_node_words(raw, shared_key) {
        Ok(found) => found,
        Err(error) => return Err(error),
    };
    let key = match if raw.t == FILE_NODE {
        derive_file_attr_key_words(&words)
    } else {
        first_four_words(&words)
    } {
        Ok(found) => found,
        Err(error) => return Err(error),
    };
    let key_bytes = match words_to_16_bytes(&key) {
        Ok(found) => found,
        Err(error) => return Err(error),
    };
    let attributes = match &raw.a {
        Some(found) => found,
        None => return Err(failure("folder node is missing attributes")),
    };
    match decrypt_node_name(attributes, &key_bytes) {
        Ok(name) => Ok((sanitize_component(&name, windows), words)),
        Err(error) => Err(error),
    }
}

/// What identifies the download of a file of a folder.
pub open spec fn folder_manifest_id(
    folder_id: Seq<char>,
    handle: Seq<char>,
    key: Seq<char>,
) -> Seq<char> {
    "folder:"@ + folder_id + ":"@ + handle + ":"@ + key
}

/// Different files of a folder have different manifests.
pub proof fn folder_manifest_ids_are_distinct(
    folder_id: Seq<char>,
    key: Seq<char>,
    a: Seq<char>,
    b: Seq<char>,
)
    requires
        folder_manifest_id(folder_id, a, key) == folder_manifest_id(folder_id, b, key),
    ensures
        a == b,
{
    let head = "folder:"@ + folder_id + ":"@;
    let tail = ":"@ + key;
    let left = folder_manifest_id(folder_id, a, key);
    let right = folder_manifest_id(folder_id, b, key);
    assert(left == head + a + tail);
    assert(right == head + b + tail);
    assert(a.len() == b.len());
    assert(left.subrange(head.len() as int, (head.len() + a.len()) as int) == a);
    assert(right.subrange(head.len() as int, (head.len() + b.len()) as int) == b);
}

/// A file of a folder before its place is known.
pub open spec fn unplaced_file(
    raw: RawView,
    folder_id: Seq<char>,
    key: Seq<char>,
    name: Seq<char>,
    words: Seq<u32>,
) -> FileView {
    FileView {
        name,
        relative_path: Seq::empty(),
        size: match raw.s {
            Some(size) => size,
            None => 0,
        },
        handle: raw.h,
        crypto: crypto_of(words),
        manifest_id: folder_manifest_id(folder_id, raw.h, key),
    }
}

/// The nodes by their handles, and the files in the order in which they are listed. What is
/// neither a file nor a folder is left out. Of two nodes with the same handle the later one counts.
pub open spec fn contents_of(
    raws: Seq<RawView>,
    folder_id: Seq<char>,
    key: Seq<char>,
    shared_key: Seq<u8>,
    windows: bool,
) -> Result<(Map<Seq<char>, NodeView>, Seq<FileView>), ErrorView>
    decreases raws.len(),
{
    if raws.len() == 0 {
        Ok((Map::empty(), Seq::empty()))
    } else {
        let raw = raws.last();
        match contents_of(raws.drop_last(), folder_id, key, shared_key, windows) {
            Err(error) => Err(error),
            Ok((nodes, files)) => if raw.t != FILE_NODE && raw.t != FOLDER_NODE {
                Ok((nodes, files))
            } else {
                match node_content(raw, shared_key, windows) {
                    Err(error) => Err(error),
                    Ok((name, words)) => Ok(
                        (
                            nodes.insert(raw.h, NodeView { name, parent: raw.p, kind: raw.t }),
                            if raw.t == FILE_NODE {
                                files.push(unplaced_file(raw, folder_id, key, name, words))
                            } else {
                                files
                            },
                        ),
                    ),
                }
            },
        }
    }
}

/// What is wrong with the first nodes is wrong with all of them.
proof fn lemma_error_stays(
    raws: Seq<RawView>,
    folder_id: Seq<char>,
    key: Seq<char>,
    shared_key: Seq<u8>,
    windows: bool,
    n: int,
)
    requires
        0 <= n <= raws.len(),
        contents_of(raws.take(n), folder_id, key, shared_key, windows) is Err,
    ensures
        contents_of(raws, folder_id, key, shared_key, windows) == contents_of(
            raws.take(n),
            folder_id,
            key,
            shared_key,
            windows,
        ),
    decreases raws.len() - n,
{
    if n == raws.len() {
        assert(raws.take(n) == raws);
    } else {
        assert(raws.take(n + 1).drop_last() == raws.take(n));
        lemma_error_stays(raws, folder_id, key, shared_key, windows, n + 1);
    }
}

/// The nodes and files of a shared folder.
pub struct FolderContents {
    pub nodes: TextMap<FolderNode>,
    pub files: Vec<FolderFilePlan>,
}

impl FolderContents {
    /// Every handle stands for one node, and every node is a file or a folder.
    pub open spec fn wf(self) -> bool {
        &&& self.nodes.wf()
        &&& forall|handle: Seq<char>| #[trigger]
            self.nodes@.contains_key(handle) ==> self.nodes@[handle].kind == FILE_NODE
                || self.nodes@[handle].kind == FOLDER_NODE
    }

    /// The nodes by their handles, and the files.
    pub open spec fn content(self) -> (Map<Seq<char>, NodeView>, Seq<FileView>) {
        (node_views(self.nodes@), file_views(self.files@))
    }
}

/// Appends a separator and a field.
fn push_field(out: &mut String, separator: &str, field: &str)
    ensures
        final(out)@ == old(out)@ + separator@ + field@,
{
    out.append(separator);
    out.append(field);
}

/// The nodes and files of a shared folder.
#[verifier::rlimit(40)]
pub fn read_nodes(
    raws: &Vec<RawNode>,
    link: &MegaFolderLink,
    shared_key: &[u8; 16],
    windows: bool,
) -> (contents: Result<FolderContents, DownloadError>)
    ensures
        match contents {
            Ok(found) => found.wf() && contents_of(
                raw_views(raws@),
                link.folder_id@,
                link.key@,
                shared_key@,
                windows,
            ) == Ok::<(Map<Seq<char>, NodeView>, Seq<FileView>), ErrorView>(found.content()),
            Err(error) => contents_of(
                raw_views(raws@),
                link.folder_id@,
                link.key@,
                shared_key@,
                windows,
            ) == Err::<(Map<Seq<char>, NodeView>, Seq<FileView>), ErrorView>(error@),
        },
{
    let ghost all = raw_views(raws@);
    let mut contents = FolderContents { nodes: TextMap::new(), files: Vec::new() };
    let mut i: usize = 0;
    assert(node_views(contents.nodes@) == Map::<Seq<char>, NodeView>::empty());
    assert(file_views(contents.files@) == Seq::<FileView>::empty());
    assert(all.take(0).len() == 0);
    while i < raws.len()
        invariant
            all == raw_views(raws@),
            i <= raws@.len(),
            contents.wf(),
            contents_of(all.take(i as int), link.folder_id@, link.key@, shared_key@, windows)
                == Ok::<(Map<Seq<char>, NodeView>, Seq<FileView>), ErrorView>(contents.content()),
        decreases raws@.len() - i,
    {
        let raw = &raws[i];
        assert(all.take(i + 1).drop_last() == all.take(i as int));
        assert(all.take(i + 1).last() == raw@);
        if raw.t == FILE_NODE || raw.t == FOLDER_NODE {
            let (name, words) = match read_node(raw, shared_key, windows) {
                Ok(found) => found,
                Err(error) => {
                    proof {
                        lemma_error_stays(
                            all,
                            link.folder_id@,
                            link.key@,
                            shared_key@,
                            windows,
                            i + 1,
                        );
                    }
                    return Err(error);
                },
            };
            let ghost nodes_before = contents.nodes@;
            let ghost files_before = contents.files@;
            if raw.t == FILE_NODE {
                let crypto = match derive_file_crypto(&words) {
                    Ok(found) => found,
                    Err(error) => return Err(error),
                };
                let mut manifest_id = "folder:".to_string();
                manifest_id.append(&link.folder_id);
                push_field(&mut manifest_id, ":", &raw.h);
                push_field(&mut manifest_id, ":", &link.key);
                let file = FolderFilePlan {
                    name: name.clone(),
                    relative_path: Vec::new(),
                    size: match raw.s {
                        Some(size) => size,
                        None => 0,
                    },
                    handle: raw.h.clone(),
                    crypto,
                    manifest_id,
                };
                assert(views(file.relative_path@) == Seq::<Seq<char>>::empty());
                assert(file@ == unplaced_file(
                    raw@,
                    link.folder_id@,
                    link.key@,
                    name@,
                    words@,
                ));
                contents.files.push(file);
                assert(file_views(contents.files@) == file_views(files_before).push(file@));
            }
            let node = FolderNode { name, parent: copy_text(&raw.p), kind: raw.t };
            contents.nodes.insert(raw.h.clone(), node);
            assert(node_views(contents.nodes@) == node_views(nodes_before).insert(raw@.h, node@));
        }
        i = i + 1;
    }
    assert(all.take(all.len() as int) == all);
    Ok(contents)
}

/// The key of a folder is made of exactly four words, in their order.
pub proof fn folder_keys_have_four_words(key: Seq<char>)
    ensures
        key_words(key) matches Ok(words) ==> (shared_key_of(key) is Ok <==> words.len() == 4),
        key_words(key) matches Err(error) ==> shared_key_of(key) == Err::<Seq<u8>, ErrorView>(
            error,
        ),
        shared_key_of(key) matches Ok(bytes) ==> key_words(key) == Ok::<Seq<u32>, ErrorView>(
            words_of(bytes),
        ),
{
    if let Ok(words) = key_words(key) {
        words_and_bytes_read_back(words, Seq::empty());
    }
}

/// The attributes of a file are opened with its key folded in half, and those of a folder with the
/// first four words of its key. A node without a key or without attributes is not read, and
/// neither is one with too short a key.
pub proof fn attributes_open_with_the_key(
    raw: RawView,
    shared_key: Seq<u8>,
    windows: bool,
    folded: Seq<u32>,
)
    requires
        node_words(raw, shared_key) matches Ok(words) && folded.len() == 4 && (words.len() >= 8
            ==> forall|i: int| 0 <= i < 4 ==> folded[i] == #[trigger] words[i] ^ words[i + 4]),
    ensures
        ({
            let words = node_words(raw, shared_key)->Ok_0;
            let content = node_content(raw, shared_key, windows);
            let short = if raw.t == 0 {
                words.len() < 8
            } else {
                words.len() < 4
            };
            &&& raw.t == 0 && short ==> content == Err::<(Seq<char>, Seq<u32>), ErrorView>(
                ErrorView::Message("file key is shorter than expected"@),
            )
            &&& raw.t != 0 && short ==> content == Err::<(Seq<char>, Seq<u32>), ErrorView>(
                ErrorView::Message("folder key is shorter than expected"@),
            )
            &&& !short && raw.a is None ==> content == Err::<(Seq<char>, Seq<u32>), ErrorView>(
                ErrorView::Message("folder node is missing attributes"@),
            )
            &&& !short && raw.a is Some ==> match node_name(
                raw.a->0,
                bytes_of(
                    if raw.t == 0 {
                        folded
                    } else {
                        words.take(4)
                    },
                ),
            ) {
                Ok(name) => content == Ok::<(Seq<char>, Seq<u32>), ErrorView>(
                    (component(name, windows), words),
                ),
                Err(error) => content == Err::<(Seq<char>, Seq<u32>), ErrorView>(error),
            }
        }),
{
    let words = node_words(raw, shared_key)->Ok_0;
    if words.len() >= 8 {
        assert forall|i: int| 0 <= i < 4 implies folded[i] == attr_key(words)[i] by {
            assert(folded[i] == words[i] ^ words[i + 4]);
        }
        assert(folded =~= attr_key(words));
    }
}

/// The key of a node is decrypted with the key of the folder. Where the node has none, or one that
/// does not fill whole blocks, that is reported.
pub proof fn node_keys_are_decrypted(raw: RawView, shared_key: Seq<u8>)
    ensures
        raw.k is None ==> node_words(raw, shared_key) == Err::<Seq<u32>, ErrorView>(
            ErrorView::Message("folder node is missing key data"@),
        ),
        raw.k matches Some(keys) ==> match node_key(keys) {
            None => node_words(raw, shared_key) == Err::<Seq<u32>, ErrorView>(
                ErrorView::Message("folder node is missing key data"@),
            ),
            Some(key) => match key_words(key) {
                Ok(words) => {
                    &&& node_words(raw, shared_key) is Ok <==> words.len() % 4 == 0
                    &&& node_words(raw, shared_key) matches Ok(found) ==> found == words_decrypted(
                        words,
                        shared_key,
                    )
                },
                Err(error) => node_words(raw, shared_key) == Err::<Seq<u32>, ErrorView>(error),
            },
        },
{
}

/// Whether the service lists a file or a folder.
pub open spec fn is_listed(raw: RawView) -> bool {
    raw.t == 0 || raw.t == 1
}

/// A listing is read exactly if all its files and folders are, and otherwise the first that is not
/// is reported. What is neither a file nor a folder is passed over.
pub proof fn listings_are_read_if_their_nodes_are(
    raws: Seq<RawView>,
    folder_id: Seq<char>,
    key: Seq<char>,
    shared_key: Seq<u8>,
    windows: bool,
)
    ensures
        contents_of(raws, folder_id, key, shared_key, windows) is Ok <==> forall|i: int|
            0 <= i < raws.len() && is_listed(#[trigger] raws[i]) ==> node_content(
                raws[i],
                shared_key,
                windows,
            ) is Ok,
        contents_of(raws, folder_id, key, shared_key, windows) matches Err(error) ==> exists|i: int|
            0 <= i < raws.len() && is_listed(#[trigger] raws[i]) && node_content(
                raws[i],
                shared_key,
                windows,
            ) == Err::<(Seq<char>, Seq<u32>), ErrorView>(error) && forall|j: int|
                0 <= j < i && is_listed(#[trigger] raws[j]) ==> node_content(
                    raws[j],
                    shared_key,
                    windows,
                ) is Ok,
    decreases raws.len(),
{
    if raws.len() > 0 {
        let before = raws.drop_last();
        let n = raws.len() - 1;
        listings_are_read_if_their_nodes_are(before, folder_id, key, shared_key, windows);
        assert(forall|i: int| 0 <= i < n ==> before[i] == #[trigger] raws[i]);
        let all = contents_of(raws, folder_id, key, shared_key, windows);
        if contents_of(before, folder_id, key, shared_key, windows) is Err {
            let error = all->Err_0;
            let i = choose|i: int|
                0 <= i < before.len() && is_listed(#[trigger] before[i]) && node_content(
                    before[i],
                    shared_key,
                    windows,
                ) == Err::<(Seq<char>, Seq<u32>), ErrorView>(error) && forall|j: int|
                    0 <= j < i && is_listed(#[trigger] before[j]) ==> node_content(
                        before[j],
                        shared_key,
                        windows,
                    ) is Ok;
            assert(raws[i] == before[i]);
            assert forall|j: int| 0 <= j < i && is_listed(#[trigger] raws[j]) implies node_content(
                raws[j],
                shared_key,
                windows,
            ) is Ok by {
                assert(before[j] == raws[j]);
            }
        } else {
            assert forall|j: int| 0 <= j < n && is_listed(#[trigger] raws[j]) implies node_content(
                raws[j],
                shared_key,
                windows,
            ) is Ok by {
                assert(before[j] == raws[j]);
            }
            assert(raws[n] == raws.last());
        }
    }
}

/// The nodes of a listing are its files and folders, each in the folder that it is listed in. Of
/// two with the same handle the later one counts.
pub proof fn listed_nodes_are_found(
    raws: Seq<RawView>,
    folder_id: Seq<char>,
    key: Seq<char>,
    shared_key: Seq<u8>,
    windows: bool,
    i: int,
)
    requires
        contents_of(raws, folder_id, key, shared_key, windows) is Ok,
        0 <= i < raws.len(),
        is_listed(raws[i]),
        forall|j: int| i < j < raws.len() && is_listed(#[trigger] raws[j]) ==> raws[j].h != raws[i].h,
    ensures
        ({
            let nodes = contents_of(raws, folder_id, key, shared_key, windows)->Ok_0.0;
            &&& nodes.contains_key(raws[i].h)
            &&& nodes[raws[i].h].parent == raws[i].p
            &&& nodes[raws[i].h].kind == raws[i].t
            &&& node_content(raws[i], shared_key, windows) matches Ok(content) && content.0
                == nodes[raws[i].h].name
        }),
    decreases raws.len(),
{
    let before = raws.drop_last();
    let n = raws.len() - 1;
    if i < n {
        assert(before[i] == raws[i]);
        assert forall|j: int| i < j < before.len() && is_listed(#[trigger] before[j]) implies before[j].h
            != before[i].h by {
            assert(before[j] == raws[j]);
        }
        listed_nodes_are_found(before, folder_id, key, shared_key, windows, i);
        assert(raws[n] == raws.last());
    }
}

/// No node is made up: each is listed.
pub proof fn nodes_are_listed(
    raws: Seq<RawView>,
    folder_id: Seq<char>,
    key: Seq<char>,
    shared_key: Seq<u8>,
    windows: bool,
    handle: Seq<char>,
)
    requires
        contents_of(raws, folder_id, key, shared_key, windows) matches Ok(contents)
            && contents.0.contains_key(handle),
    ensures
        exists|i: int| 0 <= i < raws.len() && is_listed(#[trigger] raws[i]) && raws[i].h == handle,
    decreases raws.len(),
{
    if raws.len() > 0 {
        let before = raws.drop_last();
        let nodes = contents_of(before, folder_id, key, shared_key, windows)->Ok_0.0;
        if nodes.contains_key(handle) {
            nodes_are_listed(before, folder_id, key, shared_key, windows, handle);
            let i = choose|i: int|
                0 <= i < before.len() && is_listed(#[trigger] before[i]) && before[i].h == handle;
            assert(raws[i] == before[i]);
        } else {
            assert(raws[raws.len() - 1].h == handle);
        }
    }
}

/// The files of a listing are those that it lists, in that order, each with its own size, handle,
/// key and manifest. A file without a size counts as empty.
pub proof fn listed_files_are_kept_in_order(
    raws: Seq<RawView>,
    folder_id: Seq<char>,
    key: Seq<char>,
    shared_key: Seq<u8>,
    windows: bool,
)
    requires
        contents_of(raws, folder_id, key, shared_key, windows) is Ok,
    ensures
        ({
            let files = contents_of(raws, folder_id, key, shared_key, windows)->Ok_0.1;
            let listed = raws.filter(|raw: RawView| raw.t == 0);
            &&& files.len() == listed.len()
            &&& forall|i: int|
                0 <= i < files.len() ==> {
                    let file = #[trigger] files[i];
                    &&& file.handle == listed[i].h
                    &&& file.size == (match listed[i].s {
                        Some(size) => size,
                        None => 0,
                    })
                    &&& file.manifest_id == "folder:"@ + folder_id + ":"@ + listed[i].h + ":"@ + key
                    &&& node_content(listed[i], shared_key, windows) matches Ok((name, words))
                        && file.name == name && file.crypto.iv_words == seq![words[4], words[5]]
                        && file.crypto.meta_mac == seq![words[6], words[7]]
                        && words_of(file.crypto.aes_key) == seq![
                        words[0] ^ words[4],
                        words[1] ^ words[5],
                        words[2] ^ words[6],
                        words[3] ^ words[7],
                    ]
                }
        }),
    decreases raws.len(),
{
    reveal(Seq::filter);
    if raws.len() > 0 {
        let before = raws.drop_last();
        let raw = raws.last();
        listed_files_are_kept_in_order(before, folder_id, key, shared_key, windows);
        if raw.t == 0 {
            let words = node_content(raw, shared_key, windows)->Ok_0.1;
            words_and_bytes_read_back(attr_key(words), Seq::empty());
            assert(attr_key(words) =~= seq![
                words[0] ^ words[4],
                words[1] ^ words[5],
                words[2] ^ words[6],
                words[3] ^ words[7],
            ]);
            assert(words.subrange(4, 6) =~= seq![words[4], words[5]]);
            assert(words.subrange(6, 8) =~= seq![words[6], words[7]]);
        }
    }
}

} // verus!
