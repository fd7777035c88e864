use aes::cipher::generic_array::GenericArray;
use aes::cipher::{BlockEncrypt, KeyInit};
use aes::Aes128;
use megadown::api::{
    file_key, file_metadata, file_request, first_item, folder_file_request, folder_file_url,
    inspect_link, listing_request, mega_api, preview_file, preview_folder, ApiRequest, FieldValue,
    FileMetadata, Inspection, ReplyItem,
};
use megadown::error::DownloadError;
use megadown::folder::{folder_key, read_node, read_nodes, FolderPlan, RawNode};
use megadown::keys::encode_base64_url;
use megadown::link::{MegaFileLink, MegaFolderLink};
use megadown::nodes::{build_relative_path, has_end, is_descendant_of, FolderNode};
use megadown::order::{path_before, text_before};
use megadown::plan::{arrange_plan, check_orderly, plan_folder};
use megadown::textmap::TextMap;

const SHARED: [u8; 16] = [3; 16];

fn encrypt(key: &[u8; 16], block: &[u8]) -> Vec<u8> {
    let mut out = GenericArray::clone_from_slice(block);
    Aes128::new(GenericArray::from_slice(key)).encrypt_block(&mut out);
    out.to_vec()
}

fn bytes_of(words: &[u32]) -> Vec<u8> {
    words.iter().flat_map(|word| word.to_be_bytes()).collect()
}

fn encrypted_key(words: &[u32]) -> String {
    let mut data = Vec::new();
    for half in words.chunks(4) {
        data.extend(encrypt(&SHARED, &bytes_of(half)));
    }
    encode_base64_url(&data)
}

fn attributes(key: &[u32], name: &str) -> String {
    let mut aes_key = [0u8; 16];
    aes_key.copy_from_slice(&bytes_of(key));
    let mut plain = format!("MEGA{{\"n\":\"{name}\"}}").into_bytes();
    while plain.len() % 16 != 0 {
        plain.push(0);
    }
    let mut previous = vec![0u8; 16];
    let mut data = Vec::new();
    for block in plain.chunks(16) {
        let mixed: Vec<u8> = block.iter().zip(&previous).map(|(a, b)| a ^ b).collect();
        previous = encrypt(&aes_key, &mixed);
        data.extend_from_slice(&previous);
    }
    encode_base64_url(&data)
}

fn file(handle: &str, parent: &str, name: &str, size: u64) -> RawNode {
    let words = [1, 2, 3, 4, 0x10, 0x20, 0x30, 0x40];
    RawNode {
        h: handle.to_string(),
        p: Some(parent.to_string()),
        t: 0,
        a: Some(attributes(&[0x11, 0x22, 0x33, 0x44], name)),
        k: Some(format!("owner:{}", encrypted_key(&words))),
        s: Some(size),
    }
}

fn folder(handle: &str, parent: Option<&str>, name: &str) -> RawNode {
    RawNode {
        h: handle.to_string(),
        p: parent.map(|text| text.to_string()),
        t: 1,
        a: Some(attributes(&[5, 6, 7, 8], name)),
        k: Some(format!("owner:{}", encrypted_key(&[5, 6, 7, 8]))),
        s: None,
    }
}

fn link(selected: Option<&str>) -> MegaFolderLink {
    MegaFolderLink {
        folder_id: "root".to_string(),
        key: encode_base64_url(&SHARED),
        selected_handle: selected.map(|text| text.to_string()),
    }
}

fn tree() -> Vec<RawNode> {
    vec![
        folder("root", Some("outside"), "Top"),
        folder("sub", Some("root"), "Sub"),
        folder("deep", Some("sub"), "Deep"),
        file("f1", "root", "b.txt", 10),
        file("f2", "deep", "a.txt", 20),
        file("f3", "sub", "c.txt", 30),
        RawNode { h: "bin".to_string(), p: None, t: 4, a: None, k: None, s: None },
    ]
}

fn plan(selected: Option<&str>, raws: Vec<RawNode>) -> Result<FolderPlan, DownloadError> {
    plan_folder(&link(selected), Some(Ok(raws)), false).expect("an orderly listing")
}

fn refusal(raws: Vec<RawNode>) -> String {
    plan(None, raws).expect_err("refused").message()
}

fn paths(plan: &FolderPlan) -> Vec<String> {
    plan.files.iter().map(|file| file.relative_path.join("/")).collect()
}

fn item() -> ReplyItem {
    ReplyItem { code: None, url: None, size: None, attributes: None, listing: None }
}

fn file_link() -> MegaFileLink {
    MegaFileLink {
        file_id: "fid".to_string(),
        key: encode_base64_url(&bytes_of(&[1, 2, 3, 4, 0x10, 0x20, 0x30, 0x40])),
    }
}

fn full_item() -> ReplyItem {
    ReplyItem {
        url: Some("https://host/file".to_string()),
        size: Some(77),
        attributes: Some(attributes(&[0x11, 0x22, 0x33, 0x44], "na/me.bin")),
        ..item()
    }
}

fn metadata() -> FileMetadata {
    file_metadata(&file_link(), Some(vec![full_item()]), false).expect("metadata")
}

fn shown(request: &ApiRequest) -> (Vec<String>, Vec<String>) {
    let fields = request
        .fields
        .iter()
        .map(|(name, value)| match value {
            FieldValue::Number(n) => format!("{name}={n}"),
            FieldValue::Text(text) => format!("{name}={text:?}"),
        })
        .collect();
    let query = request.query.iter().map(|(name, value)| format!("{name}={value}")).collect();
    (fields, query)
}

#[test]
fn whole_folder_is_planned_in_order() {
    let plan = plan(None, tree()).expect("a plan");
    assert_eq!(plan.name, "Top");
    assert_eq!(plan.total_bytes, 60);
    assert!(plan.create_root_dir);
    assert_eq!(plan.folder_id, "root");
    assert_eq!(paths(&plan), vec!["Sub/Deep/a.txt", "Sub/c.txt", "b.txt"]);
    let first = &plan.files[0];
    assert_eq!(first.name, "a.txt");
    assert_eq!(first.handle, "f2");
    assert_eq!(first.size, 20);
    assert_eq!(first.crypto.iv_words, [0x10, 0x20]);
    assert_eq!(first.manifest_id, format!("folder:root:f2:{}", link(None).key));
}

#[test]
fn selected_folder_is_planned_from_itself() {
    let plan = plan(Some("sub"), tree()).expect("a plan");
    assert_eq!(plan.name, "Sub");
    assert!(plan.create_root_dir);
    assert_eq!(paths(&plan), vec!["Deep/a.txt", "c.txt"]);
    assert_eq!(plan.total_bytes, 50);
}

#[test]
fn selected_shared_folder_is_the_whole_folder() {
    let plan = plan(Some("root"), tree()).expect("a plan");
    assert_eq!(plan.files.len(), 3);
    assert_eq!(plan.name, "Top");
}

#[test]
fn selected_file_is_planned_alone() {
    let plan = plan(Some("f2"), tree()).expect("a plan");
    assert!(!plan.create_root_dir);
    assert_eq!(paths(&plan), vec!["a.txt"]);
    assert_eq!(plan.name, "a.txt");
    assert_eq!(plan.files[0].handle, "f2");
}

#[test]
fn selection_must_be_there() {
    assert_eq!(
        plan(Some("nowhere"), tree()).expect_err("refused").message(),
        "selected MEGA folder item was not found"
    );
}

#[test]
fn unknown_shared_folder_gets_a_name() {
    let plan = plan(None, vec![file("f1", "root", "x", 1)]).expect("a plan");
    assert_eq!(plan.name, "MEGA Folder");
}

#[test]
fn missing_sizes_count_as_zero() {
    let mut raw = file("f1", "root", "x", 1);
    raw.s = None;
    assert_eq!(plan(None, vec![raw]).expect("a plan").total_bytes, 0);
}

#[test]
fn equal_paths_keep_their_order() {
    let plan = plan(
        None,
        vec![file("h1", "root", "x", 1), file("h2", "root", "a", 2), file("h3", "root", "x", 3)],
    )
    .expect("a plan");
    let handles: Vec<&str> = plan.files.iter().map(|file| file.handle.as_str()).collect();
    assert_eq!(handles, vec!["h2", "h1", "h3"]);
}

#[test]
fn later_node_of_a_handle_counts() {
    let plan = plan(
        None,
        vec![folder("d", Some("root"), "Old"), file("f", "d", "x", 1), folder("d", Some("root"), "New")],
    )
    .expect("a plan");
    assert_eq!(paths(&plan), vec!["New/x"]);
}

#[test]
fn paths_stay_inside_the_folder() {
    let plan = plan(
        None,
        vec![folder("d", Some("root"), "../up"), file("f", "d", "..", 1), file("g", "d", "/etc/x", 1)],
    )
    .expect("a plan");
    assert_eq!(paths(&plan), vec!["..up/download", "..up/etcx"]);
}

#[test]
fn too_many_files_are_refused() {
    let many = |count: usize| -> Vec<RawNode> {
        (0..count).map(|i| file(&format!("h{i}"), "root", &format!("n{i}"), 1)).collect()
    };
    assert_eq!(plan(None, many(50)).expect("a plan").files.len(), 50);
    assert_eq!(
        refusal(many(51)),
        "folder contains 51 files, exceeding the current 50 file limit"
    );
}

#[test]
fn broken_nodes_are_refused() {
    let mut raw = file("f", "root", "x", 1);
    raw.k = None;
    assert_eq!(refusal(vec![raw]), "folder node is missing key data");
    let mut raw = file("f", "root", "x", 1);
    raw.k = Some(String::new());
    assert_eq!(refusal(vec![raw]), "folder node is missing key data");
    let mut raw = file("f", "root", "x", 1);
    raw.a = None;
    assert_eq!(refusal(vec![raw]), "folder node is missing attributes");
    let mut raw = file("f", "root", "x", 1);
    raw.k = Some(encrypted_key(&[5, 6, 7, 8]));
    assert_eq!(refusal(vec![raw]), "file key is shorter than expected");
    let mut raw = folder("d", None, "x");
    raw.k = Some(":".to_string());
    assert_eq!(refusal(vec![raw]), "folder key is shorter than expected");
    let mut raw = folder("d", None, "x");
    raw.k = Some("AQIDBA".to_string());
    assert_eq!(refusal(vec![raw]), "encrypted key is not AES block-aligned");
}

#[test]
fn circles_and_overflows_give_no_plan() {
    let circle =
        vec![folder("a", Some("b"), "A"), folder("b", Some("a"), "B"), file("f", "a", "x", 1)];
    assert!(plan_folder(&link(None), Some(Ok(circle)), false).is_none());
    let huge = vec![file("f", "root", "x", u64::MAX), file("g", "root", "y", 1)];
    assert!(plan_folder(&link(None), Some(Ok(huge)), false).is_none());
}

#[test]
fn listing_must_be_there_and_readable() {
    let message = |listing| match plan_folder(&link(None), listing, false) {
        Some(Err(error)) => error.message(),
        other => panic!("unexpected {other:?}"),
    };
    assert_eq!(message(None), "MEGA folder response is missing nodes");
    assert_eq!(message(Some(Err("bad".to_string()))), "json error: bad");
    let mut short = link(None);
    short.key = "AQIDBA".to_string();
    assert_eq!(
        folder_key(&short).expect_err("refused").message(),
        "MEGA folder key must decode to 128 bits"
    );
    assert_eq!(folder_key(&link(None)).expect("a key"), SHARED);
}

#[test]
fn contents_are_checked_before_they_are_arranged() {
    let contents = read_nodes(&tree(), &link(None), &SHARED, false).expect("contents");
    assert_eq!(contents.files.len(), 3);
    assert_eq!(contents.nodes.entries.len(), 6);
    assert!(check_orderly(&contents, &link(Some("sub"))));
    assert_eq!(arrange_plan(&contents, &link(Some("sub")), false).expect("a plan").files.len(), 2);
    let (name, words) = read_node(&tree()[0], &SHARED, false).expect("a node");
    assert_eq!((name.as_str(), words), ("Top", vec![5, 6, 7, 8]));
}

#[test]
fn nodes_know_what_is_above_them() {
    let mut nodes: TextMap<FolderNode> = TextMap::new();
    let mut put = |handle: &str, parent: Option<&str>, kind: u8| {
        let parent = parent.map(|text| text.to_string());
        nodes.insert(handle.to_string(), FolderNode { name: handle.to_string(), parent, kind });
    };
    put("root", None, 1);
    put("mid", Some("root"), 1);
    put("odd", Some("mid"), 0);
    put("leaf", Some("odd"), 0);
    put("x", Some("y"), 1);
    put("y", Some("x"), 1);
    assert!(is_descendant_of("leaf", "root", &nodes));
    assert!(!is_descendant_of("leaf", "leaf", &nodes));
    assert!(!is_descendant_of("root", "mid", &nodes));
    assert!(!is_descendant_of("unknown", "mid", &nodes));
    assert!(has_end("leaf", "nowhere", &nodes));
    assert!(!has_end("x", "root", &nodes));
    assert!(has_end("x", "y", &nodes));
    assert_eq!(build_relative_path("leaf", "f", &nodes, "root", false), vec!["mid", "f"]);
    assert_eq!(build_relative_path("leaf", "f", &nodes, "none", false), vec!["root", "mid", "f"]);
}

#[test]
fn paths_are_ordered_part_by_part() {
    let path = |text: &str| -> Vec<String> { text.split('/').map(|part| part.to_string()).collect() };
    assert!(path_before(&path("a/z"), &path("a-b")));
    assert!(path_before(&path("a"), &path("a/b")));
    assert!(!path_before(&path("a/b"), &path("a/b")));
    assert!(path_before(&path("Z"), &path("a")));
    assert!(text_before("名", "名字"));
    assert!(!text_before("", ""));
}

#[test]
fn requests_name_what_they_ask_for() {
    assert_eq!(mega_api(), "https://g.api.mega.co.nz/cs");
    let (fields, query) = shown(&file_request(&file_link()));
    assert_eq!(fields, vec!["a=\"g\"", "g=1", "p=\"fid\""]);
    assert_eq!(query, vec!["id=0"]);
    let (fields, query) = shown(&listing_request(&link(None)));
    assert_eq!(fields, vec!["a=\"f\"", "c=1", "ca=1", "r=1"]);
    assert_eq!(query, vec!["id=0", "n=root"]);
    let (fields, query) = shown(&folder_file_request("root", "h"));
    assert_eq!(fields, vec!["a=\"g\"", "g=1", "n=\"h\""]);
    assert_eq!(query, vec!["id=0", "n=root"]);
}

#[test]
fn replies_are_judged_by_their_first_item() {
    let message = |items| match first_item(items) {
        Err(error) => error.message(),
        Ok(_) => panic!("should be refused"),
    };
    assert_eq!(message(None), "empty MEGA API response");
    assert_eq!(message(Some(vec![])), "empty MEGA API response");
    let coded = ReplyItem { code: Some(-2), ..full_item() };
    assert_eq!(message(Some(vec![coded])), "MEGA API returned -2");
    let zero = ReplyItem { code: Some(0), ..full_item() };
    assert!(first_item(Some(vec![zero])).expect("an item").url.is_none());
    assert!(first_item(Some(vec![full_item(), item()])).expect("an item").url.is_some());
}

#[test]
fn file_metadata_is_put_together() {
    let metadata = metadata();
    assert_eq!(metadata.name, "name.bin");
    assert_eq!(metadata.size, 77);
    assert_eq!(metadata.direct_url, "https://host/file");
    assert_eq!(metadata.manifest_id, format!("file:fid:{}", file_link().key));
    assert_eq!(metadata.crypto.meta_mac, [0x30, 0x40]);
}

#[test]
fn incomplete_file_replies_are_refused() {
    let message = |item: ReplyItem| {
        file_metadata(&file_link(), Some(vec![item]), false).expect_err("refused").message()
    };
    assert_eq!(message(item()), "MEGA did not return a download URL");
    assert_eq!(message(ReplyItem { size: None, ..full_item() }), "MEGA did not return file size");
    assert_eq!(
        message(ReplyItem { attributes: None, ..full_item() }),
        "MEGA did not return file attributes"
    );
    let mut short = file_link();
    short.key = encode_base64_url(&SHARED);
    assert_eq!(
        file_key(&short).expect_err("refused").message(),
        "MEGA file key must decode to 256 bits"
    );
}

#[test]
fn folder_file_addresses_are_read() {
    assert_eq!(folder_file_url(Some(vec![full_item()])).expect("an address"), "https://host/file");
    assert_eq!(
        folder_file_url(Some(vec![item()])).expect_err("refused").message(),
        "MEGA did not return a folder file URL"
    );
}

#[test]
fn previews_say_what_a_link_points_to() {
    let preview = preview_file(metadata());
    assert_eq!(preview.kind, "file");
    assert_eq!(preview.name, "name.bin");
    assert_eq!((preview.total_bytes, preview.file_count), (77, 1));
    assert!(!preview.requires_password);
    let preview = preview_folder(plan(None, tree()).expect("a plan"));
    assert_eq!(preview.kind, "folder");
    assert_eq!((preview.total_bytes, preview.file_count), (60, 3));
}

#[test]
fn inspection_asks_for_a_password_or_the_service() {
    match inspect_link("https://mega.nz/#P!AgDJ", Some("")) {
        Ok(Inspection::Preview(preview)) => {
            assert_eq!(preview.kind, "protected");
            assert_eq!(preview.name, "密码保护链接");
            assert!(preview.requires_password);
        }
        _ => panic!("expected a preview"),
    }
    assert!(matches!(
        inspect_link("https://mega.nz/file/a#b", None),
        Ok(Inspection::Ask(_))
    ));
    match inspect_link("https://mega.nz/", None) {
        Err(text) => assert_eq!(text, "missing MEGA link fragment"),
        Ok(_) => panic!("expected an error"),
    }
}
