//! What the service is asked, and what its replies mean.
use crate::crypto::FileCrypto;
use crate::error::{error_text, failure, DownloadError, ErrorView};
use crate::folder::{crypto_of, crypto_view, CryptoView, FolderPlan, RawNode, RawView};
use crate::keys::{
    attr_key, bytes_of, decode_key_words, decrypt_node_name, derive_file_crypto, key_words, node_name,
};
use crate::link::{
    link_in, non_empty_password, optional_str, optional_view, parse_public_link, present, LinkView,
    MegaFileLink, MegaFolderLink, PublicLink,
};
use crate::names::{component, sanitize_component};
use crate::plan::listing_view;
use vstd::prelude::*;

verus! {

/// The address of the service.
pub fn mega_api() -> (address: &'static str)
    ensures
        address@ == "https://g.api.mega.co.nz/cs"@,
{
    "https://g.api.mega.co.nz/cs"
}

/// The value of a field of a request.
#[derive(Debug)]
pub enum FieldValue {
    Number(u64),
    Text(String),
}

/// A request to the service: the fields of the one command in its body, and the pairs of its query.
#[derive(Debug)]
pub struct ApiRequest {
    pub fields: Vec<(String, FieldValue)>,
    pub query: Vec<(String, String)>,
}

/// The mathematical form of the value of a field.
pub enum FieldView {
    Number(u64),
    Text(Seq<char>),
}

impl View for FieldValue {
    type V = FieldView;

    open spec fn view(&self) -> FieldView {
        match self {
            FieldValue::Number(n) => FieldView::Number(*n),
            FieldValue::Text(text) => FieldView::Text(text@),
        }
    }
}

impl ApiRequest {
    /// The fields, in mathematical form.
    pub open spec fn field_views(self) -> Seq<(Seq<char>, FieldView)> {
        Seq::new(self.fields@.len(), |i: int| (self.fields@[i].0@, self.fields@[i].1@))
    }

    /// The pairs of the query, in mathematical form.
    pub open spec fn query_views(self) -> Seq<(Seq<char>, Seq<char>)> {
        Seq::new(self.query@.len(), |i: int| (self.query@[i].0@, self.query@[i].1@))
    }
}

/// The request for the address and attributes of a file.
pub fn file_request(link: &MegaFileLink) -> (request: ApiRequest)
    ensures
        request.field_views() == seq![
            ("a"@, FieldView::Text("g"@)),
            ("g"@, FieldView::Number(1)),
            ("p"@, FieldView::Text(link.file_id@)),
        ],
        request.query_views() == seq![("id"@, "0"@)],
{
    let mut fields: Vec<(String, FieldValue)> = Vec::new();
    fields.push(("a".to_string(), FieldValue::Text("g".to_string())));
    fields.push(("g".to_string(), FieldValue::Number(1)));
    fields.push(("p".to_string(), FieldValue::Text(link.file_id.clone())));
    let mut query: Vec<(String, String)> = Vec::new();
    query.push(("id".to_string(), "0".to_string()));
    ApiRequest { fields, query }
}

/// The request for the nodes of a folder.
pub fn listing_request(link: &MegaFolderLink) -> (request: ApiRequest)
    ensures
        request.field_views() == seq![
            ("a"@, FieldView::Text("f"@)),
            ("c"@, FieldView::Number(1)),
            ("ca"@, FieldView::Number(1)),
            ("r"@, FieldView::Number(1)),
        ],
        request.query_views() == seq![("id"@, "0"@), ("n"@, link.folder_id@)],
{
    let mut fields: Vec<(String, FieldValue)> = Vec::new();
    fields.push(("a".to_string(), FieldValue::Text("f".to_string())));
    fields.push(("c".to_string(), FieldValue::Number(1)));
    fields.push(("ca".to_string(), FieldValue::Number(1)));
    fields.push(("r".to_string(), FieldValue::Number(1)));
    let mut query: Vec<(String, String)> = Vec::new();
    query.push(("id".to_string(), "0".to_string()));
    query.push(("n".to_string(), link.folder_id.clone()));
    ApiRequest { fields, query }
}

/// The request for the address of a file of a folder.
pub fn folder_file_request(folder_id: &str, handle: &str) -> (request: ApiRequest)
    ensures
        request.field_views() == seq![
            ("a"@, FieldView::Text("g"@)),
            ("g"@, FieldView::Number(1)),
            ("n"@, FieldView::Text(handle@)),
        ],
        request.query_views() == seq![("id"@, "0"@), ("n"@, folder_id@)],
{
    let mut fields: Vec<(String, FieldValue)> = Vec::new();
    fields.push(("a".to_string(), FieldValue::Text("g".to_string())));
    fields.push(("g".to_string(), FieldValue::Number(1)));
    fields.push(("n".to_string(), FieldValue::Text(handle.to_string())));
    let mut query: Vec<(String, String)> = Vec::new();
    query.push(("id".to_string(), "0".to_string()));
    query.push(("n".to_string(), folder_id.to_string()));
    ApiRequest { fields, query }
}

/// One item of a reply: what each field of interest holds, where it is there and of its type.
pub struct ReplyItem {
    /// The item itself, where it is an integer.
    pub code: Option<i64>,
    /// The address of a file.
    pub url: Option<String>,
    /// The size of a file.
    pub size: Option<u64>,
    /// The encrypted attributes of a file.
    pub attributes: Option<String>,
    /// The nodes of a folder, or why they cannot be read.
    pub listing: Option<Result<Vec<RawNode>, String>>,
}

/// The mathematical form of a `ReplyItem`.
pub struct ReplyView {
    pub code: Option<i64>,
    pub url: Option<Seq<char>>,
    pub size: Option<u64>,
    pub attributes: Option<Seq<char>>,
    pub listing: Option<Result<Seq<RawView>, Seq<char>>>,
}

impl View for ReplyItem {
    type V = ReplyView;

    open spec fn view(&self) -> ReplyView {
        ReplyView {
            code: self.code,
            url: optional_view(self.url),
            size: self.size,
            attributes: optional_view(self.attributes),
            listing: listing_view(self.listing),
        }
    }
}

/// A reply without any field.
pub open spec fn empty_reply() -> ReplyView {
    ReplyView { code: None, url: None, size: None, attributes: None, listing: None }
}

/// The item of a reply that counts: its first. An integer is an error code, unless it is zero:
/// then the item is taken to have no fields.
pub open spec fn counting_item(items: Option<Seq<ReplyView>>) -> Result<ReplyView, ErrorView> {
    match items {
        Some(all) if all.len() > 0 => match all[0].code {
            Some(code) => if code == 0 {
                Ok(empty_reply())
            } else {
                Err(ErrorView::MegaApi(code))
            },
            None => Ok(all[0]),
        },
        _ => Err(ErrorView::Message("empty MEGA API response"@)),
    }
}

/// The items of a reply, in mathematical form. A reply that is no list has none.
pub open spec fn reply_views(items: Option<Vec<ReplyItem>>) -> Option<Seq<ReplyView>> {
    match items {
        Some(all) => Some(Seq::new(all@.len(), |i: int| all@[i]@)),
        None => None,
    }
}

/// The item of a reply that counts.
pub fn first_item(items: Option<Vec<ReplyItem>>) -> (item: Result<ReplyItem, DownloadError>)
    ensures
        match item {
            Ok(found) => counting_item(reply_views(items)) == Ok::<ReplyView, ErrorView>(found@),
            Err(error) => counting_item(reply_views(items)) == Err::<ReplyView, ErrorView>(error@),
        },
{
    let mut all = match items {
        Some(found) => found,
        None => return Err(failure("empty MEGA API response")),
    };
    if all.len() == 0 {
        return Err(failure("empty MEGA API response"));
    }
    let first = all.remove(0);
    match first.code {
        Some(code) => if code == 0 {
            Ok(ReplyItem { code: None, url: None, size: None, attributes: None, listing: None })
        } else {
            Err(DownloadError::MegaApi(code))
        },
        None => Ok(first),
    }
}

/// What is known of a file before it is downloaded.
#[derive(Debug)]
pub struct FileMetadata {
    pub name: String,
    pub size: u64,
    pub direct_url: String,
    pub crypto: FileCrypto,
    pub manifest_id: String,
}

/// The mathematical form of a `FileMetadata`.
pub struct MetadataView {
    pub name: Seq<char>,
    pub size: u64,
    pub direct_url: Seq<char>,
    pub crypto: CryptoView,
    pub manifest_id: Seq<char>,
}

impl View for FileMetadata {
    type V = MetadataView;

    open spec fn view(&self) -> MetadataView {
        MetadataView {
            name: self.name@,
            size: self.size,
            direct_url: self.direct_url@,
            crypto: crypto_view(self.crypto),
            manifest_id: self.manifest_id@,
        }
    }
}

/// The parts of a file's key.
pub open spec fn file_key_of(key: Seq<char>) -> Result<CryptoView, ErrorView> {
    match key_words(key) {
        Err(error) => Err(error),
        Ok(words) => if words.len() != 8 {
            Err(ErrorView::Message("MEGA file key must decode to 256 bits"@))
        } else {
            Ok(crypto_of(words))
        },
    }
}

/// The parts of a file's key.
pub fn file_key(link: &MegaFileLink) -> (crypto: Result<FileCrypto, DownloadError>)
    ensures
        match crypto {
            Ok(found) => file_key_of(link.key@) == Ok::<CryptoView, ErrorView>(crypto_view(found)),
            Err(error) => file_key_of(link.key@) == Err::<CryptoView, ErrorView>(error@),
        },
{
    let words = match decode_key_words(&link.key) {
        Ok(found) => found,
        Err(error) => return Err(error),
    };
    if words.len() != 8 {
        return Err(failure("MEGA file key must decode to 256 bits"));
    }
    derive_file_crypto(&words)
}

/// What identifies the download of a file.
pub open spec fn file_manifest_id(file_id: Seq<char>, key: Seq<char>) -> Seq<char> {
    "file:"@ + file_id + ":"@ + key
}

/// What is known of a file, given the reply's item that counts.
pub open spec fn metadata_in(
    file_id: Seq<char>,
    key: Seq<char>,
    crypto: CryptoView,
    item: ReplyView,
    windows: bool,
) -> Result<MetadataView, ErrorView> {
    match item.url {
        None => Err(ErrorView::Message("MEGA did not return a download URL"@)),
        Some(direct_url) => match item.size {
            None => Err(ErrorView::Message("MEGA did not return file size"@)),
            Some(size) => match item.attributes {
                None => Err(ErrorView::Message("MEGA did not return file attributes"@)),
                Some(attributes) => match node_name(attributes, crypto.aes_key) {
                    Err(error) => Err(error),
                    Ok(name) => Ok(
                        MetadataView {
                            name: component(name, windows),
                            size,
                            direct_url,
                            crypto,
                            manifest_id: file_manifest_id(file_id, key),
                        },
                    ),
                },
            },
        },
    }
}

/// What is known of the file that a link points to, given the service's reply.
pub open spec fn metadata_of(
    file_id: Seq<char>,
    key: Seq<char>,
    items: Option<Seq<ReplyView>>,
    windows: bool,
) -> Result<MetadataView, ErrorView> {
    match file_key_of(key) {
        Err(error) => Err(error),
        Ok(crypto) => match counting_item(items) {
            Err(error) => Err(error),
            Ok(item) => metadata_in(file_id, key, crypto, item, windows),
        },
    }
}

/// What is known of the file that a link points to, given the service's reply.
pub fn file_metadata(link: &MegaFileLink, items: Option<Vec<ReplyItem>>, windows: bool) -> (metadata:
    Result<FileMetadata, DownloadError>)
    ensures
        match metadata {
            Ok(found) => metadata_of(link.file_id@, link.key@, reply_views(items), windows) == Ok::<
                MetadataView,
                ErrorView,
            >(found@),
            Err(error) => metadata_of(link.file_id@, link.key@, reply_views(items), windows)
                == Err::<MetadataView, ErrorView>(error@),
        },
{
    let crypto = match file_key(link) {
        Ok(found) => found,
        Err(error) => return Err(error),
    };
    let item = match first_item(items) {
        Ok(found) => found,
        Err(error) => return Err(error),
    };
    let direct_url = match item.url {
        Some(found) => found,
        None => return Err(failure("MEGA did not return a download URL")),
    };
    let size = match item.size {
        Some(found) => found,
        None => return Err(failure("MEGA did not return file size")),
    };
    let attributes = match item.attributes {
        Some(found) => found,
        None => return Err(failure("MEGA did not return file attributes")),
    };
    let name = match decrypt_node_name(&attributes, &crypto.aes_key) {
        Ok(found) => found,
        Err(error) => return Err(error),
    };
    let mut manifest_id = "file:".to_string();
    manifest_id.append(&link.file_id);
    manifest_id.append(":");
    manifest_id.append(&link.key);
    Ok(
        FileMetadata {
            name: sanitize_component(&name, windows),
            size,
            direct_url,
            crypto,
            manifest_id,
        },
    )
}

/// The address of a file of a folder, given the service's reply.
pub open spec fn folder_file_url_of(items: Option<Seq<ReplyView>>) -> Result<
    Seq<char>,
    ErrorView,
> {
    match counting_item(items) {
        Err(error) => Err(error),
        Ok(item) => match item.url {
            Some(url) => Ok(url),
            None => Err(ErrorView::Message("MEGA did not return a folder file URL"@)),
        },
    }
}

/// The address of a file of a folder, given the service's reply.
pub fn folder_file_url(items: Option<Vec<ReplyItem>>) -> (url: Result<String, DownloadError>)
    ensures
        match url {
            Ok(found) => folder_file_url_of(reply_views(items)) == Ok::<Seq<char>, ErrorView>(
                found@,
            ),
            Err(error) => folder_file_url_of(reply_views(items)) == Err::<Seq<char>, ErrorView>(
                error@,
            ),
        },
{
    match first_item(items) {
        Ok(item) => match item.url {
            Some(found) => Ok(found),
            None => Err(failure("MEGA did not return a folder file URL")),
        },
        Err(error) => Err(error),
    }
}

/// An error code of the service, other than zero, is reported as it is, whatever else was asked.
pub proof fn error_codes_are_reported(items: Seq<ReplyView>, code: i64)
    requires
        items.len() > 0,
        items[0].code == Some(code),
        code != 0,
    ensures
        counting_item(Some(items)) == Err::<ReplyView, ErrorView>(ErrorView::MegaApi(code)),
        folder_file_url_of(Some(items)) == Err::<Seq<char>, ErrorView>(ErrorView::MegaApi(code)),
{
}

/// A file that is linked to and a file of a folder never share a manifest.
pub proof fn file_and_folder_manifests_differ(
    file_id: Seq<char>,
    file_key: Seq<char>,
    folder_id: Seq<char>,
    handle: Seq<char>,
    folder_key: Seq<char>,
)
    ensures
        file_manifest_id(file_id, file_key) != crate::folder::folder_manifest_id(
            folder_id,
            handle,
            folder_key,
        ),
{
    reveal_strlit("file:");
    reveal_strlit("folder:");
    let left = file_manifest_id(file_id, file_key);
    let right = crate::folder::folder_manifest_id(folder_id, handle, folder_key);
    assert(left[1] == 'i');
    assert(right[1] == 'o');
}

/// What a link points to, as it is shown before anything is downloaded.
#[derive(Debug)]
pub struct LinkPreview {
    pub kind: String,
    pub name: String,
    pub total_bytes: u64,
    pub file_count: usize,
    pub requires_password: bool,
}

/// The mathematical form of a `LinkPreview`.
pub struct PreviewView {
    pub kind: Seq<char>,
    pub name: Seq<char>,
    pub total_bytes: u64,
    pub file_count: usize,
    pub requires_password: bool,
}

impl View for LinkPreview {
    type V = PreviewView;

    open spec fn view(&self) -> PreviewView {
        PreviewView {
            kind: self.kind@,
            name: self.name@,
            total_bytes: self.total_bytes,
            file_count: self.file_count,
            requires_password: self.requires_password,
        }
    }
}

/// The first step of a preview: either it is there, or the service must be asked.
pub enum Inspection {
    Preview(LinkPreview),
    Ask(PublicLink),
}

/// The mathematical form of an `Inspection`.
pub enum InspectionView {
    Preview(PreviewView),
    Ask(LinkView),
}

impl View for Inspection {
    type V = InspectionView;

    open spec fn view(&self) -> InspectionView {
        match self {
            Inspection::Preview(preview) => InspectionView::Preview(preview@),
            Inspection::Ask(link) => InspectionView::Ask(link@),
        }
    }
}

/// The preview of a protected link that no password was given for.
pub open spec fn protected_preview() -> PreviewView {
    PreviewView {
        kind: "protected"@,
        name: "密码保护链接"@,
        total_bytes: 0,
        file_count: 0,
        requires_password: true,
    }
}

/// What is to be done for the preview of what a link was found to be, or why there is none.
pub open spec fn inspection_of(link: Result<LinkView, ErrorView>) -> Result<
    InspectionView,
    Seq<char>,
> {
    match link {
        Ok(found) => Ok(InspectionView::Ask(found)),
        Err(ErrorView::PasswordRequired) => Ok(InspectionView::Preview(protected_preview())),
        Err(error) => Err(error_text(error)),
    }
}

/// What is to be done for the preview of what a link was found to be.
pub fn inspect_parsed(link: Result<PublicLink, DownloadError>) -> (inspection: Result<
    Inspection,
    String,
>)
    ensures
        match inspection {
            Ok(found) => inspection_of(
                match link {
                    Ok(link) => Ok(link@),
                    Err(error) => Err(error@),
                },
            ) == Ok::<InspectionView, Seq<char>>(found@),
            Err(text) => inspection_of(
                match link {
                    Ok(link) => Ok(link@),
                    Err(error) => Err(error@),
                },
            ) == Err::<InspectionView, Seq<char>>(text@),
        },
{
    match link {
        Ok(found) => Ok(Inspection::Ask(found)),
        Err(DownloadError::PasswordRequired) => Ok(
            Inspection::Preview(
                LinkPreview {
                    kind: "protected".to_string(),
                    name: "密码保护链接".to_string(),
                    total_bytes: 0,
                    file_count: 0,
                    requires_password: true,
                },
            ),
        ),
        Err(error) => Err(error.message()),
    }
}

/// What is to be done for the preview of a link. An empty password is none.
pub fn inspect_link(url: &str, password: Option<&str>) -> (inspection: Result<Inspection, String>)
    ensures
        match inspection {
            Ok(found) => inspection_of(link_in(url@, present(optional_str(password)))) == Ok::<
                InspectionView,
                Seq<char>,
            >(found@),
            Err(text) => inspection_of(link_in(url@, present(optional_str(password)))) == Err::<
                InspectionView,
                Seq<char>,
            >(text@),
        },
{
    inspect_parsed(parse_public_link(url, non_empty_password(password)))
}

/// The preview of a file.
pub fn preview_file(metadata: FileMetadata) -> (preview: LinkPreview)
    ensures
        preview@ == (PreviewView {
            kind: "file"@,
            name: metadata.name@,
            total_bytes: metadata.size,
            file_count: 1,
            requires_password: false,
        }),
{
    LinkPreview {
        kind: "file".to_string(),
        name: metadata.name,
        total_bytes: metadata.size,
        file_count: 1,
        requires_password: false,
    }
}

/// The preview of a folder.
pub fn preview_folder(plan: FolderPlan) -> (preview: LinkPreview)
    ensures
        preview@ == (PreviewView {
            kind: "folder"@,
            name: plan.name@,
            total_bytes: plan.total_bytes,
            file_count: plan.files@.len() as usize,
            requires_password: false,
        }),
{
    let file_count: usize = plan.files.len();
    LinkPreview {
        kind: "folder".to_string(),
        name: plan.name,
        total_bytes: plan.total_bytes,
        file_count,
        requires_password: false,
    }
}

/// Only the first item of a reply counts, and a reply without items is refused.
pub proof fn first_item_counts(items: Seq<ReplyView>)
    ensures
        items.len() > 0 && items[0].code is None ==> counting_item(Some(items)) == Ok::<
            ReplyView,
            ErrorView,
        >(items[0]),
        items.len() > 0 && items[0].code == Some(0i64) ==> (counting_item(
            Some(items),
        ) matches Ok(item) && item.url is None && item.size is None && item.attributes is None
            && item.listing is None && item.code is None),
        items.len() == 0 ==> counting_item(Some(items)) == Err::<ReplyView, ErrorView>(
            ErrorView::Message("empty MEGA API response"@),
        ),
        counting_item(None) == Err::<ReplyView, ErrorView>(
            ErrorView::Message("empty MEGA API response"@),
        ),
        folder_file_url_of(Some(items)) is Ok <==> items.len() > 0 && items[0].code is None
            && items[0].url is Some,
        folder_file_url_of(Some(items)) matches Ok(url) ==> items[0].url == Some(url),
{
}

/// What is known of a file is what the reply says of it, with the name that its attributes hold
/// and the key that the link carries.
pub proof fn replies_describe_the_file(
    file_id: Seq<char>,
    key: Seq<char>,
    items: Seq<ReplyView>,
    windows: bool,
    words: Seq<u32>,
)
    requires
        key_words(key) == Ok::<Seq<u32>, ErrorView>(words),
        words.len() == 8,
        items.len() > 0,
        items[0].code is None,
    ensures
        ({
            let known = metadata_of(file_id, key, Some(items), windows);
            let item = items[0];
            let folded = bytes_of(
                seq![
                    words[0] ^ words[4],
                    words[1] ^ words[5],
                    words[2] ^ words[6],
                    words[3] ^ words[7],
                ],
            );
            &&& item.url is None ==> known == Err::<MetadataView, ErrorView>(
                ErrorView::Message("MEGA did not return a download URL"@),
            )
            &&& item.url is Some && item.size is None ==> known == Err::<MetadataView, ErrorView>(
                ErrorView::Message("MEGA did not return file size"@),
            )
            &&& item.url is Some && item.size is Some && item.attributes is None ==> known == Err::<
                MetadataView,
                ErrorView,
            >(ErrorView::Message("MEGA did not return file attributes"@))
            &&& item.url is Some && item.size is Some && item.attributes is Some ==> match node_name(
                item.attributes->0,
                folded,
            ) {
                Err(error) => known == Err::<MetadataView, ErrorView>(error),
                Ok(name) => known matches Ok(found) && found.name == component(name, windows)
                    && Some(found.size) == item.size && Some(found.direct_url) == item.url
                    && found.manifest_id == "file:"@ + file_id + ":"@ + key && found.crypto.aes_key
                    == folded && found.crypto.iv_words == seq![words[4], words[5]]
                    && found.crypto.meta_mac == seq![words[6], words[7]],
            }
        }),
{
    assert(attr_key(words) =~= seq![
        words[0] ^ words[4],
        words[1] ^ words[5],
        words[2] ^ words[6],
        words[3] ^ words[7],
    ]);
    assert(words.subrange(4, 6) =~= seq![words[4], words[5]]);
    assert(words.subrange(6, 8) =~= seq![words[6], words[7]]);
}

/// The key of a file is made of exactly eight words.
pub proof fn file_keys_have_eight_words(
    file_id: Seq<char>,
    key: Seq<char>,
    items: Option<Seq<ReplyView>>,
    windows: bool,
)
    ensures
        key_words(key) matches Ok(words) && words.len() != 8 ==> metadata_of(
            file_id,
            key,
            items,
            windows,
        ) == Err::<MetadataView, ErrorView>(
            ErrorView::Message("MEGA file key must decode to 256 bits"@),
        ),
        key_words(key) matches Err(error) ==> metadata_of(file_id, key, items, windows) == Err::<
            MetadataView,
            ErrorView,
        >(error),
{
}

/// A preview is there at once only where a password is missing, and then says so. Every other link
/// that was read is looked up, and what is wrong with one that was not is told.
pub proof fn previews_ask_for_passwords(link: Result<LinkView, ErrorView>)
    ensures
        link matches Ok(found) ==> inspection_of(link) == Ok::<InspectionView, Seq<char>>(
            InspectionView::Ask(found),
        ),
        link == Err::<LinkView, ErrorView>(ErrorView::PasswordRequired) ==> (inspection_of(
            link,
        ) matches Ok(InspectionView::Preview(preview)) && preview.requires_password
            && preview.file_count == 0 && preview.total_bytes == 0 && preview.kind == "protected"@),
        link matches Err(error) ==> error == ErrorView::PasswordRequired || inspection_of(link)
            == Err::<InspectionView, Seq<char>>(error_text(error)),
{
}

/// What the service is asked: for a file its own identifier, for the nodes of a folder that folder,
/// and for a file of a folder its handle together with the folder.
pub proof fn requests_name_what_is_asked_for(
    file: &MegaFileLink,
    folder: &MegaFolderLink,
    folder_id: &str,
    handle: &str,
    file_asked: ApiRequest,
    listing_asked: ApiRequest,
    folder_file_asked: ApiRequest,
)
    requires
        call_ensures(file_request, (file,), file_asked),
        call_ensures(listing_request, (folder,), listing_asked),
        call_ensures(folder_file_request, (folder_id, handle), folder_file_asked),
    ensures
        file_asked.field_views().contains(("a"@, FieldView::Text("g"@))),
        file_asked.field_views().contains(("p"@, FieldView::Text(file.file_id@))),
        file_asked.field_views().contains(("g"@, FieldView::Number(1))),
        file_asked.query_views() == seq![("id"@, "0"@)],
        listing_asked.field_views().contains(("a"@, FieldView::Text("f"@))),
        listing_asked.field_views().contains(("r"@, FieldView::Number(1))),
        listing_asked.query_views().contains(("n"@, folder.folder_id@)),
        folder_file_asked.field_views().contains(("a"@, FieldView::Text("g"@))),
        folder_file_asked.field_views().contains(("n"@, FieldView::Text(handle@))),
        folder_file_asked.field_views().contains(("g"@, FieldView::Number(1))),
        folder_file_asked.query_views().contains(("n"@, folder_id@)),
{
    assert(file_asked.field_views()[0] == ("a"@, FieldView::Text("g"@)));
    assert(file_asked.field_views()[1] == ("g"@, FieldView::Number(1)));
    assert(file_asked.field_views()[2] == ("p"@, FieldView::Text(file.file_id@)));
    assert(listing_asked.field_views()[0] == ("a"@, FieldView::Text("f"@)));
    assert(listing_asked.field_views()[3] == ("r"@, FieldView::Number(1)));
    assert(listing_asked.query_views()[1] == ("n"@, folder.folder_id@));
    assert(folder_file_asked.field_views()[0] == ("a"@, FieldView::Text("g"@)));
    assert(folder_file_asked.field_views()[1] == ("g"@, FieldView::Number(1)));
    assert(folder_file_asked.field_views()[2] == ("n"@, FieldView::Text(handle@)));
    assert(folder_file_asked.query_views()[1] == ("n"@, folder_id@));
}

/// The preview of a file tells its name and size and that it is one file. That of a folder tells
/// the name and the size of its plan, and how many files that holds.
pub proof fn previews_tell_what_is_there(
    metadata: FileMetadata,
    plan: FolderPlan,
    of_file: LinkPreview,
    of_folder: LinkPreview,
)
    requires
        call_ensures(preview_file, (metadata,), of_file),
        call_ensures(preview_folder, (plan,), of_folder),
        plan.files@.len() <= usize::MAX,
    ensures
        of_file.name@ == metadata.name@,
        of_file.total_bytes == metadata.size,
        of_file.file_count == 1,
        !of_file.requires_password,
        of_file.kind@ == "file"@,
        of_folder.name@ == plan.name@,
        of_folder.total_bytes == plan.total_bytes,
        of_folder.file_count == plan.files@.len(),
        !of_folder.requires_password,
        of_folder.kind@ == "folder"@,
{
    let file_view = of_file@;
    let folder_view = of_folder@;
    assert(file_view.file_count == of_file.file_count);
    assert(folder_view.file_count == of_folder.file_count);
}

} // verus!
