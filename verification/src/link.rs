//! Public links: what they point to, and the keys that they carry.
use crate::bytes::{bytes_between, xor_bytes};
use crate::crypto::{
    constant_time_eq, hmac_sha256, pbkdf2_hmac_sha512, spec_hmac_sha256, spec_pbkdf2,
};
use crate::error::{failure, DownloadError, ErrorView};
use crate::keys::{
    base64url_encoded, decode_base64_url, decoded, encode_base64_url, key_words,
};
use crate::text::{
    chars_of, has_prefix, is_unbroken, is_whitespace, pieces_before_a_separator_stay, same_text, split,
    split_text, splitting_undoes_joining, starts_with, string_from, trim, trim_text,
    trimming_keeps_trimmed_text, trimming_takes_the_edges, unbroken_text_is_one_piece, views, CharClass,
};
use vstd::prelude::*;
use vstd::utf8::encode_utf8;

verus! {

/// The algorithm that password-protected links use.
pub const MEGA_PASSWORD_LINK_ALGORITHM: u8 = 2;

/// The number of rounds in which a link's password is turned into a key.
pub const MEGA_PASSWORD_LINK_ITERATIONS: u32 = 100_000;

/// A link to a file.
#[derive(Debug)]
pub struct MegaFileLink {
    pub file_id: String,
    pub key: String,
}

/// A link to a folder, or to something in it.
#[derive(Debug)]
pub struct MegaFolderLink {
    pub folder_id: String,
    pub key: String,
    /// The file or folder inside that the link singles out.
    pub selected_handle: Option<String>,
}

/// What a public link points to.
#[derive(Debug)]
pub enum PublicLink {
    File(MegaFileLink),
    Folder(MegaFolderLink),
}

/// The mathematical form of a `PublicLink`.
pub enum LinkView {
    File { file_id: Seq<char>, key: Seq<char> },
    Folder { folder_id: Seq<char>, key: Seq<char>, selected_handle: Option<Seq<char>> },
}

/// The characters of an optional string.
pub open spec fn optional_view(text: Option<String>) -> Option<Seq<char>> {
    match text {
        Some(found) => Some(found@),
        None => None,
    }
}

/// The characters of an optional string slice.
pub open spec fn optional_str(text: Option<&str>) -> Option<Seq<char>> {
    match text {
        Some(found) => Some(found@),
        None => None,
    }
}

impl View for PublicLink {
    type V = LinkView;

    open spec fn view(&self) -> LinkView {
        match self {
            PublicLink::File(link) => LinkView::File { file_id: link.file_id@, key: link.key@ },
            PublicLink::Folder(link) => LinkView::Folder {
                folder_id: link.folder_id@,
                key: link.key@,
                selected_handle: optional_view(link.selected_handle),
            },
        }
    }
}

/// The parts of a URL that a link is read from.
pub struct UrlParts {
    /// The segments of the path, for a URL that has them.
    pub segments: Option<Vec<String>>,
    /// What follows the hash sign.
    pub fragment: Option<String>,
}

/// The mathematical form of `UrlParts`: the segments, then the fragment.
pub open spec fn parts_view(parts: UrlParts) -> (Option<Seq<Seq<char>>>, Option<Seq<char>>) {
    (
        match parts.segments {
            Some(segments) => Some(views(segments@)),
            None => None,
        },
        optional_view(parts.fragment),
    )
}

/// The path segments and the fragment of the URL that `text` is, or why it is none.
pub uninterp spec fn url_parts(text: Seq<char>) -> Result<
    (Option<Seq<Seq<char>>>, Option<Seq<char>>),
    Seq<char>,
>;

/// Calls `url::Url::parse`, then `path_segments` and `fragment` of the URL that was read. The
/// result, with an error as the text that the crate gives for it, is named by `url_parts`.
#[verifier::external_body]
fn parse_url(text: &str) -> (parts: Result<UrlParts, String>)
    ensures
        match parts {
            Ok(found) => url_parts(text@) == Ok::<
                (Option<Seq<Seq<char>>>, Option<Seq<char>>),
                Seq<char>,
            >(parts_view(found)),
            Err(cause) => url_parts(text@) == Err::<
                (Option<Seq<Seq<char>>>, Option<Seq<char>>),
                Seq<char>,
            >(cause@),
        },
{
    let url = url::Url::parse(text).map_err(|error| error.to_string())?;
    Ok(UrlParts {
        segments: url.path_segments().map(|found| found.map(String::from).collect()),
        fragment: url.fragment().map(String::from),
    })
}

/// The text up to the first slash.
pub open spec fn key_of_fragment(fragment: Seq<char>) -> Seq<char> {
    split(fragment, CharClass::Only('/'))[0]
}

/// The handle after the first of the words `file` and `folder` that stands where a kind is
/// expected and has a handle. Kinds and handles alternate.
pub open spec fn selected_in(parts: Seq<Seq<char>>) -> Option<Seq<char>>
    decreases parts.len(),
{
    if parts.len() < 2 {
        None
    } else if (parts[0] == "file"@ || parts[0] == "folder"@) && parts[1].len() > 0 {
        Some(parts[1])
    } else {
        selected_in(parts.skip(2))
    }
}

/// The text up to the first slash.
pub fn fragment_key(fragment: &str) -> (key: String)
    ensures
        key@ == key_of_fragment(fragment@),
{
    let parts = split_text(fragment, CharClass::Only('/'));
    let key = parts[0].clone();
    assert(views(parts@)[0] == key@);
    key
}

/// The handle that the pieces of a fragment from `from` on select.
pub fn selected_handle_from_parts(parts: &Vec<String>, from: usize) -> (handle: Option<String>)
    requires
        from <= parts@.len(),
    ensures
        optional_view(handle) == selected_in(views(parts@).skip(from as int)),
{
    let total: usize = parts.len();
    let ghost all = views(parts@);
    let mut i: usize = from;
    while total - i >= 2
        invariant
            from <= i <= total == parts@.len(),
            all == views(parts@),
            selected_in(all.skip(i as int)) == selected_in(all.skip(from as int)),
        decreases total - i,
    {
        let kind = &parts[i];
        let handle = &parts[i + 1];
        let ghost rest = all.skip(i as int);
        assert(rest[0] == kind@ && rest[1] == handle@);
        if (same_text(kind, "file") || same_text(kind, "folder")) && !handle.as_str().is_empty() {
            return Some(handle.clone());
        }
        assert(rest.skip(2) == all.skip(i + 2));
        i = i + 2;
    }
    None
}

/// The file or folder that a fragment singles out, after its key.
pub fn fragment_selected_handle(fragment: &str) -> (handle: Option<String>)
    ensures
        optional_view(handle) == selected_in(split(fragment@, CharClass::Only('/')).skip(1)),
{
    let parts = split_text(fragment, CharClass::Only('/'));
    selected_handle_from_parts(&parts, 1)
}

/// The file or folder that a path singles out.
pub fn selected_handle_from_path(path: &str) -> (handle: Option<String>)
    ensures
        optional_view(handle) == selected_in(split(path@, CharClass::Only('/'))),
{
    let parts = split_text(path, CharClass::Only('/'));
    assert(views(parts@).skip(0) == views(parts@));
    selected_handle_from_parts(&parts, 0)
}

/// A password, unless it is empty.
pub fn non_empty_password(password: Option<&str>) -> (given: Option<&str>)
    ensures
        given == (match password {
            Some(text) => if text@.len() > 0 {
                Some(text)
            } else {
                None
            },
            None => None,
        }),
{
    match password {
        Some(text) => if text.is_empty() {
            None
        } else {
            Some(text)
        },
        None => None,
    }
}

/// The length of the key in the bytes of a protected link, or what is wrong with them.
pub open spec fn envelope_key_len(envelope: Seq<u8>) -> Result<int, ErrorView> {
    if envelope.len() < 88 {
        Err(ErrorView::Message("password-protected MEGA link is too short"@))
    } else if envelope[0] != MEGA_PASSWORD_LINK_ALGORITHM {
        Err(ErrorView::Message("unsupported password-protected MEGA link algorithm"@))
    } else if envelope[1] > 1 {
        Err(ErrorView::Message("password-protected MEGA link has an unknown type"@))
    } else {
        let key_len = if envelope[1] == 0 {
            16int
        } else {
            32
        };
        if envelope.len() != 72 + key_len {
            Err(ErrorView::Message("password-protected MEGA link has an invalid length"@))
        } else {
            Ok(key_len)
        }
    }
}

/// The key that a password is turned into for a protected link: its first half unmasks the
/// link's key, its second half authenticates the link.
pub open spec fn envelope_secret(envelope: Seq<u8>, password: Seq<char>) -> Seq<u8> {
    spec_pbkdf2(
        encode_utf8(password),
        envelope.subrange(8, 40),
        MEGA_PASSWORD_LINK_ITERATIONS as nat,
        64,
    )
}

/// The key in a protected link, unmasked.
pub open spec fn unmasked_key(envelope: Seq<u8>, key_len: int, secret: Seq<u8>) -> Seq<u8> {
    xor_bytes(envelope.subrange(40, 40 + key_len), secret.take(key_len))
}

/// The link in the bytes of a protected link, given the key that the password was turned into.
pub open spec fn envelope_link(envelope: Seq<u8>, key_len: int, secret: Seq<u8>) -> Result<
    LinkView,
    ErrorView,
> {
    if spec_hmac_sha256(secret.subrange(32, 64), envelope.take(40 + key_len)) != envelope.skip(
        40 + key_len,
    ) {
        Err(ErrorView::Message("password-protected MEGA link password is invalid"@))
    } else {
        let handle = base64url_encoded(envelope.subrange(2, 8));
        let key = base64url_encoded(unmasked_key(envelope, key_len, secret));
        if envelope[1] == 0 {
            Ok(LinkView::Folder { folder_id: handle, key, selected_handle: None })
        } else {
            Ok(LinkView::File { file_id: handle, key })
        }
    }
}

/// The link that a protected link's fragment holds.
pub open spec fn protected_link(fragment: Seq<char>, password: Option<Seq<char>>) -> Result<
    LinkView,
    ErrorView,
> {
    if !starts_with(fragment, "P!"@) {
        Err(ErrorView::Message("invalid password-protected link"@))
    } else {
        match password {
            None => Err(ErrorView::PasswordRequired),
            Some(secret_text) => match decoded(fragment.skip(2)) {
                Err(error) => Err(error),
                Ok(envelope) => match envelope_key_len(envelope) {
                    Err(error) => Err(error),
                    Ok(key_len) => envelope_link(
                        envelope,
                        key_len,
                        envelope_secret(envelope, secret_text),
                    ),
                },
            },
        }
    }
}

/// Whether a link's key decodes to as many words as its kind needs: four for a folder, eight for
/// a file.
pub open spec fn key_fits_kind(link: LinkView) -> bool {
    match link {
        LinkView::Folder { key, .. } => key_words(key) matches Ok(words) && words.len() == 4,
        LinkView::File { key, .. } => key_words(key) matches Ok(words) && words.len() == 8,
    }
}

/// The length of the key in the bytes of a protected link, or what is wrong with them.
pub fn check_envelope(envelope: &[u8]) -> (key_len: Result<usize, DownloadError>)
    ensures
        match key_len {
            Ok(found) => envelope_key_len(envelope@) == Ok::<int, ErrorView>(found as int),
            Err(error) => envelope_key_len(envelope@) == Err::<int, ErrorView>(error@),
        },
{
    if envelope.len() < 88 {
        return Err(failure("password-protected MEGA link is too short"));
    }
    if envelope[0] != MEGA_PASSWORD_LINK_ALGORITHM {
        return Err(failure("unsupported password-protected MEGA link algorithm"));
    }
    if envelope[1] > 1 {
        return Err(failure("password-protected MEGA link has an unknown type"));
    }
    let key_len: usize = if envelope[1] == 0 {
        16
    } else {
        32
    };
    if envelope.len() != 72 + key_len {
        return Err(failure("password-protected MEGA link has an invalid length"));
    }
    Ok(key_len)
}

/// The link in the bytes of a protected link, given the key that the password was turned into.
pub fn open_envelope(envelope: &[u8], secret: &[u8]) -> (link: Result<PublicLink, DownloadError>)
    requires
        secret@.len() == 64,
    ensures
        match link {
            Ok(found) => envelope_key_len(envelope@) matches Ok(key_len) && envelope_link(
                envelope@,
                key_len,
                secret@,
            ) == Ok::<LinkView, ErrorView>(found@) && key_fits_kind(found@),
            Err(error) => match envelope_key_len(envelope@) {
                Err(expected) => expected == error@,
                Ok(key_len) => envelope_link(envelope@, key_len, secret@) == Err::<
                    LinkView,
                    ErrorView,
                >(error@),
            },
        },
{
    let key_len = match check_envelope(envelope) {
        Ok(found) => found,
        Err(error) => return Err(error),
    };
    let mac_start: usize = 40 + key_len;
    let mac_key = bytes_between(secret, 32, 64);
    let signed = bytes_between(envelope, 0, mac_start);
    let expected_mac = bytes_between(envelope, mac_start, envelope.len());
    assert(signed@ == envelope@.take(mac_start as int));
    assert(expected_mac@ == envelope@.skip(mac_start as int));
    let actual_mac = hmac_sha256(&mac_key, &signed);
    if !constant_time_eq(actual_mac.as_slice(), &expected_mac) {
        return Err(failure("password-protected MEGA link password is invalid"));
    }
    let mut key_bytes: Vec<u8> = Vec::new();
    let mut i: usize = 0;
    while i < key_len
        invariant
            i <= key_len <= 32,
            envelope@.len() == 72 + key_len,
            secret@.len() == 64,
            key_bytes@.len() == i,
            forall|j: int| 0 <= j < i ==> key_bytes@[j] == envelope@[40 + j] ^ secret@[j],
        decreases key_len - i,
    {
        key_bytes.push(envelope[40 + i] ^ secret[i]);
        i = i + 1;
    }
    assert(key_bytes@ == unmasked_key(envelope@, key_len as int, secret@));
    let handle = encode_base64_url(&bytes_between(envelope, 2, 8));
    let key = encode_base64_url(&key_bytes);
    assert(key_words(key@) matches Ok(words) && words.len() == key_len / 4);
    if envelope[1] == 0 {
        Ok(PublicLink::Folder(MegaFolderLink { folder_id: handle, key, selected_handle: None }))
    } else {
        Ok(PublicLink::File(MegaFileLink { file_id: handle, key }))
    }
}

/// The link that a protected link's fragment holds. Its key has the length that its kind needs.
pub fn decrypt_password_protected_link(fragment: &str, password: Option<&str>) -> (link: Result<
    PublicLink,
    DownloadError,
>)
    ensures
        match link {
            Ok(found) => protected_link(fragment@, optional_str(password)) == Ok::<
                LinkView,
                ErrorView,
            >(found@) && key_fits_kind(found@),
            Err(error) => protected_link(fragment@, optional_str(password)) == Err::<
                LinkView,
                ErrorView,
            >(error@),
        },
{
    if !has_prefix(fragment, "P!") {
        return Err(failure("invalid password-protected link"));
    }
    let password = match password {
        Some(text) => text,
        None => return Err(DownloadError::PasswordRequired),
    };
    let chars = chars_of(fragment);
    proof {
        reveal_strlit("P!");
    }
    let payload = string_from(&chars, 2, chars.len());
    assert(payload@ == fragment@.skip(2));
    let envelope = match decode_base64_url(&payload) {
        Ok(bytes) => bytes,
        Err(error) => return Err(error),
    };
    match check_envelope(&envelope) {
        Ok(_) => {},
        Err(error) => return Err(error),
    }
    let salt = bytes_between(&envelope, 8, 40);
    let secret = pbkdf2_hmac_sha512(
        password.as_bytes(),
        &salt,
        MEGA_PASSWORD_LINK_ITERATIONS,
        64,
    );
    open_envelope(&envelope, &secret)
}

/// Text, unless it is missing or empty.
pub open spec fn present(text: Option<Seq<char>>) -> Option<Seq<char>> {
    match text {
        Some(found) => if found.len() > 0 {
            Some(found)
        } else {
            None
        },
        None => None,
    }
}

/// Segment `i` of a path, if it is there.
pub open spec fn segment(segments: Seq<Seq<char>>, i: int) -> Option<Seq<char>> {
    if i < segments.len() {
        Some(segments[i])
    } else {
        None
    }
}

/// The key in a fragment, if there is one.
pub open spec fn key_in(fragment: Option<Seq<char>>) -> Option<Seq<char>> {
    match fragment {
        Some(text) => present(Some(key_of_fragment(text))),
        None => None,
    }
}

/// The link to a file whose identifier stands in the path.
pub open spec fn file_in_path(segments: Seq<Seq<char>>, fragment: Option<Seq<char>>) -> Result<
    LinkView,
    ErrorView,
> {
    match present(segment(segments, 1)) {
        None => Err(ErrorView::Message("missing MEGA file id"@)),
        Some(file_id) => match key_in(fragment) {
            None => Err(ErrorView::Message("missing MEGA file key"@)),
            Some(key) => Ok(LinkView::File { file_id, key }),
        },
    }
}

/// The link to a folder whose identifier stands in the path.
pub open spec fn folder_in_path(segments: Seq<Seq<char>>, fragment: Option<Seq<char>>) -> Result<
    LinkView,
    ErrorView,
> {
    match present(segment(segments, 1)) {
        None => Err(ErrorView::Message("missing MEGA folder id"@)),
        Some(folder_id) => match key_in(fragment) {
            None => Err(ErrorView::Message("missing MEGA folder key"@)),
            Some(key) => Ok(
                LinkView::Folder {
                    folder_id,
                    key,
                    selected_handle: selected_in(
                        split(fragment->0, CharClass::Only('/')).skip(1),
                    ),
                },
            ),
        },
    }
}

/// The link that stands in a fragment alone.
pub open spec fn link_in_fragment(
    fragment: Option<Seq<char>>,
    password: Option<Seq<char>>,
) -> Result<LinkView, ErrorView> {
    match fragment {
        None => Err(ErrorView::Message("missing MEGA link fragment"@)),
        Some(text) => {
            let parts = split(text, CharClass::Only('!'));
            if starts_with(text, "P!"@) {
                protected_link(text, password)
            } else if starts_with(text, "F!"@) && parts.len() >= 3 {
                Ok(
                    LinkView::Folder {
                        folder_id: parts[1],
                        key: parts[2],
                        selected_handle: if parts.len() >= 4 {
                            selected_in(split(parts[3], CharClass::Only('/')))
                        } else {
                            None
                        },
                    },
                )
            } else if starts_with(text, "!"@) && parts.len() >= 3 {
                Ok(LinkView::File { file_id: parts[1], key: parts[2] })
            } else {
                Err(ErrorView::Message("unsupported MEGA link format"@))
            }
        },
    }
}

/// The link that the parts of a URL stand for.
pub open spec fn link_in_parts(
    parts: (Option<Seq<Seq<char>>>, Option<Seq<char>>),
    password: Option<Seq<char>>,
) -> Result<LinkView, ErrorView> {
    let first = match parts.0 {
        Some(segments) => segment(segments, 0),
        None => None,
    };
    if first == Some("file"@) {
        file_in_path(parts.0->0, parts.1)
    } else if first == Some("folder"@) {
        folder_in_path(parts.0->0, parts.1)
    } else {
        link_in_fragment(parts.1, password)
    }
}

/// The public link that `raw` is.
pub open spec fn link_in(raw: Seq<char>, password: Option<Seq<char>>) -> Result<
    LinkView,
    ErrorView,
> {
    match url_parts(trim(raw)) {
        Err(cause) => Err(ErrorView::Url(cause)),
        Ok(parts) => link_in_parts(parts, password),
    }
}

/// A copy of segment `i`, if it is there and not empty.
fn present_segment(segments: &Vec<String>, i: usize) -> (found: Option<String>)
    ensures
        optional_view(found) == present(segment(views(segments@), i as int)),
{
    if i < segments.len() && !segments[i].as_str().is_empty() {
        Some(segments[i].clone())
    } else {
        None
    }
}

/// The key in a fragment, if there is one.
fn present_key(fragment: &Option<String>) -> (key: Option<String>)
    ensures
        optional_view(key) == key_in(optional_view(*fragment)),
{
    match fragment {
        Some(text) => {
            let key = fragment_key(text);
            if key.as_str().is_empty() {
                None
            } else {
                Some(key)
            }
        },
        None => None,
    }
}

/// The link that the parts of a URL stand for.
pub fn link_from_parts(parts: &UrlParts, password: Option<&str>) -> (link: Result<
    PublicLink,
    DownloadError,
>)
    ensures
        match link {
            Ok(found) => link_in_parts(parts_view(*parts), optional_str(password)) == Ok::<
                LinkView,
                ErrorView,
            >(found@),
            Err(error) => link_in_parts(parts_view(*parts), optional_str(password)) == Err::<
                LinkView,
                ErrorView,
            >(error@),
        },
{
    if let Some(segments) = &parts.segments {
        if segments.len() > 0 {
            assert(views(segments@)[0] == segments@[0]@);
            if same_text(&segments[0], "file") {
                let file_id = match present_segment(segments, 1) {
                    Some(found) => found,
                    None => return Err(failure("missing MEGA file id")),
                };
                let key = match present_key(&parts.fragment) {
                    Some(found) => found,
                    None => return Err(failure("missing MEGA file key")),
                };
                return Ok(PublicLink::File(MegaFileLink { file_id, key }));
            }
            if same_text(&segments[0], "folder") {
                proof {
                    reveal_strlit("file");
                    reveal_strlit("folder");
                    assert("file"@.len() != "folder"@.len());
                }
                let folder_id = match present_segment(segments, 1) {
                    Some(found) => found,
                    None => return Err(failure("missing MEGA folder id")),
                };
                let key = match present_key(&parts.fragment) {
                    Some(found) => found,
                    None => return Err(failure("missing MEGA folder key")),
                };
                let selected_handle = match &parts.fragment {
                    Some(text) => fragment_selected_handle(text),
                    None => None,
                };
                return Ok(
                    PublicLink::Folder(MegaFolderLink { folder_id, key, selected_handle }),
                );
            }
        }
    }
    let fragment = match &parts.fragment {
        Some(text) => text,
        None => return Err(failure("missing MEGA link fragment")),
    };
    if has_prefix(fragment, "P!") {
        return decrypt_password_protected_link(fragment, password);
    }
    let pieces = split_text(fragment, CharClass::Only('!'));
    let ghost all = views(pieces@);
    if has_prefix(fragment, "F!") && pieces.len() >= 3 {
        assert(all[1] == pieces@[1]@ && all[2] == pieces@[2]@);
        let selected_handle = if pieces.len() >= 4 {
            assert(all[3] == pieces@[3]@);
            selected_handle_from_path(&pieces[3])
        } else {
            None
        };
        return Ok(
            PublicLink::Folder(
                MegaFolderLink {
                    folder_id: pieces[1].clone(),
                    key: pieces[2].clone(),
                    selected_handle,
                },
            ),
        );
    }
    if has_prefix(fragment, "!") && pieces.len() >= 3 {
        assert(all[1] == pieces@[1]@ && all[2] == pieces@[2]@);
        return Ok(
            PublicLink::File(MegaFileLink { file_id: pieces[1].clone(), key: pieces[2].clone() }),
        );
    }
    Err(failure("unsupported MEGA link format"))
}

/// The public link that `raw` is.
pub fn parse_public_link(raw: &str, password: Option<&str>) -> (link: Result<
    PublicLink,
    DownloadError,
>)
    ensures
        match link {
            Ok(found) => link_in(raw@, optional_str(password)) == Ok::<LinkView, ErrorView>(
                found@,
            ),
            Err(error) => link_in(raw@, optional_str(password)) == Err::<LinkView, ErrorView>(
                error@,
            ),
        },
{
    match parse_url(&trim_text(raw)) {
        Ok(parts) => link_from_parts(&parts, password),
        Err(cause) => Err(DownloadError::Url(cause)),
    }
}

/// A protected link asks for a password if none is given, whatever else is in it.
pub proof fn protected_link_asks_for_password(fragment: Seq<char>)
    requires
        starts_with(fragment, "P!"@),
    ensures
        protected_link(fragment, None) == Err::<LinkView, ErrorView>(ErrorView::PasswordRequired),
{
}

/// Only a protected link asks for a password.
pub proof fn only_protected_links_ask(
    parts: (Option<Seq<Seq<char>>>, Option<Seq<char>>),
    password: Option<Seq<char>>,
)
    requires
        link_in_parts(parts, password) == Err::<LinkView, ErrorView>(ErrorView::PasswordRequired),
    ensures
        password is None,
        parts.1 matches Some(fragment) && starts_with(fragment, "P!"@),
{
    assert(decoded(parts.1->0.skip(2)) matches Err(error) ==> error is Base64);
}

/// A password opens a protected link exactly if the link's authentication code was made with it.
pub proof fn password_opens_exactly_its_link(fragment: Seq<char>, password: Seq<char>)
    requires
        starts_with(fragment, "P!"@),
        decoded(fragment.skip(2)) is Ok,
        envelope_key_len(decoded(fragment.skip(2))->Ok_0) is Ok,
    ensures
        ({
            let envelope = decoded(fragment.skip(2))->Ok_0;
            let key_len = envelope_key_len(envelope)->Ok_0;
            let secret = envelope_secret(envelope, password);
            protected_link(fragment, Some(password)) is Ok <==> spec_hmac_sha256(
                secret.subrange(32, 64),
                envelope.take(40 + key_len),
            ) == envelope.skip(40 + key_len)
        }),
{
}

/// Whether these bytes are a protected link that was made with a password: kind, handle, salt and
/// masked key, followed by their authentication code.
pub open spec fn is_sealed(
    envelope: Seq<u8>,
    kind: u8,
    handle: Seq<u8>,
    salt: Seq<u8>,
    key: Seq<u8>,
    password: Seq<char>,
) -> bool {
    let secret = spec_pbkdf2(encode_utf8(password), salt, 100_000, 64);
    let body = seq![2u8, kind] + handle + salt + xor_bytes(
        key,
        secret.take(key.len() as int),
    );
    &&& handle.len() == 6
    &&& salt.len() == 32
    &&& key.len() == (if kind == 0 {
        16int
    } else {
        32
    })
    &&& envelope.len() == 72 + key.len()
    &&& envelope.take(40 + key.len() as int) == body
    &&& envelope.skip(40 + key.len() as int) == spec_hmac_sha256(secret.subrange(32, 64), body)
}

/// A protected link gives back the handle and the key that it was made of, to whoever has the
/// password that it was made with.
pub proof fn protected_links_read_back(
    fragment: Seq<char>,
    envelope: Seq<u8>,
    kind: u8,
    handle: Seq<u8>,
    salt: Seq<u8>,
    key: Seq<u8>,
    password: Seq<char>,
)
    requires
        starts_with(fragment, "P!"@),
        decoded(fragment.skip(2)) == Ok::<Seq<u8>, ErrorView>(envelope),
        kind <= 1,
        is_sealed(envelope, kind, handle, salt, key, password),
    ensures
        protected_link(fragment, Some(password)) == Ok::<LinkView, ErrorView>(
            if kind == 0 {
                LinkView::Folder {
                    folder_id: base64url_encoded(handle),
                    key: base64url_encoded(key),
                    selected_handle: None,
                }
            } else {
                LinkView::File { file_id: base64url_encoded(handle), key: base64url_encoded(key) }
            },
        ),
{
    let key_len = key.len() as int;
    let front = envelope.take(40 + key_len);
    assert forall|i: int| 0 <= i < 40 + key_len implies envelope[i] == front[i] by {}
    assert(envelope.subrange(8, 40) =~= salt);
    assert(envelope.subrange(2, 8) =~= handle);
    let mask = envelope_secret(envelope, password).take(key_len);
    assert(envelope.subrange(40, 40 + key_len) =~= xor_bytes(key, mask));
    assert forall|i: int| 0 <= i < key_len implies xor_bytes(xor_bytes(key, mask), mask)[i]
        == key[i] by {
        let k = key[i];
        let m = mask[i];
        assert((k ^ m) ^ m == k) by (bit_vector);
    }
    assert(unmasked_key(envelope, key_len, envelope_secret(envelope, password)) =~= key);
}

/// A link that names a file or a folder in its path, and its key in the fragment, is read as it is
/// written, with any password or none.
pub proof fn modern_links_read_back(
    id: Seq<char>,
    key: Seq<char>,
    password: Option<Seq<char>>,
)
    requires
        id.len() > 0,
        key.len() > 0,
        is_unbroken(key, CharClass::Only('/')),
    ensures
        link_in_parts((Some(seq!["file"@, id]), Some(key)), password) == Ok::<LinkView, ErrorView>(
            LinkView::File { file_id: id, key },
        ),
        link_in_parts((Some(seq!["folder"@, id]), Some(key)), password) == Ok::<
            LinkView,
            ErrorView,
        >(LinkView::Folder { folder_id: id, key, selected_handle: None }),
{
    reveal_strlit("file");
    reveal_strlit("folder");
    assert("file"@.len() != "folder"@.len());
    unbroken_text_is_one_piece(key, CharClass::Only('/'));
    assert(split(key, CharClass::Only('/')).skip(1).len() == 0);
}

/// A link to a folder that singles out a file or a folder in it is read as it is written.
pub proof fn selected_children_read_back(
    id: Seq<char>,
    key: Seq<char>,
    kind: Seq<char>,
    handle: Seq<char>,
    password: Option<Seq<char>>,
)
    requires
        id.len() > 0,
        key.len() > 0,
        handle.len() > 0,
        kind == "file"@ || kind == "folder"@,
        is_unbroken(key, CharClass::Only('/')),
        is_unbroken(handle, CharClass::Only('/')),
    ensures
        link_in_parts(
            (
                Some(seq!["folder"@, id]),
                Some((key.push('/') + kind).push('/') + handle),
            ),
            password,
        ) == Ok::<LinkView, ErrorView>(
            LinkView::Folder { folder_id: id, key, selected_handle: Some(handle) },
        ),
{
    reveal_strlit("file");
    reveal_strlit("folder");
    assert("file"@.len() != "folder"@.len());
    let class = CharClass::Only('/');
    assert(is_unbroken(kind, class));
    unbroken_text_is_one_piece(key, class);
    splitting_undoes_joining(key, '/', kind, class);
    splitting_undoes_joining(key.push('/') + kind, '/', handle, class);
    let pieces = split((key.push('/') + kind).push('/') + handle, class);
    assert(pieces =~= seq![key, kind, handle]);
    let rest = pieces.skip(1);
    assert(rest[0] == kind && rest[1] == handle);
}

/// A link of the older form, which stands in the fragment alone, is read as it is written.
pub proof fn legacy_links_read_back(
    id: Seq<char>,
    key: Seq<char>,
    password: Option<Seq<char>>,
)
    requires
        is_unbroken(id, CharClass::Only('!')),
        is_unbroken(key, CharClass::Only('!')),
    ensures
        link_in_fragment(Some(("!"@ + id).push('!') + key), password) == Ok::<LinkView, ErrorView>(
            LinkView::File { file_id: id, key },
        ),
        link_in_fragment(Some(("F!"@ + id).push('!') + key), password) == Ok::<
            LinkView,
            ErrorView,
        >(LinkView::Folder { folder_id: id, key, selected_handle: None }),
{
    reveal_strlit("!");
    reveal_strlit("F!");
    reveal_strlit("P!");
    let class = CharClass::Only('!');
    let nothing = Seq::<char>::empty();
    let mark = seq!['F'];
    assert(is_unbroken(nothing, class));
    assert(is_unbroken(mark, class));
    unbroken_text_is_one_piece(nothing, class);
    unbroken_text_is_one_piece(mark, class);
    let file = ("!"@ + id).push('!') + key;
    let folder = ("F!"@ + id).push('!') + key;
    assert("!"@ + id =~= nothing.push('!') + id);
    assert("F!"@ + id =~= mark.push('!') + id);
    splitting_undoes_joining(nothing, '!', id, class);
    splitting_undoes_joining(nothing.push('!') + id, '!', key, class);
    splitting_undoes_joining(mark, '!', id, class);
    splitting_undoes_joining(mark.push('!') + id, '!', key, class);
    assert(split(file, class) =~= seq![nothing, id, key]);
    assert(split(folder, class) =~= seq![mark, id, key]);
    assert(file[0] == '!' && folder[0] == 'F');
    assert(!starts_with(file, "P!"@)) by {
        assert(file.take(2)[0] == '!');
        assert("P!"@[0] == 'P');
    }
    assert(!starts_with(file, "F!"@)) by {
        assert(file.take(2)[0] == '!');
        assert("F!"@[0] == 'F');
    }
    assert(!starts_with(folder, "P!"@)) by {
        assert(folder.take(2)[0] == 'F');
        assert("P!"@[0] == 'P');
    }
    assert(file.take(1) =~= "!"@);
    assert(folder.take(2) =~= "F!"@);
}

/// The key of a link is what stands in its fragment up to the first slash, and the identifier is
/// the second segment of its path. What follows either changes nothing about a link to a file.
pub proof fn keys_end_at_the_first_slash(
    segments: Seq<Seq<char>>,
    key: Seq<char>,
    rest: Seq<char>,
    password: Option<Seq<char>>,
)
    requires
        segments.len() >= 2,
        segments[1].len() > 0,
        key.len() > 0,
        is_unbroken(key, CharClass::Only('/')),
    ensures
        segments[0] == "file"@ ==> link_in_parts(
            (Some(segments), Some(key.push('/') + rest)),
            password,
        ) == Ok::<LinkView, ErrorView>(LinkView::File { file_id: segments[1], key }),
        segments[0] == "folder"@ ==> (link_in_parts(
            (Some(segments), Some(key.push('/') + rest)),
            password,
        ) matches Ok(LinkView::Folder { folder_id, key: found, .. }) && folder_id == segments[1]
            && found == key),
{
    reveal_strlit("file");
    reveal_strlit("folder");
    assert("file"@.len() != "folder"@.len());
    let class = CharClass::Only('/');
    unbroken_text_is_one_piece(key, class);
    pieces_before_a_separator_stay(key, '/', rest, class);
    let pieces = split(key.push('/') + rest, class);
    assert(pieces.take(1)[0] == pieces[0]);
}

/// A link whose path names a file or a folder needs an identifier in the path and a key in the
/// fragment, and what is missing first is reported.
pub proof fn missing_parts_are_reported(
    segments: Seq<Seq<char>>,
    fragment: Option<Seq<char>>,
    password: Option<Seq<char>>,
)
    requires
        segments.len() > 0,
    ensures
        ({
            let link = link_in_parts((Some(segments), fragment), password);
            let no_id = segments.len() < 2 || segments[1].len() == 0;
            let no_key = fragment is None || fragment->0.len() == 0 || fragment->0[0] == '/';
            &&& segments[0] == "file"@ && no_id ==> link == Err::<LinkView, ErrorView>(
                ErrorView::Message("missing MEGA file id"@),
            )
            &&& segments[0] == "file"@ && !no_id && no_key ==> link == Err::<LinkView, ErrorView>(
                ErrorView::Message("missing MEGA file key"@),
            )
            &&& segments[0] == "folder"@ && no_id ==> link == Err::<LinkView, ErrorView>(
                ErrorView::Message("missing MEGA folder id"@),
            )
            &&& segments[0] == "folder"@ && !no_id && no_key ==> link == Err::<
                LinkView,
                ErrorView,
            >(ErrorView::Message("missing MEGA folder key"@))
        }),
{
    reveal_strlit("file");
    reveal_strlit("folder");
    assert("file"@.len() != "folder"@.len());
    if let Some(text) = fragment {
        let class = CharClass::Only('/');
        let nothing = Seq::<char>::empty();
        unbroken_text_is_one_piece(nothing, class);
        if text.len() == 0 {
            assert(text =~= nothing);
        } else if text[0] == '/' {
            assert(text =~= nothing.push('/') + text.skip(1));
            pieces_before_a_separator_stay(nothing, '/', text.skip(1), class);
            let pieces = split(text, class);
            assert(pieces.take(1)[0] == pieces[0]);
        }
    }
}

/// A link whose path names neither a file nor a folder stands in its fragment alone, which starts
/// with one of three marks.
pub proof fn other_links_stand_in_the_fragment(
    segments: Option<Seq<Seq<char>>>,
    fragment: Option<Seq<char>>,
    password: Option<Seq<char>>,
)
    requires
        segments matches Some(found) ==> found.len() == 0 || (found[0] != "file"@ && found[0]
            != "folder"@),
    ensures
        link_in_parts((segments, fragment), password) == link_in_fragment(fragment, password),
        fragment is None ==> link_in_parts((segments, fragment), password) == Err::<
            LinkView,
            ErrorView,
        >(ErrorView::Message("missing MEGA link fragment"@)),
        fragment matches Some(text) && (text.len() == 0 || (text[0] != '!' && (text.len() == 1
            || text[1] != '!' || (text[0] != 'F' && text[0] != 'P')))) ==> link_in_parts(
            (segments, fragment),
            password,
        ) == Err::<LinkView, ErrorView>(ErrorView::Message("unsupported MEGA link format"@)),
{
    reveal_strlit("!");
    reveal_strlit("F!");
    reveal_strlit("P!");
    if let Some(text) = fragment {
        if text.len() > 0 {
            assert(text.take(1)[0] == text[0]);
        }
        if text.len() > 1 {
            assert(text.take(2)[0] == text[0] && text.take(2)[1] == text[1]);
        }
        assert("!"@[0] == '!');
        assert("F!"@[0] == 'F' && "F!"@[1] == '!');
        assert("P!"@[0] == 'P' && "P!"@[1] == '!');
    }
}

/// Whether the pair of pieces with number `k` names a file or a folder and its handle.
pub open spec fn is_selection(parts: Seq<Seq<char>>, k: int) -> bool {
    &&& 0 <= 2 * k
    &&& 2 * k + 1 < parts.len()
    &&& parts[2 * k] == "file"@ || parts[2 * k] == "folder"@
    &&& parts[2 * k + 1].len() > 0
}

/// The pieces behind a key are read in pairs, and the first pair that names a file or a folder and
/// its handle counts.
pub proof fn first_selection_counts(parts: Seq<Seq<char>>)
    ensures
        match selected_in(parts) {
            Some(handle) => exists|k: int| #[trigger]
                is_selection(parts, k) && parts[2 * k + 1] == handle && forall|j: int|
                    0 <= j < k ==> !#[trigger] is_selection(parts, j),
            None => forall|k: int| !#[trigger] is_selection(parts, k),
        },
    decreases parts.len(),
{
    if parts.len() >= 2 && !is_selection(parts, 0) {
        let rest = parts.skip(2);
        first_selection_counts(rest);
        assert forall|k: int| #[trigger] is_selection(parts, k) implies k >= 1 && is_selection(
            rest,
            k - 1,
        ) by {
            assert(rest[2 * (k - 1)] == parts[2 * k]);
            assert(rest[2 * (k - 1) + 1] == parts[2 * k + 1]);
        }
        if let Some(handle) = selected_in(rest) {
            let k = choose|k: int| #[trigger]
                is_selection(rest, k) && rest[2 * k + 1] == handle && forall|j: int|
                    0 <= j < k ==> !#[trigger] is_selection(rest, j);
            assert(rest[2 * k] == parts[2 * (k + 1)]);
            assert(rest[2 * k + 1] == parts[2 * (k + 1) + 1]);
            assert(is_selection(parts, k + 1));
            assert forall|j: int| 0 <= j < k + 1 implies !#[trigger] is_selection(parts, j) by {
                if is_selection(parts, j) {
                    assert(is_selection(rest, j - 1));
                }
            }
        }
    }
    if parts.len() >= 2 && is_selection(parts, 0) {
        assert(parts[2 * 0int + 1] == parts[1]);
    }
}

/// A link of the older form may single out something in a folder behind a third mark. A link of
/// that form to a file leaves out what follows its key.
pub proof fn legacy_selections_read_back(
    id: Seq<char>,
    key: Seq<char>,
    kind: Seq<char>,
    handle: Seq<char>,
    password: Option<Seq<char>>,
)
    requires
        is_unbroken(id, CharClass::Only('!')),
        is_unbroken(key, CharClass::Only('!')),
        kind == "file"@ || kind == "folder"@,
        is_unbroken(handle, CharClass::Only('!')),
        is_unbroken(handle, CharClass::Only('/')),
        handle.len() > 0,
    ensures
        link_in_fragment(
            Some((("F!"@ + id).push('!') + key).push('!') + (kind.push('/') + handle)),
            password,
        ) == Ok::<LinkView, ErrorView>(
            LinkView::Folder { folder_id: id, key, selected_handle: Some(handle) },
        ),
        link_in_fragment(
            Some((("!"@ + id).push('!') + key).push('!') + (kind.push('/') + handle)),
            password,
        ) == Ok::<LinkView, ErrorView>(LinkView::File { file_id: id, key }),
{
    reveal_strlit("!");
    reveal_strlit("F!");
    reveal_strlit("P!");
    reveal_strlit("file");
    reveal_strlit("folder");
    let class = CharClass::Only('!');
    let slash = CharClass::Only('/');
    let nothing = Seq::<char>::empty();
    let mark = seq!['F'];
    let extra = kind.push('/') + handle;
    assert(is_unbroken(extra, class)) by {
        assert forall|i: int| 0 <= i < extra.len() implies !class.has(#[trigger] extra[i]) by {
            if i > kind.len() {
                assert(extra[i] == handle[i - kind.len() - 1]);
            } else if i < kind.len() {
                assert(extra[i] == kind[i]);
            }
        }
    }
    unbroken_text_is_one_piece(nothing, class);
    unbroken_text_is_one_piece(mark, class);
    let file = ("!"@ + id).push('!') + key;
    let folder = ("F!"@ + id).push('!') + key;
    assert("!"@ + id =~= nothing.push('!') + id);
    assert("F!"@ + id =~= mark.push('!') + id);
    splitting_undoes_joining(nothing, '!', id, class);
    splitting_undoes_joining(nothing.push('!') + id, '!', key, class);
    splitting_undoes_joining(file, '!', extra, class);
    splitting_undoes_joining(mark, '!', id, class);
    splitting_undoes_joining(mark.push('!') + id, '!', key, class);
    splitting_undoes_joining(folder, '!', extra, class);
    let whole_file = file.push('!') + extra;
    let whole_folder = folder.push('!') + extra;
    assert(split(whole_file, class) =~= seq![nothing, id, key, extra]);
    assert(split(whole_folder, class) =~= seq![mark, id, key, extra]);
    assert(is_unbroken(kind, slash));
    unbroken_text_is_one_piece(kind, slash);
    splitting_undoes_joining(kind, '/', handle, slash);
    assert(split(extra, slash) =~= seq![kind, handle]);
    assert(whole_file[0] == '!' && whole_folder[0] == 'F' && whole_folder[1] == '!');
    assert(!starts_with(whole_file, "P!"@)) by {
        assert(whole_file.take(2)[0] == '!');
        assert("P!"@[0] == 'P');
    }
    assert(!starts_with(whole_file, "F!"@)) by {
        assert(whole_file.take(2)[0] == '!');
        assert("F!"@[0] == 'F');
    }
    assert(!starts_with(whole_folder, "P!"@)) by {
        assert(whole_folder.take(2)[0] == 'F');
        assert("P!"@[0] == 'P');
    }
    assert(whole_file.take(1) =~= "!"@);
    assert(whole_folder.take(2) =~= "F!"@);
}

/// The bytes of a protected link are 88 for a folder and 104 for a file, and say so: the first is
/// two, and the second zero or one.
pub proof fn protected_links_have_two_lengths(envelope: Seq<u8>)
    ensures
        envelope_key_len(envelope) == Ok::<int, ErrorView>(16) <==> envelope.len() == 88
            && envelope[0] == 2 && envelope[1] == 0,
        envelope_key_len(envelope) == Ok::<int, ErrorView>(32) <==> envelope.len() == 104
            && envelope[0] == 2 && envelope[1] == 1,
        envelope_key_len(envelope) matches Ok(key_len) ==> key_len == 16 || key_len == 32,
        envelope.len() < 88 ==> envelope_key_len(envelope) == Err::<int, ErrorView>(
            ErrorView::Message("password-protected MEGA link is too short"@),
        ),
        envelope.len() >= 88 && envelope[0] != 2 ==> envelope_key_len(envelope) == Err::<
            int,
            ErrorView,
        >(ErrorView::Message("unsupported password-protected MEGA link algorithm"@)),
        envelope.len() >= 88 && envelope[0] == 2 && envelope[1] >= 2 ==> envelope_key_len(envelope)
            == Err::<int, ErrorView>(
            ErrorView::Message("password-protected MEGA link has an unknown type"@),
        ),
{
}

/// White space around a link changes nothing.
pub proof fn space_around_links_goes(
    before: Seq<char>,
    raw: Seq<char>,
    behind: Seq<char>,
    password: Option<Seq<char>>,
)
    requires
        forall|i: int| 0 <= i < before.len() ==> is_whitespace(#[trigger] before[i]),
        forall|i: int| 0 <= i < behind.len() ==> is_whitespace(#[trigger] behind[i]),
        raw.len() > 0,
        !is_whitespace(raw.first()),
        !is_whitespace(raw.last()),
    ensures
        link_in(before + raw + behind, password) == link_in(raw, password),
        url_parts(raw) matches Ok(parts) ==> link_in(raw, password) == link_in_parts(
            parts,
            password,
        ),
        url_parts(raw) matches Err(cause) ==> link_in(raw, password) == Err::<LinkView, ErrorView>(
            ErrorView::Url(cause),
        ),
{
    let class = CharClass::Whitespace;
    assert forall|i: int| 0 <= i < before.len() implies class.has(#[trigger] before[i]) by {
        assert(is_whitespace(before[i]));
    }
    assert forall|i: int| 0 <= i < behind.len() implies class.has(#[trigger] behind[i]) by {
        assert(is_whitespace(behind[i]));
    }
    trimming_takes_the_edges(before, raw, behind, class);
    trimming_keeps_trimmed_text(raw, class);
}

/// An empty password counts as none, and any other is given as it is.
pub proof fn empty_passwords_count_as_none(password: Option<&str>, given: Option<&str>)
    requires
        call_ensures(non_empty_password, (password,), given),
    ensures
        given is Some <==> (password matches Some(text) && text@.len() > 0),
        given matches Some(text) ==> password == Some(text),
{
}

} // verus!
