use megadown::crypto::{hmac_sha256, pbkdf2_hmac_sha512};
use megadown::error::DownloadError;
use megadown::keys::{decode_key_words, encode_base64_url};
use megadown::link::{
    check_envelope, decrypt_password_protected_link, fragment_key, fragment_selected_handle,
    link_from_parts, non_empty_password, open_envelope, parse_public_link,
    selected_handle_from_parts, selected_handle_from_path, PublicLink, UrlParts,
};

const FOLDER_LINK: &str = "https://mega.nz/#P!AgDJUADUNBAfILW6rGEVD0Po68-q27s0jbEYyvSDQ1fbS9EeUvFv06geiV6jv4hTl1aXNNyE--SVwYKRfvJgU_VFkmiIltBY0Z5JtmvhHJ69uyZOxSIGUA";

fn refused(raw: &str) -> String {
    parse_public_link(raw, None).expect_err("the link should be refused").message()
}

fn parts(segments: &[&str], fragment: Option<&str>) -> UrlParts {
    UrlParts {
        segments: Some(segments.iter().map(|segment| segment.to_string()).collect()),
        fragment: fragment.map(|text| text.to_string()),
    }
}

#[test]
fn parses_password_protected_folder_link_from_reference() {
    let parsed = parse_public_link(
        "https://mega.nz/#P!AgDJUADUNBAfILW6rGEVD0Po68-q27s0jbEYyvSDQ1fbS9EeUvFv06geiV6jv4hTl1aXNNyE--SVwYKRfvJgU_VFkmiIltBY0Z5JtmvhHJ69uyZOxSIGUA",
        Some("123.admin.30S"),
    )
    .expect("reference folder link should decrypt");

    match parsed {
        PublicLink::Folder(link) => {
            assert_eq!(link.folder_id, "yVAA1DQQ");
            assert_eq!(link.key, "XFo6ejNK7vC1VZxdSS-leQ");
        }
        PublicLink::File(_) => panic!("expected folder link"),
    }
}

#[test]
fn parses_password_protected_file_link_from_reference() {
    let parsed = parse_public_link(
        "https://mega.nz/#P!AgFsUmcdCoPHOobt_DN5op-rhFtI6AF0mxDyzh7OAC_frDSVebejj8xIDciZUIb19Sg-xb-0YkpeqvrKjOKivzyGp1W8Plf3QAmgELeneVg_xmOxpck8diLiM8UnbOuYCHb4JnpyeHQ",
        Some("admin.30S"),
    )
    .expect("reference file link should decrypt");

    match parsed {
        PublicLink::File(link) => {
            assert_eq!(link.file_id, "bFJnHQqD");
            assert_eq!(link.key, "-KaiZY-vdkh6C-0WXXcaqilHsT-aBPNlH6sRpS8ZGpg");
        }
        PublicLink::Folder(_) => panic!("expected file link"),
    }
}

#[test]
fn rejects_wrong_password_for_protected_link() {
    let error = parse_public_link(
        "https://mega.nz/#P!AgDJUADUNBAfILW6rGEVD0Po68-q27s0jbEYyvSDQ1fbS9EeUvFv06geiV6jv4hTl1aXNNyE--SVwYKRfvJgU_VFkmiIltBY0Z5JtmvhHJ69uyZOxSIGUA",
        Some("wrong-password"),
    )
    .expect_err("wrong password should fail");

    assert!(error.message().contains("password is invalid"));
}

#[test]
fn detects_password_requirement_for_protected_link() {
    let error = parse_public_link(
        "https://mega.nz/#P!AgDJUADUNBAfILW6rGEVD0Po68-q27s0jbEYyvSDQ1fbS9EeUvFv06geiV6jv4hTl1aXNNyE--SVwYKRfvJgU_VFkmiIltBY0Z5JtmvhHJ69uyZOxSIGUA",
        None,
    )
    .expect_err("protected link without password should request one");

    assert!(matches!(error, DownloadError::PasswordRequired));
}

#[test]
fn parses_folder_fragment_key_before_selected_child() {
    let parsed = parse_public_link(
        "https://mega.nz/folder/abcdefgh#folderkey/file/child1234",
        None,
    )
    .expect("folder link with selected child should parse");

    match parsed {
        PublicLink::Folder(link) => {
            assert_eq!(link.folder_id, "abcdefgh");
            assert_eq!(link.key, "folderkey");
            assert_eq!(link.selected_handle.as_deref(), Some("child1234"));
        }
        PublicLink::File(_) => panic!("expected folder link"),
    }
}

#[test]
fn modern_file_link_is_read_back() {
    match parse_public_link("  https://mega.nz/file/abcd1234#some-key  ", Some("unused")) {
        Ok(PublicLink::File(link)) => {
            assert_eq!(link.file_id, "abcd1234");
            assert_eq!(link.key, "some-key");
        }
        other => panic!("unexpected {other:?}"),
    }
}

#[test]
fn url_is_normalised_before_it_is_read() {
    match parse_public_link("HTTPS://MEGA.nz/x/../file/ab cd#key", None) {
        Ok(PublicLink::File(link)) => assert_eq!(link.file_id, "ab%20cd"),
        other => panic!("unexpected {other:?}"),
    }
}

#[test]
fn legacy_links_are_read_back() {
    match parse_public_link("https://mega.nz/#!abcd1234!thekey", None) {
        Ok(PublicLink::File(link)) => {
            assert_eq!(link.file_id, "abcd1234");
            assert_eq!(link.key, "thekey");
        }
        other => panic!("unexpected {other:?}"),
    }
    match parse_public_link("https://mega.nz/#F!abcd1234!thekey", None) {
        Ok(PublicLink::Folder(link)) => {
            assert_eq!(link.folder_id, "abcd1234");
            assert_eq!(link.key, "thekey");
            assert_eq!(link.selected_handle, None);
        }
        other => panic!("unexpected {other:?}"),
    }
}

#[test]
fn legacy_folder_link_selects_a_child() {
    match parse_public_link("https://mega.nz/#F!abcd1234!thekey!folder/h1", None) {
        Ok(PublicLink::Folder(link)) => assert_eq!(link.selected_handle.as_deref(), Some("h1")),
        other => panic!("unexpected {other:?}"),
    }
}

#[test]
fn refusals_say_what_is_missing() {
    assert_eq!(refused("https://mega.nz/file/#key"), "missing MEGA file id");
    assert_eq!(refused("https://mega.nz/file"), "missing MEGA file id");
    assert_eq!(refused("https://mega.nz/file/abcd"), "missing MEGA file key");
    assert_eq!(refused("https://mega.nz/file/abcd#"), "missing MEGA file key");
    assert_eq!(refused("https://mega.nz/folder//#key"), "missing MEGA folder id");
    assert_eq!(refused("https://mega.nz/folder/abcd#/file/x"), "missing MEGA folder key");
    assert_eq!(refused("https://mega.nz/"), "missing MEGA link fragment");
    assert_eq!(refused("https://mega.nz/#something"), "unsupported MEGA link format");
    assert_eq!(refused("https://mega.nz/#!onlyid"), "unsupported MEGA link format");
}

#[test]
fn text_that_is_no_url_is_refused() {
    let error = parse_public_link("not a link", None).expect_err("no URL");
    assert!(matches!(error, DownloadError::Url(_)));
    assert_eq!(error.message(), "invalid url: relative URL without a base");
}

#[test]
fn parts_without_path_fall_back_to_the_fragment() {
    let parts = UrlParts { segments: None, fragment: Some("!id!key".to_string()) };
    assert!(matches!(link_from_parts(&parts, None), Ok(PublicLink::File(_))));
}

#[test]
fn selected_child_reads_back_from_parts() {
    for kind in ["file", "folder"] {
        let fragment = format!("key/{kind}/handle");
        match link_from_parts(&parts(&["folder", "id"], Some(fragment.as_str())), None) {
            Ok(PublicLink::Folder(link)) => {
                assert_eq!(link.key, "key");
                assert_eq!(link.selected_handle.as_deref(), Some("handle"));
            }
            other => panic!("unexpected {other:?}"),
        }
    }
}

#[test]
fn fragments_are_taken_apart() {
    assert_eq!(fragment_key("key/file/x"), "key");
    assert_eq!(fragment_key("key"), "key");
    assert_eq!(fragment_selected_handle("key/file/x").as_deref(), Some("x"));
    assert_eq!(fragment_selected_handle("key/other/x/folder/y").as_deref(), Some("y"));
    assert_eq!(fragment_selected_handle("key/file"), None);
    assert_eq!(fragment_selected_handle("key/file//folder/z").as_deref(), Some("z"));
    assert_eq!(selected_handle_from_path("folder/z").as_deref(), Some("z"));
    assert_eq!(selected_handle_from_path("x/folder/z"), None);
    let pieces = vec!["skip".to_string(), "file".to_string(), "h".to_string()];
    assert_eq!(selected_handle_from_parts(&pieces, 1).as_deref(), Some("h"));
    assert_eq!(selected_handle_from_parts(&pieces, 0), None);
}

#[test]
fn empty_password_is_none() {
    assert_eq!(non_empty_password(Some("")), None);
    assert_eq!(non_empty_password(Some("x")), Some("x"));
    assert_eq!(non_empty_password(None), None);
}

#[test]
fn protected_folder_key_has_four_words() {
    match parse_public_link(FOLDER_LINK, Some("123.admin.30S")) {
        Ok(PublicLink::Folder(link)) => {
            assert_eq!(decode_key_words(&link.key).map(|words| words.len()).ok(), Some(4));
        }
        other => panic!("unexpected {other:?}"),
    }
}

#[test]
fn protected_links_are_checked_before_the_password() {
    let message = |fragment: &str| {
        decrypt_password_protected_link(fragment, Some("pw")).expect_err("refused").message()
    };
    assert_eq!(message("X!abc"), "invalid password-protected link");
    assert_eq!(message("P!AAAA"), "password-protected MEGA link is too short");
    assert!(message("P!@@@@").starts_with("base64 decode error: "));
    let asked = decrypt_password_protected_link("P!", None).expect_err("refused");
    assert!(matches!(asked, DownloadError::PasswordRequired));
}

#[test]
fn envelopes_are_checked_field_by_field() {
    let mut envelope = vec![0u8; 88];
    let message = |envelope: &[u8]| check_envelope(envelope).expect_err("refused").message();
    assert_eq!(message(&envelope[..87]), "password-protected MEGA link is too short");
    assert_eq!(message(&envelope), "unsupported password-protected MEGA link algorithm");
    envelope[0] = 2;
    assert_eq!(check_envelope(&envelope).ok(), Some(16));
    envelope[1] = 2;
    assert_eq!(message(&envelope), "password-protected MEGA link has an unknown type");
    envelope[1] = 1;
    assert_eq!(message(&envelope), "password-protected MEGA link has an invalid length");
    envelope.resize(104, 0);
    assert_eq!(check_envelope(&envelope).ok(), Some(32));
}

#[test]
fn envelope_opens_with_its_own_code_only() {
    let secret: Vec<u8> = (0..64).collect();
    let mut envelope = vec![0u8; 56];
    envelope[0] = 2;
    envelope[40] = 0xff;
    let mac = megadown::crypto::hmac_sha256(&secret[32..64], &envelope);
    envelope.extend_from_slice(&mac);
    match open_envelope(&envelope, &secret) {
        Ok(PublicLink::Folder(link)) => {
            assert_eq!(link.folder_id, "AAAAAAAA");
            let words = decode_key_words(&link.key).expect("a key");
            assert_eq!(words, vec![0xff010203, 0x04050607, 0x08090a0b, 0x0c0d0e0f]);
        }
        other => panic!("unexpected {other:?}"),
    }
    envelope[87] ^= 1;
    assert_eq!(
        open_envelope(&envelope, &secret).expect_err("refused").message(),
        "password-protected MEGA link password is invalid"
    );
}

#[test]
fn sealed_link_gives_back_its_handle_and_key() {
    let handle = [1, 2, 3, 4, 5, 6];
    let salt = [7; 32];
    let key: Vec<u8> = (0..32).collect();
    let secret = pbkdf2_hmac_sha512("secret".as_bytes(), &salt, 100_000, 64);
    let mut envelope = vec![2, 1];
    envelope.extend_from_slice(&handle);
    envelope.extend_from_slice(&salt);
    for index in 0..key.len() {
        envelope.push(key[index] ^ secret[index]);
    }
    let code = hmac_sha256(&secret[32..64], &envelope);
    envelope.extend_from_slice(&code);
    let link = format!("https://mega.nz/#P!{}", encode_base64_url(&envelope));
    match parse_public_link(&link, Some("secret")) {
        Ok(PublicLink::File(found)) => {
            assert_eq!(found.file_id, "AQIDBAUG");
            assert_eq!(found.key, encode_base64_url(&key));
        }
        _ => panic!("expected a file link"),
    }
}
