use easy_archive::update::{
    digest_matches, extract_checksum_for, is_newer, parse_version, update_info_from_release,
    verify_checksum, Release, ReleaseAsset, UpdateInfo,
};
use sha2::{Digest, Sha256};

/// Reads a release description the way the application does: JSON into the
/// release's tag and assets, then the library's choice of the update.
fn parse_release_response(body: &str) -> Option<UpdateInfo> {
    let v: serde_json::Value = serde_json::from_str(body).ok()?;
    let tag_name = v.get("tag_name")?.as_str()?.to_string();
    let mut assets = Vec::new();
    for a in v.get("assets")?.as_array()? {
        assets.push(ReleaseAsset {
            name: a.get("name")?.as_str()?.to_string(),
            browser_download_url: a.get("browser_download_url")?.as_str()?.to_string(),
        });
    }
    update_info_from_release(&Release { tag_name, assets })
}

#[test]
fn is_newer_returns_true_when_minor_is_higher() {
    assert_eq!(is_newer("0.1.0", "0.2.0"), Some(true));
}

#[test]
fn is_newer_returns_false_when_same_version() {
    assert_eq!(is_newer("0.1.0", "0.1.0"), Some(false));
}

#[test]
fn is_newer_returns_false_when_current_is_ahead() {
    assert_eq!(is_newer("0.2.0", "0.1.9"), Some(false));
}

#[test]
fn is_newer_compares_numerically_not_lexically() {
    assert_eq!(is_newer("0.9.0", "0.10.0"), Some(true));
}

#[test]
fn is_newer_strips_leading_v_from_latest() {
    assert_eq!(is_newer("0.1.0", "v0.2.0"), Some(true));
}

#[test]
fn is_newer_returns_none_for_malformed_current() {
    assert_eq!(is_newer("not-a-version", "0.2.0"), None);
}

#[test]
fn is_newer_returns_none_for_malformed_latest() {
    assert_eq!(is_newer("0.1.0", "not-a-version"), None);
}

#[test]
fn parse_version_edge_cases() {
    assert_eq!(parse_version("1.2.3"), Some((1, 2, 3)));
    assert_eq!(parse_version("v1.2.3"), None);
    assert_eq!(parse_version("+1.02.3"), Some((1, 2, 3)));
    assert_eq!(parse_version("4294967295.0.0"), Some((u32::MAX, 0, 0)));
    assert_eq!(parse_version("4294967296.0.0"), None);
    assert_eq!(parse_version("1.2"), None);
    assert_eq!(parse_version("1.2.3.4"), None);
    assert_eq!(parse_version("1..3"), None);
    assert_eq!(parse_version("1.2.-3"), None);
    assert_eq!(parse_version("1.2.+"), None);
    assert_eq!(parse_version(" 1.2.3"), None);
    assert_eq!(parse_version("V1.2.3"), None);
}

#[test]
fn is_newer_orders_major_before_minor_before_patch() {
    assert_eq!(is_newer("1.9.9", "2.0.0"), Some(true));
    assert_eq!(is_newer("2.0.0", "1.9.9"), Some(false));
    assert_eq!(is_newer("1.2.3", "1.2.4"), Some(true));
    assert_eq!(is_newer("v1.2.3", "1.2.3"), None);
}

const SAMPLE_RELEASE_JSON: &str = r#"
{
    "tag_name": "v0.2.0",
    "assets": [
        {
            "name": "easy-archive_0.2.0-1_amd64.deb",
            "browser_download_url": "https://example.com/dl/easy-archive_0.2.0-1_amd64.deb"
        },
        {
            "name": "SHA256SUMS.txt",
            "browser_download_url": "https://example.com/dl/SHA256SUMS.txt"
        }
    ]
}
"#;

#[test]
fn parse_release_response_extracts_deb_and_checksum_urls() {
    let info = parse_release_response(SAMPLE_RELEASE_JSON).unwrap();
    assert_eq!(info.version, "0.2.0");
    assert_eq!(info.deb_url, "https://example.com/dl/easy-archive_0.2.0-1_amd64.deb");
    assert_eq!(info.checksum_url, "https://example.com/dl/SHA256SUMS.txt");
}

#[test]
fn parse_release_response_returns_none_when_deb_asset_missing() {
    let json = r#"{"tag_name": "v0.2.0", "assets": [
        {"name": "SHA256SUMS.txt", "browser_download_url": "https://example.com/SHA256SUMS.txt"}
    ]}"#;
    assert_eq!(parse_release_response(json), None);
}

#[test]
fn parse_release_response_returns_none_when_checksum_asset_missing() {
    let json = r#"{"tag_name": "v0.2.0", "assets": [
        {"name": "app.deb", "browser_download_url": "https://example.com/app.deb"}
    ]}"#;
    assert_eq!(parse_release_response(json), None);
}

#[test]
fn parse_release_response_returns_none_for_invalid_json() {
    assert_eq!(parse_release_response("not json"), None);
}

#[test]
fn update_info_takes_first_matching_assets() {
    let asset = |n: &str, u: &str| ReleaseAsset { name: n.to_string(), browser_download_url: u.to_string() };
    let release = Release {
        tag_name: "v1.0.0".to_string(),
        assets: vec![
            asset("notes.txt", "u0"),
            asset("a.deb", "u1"),
            asset("SHA256SUMS.txt", "u2"),
            asset("b.deb", "u3"),
            asset("SHA256SUMS.txt", "u4"),
        ],
    };
    let info = update_info_from_release(&release).unwrap();
    assert_eq!(info, UpdateInfo { version: "1.0.0".to_string(), deb_url: "u1".to_string(), checksum_url: "u2".to_string() });

    let release = Release { tag_name: "vv1.0.0".to_string(), assets: vec![asset("a.deb", "u"), asset("SHA256SUMS.txt", "s")] };
    assert_eq!(update_info_from_release(&release).unwrap().version, "v1.0.0");

    let release = Release { tag_name: "v1".to_string(), assets: vec![asset("x.DEB", "u"), asset("SHA256SUMS.txt", "s")] };
    assert_eq!(update_info_from_release(&release), None);
}

#[test]
fn verify_checksum_accepts_matching_sha256() {
    let data = b"easy archive";
    let mut hasher = Sha256::new();
    hasher.update(data);
    let expected = format!("{:x}", hasher.finalize());
    assert!(verify_checksum(data, &expected));
}

#[test]
fn verify_checksum_accepts_uppercase_hex() {
    let data = b"easy archive";
    let mut hasher = Sha256::new();
    hasher.update(data);
    let expected = format!("{:x}", hasher.finalize()).to_uppercase();
    assert!(verify_checksum(data, &expected));
}

#[test]
fn verify_checksum_rejects_mismatched_hash() {
    let data = b"easy archive";
    let wrong = "0".repeat(64);
    assert!(!verify_checksum(data, &wrong));
}

#[test]
fn verify_checksum_of_known_digest_compares_whole_text() {
    let empty_sha256 = "e3b0c44298fc1c149afbf4c8996fb92427ae41e4649b934ca495991b7852b855";
    assert!(verify_checksum(b"", empty_sha256));
    assert!(verify_checksum(b"", &empty_sha256.to_uppercase()));
    assert!(!verify_checksum(b"", &format!("{}\n", empty_sha256)));
    assert!(!verify_checksum(b"", &empty_sha256[..63]));
    assert!(!verify_checksum(b"x", empty_sha256));
}

#[test]
fn digest_matches_writes_lowercase_hex() {
    assert!(digest_matches(&[0x00, 0xab, 0x0f], "00ab0f"));
    assert!(digest_matches(&[0x00, 0xab, 0x0f], "00AB0F"));
    assert!(!digest_matches(&[0x00, 0xab, 0x0f], "\t00AB0F "));
    assert!(!digest_matches(&[0x00, 0xab, 0x0f], "0ab0f"));
    assert!(digest_matches(&[], ""));
}

#[test]
fn extract_checksum_for_finds_matching_line() {
    let text = "abc123  easy-archive_0.2.0-1_amd64.deb\ndef456  other.deb\n";
    let url = "https://example.com/dl/easy-archive_0.2.0-1_amd64.deb";
    assert_eq!(extract_checksum_for(text, url), Ok("abc123".to_string()));
}

#[test]
fn extract_checksum_for_returns_err_when_missing() {
    let text = "abc123  other.deb\n";
    let url = "https://example.com/dl/easy-archive_0.2.0-1_amd64.deb";
    assert!(extract_checksum_for(text, url).is_err());
}

#[test]
fn extract_checksum_for_handles_binary_marker_crlf_and_first_match() {
    let text = "aaa *x.deb\r\nbbb x.deb\n";
    assert_eq!(extract_checksum_for(text, "x.deb"), Ok("aaa".to_string()));
    let text = "\n   \nccc\tx.deb extra\n";
    assert_eq!(extract_checksum_for(text, "https://h/p/x.deb"), Ok("ccc".to_string()));
    assert_eq!(
        extract_checksum_for("", "x.deb"),
        Err("チェックサムファイルに該当するエントリが見つかりません".to_string())
    );
    assert!(extract_checksum_for("ddd x.deb", "https://h/x.deb/").is_err());
}

#[test]
fn newer_is_asymmetric_and_allows_one_leading_v_on_latest() {
    assert_eq!(is_newer("1.2.3", "1.3.0"), Some(true));
    assert_eq!(is_newer("1.3.0", "1.2.3"), Some(false));
    assert_eq!(is_newer("1.2.3", "v1.3.0"), is_newer("1.2.3", "1.3.0"));
    assert_eq!(is_newer("0.1.0", "vv0.2.0"), None);
    assert_eq!(is_newer("v0.1.0", "0.2.0"), None);
    assert_eq!(is_newer("1.2.3", "1.2.3"), Some(false));
}
