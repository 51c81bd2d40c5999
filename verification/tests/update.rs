//! Versions, releases and archives.
use flate2::{write::GzEncoder, Compression};
use ronin::digest::hex;
use ronin::update::{
    add_chunk, archive_name, asset_url, check_length, check_release, check_tar_entry,
    check_zip_entry, checksum_for, classify_update, current_version, extract_binary, plan_update,
    platform_target, program_of, release_version, verify_archive, Release, ReleaseAsset,
    UpdateCheck, UpdateError, UpdatePlan, Version,
};
use sha2::Digest;
use std::io::{Cursor, Write};
use zip::{write::SimpleFileOptions, ZipWriter};

fn add_entry<W: Write>(
    builder: &mut tar::Builder<W>,
    path: &str,
    contents: &[u8],
    entry_type: tar::EntryType,
) {
    let mut header = tar::Header::new_gnu();
    header.set_entry_type(entry_type);
    header.set_size(contents.len() as u64);
    header.set_mode(0o755);
    header.set_cksum();
    builder.append_data(&mut header, path, Cursor::new(contents)).unwrap();
}

fn archive(path: &str, contents: &[u8], entry_type: tar::EntryType) -> Vec<u8> {
    let mut output = Vec::new();
    {
        let encoder = GzEncoder::new(&mut output, Compression::default());
        let mut builder = tar::Builder::new(encoder);
        add_entry(&mut builder, path, contents, entry_type);
        builder.finish().unwrap();
    }
    output
}

fn archive_of_two(first: &str, second: &str) -> Vec<u8> {
    let mut output = Vec::new();
    {
        let encoder = GzEncoder::new(&mut output, Compression::default());
        let mut builder = tar::Builder::new(encoder);
        add_entry(&mut builder, first, b"one", tar::EntryType::Regular);
        add_entry(&mut builder, second, b"two", tar::EntryType::Regular);
        builder.finish().unwrap();
    }
    output
}

fn empty_archive() -> Vec<u8> {
    let mut output = Vec::new();
    {
        let encoder = GzEncoder::new(&mut output, Compression::default());
        let mut builder = tar::Builder::new(encoder);
        builder.finish().unwrap();
    }
    output
}

fn zip_archive(paths: &[&str], contents: &[u8]) -> Vec<u8> {
    let mut output = Cursor::new(Vec::new());
    {
        let mut archive = ZipWriter::new(&mut output);
        for path in paths {
            archive.start_file(*path, SimpleFileOptions::default()).unwrap();
            archive.write_all(contents).unwrap();
        }
        archive.finish().unwrap();
    }
    output.into_inner()
}

fn invalid_archive(text: &str) -> UpdateError {
    UpdateError::InvalidArchive(text.to_string())
}

fn invalid_release(text: &str) -> UpdateError {
    UpdateError::InvalidRelease(text.to_string())
}

#[test]
fn maps_release_targets() {
    assert_eq!(platform_target("macos", "aarch64").unwrap(), "aarch64-apple-darwin");
    assert_eq!(platform_target("linux", "x86_64").unwrap(), "x86_64-unknown-linux-musl");
    assert_eq!(platform_target("windows", "x86_64").unwrap(), "x86_64-pc-windows-msvc");
    assert!(platform_target("windows", "aarch64").is_err());
    assert_eq!(
        archive_name("windows", "x86_64-pc-windows-msvc"),
        "ronin-x86_64-pc-windows-msvc.zip"
    );
    assert_eq!(platform_target("macos", "x86_64").unwrap(), "x86_64-apple-darwin");
    assert_eq!(platform_target("linux", "aarch64").unwrap(), "aarch64-unknown-linux-musl");
    assert_eq!(archive_name("linux", "t"), "ronin-t.tar.gz");
    assert_eq!(
        platform_target("windows", "aarch64"),
        Err(UpdateError::UnsupportedPlatform("windows/aarch64".to_string()))
    );
}

#[test]
fn parses_only_ronin_release_tags() {
    assert_eq!(release_version("ronin-v1.2.3").unwrap(), Version::new(1, 2, 3));
    assert!(release_version("v1.2.3").is_err());
    assert!(release_version("ronin-vlatest").is_err());
    assert_eq!(release_version("v1.2.3"), Err(invalid_release("unexpected release tag v1.2.3")));
}

#[test]
fn classifies_only_newer_versions_as_updates() {
    assert_eq!(
        classify_update(Version::new(1, 2, 3), Version::new(1, 3, 0)),
        UpdateCheck::Available {
            current: Version::new(1, 2, 3),
            latest: Version::new(1, 3, 0),
        }
    );
    assert_eq!(
        classify_update(Version::new(1, 2, 3), Version::new(1, 2, 3)),
        UpdateCheck::Current { version: Version::new(1, 2, 3) }
    );
    assert_eq!(
        classify_update(Version::new(2, 0, 0), Version::new(1, 9, 9)),
        UpdateCheck::Current { version: Version::new(2, 0, 0) }
    );
}

#[test]
fn tags_decide_between_equal_numbers() {
    let release = current_version("1.2.3").unwrap();
    let candidate = current_version("1.2.3-rc.2").unwrap();
    let earlier = current_version("1.2.3-rc.1").unwrap();
    assert_eq!(candidate.pre, "rc.2");
    assert!(release.is_later(&candidate));
    assert!(!candidate.is_later(&release));
    assert!(candidate.is_later(&earlier));
    assert!(!candidate.is_later(&candidate));
    assert!(current_version("1.2.3+b").unwrap().is_later(&release));
    assert_eq!(current_version("1.2.3-rc.2+b.7").unwrap().to_text(), "1.2.3-rc.2+b.7");
    assert_eq!(release.to_text(), "1.2.3");
    assert_eq!(current_version("one").unwrap_err(), {
        let text = semver::Version::parse("one").unwrap_err().to_string();
        UpdateError::InvalidRelease(text)
    });
}

#[test]
fn selects_an_exact_unique_checksum() {
    let name = "ronin-aarch64-apple-darwin.tar.gz";
    let hash = "a".repeat(64);
    assert_eq!(checksum_for(format!("{hash}  {name}\n").as_bytes(), name).unwrap(), hash);
    assert!(checksum_for(format!("{hash}  other-{name}\n").as_bytes(), name).is_err());
    assert!(checksum_for(format!("{hash}  {name}\n{hash}  {name}\n").as_bytes(), name).is_err());
}

#[test]
fn checksums_are_read_as_they_are_written() {
    let name = "a.zip";
    let upper = "AB".repeat(32);
    assert_eq!(
        checksum_for(format!("{upper} *{name}\r\n").as_bytes(), name).unwrap(),
        "ab".repeat(32)
    );
    assert_eq!(
        checksum_for(format!("{upper} {name} more").as_bytes(), name),
        Err(invalid_release("missing checksum for a.zip"))
    );
    let invalid = Err(invalid_release("checksum manifest contains an invalid entry"));
    assert_eq!(checksum_for(format!("{} {name}", "g".repeat(64)).as_bytes(), name), invalid);
    assert_eq!(checksum_for(format!("{} {name}", "a".repeat(63)).as_bytes(), name), invalid);
    assert_eq!(
        checksum_for(&[0xff, 0xfe], name),
        Err(invalid_release("checksum manifest is not UTF-8"))
    );
}

#[test]
fn extracts_only_the_expected_regular_file() {
    assert_eq!(
        extract_binary(&archive("ronin", b"binary", tar::EntryType::Regular), "linux").unwrap(),
        b"binary"
    );
    assert!(extract_binary(&archive("other", b"binary", tar::EntryType::Regular), "linux").is_err());
    assert!(extract_binary(&archive("ronin", b"target", tar::EntryType::Symlink), "linux").is_err());
    assert_eq!(
        extract_binary(&zip_archive(&["ronin.exe"], b"binary"), "windows").unwrap(),
        b"binary"
    );
    assert!(extract_binary(&zip_archive(&["other.exe"], b"binary"), "windows").is_err());
}

#[test]
fn archives_with_more_or_less_are_refused() {
    assert_eq!(
        extract_binary(&archive_of_two("ronin", "ronin"), "linux"),
        Err(invalid_archive("archive contains duplicate or oversized files"))
    );
    assert_eq!(
        extract_binary(&archive_of_two("ronin", "other"), "linux"),
        Err(invalid_archive("expected exactly one regular file named ronin"))
    );
    assert_eq!(extract_binary(&empty_archive(), "macos"), Err(invalid_archive("archive is empty")));
    assert!(matches!(extract_binary(b"no archive", "linux"), Err(UpdateError::InvalidArchive(_))));
    assert_eq!(
        extract_binary(&zip_archive(&["ronin.exe", "b"], b"x"), "windows"),
        Err(invalid_archive("expected exactly one regular file named ronin.exe"))
    );
    assert!(matches!(extract_binary(b"no archive", "windows"), Err(UpdateError::InvalidArchive(_))));
    assert_eq!(check_tar_entry("ronin", true, 52428800, false), None);
    assert!(check_tar_entry("ronin", true, 52428801, false).is_some());
    assert!(check_tar_entry("a/ronin", true, 1, false).is_some());
    assert!(check_zip_entry("ronin.exe", true, 52428800));
    assert!(!check_zip_entry("ronin.exe", true, 52428801));
    assert!(!check_zip_entry("ronin.exe", false, 1));
}

#[test]
fn downloads_are_bounded() {
    assert_eq!(check_length(None, 4), Ok(()));
    assert_eq!(check_length(Some(4), 4), Ok(()));
    assert_eq!(check_length(Some(5), 4), Err(invalid_release("download is too large")));
    let mut body = vec![1u8, 2];
    assert_eq!(add_chunk(&mut body, &[3, 4], 4), Ok(()));
    assert_eq!(body, vec![1u8, 2, 3, 4]);
    assert_eq!(add_chunk(&mut body, &[5], 4), Err(invalid_release("download is too large")));
}

fn release(tag: &str, names: &[&str]) -> Release {
    Release {
        tag_name: tag.to_string(),
        assets: names
            .iter()
            .map(|name| ReleaseAsset {
                name: name.to_string(),
                browser_download_url: format!("https://example.com/{name}"),
            })
            .collect(),
    }
}

#[test]
fn releases_are_planned() {
    let tar = "ronin-x86_64-unknown-linux-musl.tar.gz";
    let newer = release("ronin-v1.1.0", &[tar, "SHA256SUMS"]);
    assert_eq!(asset_url(&newer, tar), Ok("https://example.com/ronin-x86_64-unknown-linux-musl.tar.gz"));
    assert_eq!(asset_url(&newer, "none"), Err(invalid_release("missing none")));
    assert_eq!(
        plan_update("linux", "x86_64", "1.0.0", &newer).unwrap(),
        UpdatePlan::Download {
            from: Version::new(1, 0, 0),
            to: Version::new(1, 1, 0),
            archive: tar.to_string(),
            archive_url: format!("https://example.com/{tar}"),
            manifest_url: "https://example.com/SHA256SUMS".to_string(),
        }
    );
    assert_eq!(
        plan_update("linux", "x86_64", "1.1.0", &newer).unwrap(),
        UpdatePlan::Current { version: Version::new(1, 1, 0) }
    );
    assert_eq!(
        plan_update("linux", "x86_64", "1.0.0", &release("ronin-v1.1.0", &[tar])),
        Err(invalid_release("missing SHA256SUMS"))
    );
    assert_eq!(
        plan_update("linux", "mips", "1.0.0", &newer),
        Err(UpdateError::UnsupportedPlatform("linux/mips".to_string()))
    );
    assert_eq!(
        check_release("linux", "x86_64", "1.0.0", "ronin-v1.1.0"),
        Ok(UpdateCheck::Available { current: Version::new(1, 0, 0), latest: Version::new(1, 1, 0) })
    );
    assert!(check_release("linux", "mips", "1.0.0", "ronin-v1.1.0").is_err());
}

#[test]
fn programs_are_installed_only_with_their_checksum() {
    let bytes = archive("ronin", b"binary", tar::EntryType::Regular);
    let sum = hex(&sha2::Sha256::digest(&bytes));
    assert_eq!(sum.len(), 64);
    assert_eq!(verify_archive(&bytes, &sum), Ok(()));
    assert_eq!(verify_archive(b"other", &sum), Err(UpdateError::ChecksumMismatch));
    let manifest = format!("{sum}  a.tar.gz\n");
    assert_eq!(program_of(&bytes, manifest.as_bytes(), "a.tar.gz", "linux").unwrap(), b"binary");
    assert_eq!(
        program_of(b"other", manifest.as_bytes(), "a.tar.gz", "linux"),
        Err(UpdateError::ChecksumMismatch)
    );
    assert_eq!(
        verify_archive(b"", "e3b0c44298fc1c149afbf4c8996fb92427ae41e4649b934ca495991b7852b855"),
        Ok(())
    );
}

#[test]
fn update_errors_say_what_happened() {
    let text = |e: UpdateError| e.message();
    assert_eq!(
        text(UpdateError::UnsupportedPlatform("a/b".to_string())),
        "Ronin updates are not available for a/b"
    );
    assert_eq!(
        text(UpdateError::Request("offline".to_string())),
        "could not check for Ronin updates: offline"
    );
    assert_eq!(text(invalid_release("x")), "the latest Ronin release is invalid: x");
    assert_eq!(
        text(UpdateError::ChecksumMismatch),
        "the downloaded Ronin archive failed checksum verification"
    );
    assert_eq!(text(invalid_archive("x")), "the downloaded Ronin archive is invalid: x");
    assert_eq!(
        text(UpdateError::Install("x".to_string())),
        "could not replace the Ronin executable: x"
    );
}
