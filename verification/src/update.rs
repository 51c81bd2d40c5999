//! Updates of the program: which release fits, whether it is newer, and whether what was downloaded
//! is what was released.
use crate::digest::{hex, hex_text, sha256, sha256_digest};
use crate::paths::{names_between, slash_names};
use crate::text::{
    after_prefix, ascii_lower, begins_with, cat2, cat3, cat4, cat5, chars_of, decimal, lines,
    lower_ascii, number_text, same, split_char, split_lines, split_on, split_words, strip_prefix,
    text_of, text_of_utf8, texts, words,
};
use vstd::prelude::*;
use vstd::utf8::{decode_utf8, valid_utf8};

verus! {

// ---------------------------------------------------------------------------------------------
// Versions
// ---------------------------------------------------------------------------------------------

/// A semantic version.
#[derive(Debug, PartialEq, Eq)]
pub struct Version {
    pub major: u64,
    pub minor: u64,
    pub patch: u64,
    pub pre: String,
    pub build: String,
}

/// The mathematical value of a [`Version`].
pub struct VersionView {
    pub major: nat,
    pub minor: nat,
    pub patch: nat,
    pub pre: Seq<char>,
    pub build: Seq<char>,
}

impl View for Version {
    type V = VersionView;

    open spec fn view(&self) -> VersionView {
        VersionView {
            major: self.major as nat,
            minor: self.minor as nat,
            patch: self.patch as nat,
            pre: self.pre@,
            build: self.build@,
        }
    }
}

/// The numbers and tags that `semver::Version::parse` reads in a text, or the text of its error.
pub uninterp spec fn semver_parsed(text: Seq<char>) -> Result<VersionView, Seq<char>>;

/// Whether `semver` orders the tags of a version after those of another, the numbers of the two
/// being the same.
pub uninterp spec fn semver_tags_later(
    pre: Seq<char>,
    build: Seq<char>,
    other_pre: Seq<char>,
    other_build: Seq<char>,
) -> bool;

/// `semver::Version::parse`: the version that a text stands for, or the text of the error.
#[verifier::external_body]
fn parse_semver(text: &str) -> (r: Result<Version, String>)
    ensures
        semver_parsed(text@) == match r {
            Ok(v) => Ok::<VersionView, Seq<char>>(v@),
            Err(e) => Err(e@),
        },
{
    match semver::Version::parse(text) {
        Ok(v) => Ok(
            Version {
                major: v.major,
                minor: v.minor,
                patch: v.patch,
                pre: v.pre.to_string(),
                build: v.build.to_string(),
            },
        ),
        Err(error) => Err(error.to_string()),
    }
}

/// The order of `semver::Prerelease` and `semver::BuildMetadata`: whether the tags of a version come
/// after those of another, which do not come after them in turn.
#[verifier::external_body]
fn tags_later(pre: &str, build: &str, other_pre: &str, other_build: &str) -> (r: bool)
    ensures
        r == semver_tags_later(pre@, build@, other_pre@, other_build@),
        r ==> !semver_tags_later(other_pre@, other_build@, pre@, build@),
{
    let tags = (semver::Prerelease::new(pre).ok(), semver::BuildMetadata::new(build).ok());
    let others = (
        semver::Prerelease::new(other_pre).ok(),
        semver::BuildMetadata::new(other_build).ok(),
    );
    tags > others
}

/// Whether a version comes after another.
pub open spec fn version_later(a: VersionView, b: VersionView) -> bool {
    if a.major != b.major {
        a.major > b.major
    } else if a.minor != b.minor {
        a.minor > b.minor
    } else if a.patch != b.patch {
        a.patch > b.patch
    } else {
        semver_tags_later(a.pre, a.build, b.pre, b.build) && !semver_tags_later(
            b.pre,
            b.build,
            a.pre,
            a.build,
        )
    }
}

/// A version as it is shown.
pub open spec fn version_text(v: VersionView) -> Seq<char> {
    decimal(v.major) + "."@ + decimal(v.minor) + "."@ + decimal(v.patch) + (if v.pre.len() > 0 {
        "-"@ + v.pre
    } else {
        ""@
    }) + (if v.build.len() > 0 {
        "+"@ + v.build
    } else {
        ""@
    })
}

impl Version {
    /// A version without tags.
    pub fn new(major: u64, minor: u64, patch: u64) -> (r: Self)
        ensures
            r@ == (VersionView {
                major: major as nat,
                minor: minor as nat,
                patch: patch as nat,
                pre: Seq::empty(),
                build: Seq::empty(),
            }),
    {
        let r = Version { major, minor, patch, pre: String::new(), build: String::new() };
        assert(r.pre@ =~= Seq::empty() && r.build@ =~= Seq::empty());
        r
    }

    /// The version that a text stands for.
    pub fn parse(text: &str) -> (r: Result<Self, String>)
        ensures
            semver_parsed(text@) == match r {
                Ok(v) => Ok::<VersionView, Seq<char>>(v@),
                Err(e) => Err(e@),
            },
    {
        parse_semver(text)
    }

    /// Whether the version comes after another.
    pub fn is_later(&self, other: &Version) -> (r: bool)
        ensures
            r == version_later(self@, other@),
    {
        if self.major != other.major {
            self.major > other.major
        } else if self.minor != other.minor {
            self.minor > other.minor
        } else if self.patch != other.patch {
            self.patch > other.patch
        } else {
            tags_later(
                self.pre.as_str(),
                self.build.as_str(),
                other.pre.as_str(),
                other.build.as_str(),
            )
        }
    }

    /// The version as it is shown.
    pub fn to_text(&self) -> (r: String)
        ensures
            r@ == version_text(self@),
    {
        let numbers = cat5(
            number_text(self.major).as_str(),
            ".",
            number_text(self.minor).as_str(),
            ".",
            number_text(self.patch).as_str(),
        );
        let pre = if self.pre.as_str().is_empty() {
            "".to_owned()
        } else {
            cat2("-", self.pre.as_str())
        };
        let build = if self.build.as_str().is_empty() {
            "".to_owned()
        } else {
            cat2("+", self.build.as_str())
        };
        cat3(numbers.as_str(), pre.as_str(), build.as_str())
    }
}

/// What came of looking for an update.
#[derive(Debug, PartialEq, Eq)]
pub enum UpdateCheck {
    Available { current: Version, latest: Version },
    Current { version: Version },
}

/// What came of an update.
#[derive(Debug, PartialEq, Eq)]
pub enum UpdateOutcome {
    Updated { from: Version, to: Version },
    Current { version: Version },
}

/// Why there is no update.
#[derive(Debug, PartialEq, Eq)]
pub enum UpdateError {
    UnsupportedPlatform(String),
    Request(String),
    InvalidRelease(String),
    ChecksumMismatch,
    InvalidArchive(String),
    Install(String),
}

/// The mathematical value of an [`UpdateError`].
pub enum UpdateErrorView {
    UnsupportedPlatform(Seq<char>),
    Request(Seq<char>),
    InvalidRelease(Seq<char>),
    ChecksumMismatch,
    InvalidArchive(Seq<char>),
    Install(Seq<char>),
}

impl View for UpdateError {
    type V = UpdateErrorView;

    open spec fn view(&self) -> UpdateErrorView {
        match self {
            UpdateError::UnsupportedPlatform(s) => UpdateErrorView::UnsupportedPlatform(s@),
            UpdateError::Request(s) => UpdateErrorView::Request(s@),
            UpdateError::InvalidRelease(s) => UpdateErrorView::InvalidRelease(s@),
            UpdateError::ChecksumMismatch => UpdateErrorView::ChecksumMismatch,
            UpdateError::InvalidArchive(s) => UpdateErrorView::InvalidArchive(s@),
            UpdateError::Install(s) => UpdateErrorView::Install(s@),
        }
    }
}

impl UpdateError {
    /// The error as it is shown.
    pub fn message(&self) -> (r: String)
        ensures
            r@ == match self@ {
                UpdateErrorView::UnsupportedPlatform(s) =>
                    "Ronin updates are not available for "@ + s,
                UpdateErrorView::Request(s) => "could not check for Ronin updates: "@ + s,
                UpdateErrorView::InvalidRelease(s) => "the latest Ronin release is invalid: "@ + s,
                UpdateErrorView::ChecksumMismatch =>
                    "the downloaded Ronin archive failed checksum verification"@,
                UpdateErrorView::InvalidArchive(s) =>
                    "the downloaded Ronin archive is invalid: "@ + s,
                UpdateErrorView::Install(s) => "could not replace the Ronin executable: "@ + s,
            },
    {
        match self {
            UpdateError::UnsupportedPlatform(s) => cat2(
                "Ronin updates are not available for ",
                s.as_str(),
            ),
            UpdateError::Request(s) => cat2("could not check for Ronin updates: ", s.as_str()),
            UpdateError::InvalidRelease(s) => cat2(
                "the latest Ronin release is invalid: ",
                s.as_str(),
            ),
            UpdateError::ChecksumMismatch =>
                "the downloaded Ronin archive failed checksum verification".to_owned(),
            UpdateError::InvalidArchive(s) => cat2(
                "the downloaded Ronin archive is invalid: ",
                s.as_str(),
            ),
            UpdateError::Install(s) => cat2("could not replace the Ronin executable: ", s.as_str()),
        }
    }
}

/// Tells whether a release is an update: only a later version is.
pub fn classify_update(current: Version, latest: Version) -> (r: UpdateCheck)
    ensures
        r == if version_later(latest@, current@) {
            UpdateCheck::Available { current, latest }
        } else {
            UpdateCheck::Current { version: current }
        },
{
    if latest.is_later(&current) {
        UpdateCheck::Available { current, latest }
    } else {
        UpdateCheck::Current { version: current }
    }
}

/// The version that the program has, as an update would read it.
pub fn current_version(text: &str) -> (r: Result<Version, UpdateError>)
    ensures
        match semver_parsed(text@) {
            Ok(v) => r matches Ok(version) && version@ == v,
            Err(e) => r matches Err(error) && error@ == UpdateErrorView::InvalidRelease(e),
        },
{
    match parse_semver(text) {
        Ok(version) => Ok(version),
        Err(e) => Err(UpdateError::InvalidRelease(e)),
    }
}

/// The version of a release, by its tag.
pub fn release_version(tag: &str) -> (r: Result<Version, UpdateError>)
    ensures
        match after_prefix(tag@, "ronin-v"@) {
            None => r matches Err(error) && error@ == UpdateErrorView::InvalidRelease(
                "unexpected release tag "@ + tag@,
            ),
            Some(text) => match semver_parsed(text) {
                Ok(v) => r matches Ok(version) && version@ == v,
                Err(e) => r matches Err(error) && error@ == UpdateErrorView::InvalidRelease(e),
            },
        },
{
    match strip_prefix(tag, "ronin-v") {
        None => Err(UpdateError::InvalidRelease(cat2("unexpected release tag ", tag))),
        Some(text) => current_version(text.as_str()),
    }
}

// ---------------------------------------------------------------------------------------------
// Releases
// ---------------------------------------------------------------------------------------------

/// The target of a platform; nothing where there is no release for it.
pub open spec fn target_of(os: Seq<char>, arch: Seq<char>) -> Option<Seq<char>> {
    if os == "macos"@ && arch == "x86_64"@ {
        Some("x86_64-apple-darwin"@)
    } else if os == "macos"@ && arch == "aarch64"@ {
        Some("aarch64-apple-darwin"@)
    } else if os == "linux"@ && arch == "x86_64"@ {
        Some("x86_64-unknown-linux-musl"@)
    } else if os == "linux"@ && arch == "aarch64"@ {
        Some("aarch64-unknown-linux-musl"@)
    } else if os == "windows"@ && arch == "x86_64"@ {
        Some("x86_64-pc-windows-msvc"@)
    } else {
        None
    }
}

/// The target of a platform.
pub fn platform_target(os: &str, arch: &str) -> (r: Result<&'static str, UpdateError>)
    ensures
        match target_of(os@, arch@) {
            Some(target) => r matches Ok(t) && t@ == target,
            None => r matches Err(e) && e@ == UpdateErrorView::UnsupportedPlatform(
                os@ + "/"@ + arch@,
            ),
        },
{
    if same(os, "macos") && same(arch, "x86_64") {
        Ok("x86_64-apple-darwin")
    } else if same(os, "macos") && same(arch, "aarch64") {
        Ok("aarch64-apple-darwin")
    } else if same(os, "linux") && same(arch, "x86_64") {
        Ok("x86_64-unknown-linux-musl")
    } else if same(os, "linux") && same(arch, "aarch64") {
        Ok("aarch64-unknown-linux-musl")
    } else if same(os, "windows") && same(arch, "x86_64") {
        Ok("x86_64-pc-windows-msvc")
    } else {
        Err(UpdateError::UnsupportedPlatform(cat3(os, "/", arch)))
    }
}

/// The name of the archive for a target.
pub open spec fn archive_of(os: Seq<char>, target: Seq<char>) -> Seq<char> {
    "ronin-"@ + target + "."@ + (if os == "windows"@ {
        "zip"@
    } else {
        "tar.gz"@
    })
}

/// The name of the archive for a target.
pub fn archive_name(os: &str, target: &str) -> (r: String)
    ensures
        r@ == archive_of(os@, target@),
{
    let extension = if same(os, "windows") {
        "zip"
    } else {
        "tar.gz"
    };
    cat4("ronin-", target, ".", extension)
}

/// A file of a release.
#[derive(Debug, PartialEq, Eq)]
pub struct ReleaseAsset {
    pub name: String,
    pub browser_download_url: String,
}

/// A release.
#[derive(Debug, PartialEq, Eq)]
pub struct Release {
    pub tag_name: String,
    pub assets: Vec<ReleaseAsset>,
}

/// The place of the first file of a name, from a place on; the number of files where there is none.
pub open spec fn asset_index(assets: Seq<ReleaseAsset>, name: Seq<char>, from: int) -> int
    decreases assets.len() - from,
{
    if from < 0 || from >= assets.len() {
        assets.len() as int
    } else if assets[from].name@ == name {
        from
    } else {
        asset_index(assets, name, from + 1)
    }
}

/// Where a file of a release is.
pub fn asset_url<'a>(release: &'a Release, name: &str) -> (r: Result<&'a str, UpdateError>)
    ensures
        ({
            let at = asset_index(release.assets@, name@, 0);
            match r {
                Ok(url) => 0 <= at < release.assets@.len() && url@
                    == release.assets@[at].browser_download_url@,
                Err(e) => at == release.assets@.len() && e@ == UpdateErrorView::InvalidRelease(
                    "missing "@ + name@,
                ),
            }
        }),
{
    let mut i: usize = 0;
    while i < release.assets.len()
        invariant
            i <= release.assets@.len(),
            asset_index(release.assets@, name@, 0) == asset_index(
                release.assets@,
                name@,
                i as int,
            ),
        decreases release.assets.len() - i,
    {
        if same(release.assets[i].name.as_str(), name) {
            return Ok(release.assets[i].browser_download_url.as_str());
        }
        i += 1;
    }
    Err(UpdateError::InvalidRelease(cat2("missing ", name)))
}

/// The bytes that an archive may have.
pub const MAX_ARCHIVE_BYTES: usize = 26214400;

/// The bytes that a manifest of checksums may have.
pub const MAX_CHECKSUM_BYTES: usize = 1048576;

/// What is too large to download.
pub open spec fn too_large() -> UpdateErrorView {
    UpdateErrorView::InvalidRelease("download is too large"@)
}

/// Refuses a download that says it is larger than a limit.
pub fn check_length(length: Option<u64>, limit: u64) -> (r: Result<(), UpdateError>)
    ensures
        match r {
            Ok(_) => length is Some ==> length->0 <= limit,
            Err(e) => length is Some && length->0 > limit && e@ == too_large(),
        },
{
    if let Some(n) = length {
        if n > limit {
            return Err(UpdateError::InvalidRelease("download is too large".to_owned()));
        }
    }
    Ok(())
}

/// Adds a piece to a download, unless it grows larger than a limit.
pub fn add_chunk(body: &mut Vec<u8>, chunk: &[u8], limit: usize) -> (r: Result<(), UpdateError>)
    ensures
        match r {
            Ok(_) => old(body)@.len() + chunk@.len() <= limit && final(body)@ == old(body)@
                + chunk@,
            Err(e) => old(body)@.len() + chunk@.len() > limit && *final(body) == *old(body) && e@
                == too_large(),
        },
{
    if chunk.len() > limit || body.len() > limit - chunk.len() {
        return Err(UpdateError::InvalidRelease("download is too large".to_owned()));
    }
    let ghost before = body@;
    let mut i: usize = 0;
    assert(before + chunk@.take(0) =~= before);
    while i < chunk.len()
        invariant
            i <= chunk@.len(),
            body@ == before + chunk@.take(i as int),
        decreases chunk.len() - i,
    {
        body.push(chunk[i]);
        assert(body@ =~= before + chunk@.take(i + 1));
        i += 1;
    }
    assert(chunk@.take(i as int) =~= chunk@);
    Ok(())
}

// ---------------------------------------------------------------------------------------------
// Checksums
// ---------------------------------------------------------------------------------------------

/// A text without the stars at its start.
pub open spec fn without_stars(s: Seq<char>) -> Seq<char>
    decreases s.len(),
{
    if s.len() > 0 && s[0] == '*' {
        without_stars(s.skip(1))
    } else {
        s
    }
}

fn trim_stars(s: &str) -> (r: String)
    ensures
        r@ == without_stars(s@),
{
    let v = chars_of(s);
    let mut i: usize = 0;
    assert(s@.skip(0) =~= s@);
    while i < v.len() && v[i] == '*'
        invariant
            v@ == s@,
            i <= v@.len(),
            without_stars(s@) == without_stars(s@.skip(i as int)),
        decreases v.len() - i,
    {
        assert(s@.skip(i as int).skip(1) =~= s@.skip(i + 1));
        i += 1;
    }
    assert(v@.subrange(i as int, v@.len() as int) =~= s@.skip(i as int));
    text_of(&v, i, v.len())
}

/// The checksum that a line of a manifest gives for a name.
pub open spec fn line_checksum(line: Seq<char>, name: Seq<char>) -> Option<Seq<char>> {
    let fields = words(line);
    if fields.len() == 2 && without_stars(fields[1]) == name {
        Some(fields[0])
    } else {
        None
    }
}

/// The checksums that the lines of a manifest give for a name.
pub open spec fn checksums(rows: Seq<Seq<char>>, name: Seq<char>) -> Seq<Seq<char>>
    decreases rows.len(),
{
    if rows.len() == 0 {
        Seq::empty()
    } else {
        let before = checksums(rows.drop_last(), name);
        match line_checksum(rows.last(), name) {
            Some(checksum) => before.push(checksum),
            None => before,
        }
    }
}

/// Whether a character is a hexadecimal digit.
pub open spec fn hex_char(c: char) -> bool {
    ('0' <= c <= '9') || ('a' <= c <= 'f') || ('A' <= c <= 'F')
}

/// Whether a text may be a checksum.
pub open spec fn valid_checksum(s: Seq<char>) -> bool {
    s.len() == 64 && forall|i: int| 0 <= i < s.len() ==> hex_char(#[trigger] s[i])
}

/// The checksum that a manifest gives for a name: it must give exactly one, and that must be one.
pub open spec fn manifest_checksum(manifest: Seq<u8>, name: Seq<char>) -> Result<
    Seq<char>,
    UpdateErrorView,
> {
    if !valid_utf8(manifest) {
        Err(UpdateErrorView::InvalidRelease("checksum manifest is not UTF-8"@))
    } else {
        let found = checksums(lines(decode_utf8(manifest)), name);
        if found.len() == 0 {
            Err(UpdateErrorView::InvalidRelease("missing checksum for "@ + name))
        } else if found.len() > 1 || !valid_checksum(found[0]) {
            Err(
                UpdateErrorView::InvalidRelease("checksum manifest contains an invalid entry"@),
            )
        } else {
            Ok(ascii_lower(found[0]))
        }
    }
}

fn is_checksum(s: &str) -> (r: bool)
    ensures
        r == valid_checksum(s@),
{
    let v = chars_of(s);
    if v.len() != 64 {
        return false;
    }
    let mut i: usize = 0;
    while i < v.len()
        invariant
            i <= v@.len(),
            v@ == s@,
            v@.len() == 64,
            forall|k: int| 0 <= k < i ==> hex_char(#[trigger] s@[k]),
        decreases v.len() - i,
    {
        let c = v[i];
        if !(('0' <= c && c <= '9') || ('a' <= c && c <= 'f') || ('A' <= c && c <= 'F')) {
            assert(!hex_char(s@[i as int]));
            return false;
        }
        i += 1;
    }
    true
}

fn find_checksums(rows: &Vec<String>, name: &str) -> (r: Vec<String>)
    ensures
        texts(r@) == checksums(texts(rows@), name@),
{
    let ghost all = texts(rows@);
    let mut r: Vec<String> = Vec::new();
    let mut i: usize = 0;
    while i < rows.len()
        invariant
            i <= rows@.len(),
            all == texts(rows@),
            texts(r@) == checksums(all.take(i as int), name@),
        decreases rows.len() - i,
    {
        let ghost head = all.take(i + 1);
        assert(head.drop_last() =~= all.take(i as int));
        assert(head.last() == rows@[i as int]@);
        let fields = split_words(rows[i].as_str());
        assert(texts(fields@).len() == fields@.len());
        if fields.len() == 2 {
            assert(texts(fields@)[0] == fields@[0]@ && texts(fields@)[1] == fields@[1]@);
            if same(trim_stars(fields[1].as_str()).as_str(), name) {
                let ghost before = texts(r@);
                r.push(fields[0].clone());
                assert(texts(r@) =~= before.push(fields@[0]@));
            }
        }
        i += 1;
    }
    assert(all.take(i as int) =~= all);
    r
}

/// The value of a result of looking for a checksum.
pub open spec fn checksum_outcome(r: Result<String, UpdateError>) -> Result<
    Seq<char>,
    UpdateErrorView,
> {
    match r {
        Ok(s) => Ok(s@),
        Err(e) => Err(e@),
    }
}

/// The checksum that a manifest gives for a name.
pub fn checksum_for(manifest: &[u8], name: &str) -> (r: Result<String, UpdateError>)
    ensures
        checksum_outcome(r) == manifest_checksum(manifest@, name@),
{
    let text = match text_of_utf8(manifest) {
        Some(text) => text,
        None => return Err(
            UpdateError::InvalidRelease("checksum manifest is not UTF-8".to_owned()),
        ),
    };
    let found = find_checksums(&split_lines(text.as_str()), name);
    assert(texts(found@).len() == found@.len());
    if found.len() == 0 {
        return Err(UpdateError::InvalidRelease(cat2("missing checksum for ", name)));
    }
    assert(texts(found@)[0] == found@[0]@);
    if found.len() > 1 || !is_checksum(found[0].as_str()) {
        return Err(
            UpdateError::InvalidRelease("checksum manifest contains an invalid entry".to_owned()),
        );
    }
    Ok(lower_ascii(found[0].as_str()))
}

/// Checks an archive against the checksum that was released for it.
pub fn verify_archive(archive: &[u8], expected: &str) -> (r: Result<(), UpdateError>)
    ensures
        match r {
            Ok(_) => hex_text(sha256_digest(archive@)) == expected@,
            Err(e) => hex_text(sha256_digest(archive@)) != expected@ && e@
                == UpdateErrorView::ChecksumMismatch,
        },
{
    let actual = hex(sha256(archive).as_slice());
    if same(actual.as_str(), expected) {
        Ok(())
    } else {
        Err(UpdateError::ChecksumMismatch)
    }
}

// ---------------------------------------------------------------------------------------------
// Archives
// ---------------------------------------------------------------------------------------------

/// The path of an entry of a compressed tar archive, whether it is a regular file, and its size, as
/// `flate2` and `tar` read them; nothing after the last entry, and the text of the error where it
/// cannot be read.
pub uninterp spec fn tar_entry_at(archive: Seq<u8>, index: nat) -> Result<
    Option<(Seq<char>, bool, nat)>,
    Seq<char>,
>;

/// The bytes of an entry of a compressed tar archive, as `flate2` and `tar` read them, or the text
/// of the error.
pub uninterp spec fn tar_bytes_at(archive: Seq<u8>, index: nat) -> Result<Seq<u8>, Seq<char>>;

/// How many entries `zip` finds in an archive, or the text of its error.
pub uninterp spec fn zip_count(archive: Seq<u8>) -> Result<nat, Seq<char>>;

/// The name of an entry of a zip archive, whether it is a regular file, and its size, as `zip` reads
/// them, or the text of its error.
pub uninterp spec fn zip_entry_at(archive: Seq<u8>, index: nat) -> Result<
    (Seq<char>, bool, nat),
    Seq<char>,
>;

/// The bytes of an entry of a zip archive, as `zip` reads them, or the text of the error.
pub uninterp spec fn zip_bytes_at(archive: Seq<u8>, index: nat) -> Result<Seq<u8>, Seq<char>>;

/// `tar::Archive::entries` over `flate2::read::GzDecoder`: what the header of an entry says, with
/// the bytes of its path read as UTF-8.
#[verifier::external_body]
fn tar_entry(archive: &[u8], index: usize) -> (r: Result<Option<(String, bool, u64)>, String>)
    ensures
        tar_entry_at(archive@, index as nat) == match r {
            Ok(Some((path, is_file, size))) => Ok::<Option<(Seq<char>, bool, nat)>, Seq<char>>(
                Some((path@, is_file, size as nat)),
            ),
            Ok(None) => Ok(None),
            Err(e) => Err(e@),
        },
{
    let mut tar = tar::Archive::new(flate2::read::GzDecoder::new(archive));
    let mut entries = tar.entries().map_err(|error| error.to_string())?;
    match entries.nth(index) {
        None => Ok(None),
        Some(Err(error)) => Err(error.to_string()),
        Some(Ok(entry)) => {
            let path = String::from_utf8_lossy(&entry.path_bytes()).into_owned();
            Ok(Some((path, entry.header().entry_type().is_file(), entry.size())))
        },
    }
}

/// `tar::Entry` as `std::io::Read`, over `flate2::read::GzDecoder`: the bytes of an entry. An index
/// without an entry has no bytes.
#[verifier::external_body]
fn tar_bytes(archive: &[u8], index: usize) -> (r: Result<Vec<u8>, String>)
    ensures
        tar_bytes_at(archive@, index as nat) == match r {
            Ok(bytes) => Ok::<Seq<u8>, Seq<char>>(bytes@),
            Err(e) => Err(e@),
        },
{
    let mut tar = tar::Archive::new(flate2::read::GzDecoder::new(archive));
    let mut entries = tar.entries().map_err(|error| error.to_string())?;
    let mut bytes = Vec::new();
    if let Some(entry) = entries.nth(index) {
        let mut entry = entry.map_err(|error| error.to_string())?;
        std::io::Read::read_to_end(&mut entry, &mut bytes).map_err(|error| error.to_string())?;
    }
    Ok(bytes)
}

/// `zip::ZipArchive::new` and `len`: how many entries an archive has.
#[verifier::external_body]
fn count_zip(archive: &[u8]) -> (r: Result<usize, String>)
    ensures
        zip_count(archive@) == match r {
            Ok(n) => Ok::<nat, Seq<char>>(n as nat),
            Err(e) => Err(e@),
        },
{
    match zip::ZipArchive::new(std::io::Cursor::new(archive)) {
        Ok(zip) => Ok(zip.len()),
        Err(error) => Err(error.to_string()),
    }
}

/// `zip::ZipArchive::by_index`: what an archive says of an entry.
#[verifier::external_body]
fn zip_entry(archive: &[u8], index: usize) -> (r: Result<(String, bool, u64), String>)
    ensures
        zip_entry_at(archive@, index as nat) == match r {
            Ok((name, is_file, size)) => Ok::<(Seq<char>, bool, nat), Seq<char>>(
                (name@, is_file, size as nat),
            ),
            Err(e) => Err(e@),
        },
{
    let mut zip = zip::ZipArchive::new(std::io::Cursor::new(archive)).map_err(
        |error| error.to_string(),
    )?;
    let entry = zip.by_index(index).map_err(|error| error.to_string())?;
    Ok((entry.name().to_owned(), entry.is_file(), entry.size()))
}

/// `zip::read::ZipFile` as `std::io::Read`: the bytes of an entry.
#[verifier::external_body]
fn zip_bytes(archive: &[u8], index: usize) -> (r: Result<Vec<u8>, String>)
    ensures
        zip_bytes_at(archive@, index as nat) == match r {
            Ok(bytes) => Ok::<Seq<u8>, Seq<char>>(bytes@),
            Err(e) => Err(e@),
        },
{
    let mut zip = zip::ZipArchive::new(std::io::Cursor::new(archive)).map_err(
        |error| error.to_string(),
    )?;
    let mut entry = zip.by_index(index).map_err(|error| error.to_string())?;
    let mut bytes = Vec::new();
    std::io::Read::read_to_end(&mut entry, &mut bytes).map_err(|error| error.to_string())?;
    Ok(bytes)
}

/// Whether a path is a name and nothing else.
pub open spec fn is_bare_name(path: Seq<char>, name: Seq<char>) -> bool {
    split_on(path, '/').len() > 0 && split_on(path, '/')[0] == name && names_between(path) == seq![name]
}

fn is_name(path: &str, name: &str) -> (r: bool)
    ensures
        r == is_bare_name(path@, name@),
{
    let pieces = split_char(path, '/');
    let named = slash_names(path);
    assert(texts(pieces@).len() == pieces@.len());
    assert(texts(named@).len() == named@.len());
    if pieces.len() == 0 || named.len() != 1 {
        return false;
    }
    assert(texts(pieces@)[0] == pieces@[0]@);
    assert(texts(named@)[0] == named@[0]@);
    let r = same(pieces[0].as_str(), name) && same(named[0].as_str(), name);
    proof {
        if named@[0]@ == name@ {
            assert(texts(named@) =~= seq![name@]);
        }
    }
    r
}

/// What is wrong with an entry of a tar archive, where `found` says whether the program was found
/// before it.
pub open spec fn tar_problem(path: Seq<char>, is_file: bool, size: nat, found: bool) -> Option<
    Seq<char>,
> {
    if !is_bare_name(path, "ronin"@) || !is_file {
        Some("expected exactly one regular file named ronin"@)
    } else if found || size > 52428800 {
        Some("archive contains duplicate or oversized files"@)
    } else {
        None
    }
}

/// What is wrong with an entry of a tar archive, where `found` says whether the program was found
/// before it.
pub fn check_tar_entry(path: &str, is_file: bool, size: u64, found: bool) -> (r: Option<String>)
    ensures
        r.deep_view() == tar_problem(path@, is_file, size as nat, found),
{
    if !is_name(path, "ronin") || !is_file {
        Some("expected exactly one regular file named ronin".to_owned())
    } else if found || size > 52428800 {
        Some("archive contains duplicate or oversized files".to_owned())
    } else {
        None
    }
}

/// The program in a compressed tar archive: it must be the only entry.
pub open spec fn tar_program(archive: Seq<u8>) -> Result<Seq<u8>, Seq<char>> {
    match tar_entry_at(archive, 0) {
        Err(e) => Err(e),
        Ok(None) => Err("archive is empty"@),
        Ok(Some((path, is_file, size))) => match tar_problem(path, is_file, size, false) {
            Some(e) => Err(e),
            None => match tar_bytes_at(archive, 0) {
                Err(e) => Err(e),
                Ok(bytes) => match tar_entry_at(archive, 1) {
                    Err(e) => Err(e),
                    Ok(None) => Ok(bytes),
                    Ok(Some((path, is_file, size))) => Err(
                        tar_problem(path, is_file, size, true)->0,
                    ),
                },
            },
        },
    }
}

/// What is wrong with the only entry of a zip archive.
pub open spec fn zip_problem(name: Seq<char>, is_file: bool, size: nat) -> bool {
    name != "ronin.exe"@ || !is_file || size > 52428800
}

/// The program in a zip archive: it must be the only entry.
pub open spec fn zip_program(archive: Seq<u8>) -> Result<Seq<u8>, Seq<char>> {
    match zip_count(archive) {
        Err(e) => Err(e),
        Ok(n) => if n != 1 {
            Err("expected exactly one regular file named ronin.exe"@)
        } else {
            match zip_entry_at(archive, 0) {
                Err(e) => Err(e),
                Ok((name, is_file, size)) => if zip_problem(name, is_file, size) {
                    Err("expected exactly one regular file named ronin.exe"@)
                } else {
                    zip_bytes_at(archive, 0)
                },
            }
        },
    }
}

/// Checks the only entry of a zip archive.
pub fn check_zip_entry(name: &str, is_file: bool, size: u64) -> (r: bool)
    ensures
        r == !zip_problem(name@, is_file, size as nat),
{
    same(name, "ronin.exe") && is_file && size <= 52428800
}

/// The value of a result of taking a program out of an archive.
pub open spec fn program_outcome(r: Result<Vec<u8>, UpdateError>) -> Result<
    Seq<u8>,
    UpdateErrorView,
> {
    match r {
        Ok(bytes) => Ok(bytes@),
        Err(e) => Err(e@),
    }
}

/// A result whose error says that an archive is invalid.
pub open spec fn archive_outcome(r: Result<Seq<u8>, Seq<char>>) -> Result<
    Seq<u8>,
    UpdateErrorView,
> {
    match r {
        Ok(bytes) => Ok(bytes),
        Err(e) => Err(UpdateErrorView::InvalidArchive(e)),
    }
}

fn extract_tar_binary(archive: &[u8]) -> (r: Result<Vec<u8>, UpdateError>)
    ensures
        program_outcome(r) == archive_outcome(tar_program(archive@)),
{
    let (path, is_file, size) = match tar_entry(archive, 0) {
        Err(e) => return Err(UpdateError::InvalidArchive(e)),
        Ok(None) => return Err(UpdateError::InvalidArchive("archive is empty".to_owned())),
        Ok(Some(entry)) => entry,
    };
    if let Some(e) = check_tar_entry(path.as_str(), is_file, size, false) {
        return Err(UpdateError::InvalidArchive(e));
    }
    let bytes = match tar_bytes(archive, 0) {
        Err(e) => return Err(UpdateError::InvalidArchive(e)),
        Ok(bytes) => bytes,
    };
    match tar_entry(archive, 1) {
        Err(e) => Err(UpdateError::InvalidArchive(e)),
        Ok(None) => Ok(bytes),
        Ok(Some((path, is_file, size))) => match check_tar_entry(
            path.as_str(),
            is_file,
            size,
            true,
        ) {
            Some(e) => Err(UpdateError::InvalidArchive(e)),
            None => Ok(bytes),
        },
    }
}

fn extract_zip_binary(archive: &[u8]) -> (r: Result<Vec<u8>, UpdateError>)
    ensures
        program_outcome(r) == archive_outcome(zip_program(archive@)),
{
    match count_zip(archive) {
        Err(e) => return Err(UpdateError::InvalidArchive(e)),
        Ok(n) => if n != 1 {
            return Err(
                UpdateError::InvalidArchive(
                    "expected exactly one regular file named ronin.exe".to_owned(),
                ),
            );
        },
    }
    match zip_entry(archive, 0) {
        Err(e) => return Err(UpdateError::InvalidArchive(e)),
        Ok((name, is_file, size)) => if !check_zip_entry(name.as_str(), is_file, size) {
            return Err(
                UpdateError::InvalidArchive(
                    "expected exactly one regular file named ronin.exe".to_owned(),
                ),
            );
        },
    }
    match zip_bytes(archive, 0) {
        Err(e) => Err(UpdateError::InvalidArchive(e)),
        Ok(bytes) => Ok(bytes),
    }
}

/// The program in an archive: a zip archive on Windows, a compressed tar archive elsewhere.
pub fn extract_binary(archive: &[u8], os: &str) -> (r: Result<Vec<u8>, UpdateError>)
    ensures
        program_outcome(r) == archive_outcome(
            if os@ == "windows"@ {
                zip_program(archive@)
            } else {
                tar_program(archive@)
            },
        ),
{
    if same(os, "windows") {
        extract_zip_binary(archive)
    } else {
        extract_tar_binary(archive)
    }
}

// ---------------------------------------------------------------------------------------------
// Updates
// ---------------------------------------------------------------------------------------------

/// What an update is to do about a release.
#[derive(Debug, PartialEq, Eq)]
pub enum UpdatePlan {
    /// Nothing: the program is up to date.
    Current { version: Version },
    /// To download the archive and the manifest of its checksums.
    Download { from: Version, to: Version, archive: String, archive_url: String, manifest_url: String },
}

/// The mathematical value of an [`UpdatePlan`].
pub enum UpdatePlanView {
    Current { version: VersionView },
    Download {
        from: VersionView,
        to: VersionView,
        archive: Seq<char>,
        archive_url: Seq<char>,
        manifest_url: Seq<char>,
    },
}

impl View for UpdatePlan {
    type V = UpdatePlanView;

    open spec fn view(&self) -> UpdatePlanView {
        match self {
            UpdatePlan::Current { version } => UpdatePlanView::Current { version: version@ },
            UpdatePlan::Download { from, to, archive, archive_url, manifest_url } =>
                UpdatePlanView::Download {
                    from: from@,
                    to: to@,
                    archive: archive@,
                    archive_url: archive_url@,
                    manifest_url: manifest_url@,
                },
        }
    }
}

/// The version that a text stands for.
pub open spec fn parsed_version(text: Seq<char>) -> Result<VersionView, UpdateErrorView> {
    match semver_parsed(text) {
        Ok(v) => Ok(v),
        Err(e) => Err(UpdateErrorView::InvalidRelease(e)),
    }
}

/// The version that the tag of a release stands for.
pub open spec fn tagged_version(tag: Seq<char>) -> Result<VersionView, UpdateErrorView> {
    match after_prefix(tag, "ronin-v"@) {
        None => Err(UpdateErrorView::InvalidRelease("unexpected release tag "@ + tag)),
        Some(text) => parsed_version(text),
    }
}

/// Where a file of a release is.
pub open spec fn located(assets: Seq<ReleaseAsset>, name: Seq<char>) -> Result<
    Seq<char>,
    UpdateErrorView,
> {
    let at = asset_index(assets, name, 0);
    if 0 <= at < assets.len() {
        Ok(assets[at].browser_download_url@)
    } else {
        Err(UpdateErrorView::InvalidRelease("missing "@ + name))
    }
}

/// What an update is to do about a release.
pub open spec fn planned_update(
    os: Seq<char>,
    arch: Seq<char>,
    version: Seq<char>,
    release: Release,
) -> Result<UpdatePlanView, UpdateErrorView> {
    match (
        target_of(os, arch),
        parsed_version(version),
        tagged_version(release.tag_name@),
    ) {
        (None, _, _) => Err(UpdateErrorView::UnsupportedPlatform(os + "/"@ + arch)),
        (Some(_), Err(e), _) => Err(e),
        (Some(_), Ok(_), Err(e)) => Err(e),
        (Some(target), Ok(from), Ok(to)) => if !version_later(to, from) {
            Ok(UpdatePlanView::Current { version: from })
        } else {
            let archive = archive_of(os, target);
            match (located(release.assets@, archive), located(release.assets@, "SHA256SUMS"@)) {
                (Err(e), _) => Err(e),
                (Ok(_), Err(e)) => Err(e),
                (Ok(archive_url), Ok(manifest_url)) => Ok(
                    UpdatePlanView::Download { from, to, archive, archive_url, manifest_url },
                ),
            }
        },
    }
}

/// What an update is to do about a release, on a platform and for the version that the program has.
pub fn plan_update(os: &str, arch: &str, version: &str, release: &Release) -> (r: Result<
    UpdatePlan,
    UpdateError,
>)
    ensures
        match planned_update(os@, arch@, version@, *release) {
            Ok(plan) => r matches Ok(p) && p@ == plan,
            Err(error) => r matches Err(e) && e@ == error,
        },
{
    let target = match platform_target(os, arch) {
        Ok(target) => target,
        Err(e) => return Err(e),
    };
    let archive = archive_name(os, target);
    let from = match current_version(version) {
        Ok(from) => from,
        Err(e) => return Err(e),
    };
    let to = match release_version(release.tag_name.as_str()) {
        Ok(to) => to,
        Err(e) => return Err(e),
    };
    if !to.is_later(&from) {
        return Ok(UpdatePlan::Current { version: from });
    }
    let archive_url = match asset_url(release, archive.as_str()) {
        Ok(url) => url.to_owned(),
        Err(e) => return Err(e),
    };
    let manifest_url = match asset_url(release, "SHA256SUMS") {
        Ok(url) => url.to_owned(),
        Err(e) => return Err(e),
    };
    Ok(UpdatePlan::Download { from, to, archive, archive_url, manifest_url })
}

/// Whether a release is an update, on a platform and for the version that the program has.
pub fn check_release(os: &str, arch: &str, version: &str, tag: &str) -> (r: Result<
    UpdateCheck,
    UpdateError,
>)
    ensures
        match (target_of(os@, arch@), parsed_version(version@), tagged_version(tag@)) {
            (None, _, _) => r matches Err(e) && e@ == UpdateErrorView::UnsupportedPlatform(
                os@ + "/"@ + arch@,
            ),
            (Some(_), Err(error), _) => r matches Err(e) && e@ == error,
            (Some(_), Ok(_), Err(error)) => r matches Err(e) && e@ == error,
            (Some(_), Ok(from), Ok(to)) => if version_later(to, from) {
                r matches Ok(UpdateCheck::Available { current, latest }) && current@ == from
                    && latest@ == to
            } else {
                r matches Ok(UpdateCheck::Current { version }) && version@ == from
            },
        },
{
    if let Err(e) = platform_target(os, arch) {
        return Err(e);
    }
    let current = match current_version(version) {
        Ok(current) => current,
        Err(e) => return Err(e),
    };
    match release_version(tag) {
        Ok(latest) => Ok(classify_update(current, latest)),
        Err(e) => Err(e),
    }
}

/// The program in an archive that was downloaded, where the manifest gives the checksum of the
/// archive.
pub open spec fn released_program(
    archive: Seq<u8>,
    manifest: Seq<u8>,
    name: Seq<char>,
    os: Seq<char>,
) -> Result<Seq<u8>, UpdateErrorView> {
    match manifest_checksum(manifest, name) {
        Err(e) => Err(e),
        Ok(expected) => if hex_text(sha256_digest(archive)) != expected {
            Err(UpdateErrorView::ChecksumMismatch)
        } else {
            archive_outcome(
                if os == "windows"@ {
                    zip_program(archive)
                } else {
                    tar_program(archive)
                },
            )
        },
    }
}

/// The program to install: what the archive holds, once its checksum has been found right.
pub fn program_of(archive: &[u8], manifest: &[u8], name: &str, os: &str) -> (r: Result<
    Vec<u8>,
    UpdateError,
>)
    ensures
        program_outcome(r) == released_program(archive@, manifest@, name@, os@),
{
    let expected = match checksum_for(manifest, name) {
        Ok(expected) => expected,
        Err(e) => return Err(e),
    };
    if let Err(e) = verify_archive(archive, expected.as_str()) {
        return Err(e);
    }
    extract_binary(archive, os)
}

// ---------------------------------------------------------------------------------------------
// Laws
// ---------------------------------------------------------------------------------------------

/// Of two versions at most one is an update of the other, so that no version is one of itself.
pub proof fn updates_only_go_forward(a: VersionView, b: VersionView)
    ensures
        version_later(a, b) ==> !version_later(b, a),
        !version_later(a, a),
{
}

/// Nothing is installed but what the released checksum was made of.
pub proof fn installed_programs_were_released(
    archive: Seq<u8>,
    manifest: Seq<u8>,
    name: Seq<char>,
    os: Seq<char>,
)
    requires
        released_program(archive, manifest, name, os) is Ok,
    ensures
        manifest_checksum(manifest, name) == Ok::<Seq<char>, UpdateErrorView>(
            hex_text(sha256_digest(archive)),
        ),
{
}

/// A second entry in an archive is always refused.
pub proof fn archives_hold_one_file(archive: Seq<u8>)
    requires
        tar_entry_at(archive, 1) matches Ok(Some(_)),
    ensures
        tar_program(archive) is Err,
{
}

/// A checksum that is accepted has 64 hexadecimal digits in lower case.
pub proof fn accepted_checksums_are_valid(manifest: Seq<u8>, name: Seq<char>)
    ensures
        manifest_checksum(manifest, name) matches Ok(checksum) ==> checksum.len() == 64 && forall|
            i: int,
        |
            0 <= i < 64 ==> hex_char(#[trigger] checksum[i]) && !('A' <= checksum[i] <= 'F'),
{
    if let Ok(checksum) = manifest_checksum(manifest, name) {
        let found = checksums(lines(decode_utf8(manifest)), name)[0];
        assert forall|i: int| 0 <= i < 64 implies hex_char(#[trigger] checksum[i]) && !('A'
            <= checksum[i] <= 'F') by {
            assert(hex_char(found[i]));
            assert(checksum[i] == crate::text::ascii_lower_char(found[i]));
        }
    }
}

/// Versions are compared by their first number that differs, and by their tags where none does.
pub proof fn versions_are_compared_number_by_number(a: VersionView, b: VersionView)
    ensures
        a.major > b.major ==> version_later(a, b) && !version_later(b, a),
        a.major == b.major && a.minor > b.minor ==> version_later(a, b) && !version_later(b, a),
        a.major == b.major && a.minor == b.minor && a.patch > b.patch ==> version_later(a, b)
            && !version_later(b, a),
        a.major == b.major && a.minor == b.minor && a.patch == b.patch && version_later(a, b)
            ==> semver_tags_later(a.pre, a.build, b.pre, b.build),
{
}

proof fn asset_index_is_first(assets: Seq<ReleaseAsset>, name: Seq<char>, from: int)
    requires
        0 <= from <= assets.len(),
    ensures
        from <= asset_index(assets, name, from) <= assets.len(),
        asset_index(assets, name, from) < assets.len() ==> assets[asset_index(
            assets,
            name,
            from,
        )].name@ == name,
        forall|k: int|
            from <= k < asset_index(assets, name, from) ==> (#[trigger] assets[k]).name@ != name,
    decreases assets.len() - from,
{
    if from < assets.len() && assets[from].name@ != name {
        asset_index_is_first(assets, name, from + 1);
    }
}

/// A file of a release is downloaded from the address of the first file of its name; a release
/// without one is refused.
pub proof fn files_are_found_by_name(assets: Seq<ReleaseAsset>, name: Seq<char>)
    ensures
        located(assets, name) matches Ok(url) ==> exists|i: int|
            {
                &&& 0 <= i < assets.len()
                &&& (#[trigger] assets[i]).name@ == name
                &&& assets[i].browser_download_url@ == url
            },
        (exists|i: int| 0 <= i < assets.len() && (#[trigger] assets[i]).name@ == name)
            ==> located(assets, name) is Ok,
        located(assets, name) matches Err(e) ==> e == UpdateErrorView::InvalidRelease(
            "missing "@ + name,
        ),
{
    asset_index_is_first(assets, name, 0);
    let at = asset_index(assets, name, 0);
    if at < assets.len() {
        assert(assets[at].name@ == name);
    }
}

/// An update downloads exactly where the release is of a later version: the archive for the
/// platform and the manifest of checksums, each from where the release has it. Else the program
/// stays as it is.
pub proof fn updates_download_later_releases(
    os: Seq<char>,
    arch: Seq<char>,
    version: Seq<char>,
    release: Release,
)
    ensures
        match planned_update(os, arch, version, release) {
            Ok(UpdatePlanView::Download { from, to, archive, archive_url, manifest_url }) => {
                &&& semver_parsed(version) == Ok::<VersionView, Seq<char>>(from)
                &&& tagged_version(release.tag_name@) == Ok::<VersionView, UpdateErrorView>(to)
                &&& version_later(to, from)
                &&& target_of(os, arch) matches Some(target) && archive == archive_of(os, target)
                &&& located(release.assets@, archive) == Ok::<Seq<char>, UpdateErrorView>(
                    archive_url,
                )
                &&& located(release.assets@, "SHA256SUMS"@) == Ok::<Seq<char>, UpdateErrorView>(
                    manifest_url,
                )
            },
            Ok(UpdatePlanView::Current { version: from }) => {
                &&& semver_parsed(version) == Ok::<VersionView, Seq<char>>(from)
                &&& tagged_version(release.tag_name@) matches Ok(to) && !version_later(to, from)
            },
            Err(e) => {
                ||| target_of(os, arch) is None
                ||| semver_parsed(version) is Err
                ||| tagged_version(release.tag_name@) is Err
                ||| located(release.assets@, archive_of(os, target_of(os, arch)->0)) is Err
                ||| located(release.assets@, "SHA256SUMS"@) is Err
            },
        },
{
}

/// The tag of a release is its version behind the name of the program.
pub proof fn tags_name_versions(text: Seq<char>)
    ensures
        semver_parsed(text) matches Ok(v) ==> tagged_version("ronin-v"@ + text) == Ok::<
            VersionView,
            UpdateErrorView,
        >(v),
        forall|tag: Seq<char>| #[trigger]
            tagged_version(tag) is Ok ==> begins_with(tag, "ronin-v"@),
{
    let tag = "ronin-v"@ + text;
    let n = "ronin-v"@.len() as int;
    assert(tag.subrange(0, n) =~= "ronin-v"@);
    assert(tag.skip(n) =~= text);
}

/// The platforms that releases are made for, and the archive of each.
pub proof fn releases_are_made_for_platforms(os: Seq<char>, arch: Seq<char>)
    ensures
        target_of(os, arch) is Some ==> os == "macos"@ || os == "linux"@ || os == "windows"@,
        target_of("macos"@, "x86_64"@) == Some("x86_64-apple-darwin"@),
        target_of("macos"@, "aarch64"@) == Some("aarch64-apple-darwin"@),
        target_of("linux"@, "x86_64"@) == Some("x86_64-unknown-linux-musl"@),
        target_of("linux"@, "aarch64"@) == Some("aarch64-unknown-linux-musl"@),
        target_of("windows"@, "x86_64"@) == Some("x86_64-pc-windows-msvc"@),
        os == "windows"@ ==> archive_of(os, arch) == "ronin-"@ + arch + "."@ + "zip"@,
        os != "windows"@ ==> archive_of(os, arch) == "ronin-"@ + arch + "."@ + "tar.gz"@,
{
    reveal_strlit("macos");
    reveal_strlit("linux");
    reveal_strlit("windows");
    reveal_strlit("x86_64");
    reveal_strlit("aarch64");
    assert("macos"@[0] != "linux"@[0]);
    assert("macos"@.len() == 5 && "linux"@.len() == 5 && "windows"@.len() == 7);
    assert("x86_64"@.len() == 6 && "aarch64"@.len() == 7);
}

/// The checksums of a file are the first words of the lines of two words whose second is its name,
/// which may have stars in front.
pub proof fn checksums_stand_beside_names(rows: Seq<Seq<char>>, name: Seq<char>)
    ensures
        checksums(rows, name) == rows.filter(
            |row: Seq<char>| words(row).len() == 2 && without_stars(words(row)[1]) == name,
        ).map_values(|row: Seq<char>| words(row)[0]),
    decreases rows.len(),
{
    reveal(Seq::filter);
    let mine = |row: Seq<char>| words(row).len() == 2 && without_stars(words(row)[1]) == name;
    let sum = |row: Seq<char>| words(row)[0];
    if rows.len() == 0 {
        assert(rows.filter(mine).map_values(sum) =~= Seq::empty());
    } else {
        checksums_stand_beside_names(rows.drop_last(), name);
        assert(rows.filter(mine).map_values(sum) =~= if mine(rows.last()) {
            rows.drop_last().filter(mine).map_values(sum).push(sum(rows.last()))
        } else {
            rows.drop_last().filter(mine).map_values(sum)
        });
    }
}

/// A checksum is accepted where the manifest has one line for the file and no more.
pub proof fn one_checksum_is_accepted(manifest: Seq<u8>, name: Seq<char>)
    ensures
        ({
            let found = checksums(lines(decode_utf8(manifest)), name);
            let right = found.len() == 1 && found[0].len() == 64 && forall|i: int|
                0 <= i < 64 ==> hex_char(#[trigger] found[0][i]);
            &&& manifest_checksum(manifest, name) is Ok <==> valid_utf8(manifest) && right
            &&& valid_utf8(manifest) && right ==> manifest_checksum(manifest, name)->Ok_0
                == ascii_lower(found[0])
        }),
{
}

/// What is installed is the one file of the archive, a regular one of the right name and not too
/// large; and it is installed wherever the checksum is right and the archive holds it.
pub proof fn the_one_file_is_installed(
    archive: Seq<u8>,
    manifest: Seq<u8>,
    name: Seq<char>,
    os: Seq<char>,
)
    ensures
        ({
            let r = released_program(archive, manifest, name, os);
            let checked = manifest_checksum(manifest, name) == Ok::<Seq<char>, UpdateErrorView>(
                hex_text(sha256_digest(archive)),
            );
            let tar = tar_entry_at(archive, 0) matches Ok(Some((path, is_file, size)))
                && is_bare_name(path, "ronin"@) && is_file && size <= 52428800 && tar_entry_at(
                archive,
                1,
            ) == Ok::<Option<(Seq<char>, bool, nat)>, Seq<char>>(None);
            let zip = zip_count(archive) == Ok::<nat, Seq<char>>(1) && (zip_entry_at(
                archive,
                0,
            ) matches Ok((path, is_file, size)) && path == "ronin.exe"@ && is_file && size
                <= 52428800);
            &&& os != "windows"@ ==> (r is Ok <==> checked && tar && tar_bytes_at(archive, 0) is Ok)
            &&& os != "windows"@ && r is Ok ==> tar_bytes_at(archive, 0) == Ok::<
                Seq<u8>,
                Seq<char>,
            >(r->Ok_0)
            &&& os == "windows"@ ==> (r is Ok <==> checked && zip && zip_bytes_at(archive, 0) is Ok)
            &&& os == "windows"@ && r is Ok ==> zip_bytes_at(archive, 0) == Ok::<
                Seq<u8>,
                Seq<char>,
            >(r->Ok_0)
            &&& manifest_checksum(manifest, name) is Ok && !checked ==> r == Err::<
                Seq<u8>,
                UpdateErrorView,
            >(UpdateErrorView::ChecksumMismatch)
        }),
{
}

} // verus!
