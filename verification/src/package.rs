//! Where a Typst package is kept and fetched from, unpacking its archive,
//! and retrying a fallible operation once.
use vstd::prelude::*;
use vstd::string::StringExecFns;
use crate::text::{decimal, u32_text};

verus! {

/// A package version: major, minor and patch numbers.
pub struct PackageVersion {
    pub major: u32,
    pub minor: u32,
    pub patch: u32,
}

/// A package: its namespace, name and version, as
/// `typst_syntax::package::PackageSpec` has them.
pub struct PackageSpec {
    pub namespace: String,
    pub name: String,
    pub version: PackageVersion,
}

/// The rendering of a version: "major.minor.patch".
pub open spec fn version_text(v: PackageVersion) -> Seq<char> {
    decimal(v.major as int) + "."@ + decimal(v.minor as int) + "."@ + decimal(v.patch as int)
}

/// The directory, below the cache directory, that holds a package:
/// "namespace/name/version".
pub open spec fn subdir_text(p: PackageSpec) -> Seq<char> {
    p.namespace@ + "/"@ + p.name@ + "/"@ + version_text(p.version)
}

/// The address of a package's archive:
/// "https://packages.typst.org/namespace/name-version.tar.gz".
pub open spec fn url_text(p: PackageSpec) -> Seq<char> {
    "https://packages.typst.org/"@ + p.namespace@ + "/"@ + p.name@ + "-"@ + version_text(p.version)
        + ".tar.gz"@
}

/// Renders a version as "major.minor.patch".
pub fn version_to_text(v: &PackageVersion) -> (res: String)
    ensures
        res@ == version_text(*v),
{
    let major = u32_text(v.major);
    let minor = u32_text(v.minor);
    let patch = u32_text(v.patch);
    let res = major.concat(".").concat(minor.as_str()).concat(".").concat(patch.as_str());
    res
}

/// The directory, below the cache directory, that holds a package.
pub fn package_subdir(p: &PackageSpec) -> (res: String)
    ensures
        res@ == subdir_text(*p),
{
    let version = version_to_text(&p.version);
    String::from_str(p.namespace.as_str()).concat("/").concat(p.name.as_str()).concat("/").concat(
        version.as_str(),
    )
}

/// The address from which a package's archive is downloaded.
pub fn package_url(p: &PackageSpec) -> (res: String)
    ensures
        res@ == url_text(*p),
{
    let version = version_to_text(&p.version);
    String::from_str("https://packages.typst.org/").concat(p.namespace.as_str()).concat("/").concat(
        p.name.as_str(),
    ).concat("-").concat(version.as_str()).concat(".tar.gz")
}

/// The rendering of a package, as `PackageSpec`'s `Display` writes it:
/// "@namespace/name:version".
pub open spec fn package_text(p: PackageSpec) -> Seq<char> {
    "@"@ + p.namespace@ + "/"@ + p.name@ + ":"@ + version_text(p.version)
}

/// Renders a package as "@namespace/name:version".
pub fn package_to_text(p: &PackageSpec) -> (res: String)
    ensures
        res@ == package_text(*p),
{
    let version = version_to_text(&p.version);
    String::from_str("@").concat(p.namespace.as_str()).concat("/").concat(p.name.as_str()).concat(":").concat(
        version.as_str(),
    )
}

/// A package's archive is fetched from
/// "https://packages.typst.org/namespace/name-major.minor.patch.tar.gz" and
/// kept in "namespace/name/major.minor.patch" below the cache directory:
/// both name the full three-part version, each part in decimal, zeros
/// included.
pub proof fn law_package_url_and_subdir_name_the_full_version(p: PackageSpec)
    ensures
        url_text(p) == "https://packages.typst.org/"@ + p.namespace@ + "/"@ + p.name@ + "-"@ + decimal(
            p.version.major as int,
        ) + "."@ + decimal(p.version.minor as int) + "."@ + decimal(p.version.patch as int) + ".tar.gz"@,
        subdir_text(p) == p.namespace@ + "/"@ + p.name@ + "/"@ + decimal(p.version.major as int) + "."@
            + decimal(p.version.minor as int) + "."@ + decimal(p.version.patch as int),
{
    let v = p.version;
    assert(url_text(p) =~= "https://packages.typst.org/"@ + p.namespace@ + "/"@ + p.name@ + "-"@ + decimal(
        v.major as int,
    ) + "."@ + decimal(v.minor as int) + "."@ + decimal(v.patch as int) + ".tar.gz"@);
    assert(subdir_text(p) =~= p.namespace@ + "/"@ + p.name@ + "/"@ + decimal(v.major as int) + "."@ + decimal(
        v.minor as int,
    ) + "."@ + decimal(v.patch as int));
}

/// Why a package could not be had, as `typst::diag::PackageError` has it.
#[derive(Debug, PartialEq, Eq)]
pub enum PackageFailure {
    /// The download failed; the message says why.
    NetworkFailed(String),
    /// The archive could not be unpacked; the message says why.
    MalformedArchive(String),
}

/// What `zune_inflate::DeflateDecoder::decode_gzip` makes of some bytes: the
/// decompressed bytes, or the rendering of its error.
pub uninterp spec fn gunzip_outcome(data: Seq<u8>) -> Result<Seq<u8>, Seq<char>>;

/// Decompresses gzip data (`DeflateDecoder::new(data).decode_gzip()`); on
/// failure the error's rendering is handed back.
#[verifier::external_body]
fn gunzip(data: &[u8]) -> (res: Result<Vec<u8>, String>)
    ensures
        match res {
            Ok(v) => gunzip_outcome(data@) == Ok::<Seq<u8>, Seq<char>>(v@),
            Err(m) => gunzip_outcome(data@) == Err::<Seq<u8>, Seq<char>>(m@),
        },
{
    match zune_inflate::DeflateDecoder::new(data).decode_gzip() {
        Ok(v) => Ok(v),
        Err(e) => Err(format!("{e}")),
    }
}

/// Decompresses a downloaded package archive; data that does not decompress
/// makes a malformed archive, with the decoder's message.
pub fn decompress_archive(compressed: &[u8]) -> (res: Result<Vec<u8>, PackageFailure>)
    ensures
        match gunzip_outcome(compressed@) {
            Ok(d) => res matches Ok(v) && v@ == d,
            Err(m) => res matches Err(PackageFailure::MalformedArchive(r)) && r@ == m,
        },
{
    match gunzip(compressed) {
        Ok(v) => Ok(v),
        Err(m) => Err(PackageFailure::MalformedArchive(m)),
    }
}

/// The retry policy of a download: after `attempts` attempts, of which the
/// last failed or not, whether to make another. A failed first attempt is
/// made once more; a success, or a second attempt, ends it.
pub fn retry_next(attempts: u8, last_failed: bool) -> (again: bool)
    ensures
        again == (last_failed && attempts == 1),
{
    last_failed && attempts == 1
}

/// Calls `f` as [`retry_next`] decides: once, and once more if the first
/// call fails; the outcome is that of the last call.
pub fn retry<T, E, F: FnMut() -> Result<T, E>>(mut f: F) -> (res: Result<T, E>)
    requires
        call_requires(f, ()),
    ensures
        call_ensures(f, (), res),
{
    let ghost f0 = f;
    let mut out = f();
    let mut attempts: u8 = 1;
    let mut again = retry_next(attempts, out.is_err());
    while again
        invariant
            1 <= attempts <= 2,
            again == (out is Err && attempts == 1),
            f == f0,
            call_requires(f, ()),
            call_ensures(f, (), out),
        decreases 2 - attempts,
    {
        out = f();
        attempts = attempts + 1;
        again = retry_next(attempts, out.is_err());
    }
    out
}

} // verus!
