//! Names of the collected files: the content digest with a `.jpg` extension.
use vstd::prelude::*;
use vstd::string::StringExecFns;

verus! {

/// The MD5 digest of `bytes` as 32 lowercase hexadecimal digits, without
/// separators.
pub uninterp spec fn md5_hex_of(bytes: Seq<u8>) -> Seq<char>;

/// Relies on `crypto::md5::Md5` with `crypto::digest::Digest::input` and
/// `Digest::result_str`: the digest of the bytes, written in lowercase hex.
#[verifier::external_body]
fn md5_digest_hex(bytes: &[u8]) -> (r: String)
    ensures
        r@ == md5_hex_of(bytes@),
{
    let mut md5 = crypto::md5::Md5::new();
    crypto::digest::Digest::input(&mut md5, bytes);
    crypto::digest::Digest::result_str(&mut md5)
}

/// The extension every collected file gets, whatever the source's own.
pub open spec fn jpg_extension() -> Seq<char> {
    ".jpg"@
}

/// Whether a file name ends in `.jpg`.
pub open spec fn ends_with_jpg(name: Seq<char>) -> bool {
    &&& name.len() >= jpg_extension().len()
    &&& name.subrange(name.len() - jpg_extension().len(), name.len() as int) == jpg_extension()
}

/// The destination file name of a file whose content has the given digest.
pub open spec fn file_name_for_digest(digest: Seq<char>) -> Seq<char> {
    digest + jpg_extension()
}

/// The destination file name of a file with the given content.
pub open spec fn file_name_for_contents(contents: Seq<u8>) -> Seq<char> {
    file_name_for_digest(md5_hex_of(contents))
}

/// The destination file name for a digest: the digest followed by `.jpg`.
pub fn destination_file_name(digest: &str) -> (r: String)
    ensures
        r@ == file_name_for_digest(digest@),
{
    let mut name = String::from_str(digest);
    name.append(".jpg");
    name
}

/// The destination file name for a file's content: its MD5 digest in
/// lowercase hex followed by `.jpg`.
pub fn target_file_name(contents: &[u8]) -> (r: String)
    ensures
        r@ == file_name_for_contents(contents@),
{
    let digest = md5_digest_hex(contents);
    destination_file_name(digest.as_str())
}

/// Every destination file name ends in `.jpg`, whatever the digest.
pub proof fn lemma_file_name_ends_with_jpg(digest: Seq<char>)
    ensures
        ends_with_jpg(file_name_for_digest(digest)),
{
    let name = file_name_for_digest(digest);
    assert(name.subrange(digest.len() as int, name.len() as int) =~= jpg_extension());
}

} // verus!
