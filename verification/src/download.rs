//! Listing and retrieval: which directory a listing request names, and
//! which file a retrieval request names. Both are resolved by the text of
//! the path alone, and nothing outside the served directory is ever named.

use std::string::FromUtf8Error;
use vstd::prelude::*;
use vstd::string::StrSliceExecFns;

use crate::config::Config;
use crate::error::ErrorKind;
use crate::path::{
    is_absolute, lemma_root_lies_under_itself, lies_under, resolved, starts_at_root, text_of, PathModel,
};
use crate::text::has_prefix;

verus! {

/// `std::string::FromUtf8Error`, with which decoding fails. It is told apart
/// from success and looked at no further.
#[verifier::external_type_specification]
#[verifier::external_body]
pub struct ExFromUtf8Error(FromUtf8Error);

/// What `clean_path::clean` makes of a path.
pub uninterp spec fn cleaned(path: Seq<char>) -> Seq<char>;

/// What `urlencoding::decode` makes of a text: the decoded text, or nothing
/// where the decoded bytes are no UTF-8.
pub uninterp spec fn percent_decoded(text: Seq<char>) -> Option<Seq<char>>;

/// `clean_path::clean` cleans a path by its text alone: it drops `.` segments
/// and repeated separators, and takes out each `..` together with the
/// segment before it. The result is a function of the path given.
#[verifier::external_body]
fn clean(path: &str) -> (r: String)
    ensures
        r@ == cleaned(path@),
{
    clean_path::clean(path).to_string_lossy().into_owned()
}

/// `urlencoding::decode` replaces each `%` and the two hexadecimal digits
/// behind it by the byte they stand for, and fails where the bytes that
/// come out are no UTF-8. The outcome is a function of the text given.
#[verifier::external_body]
fn percent_decode(text: &str) -> (r: Result<String, FromUtf8Error>)
    ensures
        r matches Ok(decoded) ==> percent_decoded(text@) == Some(decoded@),
        r is Err ==> percent_decoded(text@).is_none(),
{
    urlencoding::decode(text).map(|decoded| decoded.into_owned())
}

/// The characters of the path that a listing request gives, if it gives one.
pub open spec fn given(path: Option<&str>) -> Option<Seq<char>> {
    match path {
        Some(p) => Some(p@),
        None => None,
    }
}

/// The directory that a listing request names. Without a path, or with an
/// empty one, it is the root. An absolute path is a bad request. Any other
/// path is cleaned and then resolved against the root.
pub open spec fn listing_target(root: PathModel, path: Option<Seq<char>>) -> Result<Seq<char>, ErrorKind> {
    match path {
        None => Ok(root.render()),
        Some(p) => if p.len() == 0 {
            Ok(root.render())
        } else if starts_at_root(p) {
            Err(ErrorKind::BadRequest)
        } else {
            resolved(root, cleaned(p))
        },
    }
}

/// The prefix of every retrieval request.
pub open spec fn files_prefix() -> Seq<char> {
    "/files/"@
}

/// The file that a decoded retrieval path names: what follows the prefix,
/// resolved against the root. A path without the prefix is a bad request.
pub open spec fn file_target(root: PathModel, decoded: Seq<char>) -> Result<Seq<char>, ErrorKind> {
    if files_prefix().is_prefix_of(decoded) {
        resolved(root, decoded.skip(files_prefix().len() as int))
    } else {
        Err(ErrorKind::BadRequest)
    }
}

/// The file that a retrieval request names. A path that cannot be decoded
/// is the server's failure.
pub open spec fn served_target(root: PathModel, url_path: Seq<char>) -> Result<Seq<char>, ErrorKind> {
    match percent_decoded(url_path) {
        Some(decoded) => file_target(root, decoded),
        None => Err(ErrorKind::Internal),
    }
}

/// Names the directory whose entries a listing request asks for. The
/// directory is the root or lies below it.
pub fn list_files(cfg: &Config, path: Option<&str>) -> (r: Result<String, ErrorKind>)
    ensures
        text_of(r) == listing_target(cfg@.root, given(path)),
        r matches Ok(dir) ==> lies_under(cfg@.root, dir@),
{
    let root = cfg.root();
    proof {
        lemma_root_lies_under_itself(root@);
    }
    match path {
        None => Ok(root.render()),
        Some(p) => {
            if p.unicode_len() == 0 {
                Ok(root.render())
            } else if is_absolute(p) {
                Err(ErrorKind::BadRequest)
            } else {
                let tidy = clean(p);
                root.resolve(tidy.as_str())
            }
        },
    }
}

/// Names the file that a decoded retrieval path asks for. The file is the
/// root or lies below it.
pub fn resolve_file(cfg: &Config, decoded: &str) -> (r: Result<String, ErrorKind>)
    ensures
        text_of(r) == file_target(cfg@.root, decoded@),
        r matches Ok(file) ==> lies_under(cfg@.root, file@),
{
    proof {
        reveal_strlit("/files/");
    }
    if !has_prefix(decoded, "/files/") {
        return Err(ErrorKind::BadRequest);
    }
    let len = decoded.unicode_len();
    let rest = decoded.substring_char(7, len);
    assert(rest@ =~= decoded@.skip(7));
    cfg.root().resolve(rest)
}

/// Names the file that a retrieval request asks for, from the path of its
/// URL. The file is the root or lies below it.
pub fn serve_files(cfg: &Config, url_path: &str) -> (r: Result<String, ErrorKind>)
    ensures
        text_of(r) == served_target(cfg@.root, url_path@),
        r matches Ok(file) ==> lies_under(cfg@.root, file@),
{
    match percent_decode(url_path) {
        Ok(decoded) => resolve_file(cfg, decoded.as_str()),
        Err(_) => Err(ErrorKind::Internal),
    }
}

} // verus!
