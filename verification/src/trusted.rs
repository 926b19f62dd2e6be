//! Everything this library takes on trust from code it does not verify.
//!
//! Three things stand here: the outside types that the verified code handles,
//! names for results of outside functions that are too long to state, and the
//! small functions that make the outside calls. Nothing else in the library is
//! exempt from proof.

use std::path::Path;
use vstd::prelude::*;

verus! {

// ---------------------------------------------------------------------------
// notify: the change kinds
// ---------------------------------------------------------------------------

/// `notify::event::AccessMode`, with the variants that the crate declares.
#[verifier::external_type_specification]
pub struct ExAccessMode(notify::event::AccessMode);

/// `notify::event::AccessKind`, with the variants that the crate declares.
#[verifier::external_type_specification]
pub struct ExAccessKind(notify::event::AccessKind);

/// `notify::event::CreateKind`, with the variants that the crate declares.
#[verifier::external_type_specification]
pub struct ExCreateKind(notify::event::CreateKind);

/// `notify::event::DataChange`, with the variants that the crate declares.
#[verifier::external_type_specification]
pub struct ExDataChange(notify::event::DataChange);

/// `notify::event::MetadataKind`, with the variants that the crate declares.
#[verifier::external_type_specification]
pub struct ExMetadataKind(notify::event::MetadataKind);

/// `notify::event::RenameMode`, with the variants that the crate declares.
#[verifier::external_type_specification]
pub struct ExRenameMode(notify::event::RenameMode);

/// `notify::event::ModifyKind`, with the variants that the crate declares.
#[verifier::external_type_specification]
pub struct ExModifyKind(notify::event::ModifyKind);

/// `notify::event::RemoveKind`, with the variants that the crate declares.
#[verifier::external_type_specification]
pub struct ExRemoveKind(notify::event::RemoveKind);

/// `notify::EventKind`, with the variants that the crate declares.
#[verifier::external_type_specification]
pub struct ExEventKind(notify::EventKind);

/// `notify::RecursiveMode`, with the variants that the crate declares.
#[verifier::external_type_specification]
pub struct ExRecursiveMode(notify::RecursiveMode);

// ---------------------------------------------------------------------------
// infer: content types by magic bytes
// ---------------------------------------------------------------------------

/// `infer::MatcherType`, with the variants that the crate declares.
#[verifier::external_type_specification]
pub struct ExMatcherType(infer::MatcherType);

/// The class of content that `infer::get` recognises at the start of `bytes`,
/// if it recognises any.
pub uninterp spec fn sniffed_type(bytes: Seq<u8>) -> Option<infer::MatcherType>;

/// Calls `infer::get` on the bytes and reads the matcher type of what it
/// found. `infer::get` walks a fixed table of signatures and returns the
/// first whose test accepts the bytes, so the result depends on the bytes
/// alone; the contract claims no more than that.
#[verifier::external_body]
pub(crate) fn sniff(bytes: &[u8]) -> (found: Option<infer::MatcherType>)
    ensures
        found == sniffed_type(bytes@),
{
    infer::get(bytes).map(|kind| kind.matcher_type())
}

// ---------------------------------------------------------------------------
// regex: name patterns
// ---------------------------------------------------------------------------

/// Whether `regex::Regex::new` compiles `pattern`.
pub uninterp spec fn regex_accepts(pattern: Seq<char>) -> bool;

/// Whether the regular expression that `regex::Regex::new` compiles from
/// `pattern` has a match anywhere in `haystack`, as `Regex::is_match` tells.
pub uninterp spec fn regex_finds(pattern: Seq<char>, haystack: Seq<char>) -> bool;

/// Compiles `pattern` with `regex::Regex::new` and asks `Regex::is_match`
/// whether the compiled expression matches somewhere in `haystack`. The
/// result is `None` exactly when the pattern does not compile. Both calls are
/// functions of their text arguments; the contract gives them their names and
/// claims nothing about which patterns compile or what they match.
#[verifier::external_body]
pub(crate) fn regex_search(pattern: &str, haystack: &str) -> (found: Option<bool>)
    ensures
        found == (if regex_accepts(pattern@) {
            Some(regex_finds(pattern@, haystack@))
        } else {
            None
        }),
{
    match regex::Regex::new(pattern) {
        Ok(re) => Some(re.is_match(haystack)),
        Err(_) => None,
    }
}

// ---------------------------------------------------------------------------
// std::path: reading paths
// ---------------------------------------------------------------------------

/// The final component of `path` as `std::path::Path::file_name` gives it on
/// the target platform: none for a path that ends in `..` or has no
/// component to name.
pub uninterp spec fn path_file_name(path: Seq<char>) -> Option<Seq<char>>;

/// Whether `base` is a prefix of `path` component by component, as
/// `std::path::Path::starts_with` tells on the target platform.
pub uninterp spec fn path_starts_with(path: Seq<char>, base: Seq<char>) -> bool;

/// The path that `std::path::Path::join` makes of `base` and `tail` on the
/// target platform.
pub uninterp spec fn path_join(base: Seq<char>, tail: Seq<char>) -> Seq<char>;

/// What is left of `path` when the components of `base` are taken from its
/// front, as `std::path::Path::strip_prefix` gives it on the target
/// platform: none where `base` is no prefix of `path`.
pub uninterp spec fn path_strip_prefix(path: Seq<char>, base: Seq<char>) -> Option<Seq<char>>;

/// Whether `path` is absolute, as `std::path::Path::is_absolute` tells on the
/// target platform.
pub uninterp spec fn path_is_absolute(path: Seq<char>) -> bool;

/// Calls `std::path::Path::file_name` and hands the component back as text.
/// The component of a path given as text is itself text, so nothing is lost
/// in the conversion.
#[verifier::external_body]
pub(crate) fn file_name(path: &str) -> (name: Option<String>)
    ensures
        match name {
            Some(n) => path_file_name(path@) == Some(n@),
            None => path_file_name(path@).is_none(),
        },
{
    Path::new(path).file_name().map(|n| n.to_string_lossy().into_owned())
}

/// Calls `std::path::Path::starts_with`.
#[verifier::external_body]
pub(crate) fn starts_with(path: &str, base: &str) -> (b: bool)
    ensures
        b == path_starts_with(path@, base@),
{
    Path::new(path).starts_with(Path::new(base))
}

/// Calls `std::path::Path::strip_prefix` and hands the rest back as text.
/// What is left of a path given as text is itself text.
#[verifier::external_body]
pub(crate) fn strip_prefix(path: &str, base: &str) -> (rest: Option<String>)
    ensures
        match rest {
            Some(r) => path_strip_prefix(path@, base@) == Some(r@),
            None => path_strip_prefix(path@, base@).is_none(),
        },
{
    Path::new(path).strip_prefix(base).ok().map(|r| r.to_string_lossy().into_owned())
}

/// Calls `std::path::Path::is_absolute`.
#[verifier::external_body]
pub(crate) fn is_absolute(path: &str) -> (b: bool)
    ensures
        b == path_is_absolute(path@),
{
    Path::new(path).is_absolute()
}

/// Calls `std::path::Path::join` and hands the joined path back as text.
/// Two paths given as text join to a path that is text.
#[verifier::external_body]
pub(crate) fn join(base: &str, tail: &str) -> (joined: String)
    ensures
        joined@ == path_join(base@, tail@),
{
    Path::new(base).join(tail).to_string_lossy().into_owned()
}

} // verus!
