//! The decisions of the host's worker: a file is run through the JS compiler
//! only when its text changed, and the stored record is updated with what the
//! JS compiler returned.
//!
//! Running the JS compiler and storing the record are left to the caller.
use vstd::prelude::*;
use crate::article::{hash_of, hash_text, ArticleHash, ArticleKey};
use crate::db::{stored_title, Article};
use crate::front::{check_front_matter, meta_entries, meta_entry_count, meta_readable};
use crate::watch::{ends_in_mdx, ends_with, is_mdx, lemma_file_kinds, mdx_suffix, WatchEvent};
use crate::yaml::{entry_count, string_entries};

verus! {

/// An error reported by the JS compiler.
#[derive(Debug, Clone, PartialEq, Eq)]
pub struct ErrorInfo {
    /// The error message.
    pub message: String,
    /// The file name.
    pub filename: String,
    /// The line number.
    pub lineno: u32,
    /// The column number.
    pub column: u32,
}

impl ErrorInfo {
    /// The error reported at `lineno`:`column` of `filename` with `message`;
    /// a report without a file name is filed under `none`.
    pub fn from_report(filename: Option<String>, message: String, lineno: u32, column: u32) -> (res: ErrorInfo)
        ensures
            res.filename@ == match filename {
                Some(f) => f@,
                None => seq!['n', 'o', 'n', 'e'],
            },
            res.message == message,
            res.lineno == lineno,
            res.column == column,
    {
        let filename = match filename {
            Some(f) => f,
            None => {
                let none = "none";
                proof {
                    reveal_strlit("none");
                }
                none.to_owned()
            },
        };
        ErrorInfo { message, filename, lineno, column }
    }
}

/// Why a file could not be built.
#[derive(Debug, Clone, PartialEq, Eq)]
pub enum BuildError {
    /// The JS compiler failed.
    JsError(ErrorInfo),
}

/// The file has to be run through the JS compiler: nothing is stored for
/// it, or what is stored has another hash.
pub open spec fn build_needed(stored: Option<Article>, hash: Seq<u8>) -> bool {
    match stored {
        Some(a) => a.hash@ != hash,
        None => true,
    }
}

/// Whether the file with hash `hash` has to be run through the JS compiler.
pub fn needs_build(stored: &Option<Article>, hash: &ArticleHash) -> (res: bool)
    ensures
        res == build_needed(*stored, hash@),
        stored is None ==> res,
        stored matches Some(a) ==> (res <==> a.hash@ != hash@),
{
    match stored {
        Some(a) => !a.hash.same(hash),
        None => true,
    }
}

/// Whether a file goes through the JS compiler depends only on the stored
/// hash: with nothing stored it always does; a stored record does exactly when
/// its hash differs from the text's, whatever HTML, title or text it holds.
pub proof fn lemma_build_needed_by_hash_only(a: Article, b: Article, hash: Seq<u8>)
    requires
        a.hash@ == b.hash@,
    ensures
        build_needed(None, hash),
        build_needed(Some(a), hash) <==> a.hash@ != hash,
        build_needed(Some(a), hash) == build_needed(Some(b), hash),
{
}

/// A new record needs readable front matter: this is the case where one is
/// made from the text.
pub open spec fn makes_record(stored: Option<Article>, compiled: Option<Result<String, ErrorInfo>>) -> bool {
    stored is None && compiled matches Some(Ok(_))
}

/// What the build of the file with key `key`, text `source` and hash `hash`
/// gives, when `stored` was stored for it and `compiled` is what the JS
/// compiler returned (`None` when it was not run).
pub open spec fn built_record(
    key: Seq<char>,
    stored: Option<Article>,
    source: Seq<char>,
    hash: Seq<u8>,
    compiled: Option<Result<String, ErrorInfo>>,
    res: Result<Article, BuildError>,
) -> bool {
    match compiled {
        None => res == Ok::<Article, BuildError>(stored->0),
        Some(Err(err)) => res == Err::<Article, BuildError>(BuildError::JsError(err)),
        Some(Ok(html)) => match stored {
            Some(old) => res matches Ok(a) && {
                &&& a.key == old.key
                &&& a.title == old.title
                &&& a.body == old.body
                &&& a.meta == old.meta
                &&& a.compiled == Some(html)
                &&& a.hash@ == hash
            },
            None => res matches Ok(a) && {
                &&& a.key@ == key
                &&& a.title@ == stored_title(meta_entries(source))
                &&& a.body@ == source
                &&& a.compiled is None
                &&& a.hash@ == hash
                &&& string_entries(a.meta) == meta_entries(source)
                &&& entry_count(a.meta) == meta_entry_count(source)
            },
        },
    }
}

/// Finishes the build of a file: keeps the stored record when its text did
/// not change, reports a JS error, stores the compiled HTML and the new hash
/// in the record, or makes a new record from the text.
pub fn finish_build(
    key: ArticleKey,
    stored: Option<Article>,
    source: String,
    hash: ArticleHash,
    compiled: Option<Result<String, ErrorInfo>>,
) -> (res: Result<Article, BuildError>)
    requires
        hash@ == hash_of(source@),
        compiled is Some <==> build_needed(stored, hash@),
        makes_record(stored, compiled) ==> meta_readable(source@),
    ensures
        built_record(key@, stored, source@, hash@, compiled, res),
{
    match compiled {
        None => Ok(stored.unwrap()),
        Some(Err(err)) => Err(BuildError::JsError(err)),
        Some(Ok(html)) => match stored {
            Some(mut article) => {
                article.compiled = Some(html);
                article.hash = hash;
                Ok(article)
            },
            None => Ok(Article::from_str(key, source, Some(hash))),
        },
    }
}

/// The inputs of `finish_build` are those of a build: `hash` is the hash of
/// the text and `compiled` is given exactly when a build is needed.
pub open spec fn build_inputs(
    stored: Option<Article>,
    source: Seq<char>,
    hash: Seq<u8>,
    compiled: Option<Result<String, ErrorInfo>>,
) -> bool {
    &&& hash == hash_of(source)
    &&& (compiled is Some <==> build_needed(stored, hash))
}

/// `finish_build`, or `None` when its inputs are not those of a build, or
/// when a new record is to be made from a text whose front matter cannot be
/// read.
pub fn try_finish_build(
    key: ArticleKey,
    stored: Option<Article>,
    source: String,
    hash: ArticleHash,
    compiled: Option<Result<String, ErrorInfo>>,
) -> (res: Option<Result<Article, BuildError>>)
    ensures
        match res {
            Some(r) => build_inputs(stored, source@, hash@, compiled) && built_record(
                key@,
                stored,
                source@,
                hash@,
                compiled,
                r,
            ),
            None => !build_inputs(stored, source@, hash@, compiled) || (makes_record(
                stored,
                compiled,
            ) && !meta_readable(source@)),
        },
{
    let text_hash = hash_text(source.as_str());
    if !text_hash.same(&hash) {
        return None;
    }
    if needs_build(&stored, &hash) != compiled.is_some() {
        return None;
    }
    let new_record = stored.is_none() && match &compiled {
        Some(Ok(_)) => true,
        _ => false,
    };
    if new_record && check_front_matter(source.as_str()).is_err() {
        return None;
    }
    Some(finish_build(key, stored, source, hash, compiled))
}

/// The file that a change asks the host to build: an updated `.mdx` file.
/// Removals and renames build nothing.
pub fn file_to_build(ev: &WatchEvent) -> (res: Option<&String>)
    ensures
        match ev {
            WatchEvent::Update(p) => if ends_with(p@, mdx_suffix()) {
                res == Some(p)
            } else {
                res is None
            },
            _ => res is None,
        },
        res is Some <==> (ev matches WatchEvent::Update(p) && ends_in_mdx(p@)),
{
    proof {
        if let WatchEvent::Update(p) = ev {
            lemma_file_kinds(p@);
        }
    }
    match ev {
        WatchEvent::Update(p) => if is_mdx(p.as_str()) {
            Some(p)
        } else {
            None
        },
        _ => None,
    }
}

/// Once a build has stored the hash of a text, building the same text again
/// does not run the JS compiler.
pub proof fn lemma_built_needs_no_build(
    key: Seq<char>,
    stored: Option<Article>,
    source: Seq<char>,
    hash: Seq<u8>,
    compiled: Option<Result<String, ErrorInfo>>,
    res: Result<Article, BuildError>,
)
    requires
        build_inputs(stored, source, hash, compiled),
        built_record(key, stored, source, hash, compiled, res),
        res is Ok,
    ensures
        res matches Ok(a) && !build_needed(Some(a), hash),
{
}

} // verus!
