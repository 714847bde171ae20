//! The decisions of the wiki compiler: which changed files it compiles, and
//! whether a stored article is kept or compiled again.
//!
//! Reading the stored article, reading the file and saving the result are
//! left to the caller; this module decides what happens in between.
use vstd::prelude::*;
use crate::article::{
    article_readable, hash_of, title_key, title_of, Article, ArticleError, ArticleKey, VERSION,
};
use crate::front::{check_front_matter, meta_body, meta_entries, meta_entry_count, meta_error};
use crate::markdown::markdown_html;
use crate::path::{file_name_of, strip_prefix_of};
use crate::watch::{ends_with, is_markdown, md_suffix, WatchEvent};
use crate::yaml::{entry_count, string_entries};

verus! {

/// The error of a change the compiler does not handle.
#[derive(Debug, Clone, Copy, PartialEq, Eq)]
pub enum BuildError {
    Error,
}

/// The result of compiling a file.
#[derive(Debug)]
pub enum Compiled {
    /// The stored article is current and is returned as it is.
    Unchanged(Article),
    /// The article was compiled again and is to be saved.
    Rebuilt(Article),
}

impl Compiled {
    /// The article either way.
    pub open spec fn article_of(self) -> Article {
        match self {
            Compiled::Unchanged(a) => a,
            Compiled::Rebuilt(a) => a,
        }
    }

    /// The article either way.
    pub fn into_article(self) -> (res: Article)
        ensures
            res == self.article_of(),
    {
        match self {
            Compiled::Unchanged(a) => a,
            Compiled::Rebuilt(a) => a,
        }
    }

    /// Whether the article is to be saved.
    pub fn must_save(&self) -> (res: bool)
        ensures
            res == (self is Rebuilt),
    {
        match self {
            Compiled::Unchanged(_) => false,
            Compiled::Rebuilt(_) => true,
        }
    }
}

/// `a` was compiled by this compiler from a text with hash `hash`.
pub open spec fn is_current(a: Article, hash: Seq<u8>) -> bool {
    a.compiler_ver == VERSION && a.hash@ == hash
}

/// `stored` holds an article that is current for the text `source`.
pub open spec fn stored_is_current(stored: Option<Article>, source: Seq<char>) -> bool {
    match stored {
        Some(a) => is_current(a, hash_of(source)),
        None => false,
    }
}

/// `a` is the article made from key `key` and text `source`.
pub open spec fn built_from(a: Article, key: Seq<char>, source: Seq<char>) -> bool {
    &&& a.key@ == key
    &&& a.title@ == title_of(meta_entries(source), file_name_of(key)->0)
    &&& a.source@ == meta_body(source)
    &&& string_entries(a.meta) == meta_entries(source)
    &&& entry_count(a.meta) == meta_entry_count(source)
    &&& a.compiled is Some
    &&& a.compiled->0@ == markdown_html(meta_body(source))
    &&& a.compiler_ver == VERSION
    &&& a.hash@ == hash_of(source)
}

/// What compiling the file with key `key` and text `source` gives, when
/// `stored` is what was stored under the key: the stored article when it is
/// current, else a new article made from the text.
pub open spec fn compiles_to(
    key: Seq<char>,
    stored: Option<Article>,
    source: Seq<char>,
    res: Compiled,
) -> bool {
    if stored_is_current(stored, source) {
        res == Compiled::Unchanged(stored->0)
    } else {
        res is Rebuilt && built_from(res.article_of(), key, source)
    }
}

/// The key that a changed file is compiled under, when it is a Markdown file
/// of the wiki folder `root`.
pub open spec fn planned_key(root: Seq<char>, file: Seq<char>) -> Option<Seq<char>> {
    if ends_with(file, md_suffix()) {
        Some(strip_prefix_of(file, root)->0)
    } else {
        None
    }
}

/// The text of an optional key.
pub open spec fn key_view(k: Option<ArticleKey>) -> Option<Seq<char>> {
    match k {
        Some(k) => Some(k@),
        None => None,
    }
}

/// What handling the change `msg` in the wiki folder `root` gives: for an
/// update, the key that the file is compiled under; an error for a removal
/// or a rename.
pub open spec fn handled(root: Seq<char>, msg: WatchEvent, res: Result<Option<ArticleKey>, BuildError>) -> bool {
    match msg {
        WatchEvent::Update(p) => res matches Ok(k) && key_view(k) == planned_key(root, p@),
        _ => res == Err::<Option<ArticleKey>, BuildError>(BuildError::Error),
    }
}

/// The compiler of the wiki rooted at `root`.
pub struct WikiCompiler {
    pub root: String,
}

impl WikiCompiler {
    /// The compiler of the wiki folder `root`.
    pub fn new(root: String) -> (res: WikiCompiler)
        ensures
            res.root == root,
    {
        WikiCompiler { root }
    }

    /// The key of a changed file when it is a Markdown file; `None` for any
    /// other file, which is not compiled.
    pub fn plan(&self, file_name: &str) -> (res: Option<ArticleKey>)
        requires
            ends_with(file_name@, md_suffix()) ==> strip_prefix_of(file_name@, self.root@) is Some,
        ensures
            key_view(res) == planned_key(self.root@, file_name@),
    {
        if !is_markdown(file_name) {
            return None;
        }
        Some(Article::key(self.root.as_str(), file_name))
    }

    /// Compiles the file with key `key` and text `source`, given what was
    /// stored under the key.
    pub fn compile(&self, key: ArticleKey, stored: Option<Article>, source: String) -> (res:
        Compiled)
        requires
            !stored_is_current(stored, source@) ==> article_readable(key@, source@),
        ensures
            compiles_to(key@, stored, source@, res),
            res matches Compiled::Rebuilt(a) ==> {
                let entries = string_entries(a.meta);
                let value = seq!['v', 'a', 'l', 'u', 'e'];
                &&& a.key@ == key@
                &&& entries.contains_key(value) ==> a.title@ == entries[value]
                &&& !entries.contains_key(value) ==> a.title@ == file_name_of(key@)->0
            },
    {
        proof {
            if !stored_is_current(stored, source@) {
                assert(seq!['v', 'a', 'l', 'u', 'e'] =~= title_key());
            }
        }
        let hash = Article::content_hash(source.as_str());
        match stored {
            Some(article) => {
                if article.compiler_ver == VERSION && article.hash.same(&hash) {
                    return Compiled::Unchanged(article);
                }
                Compiled::Rebuilt(Article::from_str(key, (source, hash)))
            },
            None => Compiled::Rebuilt(Article::from_str(key, (source, hash))),
        }
    }

    /// `compile`, or why the article cannot be made when it has to be.
    pub fn try_compile(&self, key: ArticleKey, stored: Option<Article>, source: String) -> (res:
        Result<Compiled, ArticleError>)
        ensures
            match res {
                Ok(c) => compiles_to(key@, stored, source@, c),
                Err(ArticleError::NoFileName) => !stored_is_current(stored, source@)
                    && file_name_of(key@) is None,
                Err(ArticleError::FrontMatter(e)) => {
                    &&& !stored_is_current(stored, source@)
                    &&& file_name_of(key@) is Some
                    &&& meta_error(source@) == Some(e)
                },
            },
    {
        let hash = Article::content_hash(source.as_str());
        let current = match &stored {
            Some(article) => article.compiler_ver == VERSION && article.hash.same(&hash),
            None => false,
        };
        if !current {
            if crate::path::file_name(key.as_str()).is_none() {
                return Err(ArticleError::NoFileName);
            }
            match check_front_matter(source.as_str()) {
                Err(e) => {
                    return Err(ArticleError::FrontMatter(e));
                },
                Ok(()) => {},
            }
        }
        Ok(self.compile(key, stored, source))
    }

    /// What a change asks of the compiler: the key of the file to compile
    /// (`None` when it is not Markdown) for an update; an error for a removal
    /// or a rename.
    pub fn handle(&self, msg: WatchEvent) -> (res: Result<Option<ArticleKey>, BuildError>)
        requires
            msg matches WatchEvent::Update(p) ==> (ends_with(p@, md_suffix()) ==> strip_prefix_of(
                p@,
                self.root@,
            ) is Some),
        ensures
            handled(self.root@, msg, res),
    {
        match msg {
            WatchEvent::Update(file_name) => Ok(self.plan(file_name.as_str())),
            WatchEvent::Remove(_) => Err(BuildError::Error),
            WatchEvent::Rename(_, _) => Err(BuildError::Error),
        }
    }
}

/// An update is handled as the file itself is planned: handling
/// `Update(p)` gives the key that planning `p` gives, so the compile that
/// follows is the same.
pub proof fn lemma_update_handled_as_planned(
    root: Seq<char>,
    p: String,
    handled_res: Result<Option<ArticleKey>, BuildError>,
    planned: Option<ArticleKey>,
)
    requires
        handled(root, WatchEvent::Update(p), handled_res),
        key_view(planned) == planned_key(root, p@),
    ensures
        handled_res matches Ok(k) && key_view(k) == key_view(planned),
{
}

/// A rebuilt article is titled by its own front matter: when the string
/// entries of its mapping hold `value`, its title is that entry, and only
/// otherwise the final name of its key.
pub proof fn lemma_rebuilt_title(
    key: Seq<char>,
    stored: Option<Article>,
    source: Seq<char>,
    res: Compiled,
)
    requires
        compiles_to(key, stored, source, res),
        res is Rebuilt,
    ensures
        ({
            let a = res.article_of();
            let entries = string_entries(a.meta);
            let value = seq!['v', 'a', 'l', 'u', 'e'];
            &&& a.key@ == key
            &&& entries.contains_key(value) ==> a.title@ == entries[value]
            &&& !entries.contains_key(value) ==> a.title@ == file_name_of(key)->0
        }),
{
    assert(seq!['v', 'a', 'l', 'u', 'e'] =~= title_key());
    if stored_is_current(stored, source) {
        assert(res == Compiled::Unchanged(stored->0));
    }
}

/// Compiling a file a second time from the same text gives back the article
/// that the first compile gave, unchanged, with nothing to save.
pub proof fn lemma_compile_twice_unchanged(
    key: Seq<char>,
    stored: Option<Article>,
    source: Seq<char>,
    first: Compiled,
    second: Compiled,
)
    requires
        compiles_to(key, stored, source, first),
        compiles_to(key, Some(first.article_of()), source, second),
    ensures
        second == Compiled::Unchanged(first.article_of()),
{
}

/// Whatever compiling gives is current for the text: it carries this
/// compiler's version and the hash of the text, so the compiler keeps it for
/// as long as the text does not change.
pub proof fn lemma_rebuilt_is_current(
    key: Seq<char>,
    stored: Option<Article>,
    source: Seq<char>,
    res: Compiled,
)
    requires
        compiles_to(key, stored, source, res),
    ensures
        res.article_of().compiler_ver == VERSION,
        res.article_of().hash@ == hash_of(source),
        stored_is_current(Some(res.article_of()), source),
{
}

} // verus!
