//! Articles of the wiki: their keys, content hashes, front matter, titles and
//! compiled HTML.
use vstd::prelude::*;
use vstd::utf8::encode_utf8;
use serde_yaml::Mapping;
use crate::digest::{sha256, sha256_digest};
use crate::front::{check_front_matter, meta_body, meta_entries, meta_entry_count, meta_error, meta_readable, parse_front_matter, FrontMatterError};
use crate::markdown::{markdown_html, render_html};
use crate::path::{file_name_of, strip_prefix_of};
use crate::yaml::{entry_count, get_string, string_entries};

verus! {

broadcast use vstd::string::group_string_axioms;

/// The version of the compiler; an article compiled by another version is
/// compiled again.
pub const VERSION: u32 = 1;

/// The key of an article: its path relative to the wiki root.
#[derive(Debug, Clone, PartialEq)]
pub struct ArticleKey(String);

impl View for ArticleKey {
    type V = Seq<char>;

    closed spec fn view(&self) -> Seq<char> {
        self.0@
    }
}

impl ArticleKey {
    /// Wraps a relative path as a key.
    pub fn new(key: String) -> (res: ArticleKey)
        ensures
            res@ == key@,
    {
        ArticleKey(key)
    }

    /// The UTF-8 bytes of the key.
    pub fn as_bytes(&self) -> (res: &[u8])
        ensures
            res@ == encode_utf8(self@),
    {
        self.0.as_str().as_bytes()
    }

    /// The key as text.
    pub fn as_str(&self) -> (res: &str)
        ensures
            res@ == self@,
    {
        self.0.as_str()
    }

    /// The final name of the key's path.
    pub fn file_name(&self) -> (res: String)
        requires
            file_name_of(self@) is Some,
        ensures
            res@ == file_name_of(self@)->0,
    {
        crate::path::file_name(self.0.as_str()).unwrap()
    }
}

/// Keys are stored under their UTF-8 bytes: two keys with the same bytes are
/// the same key, so different articles never share a storage slot.
pub proof fn lemma_key_bytes_injective(a: Seq<char>, b: Seq<char>)
    requires
        encode_utf8(a) == encode_utf8(b),
    ensures
        a == b,
{
    vstd::utf8::encode_utf8_decode_utf8(a);
    vstd::utf8::encode_utf8_decode_utf8(b);
}

/// The SHA-256 digest of an article's text.
#[derive(Debug, Clone, PartialEq)]
pub struct ArticleHash(Vec<u8>);

impl View for ArticleHash {
    type V = Seq<u8>;

    closed spec fn view(&self) -> Seq<u8> {
        self.0@
    }
}

impl ArticleHash {
    /// Wraps digest bytes.
    pub fn new(bytes: Vec<u8>) -> (res: ArticleHash)
        ensures
            res@ == bytes@,
    {
        ArticleHash(bytes)
    }

    /// The digest bytes.
    pub fn as_bytes(&self) -> (res: &[u8])
        ensures
            res@ == self@,
    {
        self.0.as_slice()
    }

    /// Whether two hashes hold the same bytes.
    pub fn same(&self, other: &ArticleHash) -> (res: bool)
        ensures
            res == (self@ == other@),
    {
        let n = self.0.len();
        if n != other.0.len() {
            return false;
        }
        let mut i: usize = 0;
        while i < n
            invariant
                n == self@.len(),
                n == other@.len(),
                i <= n,
                forall|j: int| 0 <= j < i ==> self@[j] == other@[j],
            decreases n - i,
        {
            if self.0[i] != other.0[i] {
                return false;
            }
            i = i + 1;
        }
        proof {
            assert(self@ =~= other@);
        }
        true
    }
}

/// The hash of an article with text `body`.
pub open spec fn hash_of(body: Seq<char>) -> Seq<u8> {
    sha256(encode_utf8(body))
}

/// The content hash covers the whole text: it is the SHA-256 digest of every
/// UTF-8 byte of the text, front matter included.
pub proof fn lemma_hash_covers_whole_text(body: Seq<char>)
    ensures
        hash_of(body) == sha256(encode_utf8(body)),
{
}

/// The key of the file `file_name` inside the wiki folder `root`.
pub(crate) fn key_of(root: &str, file_name: &str) -> (res: ArticleKey)
    requires
        strip_prefix_of(file_name@, root@) is Some,
    ensures
        res@ == strip_prefix_of(file_name@, root@)->0,
{
    ArticleKey(crate::path::strip_prefix(file_name, root).unwrap())
}

/// The hash of the article text `body`.
pub(crate) fn hash_text(body: &str) -> (res: ArticleHash)
    ensures
        res@ == hash_of(body@),
        res@ == sha256(encode_utf8(body@)),
        res@.len() == 32,
{
    ArticleHash(sha256_digest(body.as_bytes()))
}

/// The key under which a title is read from the front matter.
pub open spec fn title_key() -> Seq<char> {
    seq!['v', 'a', 'l', 'u', 'e']
}

/// The title given by front-matter entries `entries`, or `fallback`.
pub open spec fn title_of(entries: Map<Seq<char>, Seq<char>>, fallback: Seq<char>) -> Seq<char> {
    if entries.contains_key(title_key()) {
        entries[title_key()]
    } else {
        fallback
    }
}

/// The title string of a mapping, when it has one.
pub(crate) fn title_in(meta: &Mapping) -> (res: Option<String>)
    ensures
        match res {
            Some(t) => string_entries(*meta).contains_key(title_key()) && t@
                == string_entries(*meta)[title_key()],
            None => !string_entries(*meta).contains_key(title_key()),
        },
{
    let key = "value";
    proof {
        reveal_strlit("value");
        assert(key@ =~= title_key());
    }
    get_string(meta, key)
}

/// An article compiled to HTML.
#[derive(Debug, PartialEq)]
pub struct Article {
    pub key: ArticleKey,
    pub title: String,
    pub source: String,
    pub compiler_ver: u32,
    pub compiled: Option<String>,
    pub hash: ArticleHash,
    pub meta: Mapping,
}

/// Why an article cannot be made from a file.
#[derive(Debug, Clone, Copy, PartialEq, Eq)]
pub enum ArticleError {
    /// The key names no file.
    NoFileName,
    /// The front matter cannot be read.
    FrontMatter(FrontMatterError),
}

/// An article can be made from `key` and `source`.
pub open spec fn article_readable(key: Seq<char>, source: Seq<char>) -> bool {
    file_name_of(key) is Some && meta_readable(source)
}

impl Article {
    /// The article with key `key`, text `body.0` and hash `body.1`.
    pub fn from_str(key: ArticleKey, body: (String, ArticleHash)) -> (res: Article)
        requires
            article_readable(key@, body.0@),
        ensures
            res.key@ == key@,
            res.title@ == title_of(meta_entries(body.0@), file_name_of(key@)->0),
            res.source@ == meta_body(body.0@),
            string_entries(res.meta) == meta_entries(body.0@),
            entry_count(res.meta) == meta_entry_count(body.0@),
            res.compiled is Some,
            res.compiled->0@ == markdown_html(meta_body(body.0@)),
            res.compiler_ver == VERSION,
            res.hash@ == body.1@,
            string_entries(res.meta).contains_key(seq!['v', 'a', 'l', 'u', 'e']) ==> res.title@
                == string_entries(res.meta)[seq!['v', 'a', 'l', 'u', 'e']],
            !string_entries(res.meta).contains_key(seq!['v', 'a', 'l', 'u', 'e']) ==> res.title@
                == file_name_of(key@)->0,
    {
        proof {
            assert(seq!['v', 'a', 'l', 'u', 'e'] =~= title_key());
        }
        let (source, meta) = Self::parse_meta(body.0);
        let hash = body.1;
        let title = Self::get_title(&meta, key.file_name());
        Article {
            key,
            title,
            compiled: Self::parse_source(&source),
            compiler_ver: VERSION,
            source,
            hash,
            meta,
        }
    }

    /// `from_str`, or the reason it cannot be made.
    pub fn try_from_str(key: ArticleKey, body: (String, ArticleHash)) -> (res: Result<
        Article,
        ArticleError,
    >)
        ensures
            match res {
                Ok(a) => {
                    &&& article_readable(key@, body.0@)
                    &&& a.key@ == key@
                    &&& a.title@ == title_of(meta_entries(body.0@), file_name_of(key@)->0)
                    &&& a.source@ == meta_body(body.0@)
                    &&& string_entries(a.meta) == meta_entries(body.0@)
                    &&& entry_count(a.meta) == meta_entry_count(body.0@)
                    &&& a.compiled is Some
                    &&& a.compiled->0@ == markdown_html(meta_body(body.0@))
                    &&& a.compiler_ver == VERSION
                    &&& a.hash@ == body.1@
                },
                Err(ArticleError::NoFileName) => file_name_of(key@) is None,
                Err(ArticleError::FrontMatter(e)) => {
                    &&& file_name_of(key@) is Some
                    &&& meta_error(body.0@) == Some(e)
                },
            },
    {
        if crate::path::file_name(key.as_str()).is_none() {
            return Err(ArticleError::NoFileName);
        }
        match check_front_matter(body.0.as_str()) {
            Err(e) => Err(ArticleError::FrontMatter(e)),
            Ok(()) => Ok(Self::from_str(key, body)),
        }
    }

    /// The key of the file `file_name` inside the wiki folder `root`.
    pub fn key(root: &str, file_name: &str) -> (res: ArticleKey)
        requires
            strip_prefix_of(file_name@, root@) is Some,
        ensures
            res@ == strip_prefix_of(file_name@, root@)->0,
    {
        key_of(root, file_name)
    }

    /// The hash of the article text `body`.
    pub fn content_hash(body: &str) -> (res: ArticleHash)
        ensures
            res@ == hash_of(body@),
            res@ == sha256(encode_utf8(body@)),
            res@.len() == 32,
    {
        hash_text(body)
    }

    /// The title held by `meta` under `value`, or `file_name`.
    pub fn get_title(meta: &Mapping, file_name: String) -> (res: String)
        ensures
            res@ == title_of(string_entries(*meta), file_name@),
    {
        match title_in(meta) {
            Some(t) => t,
            None => file_name,
        }
    }

    /// The body of `source` and its front matter.
    pub fn parse_meta(source: String) -> (res: (String, Mapping))
        requires
            meta_readable(source@),
        ensures
            res.0@ == meta_body(source@),
            string_entries(res.1) == meta_entries(source@),
            entry_count(res.1) == meta_entry_count(source@),
    {
        let (meta, body) = parse_front_matter(source.as_str());
        (body.to_owned(), meta)
    }

    /// The HTML of the Markdown text `source`.
    pub fn parse_source(source: &str) -> (res: Option<String>)
        ensures
            res is Some,
            res->0@ == markdown_html(source@),
    {
        Some(render_html(source))
    }
}

} // verus!
