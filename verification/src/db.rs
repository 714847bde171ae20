//! The article record of the storage layer, which keeps the whole text of an
//! article beside its front matter and hash.
use vstd::prelude::*;
use vstd::utf8::encode_utf8;
use serde_yaml::Mapping;
use crate::article::{hash_of, hash_text, key_of, title_in, title_key, ArticleHash, ArticleKey};
use crate::front::{check_front_matter, meta_entries, meta_entry_count, meta_error, meta_readable, parse_front_matter, FrontMatterError};
use crate::path::strip_prefix_of;
use crate::yaml::{entry_count, string_entries};

verus! {

broadcast use vstd::string::group_string_axioms;

/// The stored title for front-matter entries `entries`: the entry under
/// `value`, or the empty text.
pub open spec fn stored_title(entries: Map<Seq<char>, Seq<char>>) -> Seq<char> {
    if entries.contains_key(title_key()) {
        entries[title_key()]
    } else {
        Seq::empty()
    }
}

/// The hash an article is stored with: the one given, or the hash of its text.
pub open spec fn stored_hash(body: Seq<char>, hash: Option<Seq<u8>>) -> Seq<u8> {
    match hash {
        Some(h) => h,
        None => hash_of(body),
    }
}

/// The views of an optional hash.
pub open spec fn hash_view(hash: Option<ArticleHash>) -> Option<Seq<u8>> {
    match hash {
        Some(h) => Some(h@),
        None => None,
    }
}

/// An article as the storage layer keeps it.
#[derive(Debug, PartialEq)]
pub struct Article {
    pub key: ArticleKey,
    pub title: String,
    pub body: String,
    pub compiled: Option<String>,
    pub hash: ArticleHash,
    pub meta: Mapping,
}

impl Article {
    /// The key of the file `file_name` inside the wiki folder `root`.
    pub fn key(root: &str, file_name: &str) -> (res: ArticleKey)
        requires
            strip_prefix_of(file_name@, root@) is Some,
        ensures
            res@ == strip_prefix_of(file_name@, root@)->0,
    {
        key_of(root, file_name)
    }

    /// The hash of the article text `body`.
    pub fn content_hash(body: &str) -> (res: ArticleHash)
        ensures
            res@ == hash_of(body@),
            res@ == crate::digest::sha256(encode_utf8(body@)),
            res@.len() == 32,
    {
        hash_text(body)
    }

    /// The article with key `key` and text `body`, not yet compiled, hashed
    /// with `hash` or else with the hash of `body`.
    pub fn from_str(key: ArticleKey, body: String, hash: Option<ArticleHash>) -> (res: Article)
        requires
            meta_readable(body@),
        ensures
            res.key@ == key@,
            res.title@ == stored_title(meta_entries(body@)),
            res.body@ == body@,
            res.compiled is None,
            res.hash@ == stored_hash(body@, hash_view(hash)),
            string_entries(res.meta) == meta_entries(body@),
            entry_count(res.meta) == meta_entry_count(body@),
            string_entries(res.meta).contains_key(seq!['v', 'a', 'l', 'u', 'e']) ==> res.title@
                == string_entries(res.meta)[seq!['v', 'a', 'l', 'u', 'e']],
            !string_entries(res.meta).contains_key(seq!['v', 'a', 'l', 'u', 'e']) ==> res.title@
                == Seq::<char>::empty(),
            hash is None ==> res.hash@ == crate::digest::sha256(encode_utf8(body@)),
    {
        proof {
            assert(seq!['v', 'a', 'l', 'u', 'e'] =~= title_key());
        }
        let (meta, _) = parse_front_matter(body.as_str());
        let title = match title_in(&meta) {
            Some(t) => t,
            None => String::new(),
        };
        let hash = match hash {
            Some(h) => h,
            None => hash_text(body.as_str()),
        };
        Article { key, title, compiled: None, body, hash, meta }
    }

    /// `from_str`, or why the front matter of `body` cannot be read.
    pub fn try_from_str(key: ArticleKey, body: String, hash: Option<ArticleHash>) -> (res: Result<
        Article,
        FrontMatterError,
    >)
        ensures
            match res {
                Ok(a) => {
                    &&& meta_readable(body@)
                    &&& a.key@ == key@
                    &&& a.title@ == stored_title(meta_entries(body@))
                    &&& a.body@ == body@
                    &&& a.compiled is None
                    &&& a.hash@ == stored_hash(body@, hash_view(hash))
                    &&& string_entries(a.meta) == meta_entries(body@)
                    &&& entry_count(a.meta) == meta_entry_count(body@)
                },
                Err(e) => meta_error(body@) == Some(e),
            },
    {
        match check_front_matter(body.as_str()) {
            Err(e) => Err(e),
            Ok(()) => Ok(Self::from_str(key, body, hash)),
        }
    }
}

} // verus!
