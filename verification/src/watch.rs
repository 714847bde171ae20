//! Changes in the wiki folder, as the compiler sees them.
use vstd::prelude::*;
use crate::text::chars_of;

verus! {

/// A change to a file of the wiki folder.
#[derive(Debug, Clone, PartialEq, Eq)]
pub enum WatchEvent {
    /// The file was written or created.
    Update(String),
    /// The file was removed.
    Remove(String),
    /// The file was renamed from the first path to the second.
    Rename(String, String),
}

/// A notice of the file watcher, its paths held as text.
#[derive(Debug, Clone, PartialEq, Eq)]
pub enum FsEvent {
    NoticeWrite(String),
    NoticeRemove(String),
    Create(String),
    Write(String),
    Chmod(String),
    Remove(String),
    Rename(String, String),
    Rescan,
    /// A watcher error, with the path it concerns if any.
    Error(Option<String>),
}

/// The change that a watcher notice reports, if it reports one: writes and
/// creations update a file, removals and renames are passed on, and every
/// other notice is dropped.
pub fn forward(ev: FsEvent) -> (res: Option<WatchEvent>)
    ensures
        match ev {
            FsEvent::Write(p) => res == Some(WatchEvent::Update(p)),
            FsEvent::Create(p) => res == Some(WatchEvent::Update(p)),
            FsEvent::Remove(p) => res == Some(WatchEvent::Remove(p)),
            FsEvent::Rename(from, to) => res == Some(WatchEvent::Rename(from, to)),
            _ => res is None,
        },
{
    match ev {
        FsEvent::Write(p) => Some(WatchEvent::Update(p)),
        FsEvent::NoticeWrite(_) => None,
        FsEvent::Remove(p) => Some(WatchEvent::Remove(p)),
        FsEvent::NoticeRemove(_) => None,
        FsEvent::Chmod(_) => None,
        FsEvent::Create(p) => Some(WatchEvent::Update(p)),
        FsEvent::Error(_) => None,
        FsEvent::Rename(from, to) => Some(WatchEvent::Rename(from, to)),
        FsEvent::Rescan => None,
    }
}

/// `s` ends with `suffix`.
pub open spec fn ends_with(s: Seq<char>, suffix: Seq<char>) -> bool {
    suffix.len() <= s.len() && s.subrange(s.len() - suffix.len(), s.len() as int) == suffix
}

/// Whether `s` ends with `suffix`.
pub fn has_suffix(s: &str, suffix: &str) -> (res: bool)
    ensures
        res == ends_with(s@, suffix@),
{
    let a = chars_of(s);
    let b = chars_of(suffix);
    if b.len() > a.len() {
        return false;
    }
    let off = a.len() - b.len();
    let mut i: usize = 0;
    while i < b.len()
        invariant
            a@ == s@,
            b@ == suffix@,
            off + b.len() == a.len(),
            i <= b.len(),
            forall|j: int| 0 <= j < i ==> a@[off + j] == b@[j],
        decreases b.len() - i,
    {
        if a[off + i] != b[i] {
            proof {
                assert(a@.subrange(off as int, a@.len() as int)[i as int] != b@[i as int]);
            }
            return false;
        }
        i = i + 1;
    }
    proof {
        assert(a@.subrange(off as int, a@.len() as int) =~= b@);
    }
    true
}

/// The suffix `.md`.
pub open spec fn md_suffix() -> Seq<char> {
    seq!['.', 'm', 'd']
}

/// The suffix `.mdx`.
pub open spec fn mdx_suffix() -> Seq<char> {
    seq!['.', 'm', 'd', 'x']
}

/// `s` ends in `.md`, written out character by character.
pub open spec fn ends_in_md(s: Seq<char>) -> bool {
    s.len() >= 3 && s[s.len() - 3] == '.' && s[s.len() - 2] == 'm' && s[s.len() - 1] == 'd'
}

/// `s` ends in `.mdx`, written out character by character.
pub open spec fn ends_in_mdx(s: Seq<char>) -> bool {
    s.len() >= 4 && s[s.len() - 4] == '.' && s[s.len() - 3] == 'm' && s[s.len() - 2] == 'd'
        && s[s.len() - 1] == 'x'
}

/// A path is a Markdown file exactly when its last three characters are
/// `.md`, and an MDX file exactly when its last four are `.mdx`; so no path
/// is both, and a path ending in `.jsx` or `.txt` is neither.
pub proof fn lemma_file_kinds(s: Seq<char>)
    ensures
        ends_with(s, md_suffix()) <==> ends_in_md(s),
        ends_with(s, mdx_suffix()) <==> ends_in_mdx(s),
        !(ends_in_md(s) && ends_in_mdx(s)),
{
    if ends_in_md(s) {
        assert(s.subrange(s.len() - 3, s.len() as int) =~= md_suffix());
    }
    if ends_in_mdx(s) {
        assert(s.subrange(s.len() - 4, s.len() as int) =~= mdx_suffix());
    }
    if ends_with(s, md_suffix()) {
        assert(s.subrange(s.len() - 3, s.len() as int)[0] == s[s.len() - 3]);
        assert(s.subrange(s.len() - 3, s.len() as int)[1] == s[s.len() - 2]);
        assert(s.subrange(s.len() - 3, s.len() as int)[2] == s[s.len() - 1]);
    }
    if ends_with(s, mdx_suffix()) {
        assert(s.subrange(s.len() - 4, s.len() as int)[0] == s[s.len() - 4]);
        assert(s.subrange(s.len() - 4, s.len() as int)[1] == s[s.len() - 3]);
        assert(s.subrange(s.len() - 4, s.len() as int)[2] == s[s.len() - 2]);
        assert(s.subrange(s.len() - 4, s.len() as int)[3] == s[s.len() - 1]);
    }
}

/// Whether `path` names a Markdown file (`.md`).
pub fn is_markdown(path: &str) -> (res: bool)
    ensures
        res == ends_with(path@, md_suffix()),
        res == ends_in_md(path@),
{
    proof {
        lemma_file_kinds(path@);
    }
    let suffix = ".md";
    proof {
        reveal_strlit(".md");
        assert(suffix@ =~= md_suffix());
    }
    has_suffix(path, suffix)
}

/// Whether `path` names an MDX file (`.mdx`).
pub fn is_mdx(path: &str) -> (res: bool)
    ensures
        res == ends_with(path@, mdx_suffix()),
        res == ends_in_mdx(path@),
{
    proof {
        lemma_file_kinds(path@);
    }
    let suffix = ".mdx";
    proof {
        reveal_strlit(".mdx");
        assert(suffix@ =~= mdx_suffix());
    }
    has_suffix(path, suffix)
}

} // verus!
