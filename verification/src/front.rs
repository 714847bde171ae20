//! Locating the YAML front matter of an article.
//!
//! A source that starts with `---` carries front matter. Its end is found by
//! searching the text that follows those three bytes for the next `---`; the
//! byte offset of that match, counted from the start of the searched text,
//! is then used as a byte offset into the whole source. The YAML text is the
//! source from byte 3 up to that offset, and the body starts at that offset.
//! All offsets here are byte offsets into the UTF-8 encoding of the source.
use vstd::prelude::*;
use vstd::utf8::*;
use serde_yaml::Mapping;
use crate::yaml::{empty_mapping, entry_count, no_entries, parse_mapping, parsed_count, parsed_entries, parsed_mapping, string_entries};

verus! {

broadcast use {
    vstd::utf8::encode_utf8_decode_utf8,
    vstd::utf8::encode_utf8_valid_utf8,
    vstd::utf8::valid_utf8_split,
    vstd::utf8::decode_utf8_split,
    vstd::utf8::is_char_boundary_start_end_of_seq,
};

/// The byte `-`.
pub open spec fn dash() -> u8 {
    45u8
}

/// `b` holds `---` at byte `i`.
pub open spec fn marker_at(b: Seq<u8>, i: int) -> bool {
    0 <= i && i + 3 <= b.len() && b[i] == dash() && b[i + 1] == dash() && b[i + 2] == dash()
}

/// `b` starts with `---`.
pub open spec fn opens_front_matter(b: Seq<u8>) -> bool {
    marker_at(b, 0)
}

/// The first byte offset at or after `i` where `b` holds `---`.
pub open spec fn find_marker(b: Seq<u8>, i: int) -> Option<int>
    decreases b.len() - i,
{
    if i < 0 || i + 3 > b.len() {
        None
    } else if marker_at(b, i) {
        Some(i)
    } else {
        find_marker(b, i + 1)
    }
}

/// Why the front matter of a source cannot be read.
#[derive(Debug, Clone, Copy, PartialEq, Eq)]
pub enum FrontMatterError {
    /// The source starts with `---` and holds no second `---`.
    Unterminated,
    /// The offset at which the front matter is cut does not lie after the
    /// opening `---` on a character boundary.
    Misplaced,
    /// The front matter is not a YAML mapping.
    Unparsable,
}

/// Where the front matter of the source with bytes `b` ends: `Ok(None)` when
/// it has none, `Ok(Some(e))` when the YAML text is `b[3..e]` and the body
/// `b[e..]`.
pub open spec fn front_matter_end(b: Seq<u8>) -> Result<Option<int>, FrontMatterError> {
    if !opens_front_matter(b) {
        Ok(None)
    } else {
        match find_marker(b, 3) {
            None => Err(FrontMatterError::Unterminated),
            Some(a) => {
                let e = a - 3;
                if 3 <= e && is_char_boundary(b, e) {
                    Ok(Some(e))
                } else {
                    Err(FrontMatterError::Misplaced)
                }
            },
        }
    }
}

/// The YAML text of a source whose front matter ends at byte `e`.
pub open spec fn yaml_text(s: Seq<char>, e: int) -> Seq<char> {
    let b = encode_utf8(s);
    decode_utf8(b.subrange(3, e))
}

/// The body of a source whose front matter ends at byte `e`.
pub open spec fn body_text(s: Seq<char>, e: int) -> Seq<char> {
    let b = encode_utf8(s);
    decode_utf8(b.subrange(e, b.len() as int))
}

proof fn lemma_find_marker_bound(b: Seq<u8>, i: int)
    ensures
        find_marker(b, i) matches Some(a) ==> i <= a && marker_at(b, a),
    decreases b.len() - i,
{
    if !(i < 0 || i + 3 > b.len()) && !marker_at(b, i) {
        lemma_find_marker_bound(b, i + 1);
    }
}

/// Three leading ASCII bytes end on a character boundary.
proof fn lemma_ascii_prefix_boundary(b: Seq<u8>)
    requires
        valid_utf8(b),
        b.len() >= 3,
        b[0] < 128,
        b[1] < 128,
        b[2] < 128,
    ensures
        is_char_boundary(b, 3),
{
    let b1 = pop_first_scalar(b);
    assert(b1 =~= b.subrange(1, b.len() as int));
    assert(valid_utf8(b1));
    let b2 = pop_first_scalar(b1);
    assert(b2 =~= b.subrange(2, b.len() as int));
    assert(valid_utf8(b2));
    let b3 = pop_first_scalar(b2);
    assert(b3 =~= b.subrange(3, b.len() as int));
    assert(valid_utf8(b3));
    assert(is_char_boundary(b3, 0));
    assert(is_char_boundary(b2, 1));
    assert(is_char_boundary(b1, 2));
}


/// The bytes at `i`, `i + 1` and `i + 2` of `b` are all `-`.
pub open spec fn dashes_at(b: Seq<u8>, i: int) -> bool {
    0 <= i && i + 3 <= b.len() && b[i] == 45u8 && b[i + 1] == 45u8 && b[i + 2] == 45u8
}

proof fn lemma_find_marker_first(b: Seq<u8>, i: int)
    requires
        0 <= i,
    ensures
        match find_marker(b, i) {
            Some(a) => i <= a && dashes_at(b, a) && forall|j: int| i <= j < a ==> !dashes_at(b, j),
            None => forall|j: int| i <= j ==> !dashes_at(b, j),
        },
    decreases b.len() - i,
{
    if i + 3 > b.len() {
    } else if marker_at(b, i) {
    } else {
        lemma_find_marker_first(b, i + 1);
    }
}

/// The front matter is cut at the first `---` after the opening one: a
/// source that does not start with `---` has none; when it is cut at `e`, the
/// source starts with `---`, bytes `e + 3 .. e + 6` are `---`, no `---` starts
/// at any byte in `3 .. e + 3`, `e >= 3` and `e` lies on a character boundary;
/// it is unterminated exactly when no `---` starts at byte 3 or later; and it
/// is misplaced when the first such `---`, at `a`, leaves `a - 3` before byte
/// 3 or inside a character.
pub proof fn lemma_front_matter_cut_at_first_marker(b: Seq<u8>)
    ensures
        !dashes_at(b, 0) ==> front_matter_end(b) == Ok::<Option<int>, FrontMatterError>(None),
        front_matter_end(b) matches Ok(Some(e)) ==> {
            &&& dashes_at(b, 0)
            &&& dashes_at(b, e + 3)
            &&& forall|j: int| 3 <= j < e + 3 ==> !dashes_at(b, j)
            &&& 3 <= e
            &&& is_char_boundary(b, e)
        },
        front_matter_end(b) == Err::<Option<int>, FrontMatterError>(FrontMatterError::Unterminated)
            <==> (dashes_at(b, 0) && forall|j: int| 3 <= j ==> !dashes_at(b, j)),
        front_matter_end(b) == Err::<Option<int>, FrontMatterError>(FrontMatterError::Misplaced)
            ==> exists|a: int| {
            &&& 3 <= a
            &&& dashes_at(b, a)
            &&& (forall|j: int| 3 <= j < a ==> !dashes_at(b, j))
            &&& !(3 <= a - 3 && is_char_boundary(b, a - 3))
        },
        front_matter_end(b) is Ok || front_matter_end(b) == Err::<Option<int>, FrontMatterError>(FrontMatterError::Unterminated)
            || front_matter_end(b) == Err::<Option<int>, FrontMatterError>(FrontMatterError::Misplaced),
{
    lemma_find_marker_first(b, 3);
    if dashes_at(b, 0) {
        match find_marker(b, 3) {
            Some(a) => {
                assert(dashes_at(b, a));
            },
            None => {},
        }
    }
}

/// Where the front matter of `source` ends (see `front_matter_end`).
pub fn locate_front_matter(source: &str) -> (res: Result<Option<usize>, FrontMatterError>)
    ensures
        match res {
            Ok(None) => front_matter_end(encode_utf8(source@)) == Ok::<Option<int>, FrontMatterError>(None),
            Ok(Some(e)) => front_matter_end(encode_utf8(source@)) == Ok::<Option<int>, FrontMatterError>(Some(e as int)),
            Err(err) => front_matter_end(encode_utf8(source@)) == Err::<Option<int>, FrontMatterError>(err),
        },
        res matches Ok(Some(e)) ==> {
            let b = encode_utf8(source@);
            &&& 3 <= e
            &&& dashes_at(b, e + 3)
            &&& forall|j: int| 3 <= j < e + 3 ==> !dashes_at(b, j)
        },
{
    proof {
        lemma_front_matter_cut_at_first_marker(encode_utf8(source@));
    }
    let bytes = source.as_bytes();
    let ghost b = encode_utf8(source@);
    let n = bytes.len();
    if !(n >= 3 && bytes[0] == 45u8 && bytes[1] == 45u8 && bytes[2] == 45u8) {
        return Ok(None);
    }
    let mut i: usize = 3;
    while n - i >= 3
        invariant
            bytes@ == b,
            b == encode_utf8(source@),
            n == b.len(),
            3 <= i <= n,
            opens_front_matter(b),
            find_marker(b, 3) == find_marker(b, i as int),
        decreases n - i,
    {
        if bytes[i] == 45u8 && bytes[i + 1] == 45u8 && bytes[i + 2] == 45u8 {
            let e = i - 3;
            if e >= 3 && source.is_char_boundary(e) {
                proof {
                    lemma_front_matter_cut_at_first_marker(b);
                }
                return Ok(Some(e));
            } else {
                return Err(FrontMatterError::Misplaced);
            }
        }
        i = i + 1;
    }
    Err(FrontMatterError::Unterminated)
}

/// The YAML text and the body of `source`, given where its front matter ends.
pub fn split_front_matter(source: &str, e: usize) -> (res: (&str, &str))
    requires
        front_matter_end(encode_utf8(source@)) == Ok::<Option<int>, FrontMatterError>(Some(e as int)),
    ensures
        res.0@ == yaml_text(source@, e as int),
        res.1@ == body_text(source@, e as int),
{
    let ghost b = encode_utf8(source@);
    proof {
        lemma_find_marker_bound(b, 3);
    }
    let (head, tail) = source.split_at(e);
    proof {
        assert(encode_utf8(head@) == b.subrange(0, e as int));
        assert(valid_utf8(b.subrange(0, e as int)));
        lemma_ascii_prefix_boundary(b.subrange(0, e as int));
        assert(head@ == decode_utf8(encode_utf8(head@)));
    }
    let (_, yaml) = head.split_at(3);
    proof {
        assert(encode_utf8(yaml@) =~= b.subrange(3, e as int));
        assert(yaml@ == decode_utf8(encode_utf8(yaml@)));
        assert(tail@ == decode_utf8(encode_utf8(tail@)));
    }
    (yaml, tail)
}

/// Why the front matter of the source `s` cannot be read, if it cannot.
pub open spec fn meta_error(s: Seq<char>) -> Option<FrontMatterError> {
    match front_matter_end(encode_utf8(s)) {
        Err(e) => Some(e),
        Ok(None) => None,
        Ok(Some(e)) => if parsed_mapping(yaml_text(s, e)) is Some {
            None
        } else {
            Some(FrontMatterError::Unparsable)
        },
    }
}

/// The front matter of the source `s` can be read.
pub open spec fn meta_readable(s: Seq<char>) -> bool {
    meta_error(s) is None
}

/// The string entries of the front matter of `s`; none without front matter.
pub open spec fn meta_entries(s: Seq<char>) -> Map<Seq<char>, Seq<char>> {
    match front_matter_end(encode_utf8(s)) {
        Ok(Some(e)) => parsed_entries(yaml_text(s, e)),
        _ => no_entries(),
    }
}

/// The number of entries of the front matter of `s`, of every kind; none
/// without front matter.
pub open spec fn meta_entry_count(s: Seq<char>) -> nat {
    match front_matter_end(encode_utf8(s)) {
        Ok(Some(e)) => parsed_count(yaml_text(s, e)),
        _ => 0,
    }
}

/// The text of `s` after its front matter; all of `s` without front matter.
pub open spec fn meta_body(s: Seq<char>) -> Seq<char> {
    match front_matter_end(encode_utf8(s)) {
        Ok(Some(e)) => body_text(s, e),
        _ => s,
    }
}

/// The front matter of `source`, parsed, and the text after it.
pub fn parse_front_matter(source: &str) -> (res: (Mapping, &str))
    requires
        meta_readable(source@),
    ensures
        string_entries(res.0) == meta_entries(source@),
        entry_count(res.0) == meta_entry_count(source@),
        res.1@ == meta_body(source@),
{
    match locate_front_matter(source) {
        Ok(Some(e)) => {
            let (yaml, body) = split_front_matter(source, e);
            let meta = parse_mapping(yaml).unwrap();
            (meta, body)
        },
        _ => (empty_mapping(), source),
    }
}

/// Whether the front matter of `source` can be read, and if not, why.
pub fn check_front_matter(source: &str) -> (res: Result<(), FrontMatterError>)
    ensures
        match res {
            Ok(()) => meta_readable(source@),
            Err(e) => meta_error(source@) == Some(e),
        },
{
    match locate_front_matter(source) {
        Err(e) => Err(e),
        Ok(None) => Ok(()),
        Ok(Some(e)) => {
            let (yaml, _) = split_front_matter(source, e);
            if parse_mapping(yaml).is_some() {
                Ok(())
            } else {
                Err(FrontMatterError::Unparsable)
            }
        },
    }
}

} // verus!
