use wiki::article::{Article, ArticleError, ArticleHash, ArticleKey, VERSION};
use wiki::front::{check_front_matter, locate_front_matter, FrontMatterError};

const SHA256_EMPTY: &str = "e3b0c44298fc1c149afbf4c8996fb92427ae41e4649b934ca495991b7852b855";
const SHA256_ABC: &str = "ba7816bf8f01cfea414140de5dae2223b00361a396177a9cb410ff61f20015ad";

fn hex(bytes: &[u8]) -> String {
    bytes.iter().map(|b| format!("{:02x}", b)).collect()
}

fn key(s: &str) -> ArticleKey {
    ArticleKey::new(s.to_string())
}

#[test]
fn key_bytes_are_utf8() {
    assert_eq!(key("notes/é.md").as_bytes(), "notes/é.md".as_bytes());
    assert_eq!(key("").as_bytes(), b"");
}

#[test]
fn key_file_name_is_last_name() {
    assert_eq!(key("notes/rust/intro.md").file_name(), "intro.md");
    assert_eq!(key("intro.md").file_name(), "intro.md");
    assert_eq!(key("notes/").file_name(), "notes");
}

#[test]
fn key_is_path_inside_root() {
    assert_eq!(Article::key("/srv/wiki", "/srv/wiki/notes/a.md").as_str(), "notes/a.md");
    assert_eq!(Article::key("/srv/wiki/", "/srv/wiki/a.md").as_str(), "a.md");
    assert_eq!(Article::key(".", "./a.md").as_str(), "a.md");
    assert_eq!(wiki::db::Article::key("/srv/wiki", "/srv/wiki/x/y.md").as_str(), "x/y.md");
}

#[test]
fn content_hash_is_sha256_of_text() {
    assert_eq!(hex(Article::content_hash("").as_bytes()), SHA256_EMPTY);
    assert_eq!(hex(Article::content_hash("abc").as_bytes()), SHA256_ABC);
    assert_eq!(hex(wiki::db::Article::content_hash("abc").as_bytes()), SHA256_ABC);
    assert!(Article::content_hash("abc").same(&Article::content_hash("abc")));
    assert!(!Article::content_hash("abc").same(&Article::content_hash("abd")));
}

#[test]
fn front_matter_is_cut_at_offset_of_closing_marker() {
    assert_eq!(locate_front_matter("plain"), Ok(None));
    assert_eq!(locate_front_matter("---\nvalue: Title\n---\nbody"), Ok(Some(14)));
    assert_eq!(locate_front_matter("---\nvalue: x\n"), Err(FrontMatterError::Unterminated));
    assert_eq!(locate_front_matter("------"), Err(FrontMatterError::Misplaced));
    assert_eq!(locate_front_matter("---\n---"), Err(FrontMatterError::Misplaced));
    assert_eq!(locate_front_matter("---\nééé---"), Err(FrontMatterError::Misplaced));
    assert_eq!(
        check_front_matter("---\n- a\n- b\n- c\n- d\n---\nx"),
        Err(FrontMatterError::Unparsable)
    );
    assert_eq!(check_front_matter("---\nvalue: Title\n---\nbody"), Ok(()));
}

#[test]
fn parse_meta_splits_text() {
    let (body, meta) = Article::parse_meta("---\nvalue: Title\n---\nbody".to_string());
    assert_eq!(body, "le\n---\nbody");
    assert_eq!(
        meta.get(&serde_yaml::Value::String("value".to_string())),
        Some(&serde_yaml::Value::String("Tit".to_string()))
    );
    let (body, meta) = Article::parse_meta("# Plain\n".to_string());
    assert_eq!(body, "# Plain\n");
    assert!(meta.is_empty());
}

#[test]
fn from_str_reads_title_and_compiles() {
    let text = "---\nvalue: Intro\nlayout: page\n---\n# Intro\n".to_string();
    let hash = Article::content_hash(&text);
    let a = Article::from_str(key("notes/intro.md"), (text, hash.clone()));
    assert_eq!(a.key.as_str(), "notes/intro.md");
    assert_eq!(a.title, "Intro");
    assert_eq!(a.source, "ge\n---\n# Intro\n");
    assert_eq!(a.compiled, Some("<h2>ge</h2>\n<h1>Intro</h1>\n".to_string()));
    assert_eq!(a.compiler_ver, VERSION);
    assert_eq!(a.hash, hash);
    assert_eq!(a.meta.len(), 2);
}

#[test]
fn from_str_title_falls_back_to_file_name() {
    let a = Article::from_str(key("notes/intro.md"), ("# Intro".to_string(), ArticleHash::new(vec![1, 2])));
    assert_eq!(a.title, "intro.md");
    assert_eq!(a.source, "# Intro");
    assert_eq!(a.compiled, Some("<h1>Intro</h1>\n".to_string()));
    assert_eq!(a.hash.as_bytes(), &[1, 2]);
}

#[test]
fn get_title_and_parse_source() {
    let meta: serde_yaml::Mapping = serde_yaml::from_str("value: Hello\nother: 3").unwrap();
    assert_eq!(Article::get_title(&meta, "f.md".to_string()), "Hello");
    let meta: serde_yaml::Mapping = serde_yaml::from_str("value: 3").unwrap();
    assert_eq!(Article::get_title(&meta, "f.md".to_string()), "f.md");
    assert_eq!(Article::parse_source("*a*"), Some("<p><em>a</em></p>\n".to_string()));
}

#[test]
fn try_from_str_reports_why() {
    let h = ArticleHash::new(vec![]);
    assert_eq!(
        Article::try_from_str(key("notes/.."), ("x".to_string(), h.clone())).unwrap_err(),
        ArticleError::NoFileName
    );
    assert_eq!(
        Article::try_from_str(key("a.md"), ("---\nvalue: x\n".to_string(), h.clone())).unwrap_err(),
        ArticleError::FrontMatter(FrontMatterError::Unterminated)
    );
    assert!(Article::try_from_str(key("a.md"), ("text".to_string(), h)).is_ok());
}

#[test]
fn stored_record_keeps_whole_text() {
    let text = "---\nvalue: Intro\nlayout: page\n---\n# Intro\n".to_string();
    let a = wiki::db::Article::from_str(key("intro.md"), text.clone(), None);
    assert_eq!(a.title, "Intro");
    assert_eq!(a.body, text);
    assert_eq!(a.compiled, None);
    assert_eq!(a.hash, Article::content_hash(&text));
    let b = wiki::db::Article::from_str(key("intro.md"), "no meta".to_string(), Some(ArticleHash::new(vec![7])));
    assert_eq!(b.title, "");
    assert_eq!(b.hash.as_bytes(), &[7]);
    assert!(b.meta.is_empty());
    assert_eq!(
        wiki::db::Article::try_from_str(key("a.md"), "------".to_string(), None).unwrap_err(),
        FrontMatterError::Misplaced
    );
}

#[test]
fn different_keys_have_different_bytes() {
    assert_ne!(key("a/b.md").as_bytes(), key("a/c.md").as_bytes());
    assert_ne!(key("é.md").as_bytes(), key("e.md").as_bytes());
    assert_eq!(key("a/b.md").as_bytes(), key("a/b.md").as_bytes());
}

#[test]
fn text_without_front_matter_has_empty_meta() {
    let a = wiki::db::Article::from_str(key("a.md"), "hello".to_string(), Some(ArticleHash::new(vec![1, 2, 3])));
    assert_eq!(a.meta, serde_yaml::Mapping::new());
    assert_eq!(a.title, "");
    let b = Article::from_str(key("notes/a.md"), ("hello".to_string(), ArticleHash::new(vec![7])));
    assert_eq!(b.meta, serde_yaml::Mapping::new());
    assert_eq!(b.title, "a.md");
    assert_eq!(b.compiled, Some("<p>hello</p>\n".to_string()));
    let (body, meta) = Article::parse_meta("hello".to_string());
    assert_eq!(body, "hello");
    assert_eq!(meta, serde_yaml::Mapping::new());
}

#[test]
fn non_string_entries_are_kept_in_meta() {
    let (_, meta) = Article::parse_meta("---\n1: 2\nvalue: x\n---".to_string());
    assert_eq!(meta.len(), 2);
}
