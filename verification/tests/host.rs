use wiki::article::{ArticleHash, ArticleKey};
use wiki::db::Article;
use wiki::host::{file_to_build, finish_build, needs_build, try_finish_build, BuildError, ErrorInfo};
use wiki::watch::WatchEvent;

fn record(text: &str) -> Article {
    Article::from_str(ArticleKey::new("a.mdx".to_string()), text.to_string(), None)
}

#[test]
fn build_needed_only_for_new_or_changed_text() {
    let h = Article::content_hash("x");
    assert!(needs_build(&None, &h));
    assert!(!needs_build(&Some(record("x")), &h));
    assert!(needs_build(&Some(record("y")), &h));
}

#[test]
fn unchanged_record_is_kept() {
    let h = Article::content_hash("x");
    let a = finish_build(ArticleKey::new("a.mdx".to_string()), Some(record("x")), "x".to_string(), h.clone(), None).unwrap();
    assert_eq!(a.body, "x");
    assert_eq!(a.compiled, None);
    assert_eq!(a.hash, h);
}

#[test]
fn js_error_is_reported() {
    let err = ErrorInfo { message: "boom".to_string(), filename: "script".to_string(), lineno: 3, column: 4 };
    let res = finish_build(
        ArticleKey::new("a.mdx".to_string()),
        None,
        "x".to_string(),
        Article::content_hash("x"),
        Some(Err(err.clone())),
    );
    assert_eq!(res.unwrap_err(), BuildError::JsError(err));
}

#[test]
fn stored_record_gets_html_and_hash() {
    let h = Article::content_hash("new");
    let a = finish_build(
        ArticleKey::new("a.mdx".to_string()),
        Some(record("old")),
        "new".to_string(),
        h.clone(),
        Some(Ok("<p>new</p>".to_string())),
    )
    .unwrap();
    assert_eq!(a.body, "old");
    assert_eq!(a.compiled, Some("<p>new</p>".to_string()));
    assert_eq!(a.hash, h);
    assert!(!needs_build(&Some(a), &h));
}

#[test]
fn new_record_is_made_from_text() {
    let text = "---\nvalue: hi\n\n\n---".to_string();
    let h = Article::content_hash(&text);
    let a = finish_build(
        ArticleKey::new("a.mdx".to_string()),
        None,
        text,
        h.clone(),
        Some(Ok("<p>ignored</p>".to_string())),
    )
    .unwrap();
    assert_eq!(a.title, "hi");
    assert_eq!(a.compiled, None);
    assert_eq!(a.hash, h);
    assert_eq!(a.meta.len(), 1);
    assert_eq!(
        try_finish_build(
            ArticleKey::new("a.mdx".to_string()),
            None,
            "---".to_string(),
            Article::content_hash("---"),
            Some(Ok(String::new()))
        ),
        None
    );
}

#[test]
fn try_finish_build_refuses_inputs_of_no_build() {
    let key = || ArticleKey::new("a.mdx".to_string());
    assert_eq!(
        try_finish_build(key(), None, "x".to_string(), ArticleHash::new(vec![9]), Some(Ok(String::new()))),
        None
    );
    assert_eq!(try_finish_build(key(), None, "x".to_string(), Article::content_hash("x"), None), None);
    let built = try_finish_build(key(), None, "x".to_string(), Article::content_hash("x"), Some(Ok(String::new())))
        .unwrap()
        .unwrap();
    assert_eq!(built.body, "x");
    assert!(built.meta.is_empty());
}

#[test]
fn error_report_without_file_is_filed_under_none() {
    let e = ErrorInfo::from_report(None, "boom".to_string(), 1, 2);
    assert_eq!(e.filename, "none");
    assert_eq!(e.message, "boom");
    assert_eq!((e.lineno, e.column), (1, 2));
    assert_eq!(ErrorInfo::from_report(Some("s.js".to_string()), "m".to_string(), 0, 0).filename, "s.js");
}

#[test]
fn host_builds_updated_mdx_files_only() {
    let ev = WatchEvent::Update("/w/a.mdx".to_string());
    assert_eq!(file_to_build(&ev), Some(&"/w/a.mdx".to_string()));
    assert_eq!(file_to_build(&WatchEvent::Update("/w/a.md".to_string())), None);
    assert_eq!(file_to_build(&WatchEvent::Remove("/w/a.mdx".to_string())), None);
    assert_eq!(
        file_to_build(&WatchEvent::Rename("/w/a.mdx".to_string(), "/w/b.mdx".to_string())),
        None
    );
}
