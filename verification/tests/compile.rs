use wiki::article::{Article, ArticleHash, ArticleKey, VERSION};
use wiki::compiler::{BuildError, Compiled, WikiCompiler};
use wiki::watch::WatchEvent;

fn compiler() -> WikiCompiler {
    WikiCompiler::new("/srv/wiki".to_string())
}

#[test]
fn only_markdown_files_are_planned() {
    let c = compiler();
    assert_eq!(c.plan("/srv/wiki/style.css"), None);
    assert_eq!(c.plan("/srv/wiki/notes/a.md").map(|k| k.as_str().to_string()), Some("notes/a.md".to_string()));
    assert_eq!(c.plan("/srv/wiki/a.mdx"), None);
}

#[test]
fn new_file_is_built() {
    let c = compiler();
    let res = c.compile(ArticleKey::new("a.md".to_string()), None, "# A".to_string());
    assert!(res.must_save());
    let a = res.into_article();
    assert_eq!(a.title, "a.md");
    assert_eq!(a.compiler_ver, VERSION);
    assert_eq!(a.hash, Article::content_hash("# A"));
}

#[test]
fn compiling_same_text_twice_keeps_article() {
    let c = compiler();
    let first = c.compile(ArticleKey::new("a.md".to_string()), None, "# A".to_string()).into_article();
    let second = c.compile(ArticleKey::new("a.md".to_string()), Some(first), "# A".to_string());
    assert!(!second.must_save());
    match second {
        Compiled::Unchanged(a) => assert_eq!(a.compiled, Some("<h1>A</h1>\n".to_string())),
        Compiled::Rebuilt(_) => panic!("expected the stored article"),
    }
}

#[test]
fn changed_text_or_version_rebuilds() {
    let c = compiler();
    let first = c.compile(ArticleKey::new("a.md".to_string()), None, "# A".to_string()).into_article();
    let changed = c.compile(ArticleKey::new("a.md".to_string()), Some(first), "# B".to_string());
    assert!(changed.must_save());
    let mut old = changed.into_article();
    assert_eq!(old.compiled, Some("<h1>B</h1>\n".to_string()));
    old.compiler_ver = VERSION + 1;
    let again = c.compile(ArticleKey::new("a.md".to_string()), Some(old), "# B".to_string());
    assert!(again.must_save());
    assert_eq!(again.into_article().compiler_ver, VERSION);
}

#[test]
fn try_compile_reports_unreadable_front_matter() {
    let c = compiler();
    assert!(c.try_compile(ArticleKey::new("a.md".to_string()), None, "---\nx".to_string()).is_err());
    let stored = c.compile(ArticleKey::new("a.md".to_string()), None, "ok".to_string()).into_article();
    let kept = c.try_compile(ArticleKey::new("a.md".to_string()), Some(stored), "ok".to_string()).unwrap();
    assert!(!kept.must_save());
    let _ = ArticleHash::new(vec![]);
}

#[test]
fn handle_routes_events() {
    let c = compiler();
    assert_eq!(c.handle(WatchEvent::Remove("/srv/wiki/a.md".to_string())).unwrap_err(), BuildError::Error);
    assert_eq!(
        c.handle(WatchEvent::Rename("/srv/wiki/a.md".to_string(), "/srv/wiki/b.md".to_string())).unwrap_err(),
        BuildError::Error
    );
    assert_eq!(c.handle(WatchEvent::Update("/srv/wiki/a.txt".to_string())).unwrap(), None);
    assert_eq!(
        c.handle(WatchEvent::Update("/srv/wiki/a.md".to_string())).unwrap().map(|k| k.as_str().to_string()),
        Some("a.md".to_string())
    );
}
