use std::path::Path;

use wiki::path::{file_name, strip_prefix};

fn std_file_name(p: &str) -> Option<String> {
    Path::new(p).file_name().map(|s| s.to_str().unwrap().to_string())
}

fn std_strip_prefix(p: &str, b: &str) -> Option<String> {
    Path::new(p)
        .strip_prefix(b)
        .ok()
        .map(|r| r.to_str().unwrap().to_string())
}

fn samples() -> Vec<String> {
    let parts = ["", "/", ".", "..", "a", "b", "c.md", "./", "//", "é"];
    let mut out = Vec::new();
    for x in parts.iter() {
        for y in parts.iter() {
            for z in parts.iter() {
                out.push(format!("{}{}{}", x, y, z));
                out.push(format!("{}/{}/{}", x, y, z));
            }
        }
    }
    out.sort();
    out.dedup();
    out
}

#[test]
fn file_name_agrees_with_std_path() {
    for p in samples() {
        assert_eq!(file_name(&p), std_file_name(&p), "path {:?}", p);
    }
}

#[test]
fn strip_prefix_agrees_with_std_path() {
    let all = samples();
    let bases: Vec<&String> = all.iter().step_by(7).collect();
    for p in all.iter() {
        for b in bases.iter() {
            assert_eq!(
                strip_prefix(p, b),
                std_strip_prefix(p, b),
                "path {:?} base {:?}",
                p,
                b
            );
        }
    }
}

#[test]
fn file_name_examples() {
    assert_eq!(file_name("notes/rust/intro.md"), Some("intro.md".to_string()));
    assert_eq!(file_name("notes/rust/"), Some("rust".to_string()));
    assert_eq!(file_name("notes/.."), None);
    assert_eq!(file_name("/"), None);
    assert_eq!(file_name(""), None);
}

#[test]
fn strip_prefix_examples() {
    assert_eq!(
        strip_prefix("/home/wiki/notes/a.md", "/home/wiki"),
        Some("notes/a.md".to_string())
    );
    assert_eq!(strip_prefix("/home/wiki/a.md", "/home/wiki/"), Some("a.md".to_string()));
    assert_eq!(strip_prefix("/home/wikis/a.md", "/home/wiki"), None);
    assert_eq!(strip_prefix("/home/wiki", "/home/wiki"), Some("".to_string()));
    assert_eq!(strip_prefix("a/b", ""), Some("a/b".to_string()));
}

#[test]
fn stripped_key_joins_back_onto_root() {
    let all = samples();
    let bases: Vec<&String> = all.iter().step_by(7).filter(|b| !b.is_empty()).collect();
    for p in all.iter() {
        for b in bases.iter() {
            if let Some(rel) = strip_prefix(p, b) {
                assert!(!rel.starts_with('/'), "path {:?} base {:?}", p, b);
                let joined = Path::new(b.as_str()).join(&rel);
                assert!(
                    joined.components().eq(Path::new(p.as_str()).components()),
                    "path {:?} base {:?} rel {:?}",
                    p,
                    b,
                    rel
                );
            }
        }
    }
}

#[test]
fn key_example_joins_back() {
    let rel = strip_prefix("/srv/wiki/notes/a.md", "/srv/wiki").unwrap();
    assert_eq!(rel, "notes/a.md");
    assert_eq!(Path::new("/srv/wiki").join(&rel), Path::new("/srv/wiki/notes/a.md"));
}

#[test]
fn key_under_empty_root_is_the_path() {
    for p in samples() {
        let rel = strip_prefix(&p, "").unwrap();
        assert_eq!(rel.starts_with('/'), p.starts_with('/'), "path {:?}", p);
        assert!(Path::new("").join(&rel).components().eq(Path::new(p.as_str()).components()), "path {:?}", p);
    }
    assert_eq!(strip_prefix("notes/a.md/", ""), Some("notes/a.md".to_string()));
}
