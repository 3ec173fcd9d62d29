use std::path::{Component as StdComponent, Path, PathBuf};
use vertebrae::path::{Component, FsPath};
use vertebrae::pathmap::PathMap;

/// All texts of at most `len` characters over a slash, a dot and a letter.
fn spellings(len: usize) -> Vec<String> {
    let mut all = vec![String::new()];
    let mut last = vec![String::new()];
    for _ in 0..len {
        let mut next = Vec::new();
        for s in &last {
            for c in ['/', '.', 'a'] {
                next.push(format!("{s}{c}"));
            }
        }
        all.extend(next.iter().cloned());
        last = next;
    }
    all
}

fn text(p: &FsPath) -> String {
    String::from_utf8(p.as_bytes().clone()).unwrap()
}

fn std_text(p: &Path) -> String {
    p.to_str().unwrap().to_string()
}

fn shown(c: &Component) -> String {
    match c {
        Component::RootDir => "/".to_string(),
        Component::CurDir => ".".to_string(),
        Component::ParentDir => "..".to_string(),
        Component::Normal(name) => format!("n{}", String::from_utf8(name.clone()).unwrap()),
    }
}

fn std_shown(c: StdComponent<'_>) -> String {
    match c {
        StdComponent::RootDir => "/".to_string(),
        StdComponent::CurDir => ".".to_string(),
        StdComponent::ParentDir => "..".to_string(),
        StdComponent::Normal(name) => format!("n{}", name.to_str().unwrap()),
        StdComponent::Prefix(_) => unreachable!(),
    }
}

#[test]
fn single_paths_agree_with_the_standard_library() {
    for s in spellings(7) {
        let ours = FsPath::from_text(&s);
        let theirs = PathBuf::from(&s);
        let our_parts: Vec<String> = ours.components().iter().map(shown).collect();
        let their_parts: Vec<String> = theirs.components().map(std_shown).collect();
        assert_eq!(our_parts, their_parts, "{s}");
        assert_eq!(ours.parent().map(|p| text(&p)), theirs.parent().map(std_text), "{s}");
        assert_eq!(
            ours.file_name(),
            theirs.file_name().map(|n| n.to_str().unwrap().as_bytes().to_vec()),
            "{s}"
        );
        let mut our_pop = ours.clone();
        let mut their_pop = theirs.clone();
        assert_eq!(our_pop.pop(), their_pop.pop(), "{s}");
        assert_eq!(text(&our_pop), std_text(&their_pop), "{s}");
        for name in ["b", "b.0", "/b", "", "..", "b/c"] {
            let mut our_name = ours.clone();
            let mut their_name = theirs.clone();
            our_name.set_file_name(name.as_bytes().to_vec());
            their_name.set_file_name(name);
            assert_eq!(text(&our_name), std_text(&their_name), "{s} {name}");
        }
    }
}

#[test]
fn pairs_of_paths_agree_with_the_standard_library() {
    let all = spellings(5);
    for s in &all {
        for t in &all {
            let (a, b) = (FsPath::from_text(s), FsPath::from_text(t));
            let (x, y) = (Path::new(s), Path::new(t));
            assert_eq!(a == b, x == y, "{s} {t}");
            assert_eq!(a.same_path(&b), x == y, "{s} {t}");
            assert_eq!(a.starts_with(&b), x.starts_with(y), "{s} {t}");
            assert_eq!(
                a.strip_prefix(&b).map(|p| text(&p)),
                x.strip_prefix(y).ok().map(std_text),
                "{s} {t}"
            );
            assert_eq!(text(&a.join(&b)), std_text(&x.join(y)), "{s} {t}");
        }
    }
}

#[test]
fn only_whole_components_are_a_prefix() {
    let p = FsPath::from_text("/home/me/notes");
    assert!(p.starts_with(&FsPath::from_text("/home/me")));
    assert!(p.starts_with(&FsPath::from_text("/home//me/")));
    assert!(!p.starts_with(&FsPath::from_text("/home/m")));
    assert!(p.strip_prefix(&FsPath::from_text("/home/you")).is_none());
    assert!(p.starts_with(&FsPath::from_text("")));
}

#[test]
fn a_stripped_prefix_can_be_joined_again() {
    let base = FsPath::from_text("/home/./me//");
    let p = FsPath::from_text("/home/me//docs/./a.txt/");
    let rel = p.strip_prefix(&base).unwrap();
    assert_eq!(text(&rel), "docs/./a.txt");
    assert!(base.join(&rel) == p);
}

#[test]
fn names_that_are_not_text_are_kept() {
    let p = FsPath::from_bytes(vec![47, 97, 47, 255, 254]);
    assert_eq!(p.file_name(), Some(vec![255, 254]));
    assert_eq!(p.parent().unwrap().as_bytes(), &vec![47, 97]);
}

#[test]
fn spellings_of_one_path_are_one_key() {
    let mut m: PathMap<u8> = PathMap::new();
    assert_eq!(m.insert(FsPath::from_text("/a/b"), 1), None);
    assert_eq!(m.insert(FsPath::from_text("/a//b/"), 2), Some(1));
    assert_eq!(m.insert(FsPath::from_text("/a/c"), 3), None);
    assert_eq!(m.len(), 2);
    assert_eq!(m.get(&FsPath::from_text("/a/./b")), Some(&2));
    assert!(!m.contains_key(&FsPath::from_text("a/b")));
    *m.get_mut(&FsPath::from_text("/a/c")).unwrap() = 7;
    assert_eq!(m.remove(&FsPath::from_text("/a/c/.")), Some(7));
    assert_eq!(m.remove(&FsPath::from_text("/a/c")), None);
    assert!(m.get_mut(&FsPath::from_text("/a/c")).is_none());
    assert_eq!(m.as_pairs().len(), 1);
}

#[test]
fn the_last_of_equal_keys_counts() {
    let m = PathMap::from_pairs(vec![
        (FsPath::from_text("x"), 1),
        (FsPath::from_text("y"), 2),
        (FsPath::from_text("x/"), 3),
    ]);
    assert_eq!(m.len(), 2);
    assert_eq!(m.get(&FsPath::from_text("x")), Some(&3));
}
