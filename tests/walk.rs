use elfdeps::{link_destination, Walk};

/// Runs a walk over `deps` on a filesystem whose symbolic links are `links`
/// (path, target), every other path being a plain file, and returns the
/// paths found, sorted.
fn resolve(deps: &[&str], links: &[(&str, &str)]) -> Vec<String> {
    let mut walk = Walk::new(deps.iter().map(|d| d.to_string()).collect());
    let mut steps = 0;
    while let Some(path) = walk.next_path() {
        steps += 1;
        assert!(steps < 100, "the walk does not end");
        match links.iter().find(|(l, _)| *l == path) {
            Some((_, target)) => walk.found_link(&path, target),
            None => walk.found_file(&path),
        }
    }
    let mut seen = walk.into_found();
    seen.sort();
    seen
}

#[test]
fn plain_path_is_kept_as_it_is() {
    let mut walk = Walk::new(vec![String::from("/lib/libc.so.6")]);
    let path = walk.next_path().unwrap();
    assert_eq!(path, "/lib/libc.so.6");
    walk.found_file(&path);
    assert_eq!(walk.next_path(), None);
    assert_eq!(walk.into_found(), vec![String::from("/lib/libc.so.6")]);
}

#[test]
fn link_cycle_ends_with_both_seen() {
    let mut walk = Walk::new(vec![String::from("/a")]);
    let a = walk.next_path().unwrap();
    assert_eq!(a, "/a");
    walk.found_link(&a, "/b");
    let b = walk.next_path().unwrap();
    assert_eq!(b, "/b");
    walk.found_link(&b, "/a");
    assert_eq!(walk.next_path(), None);
    assert_eq!(walk.into_found(), vec![String::from("/a")]);
}

#[test]
fn link_to_itself_ends() {
    let seen = resolve(&["/x/self"], &[("/x/self", "self")]);
    assert_eq!(seen, vec![String::from("/x/self")]);
}

#[test]
fn relative_link_chain_stays_in_link_dir() {
    assert_eq!(link_destination("/x/y/lib.so", "lib.so.1"), "/x/y/lib.so.1");
    assert_eq!(link_destination("/x/y/lib.so.1", "lib.so.1.2"), "/x/y/lib.so.1.2");
    let seen = resolve(
        &["/x/y/lib.so"],
        &[("/x/y/lib.so", "lib.so.1"), ("/x/y/lib.so.1", "lib.so.1.2")],
    );
    assert_eq!(seen, vec![String::from("/x/y/lib.so.1.2")]);
}

#[test]
fn absolute_target_is_taken_as_it_is() {
    assert_eq!(link_destination("/x/y/lib.so", "/opt/lib.so.1"), "/opt/lib.so.1");
}

#[test]
fn relative_target_of_link_in_root_or_cwd() {
    assert_eq!(link_destination("/lib.so", "lib.so.1"), "/lib.so.1");
    assert_eq!(link_destination("lib.so", "lib.so.1"), "lib.so.1");
    assert_eq!(link_destination("d/lib.so", "../e/lib.so.1"), "d/../e/lib.so.1");
}

#[test]
fn shared_links_are_seen_once() {
    let seen = resolve(
        &["/lib/a.so", "/lib/b.so"],
        &[("/lib/a.so", "c.so"), ("/lib/b.so", "c.so")],
    );
    assert_eq!(seen, vec![String::from("/lib/c.so")]);
}

#[test]
fn empty_walk_sees_nothing() {
    let mut walk = Walk::new(vec![]);
    assert_eq!(walk.next_path(), None);
    assert!(walk.into_found().is_empty());
}

#[test]
fn link_to_plain_file_leaves_only_the_file() {
    let seen = resolve(&["/x/y/lib.so"], &[("/x/y/lib.so", "lib.so.1.2")]);
    assert_eq!(seen, vec![String::from("/x/y/lib.so.1.2")]);
}

#[test]
fn chain_joining_an_earlier_chain_adds_no_link() {
    let seen = resolve(
        &["/lib/b.so", "/lib/a.so"],
        &[("/lib/a.so", "c.so"), ("/lib/c.so", "d.so"), ("/lib/b.so", "c.so")],
    );
    assert_eq!(seen, vec![String::from("/lib/d.so")]);
}

#[test]
fn cycle_reached_from_outside_ends_at_its_entry() {
    let seen = resolve(&["/l/x"], &[("/l/x", "a"), ("/l/a", "b"), ("/l/b", "a")]);
    assert_eq!(seen, vec![String::from("/l/a")]);
}
