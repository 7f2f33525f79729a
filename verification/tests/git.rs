use beholder::git::{
    canonical_remote, canonical_url, is_prunable, listing_failed, local_repository_identity, ordered_trees, prunable_worktrees,
    repository_identity, repository_state, select_tree, state_fingerprint, Remote, Source, WorkingTree,
};

fn tree(parts: &[&str], head: &str, branch: Option<&str>) -> WorkingTree {
    WorkingTree {
        path: parts.iter().map(|part| (*part).to_owned()).collect(),
        head: head.to_owned(),
        branch: branch.map(|branch| branch.to_owned()),
    }
}

fn path(parts: &[&str]) -> Vec<String> {
    parts.iter().map(|part| (*part).to_owned()).collect()
}

fn source(path: &str, text: &str) -> Source {
    Source { path: path.to_owned(), text: text.to_owned() }
}

#[test]
fn remotes_are_canonical() {
    for remote in [
        "git@github.com:company/payments.git",
        "https://github.com/company/payments.git",
        "ssh://git@github.com/company/payments.git",
    ] {
        assert_eq!(canonical_remote(remote), Some("github.com/company/payments".to_owned()));
    }
    assert_eq!(canonical_remote(" https://github.com/company/payments/ "), Some("github.com/company/payments".to_owned()));
    assert_eq!(canonical_remote("/srv/git/payments"), None);
}

#[test]
fn remotes_need_a_host_and_a_readable_path() {
    let remote = |host: Option<&str>, path: &[u8]| Remote { host: host.map(|host| host.to_owned()), path: path.to_vec() };
    assert_eq!(canonical_url(&remote(Some("host"), b"/a/b.git")), Some("host/a/b".to_owned()));
    assert_eq!(canonical_url(&remote(None, b"/a/b.git")), None);
    assert_eq!(canonical_url(&remote(Some("host"), &[0x2f, 0xff])), None);
}

#[test]
fn repositories_without_a_remote_are_local() {
    assert_eq!(local_repository_identity(Some("payments"), "/srv/payments").as_deref(), Ok("payments"));
    assert_eq!(
        local_repository_identity(None, "/").err().as_deref(),
        Some("cannot derive repository identity from /")
    );
    let remote = Remote { host: Some("github.com".to_owned()), path: b"company/payments.git".to_vec() };
    assert_eq!(
        repository_identity(Some(&remote), Some("payments"), "/srv/payments").as_deref(),
        Ok("github.com/company/payments")
    );
    assert_eq!(repository_identity(None, Some("payments"), "/srv/payments").as_deref(), Ok("payments"));
}

#[test]
fn the_innermost_working_tree_is_chosen() {
    let trees = ordered_trees(vec![
        tree(&["srv", "payments", "linked"], "b", Some("feature")),
        tree(&["srv", "payments"], "a", Some("main")),
        tree(&["srv", "other"], "c", None),
    ]);
    let heads: Vec<&str> = trees.iter().map(|tree| tree.head.as_str()).collect();
    assert_eq!(heads, ["c", "a", "b"]);
    let chosen = select_tree(&trees, &path(&["srv", "payments", "linked", "src"])).unwrap();
    assert_eq!(trees[chosen].head, "b");
    let outer = select_tree(&trees, &path(&["srv", "payments", "src"])).unwrap();
    assert_eq!(trees[outer].head, "a");
    assert_eq!(select_tree(&trees, &path(&["home"])), None);
}

#[test]
fn state_fingerprints_are_digests() {
    assert_eq!(
        state_fingerprint("example/repo", Some("abc"), &vec![source("src/lib.rs", "fn main() {}\n")]),
        "2b6412ace6e8c1130403090f3b1ead1c017645bd74e8d3ce98a4d91e37176c31"
    );
    assert_eq!(
        state_fingerprint("example/repo", None, &Vec::new()),
        "7968fde08da3b1c8574aec94043be27b1fe7f98d769c536c1928aabb08b10c54"
    );
    assert_ne!(
        state_fingerprint("example/repo", None, &vec![source("ab", "c")]),
        state_fingerprint("example/repo", None, &vec![source("a", "bc")])
    );
}

#[test]
fn states_take_the_head_of_their_working_tree() {
    let trees = vec![tree(&["srv", "payments"], "abc", Some("main"))];
    let sources = vec![source("src/lib.rs", "fn main() {}\n")];
    let inside =
        repository_state("example/repo".to_owned(), Some(&trees), &path(&["srv", "payments", "src"]), "src", &sources).unwrap();
    assert_eq!(inside.head.as_deref(), Some("abc"));
    assert_eq!(inside.repository.identity, "example/repo");
    assert_eq!(inside.fingerprint, state_fingerprint("example/repo", Some("abc"), &sources));

    let plain = repository_state("local/repo".to_owned(), None, &path(&["srv"]), "srv", &sources).unwrap();
    assert_eq!(plain.head, None);

    let outside = repository_state("example/repo".to_owned(), Some(&trees), &path(&["home"]), "/home", &sources);
    assert_eq!(outside.err().as_deref(), Some("/home is not inside a discovered working tree"));
}

#[test]
fn prunable_working_trees_are_listed() {
    let listing = b"worktree /srv/main\0HEAD abc\0branch refs/heads/main\0\0worktree /srv/gone\0HEAD def\0prunable gitdir file points to non-existent location\0\0worktree /srv/kept\0HEAD ghi\0locked\0\0";
    let paths = prunable_worktrees(&listing.to_vec());
    assert_eq!(paths, [b"/srv/gone".to_vec()]);
    assert!(is_prunable(&paths, &b"/srv/gone".to_vec()));
    assert!(!is_prunable(&paths, &b"/srv/kept".to_vec()));
    assert_eq!(listing_failed("/srv", " fatal \n"), "git worktree list failed for /srv: fatal");
}
