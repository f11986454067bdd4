use faaf::gateway::walk::Walk;

fn listing(path: &str) -> Vec<String> {
    let children: &[&str] = match path {
        "/" => &["/bin", "/a.txt", "/etc", "/z"],
        "/bin" => &["/bin/ls", "/bin/sub", "/bin/cat"],
        "/bin/sub" => &["/bin/sub/deep"],
        "/etc" => &[],
        _ => &[],
    };
    children.iter().map(|c| c.to_string()).collect()
}

fn visit(root: &str) -> Vec<String> {
    let mut walk = Walk::start(root.to_string());
    let mut visited = Vec::new();
    while let Some(entry) = walk.next() {
        let children = listing(&entry);
        visited.push(entry);
        walk.listed(children);
    }
    visited
}

#[test]
fn the_walk_visits_a_directory_before_what_it_holds() {
    assert_eq!(
        visit("/"),
        vec![
            "/",
            "/bin",
            "/bin/ls",
            "/bin/sub",
            "/bin/sub/deep",
            "/bin/cat",
            "/a.txt",
            "/etc",
            "/z"
        ]
    );
    assert_eq!(visit("/bin/sub"), vec!["/bin/sub", "/bin/sub/deep"]);
    assert_eq!(visit("/z"), vec!["/z"]);
}

#[test]
fn the_walk_takes_the_last_pending_entry_and_lists_in_order() {
    let mut walk = Walk::start(1);
    assert_eq!(walk.pending, vec![1]);
    assert_eq!(walk.next(), Some(1));
    assert_eq!(walk.next(), None);
    walk.listed(vec![2, 3, 4]);
    assert_eq!(walk.pending, vec![4, 3, 2]);
    assert_eq!(walk.next(), Some(2));
    walk.listed(vec![5, 6]);
    assert_eq!(walk.pending, vec![4, 3, 6, 5]);
    walk.listed(vec![]);
    assert_eq!(walk.next(), Some(5));
    assert_eq!(walk.next(), Some(6));
    assert_eq!(walk.next(), Some(3));
    assert_eq!(walk.next(), Some(4));
    assert_eq!(walk.next(), None);
    assert_eq!(walk.next(), None);
}
