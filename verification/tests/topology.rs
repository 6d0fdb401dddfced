use maelstrom::topology::{copy_entries, copy_ids, neighbours};

fn entries(list: &[(&str, &[&str])]) -> Vec<(String, Vec<String>)> {
    list.iter()
        .map(|(node, peers)| (node.to_string(), peers.iter().map(|peer| peer.to_string()).collect()))
        .collect()
}

#[test]
fn neighbours_of_a_listed_node() {
    let topology = entries(&[("n1", &["n2", "n3"]), ("n2", &["n1"])]);
    assert_eq!(
        neighbours(&topology, &"n1".to_string()),
        Some(&vec!["n2".to_string(), "n3".to_string()])
    );
    assert_eq!(neighbours(&topology, &"n2".to_string()), Some(&vec!["n1".to_string()]));
}

#[test]
fn neighbours_of_an_unlisted_node() {
    let topology = entries(&[("n1", &["n2", "n3"])]);
    assert_eq!(neighbours(&topology, &"n3".to_string()), None);
    assert_eq!(neighbours(&topology, &"".to_string()), None);
    assert_eq!(neighbours(&Vec::new(), &"n1".to_string()), None);
}

#[test]
fn neighbours_may_be_none_at_all() {
    let topology = entries(&[("n1", &[])]);
    assert_eq!(neighbours(&topology, &"n1".to_string()), Some(&Vec::new()));
}

#[test]
fn neighbours_takes_the_later_of_two_entries() {
    let topology = entries(&[("n1", &["n2"]), ("n2", &["n1"]), ("n1", &["n3", "n4"])]);
    assert_eq!(
        neighbours(&topology, &"n1".to_string()),
        Some(&vec!["n3".to_string(), "n4".to_string()])
    );
}

#[test]
fn copies_are_equal_to_what_was_copied() {
    let ids = vec!["n1".to_string(), String::new(), "n1".to_string()];
    assert_eq!(copy_ids(&ids), ids);
    assert_eq!(copy_ids(&Vec::new()), Vec::<String>::new());
    let topology = entries(&[("n1", &["n2", "n3"]), ("n2", &[]), ("n1", &["n2"])]);
    assert_eq!(copy_entries(&topology), topology);
    assert_eq!(copy_entries(&Vec::new()), Vec::new());
}
