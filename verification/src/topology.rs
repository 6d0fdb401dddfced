//! The neighbour map of the cluster, kept as a list of entries.

use vstd::prelude::*;

verus! {

/// The neighbour map that a list of `(node, peers)` entries denotes: the map
/// obtained by inserting the entries in order, so that of two entries for one
/// node the later one counts.
pub open spec fn adjacency(entries: Seq<(Seq<char>, Seq<Seq<char>>)>) -> Map<
    Seq<char>,
    Seq<Seq<char>>,
>
    decreases entries.len(),
{
    if entries.len() == 0 {
        Map::empty()
    } else {
        adjacency(entries.drop_last()).insert(entries.last().0, entries.last().1)
    }
}

/// Copies a list of node ids.
pub fn copy_ids(ids: &Vec<String>) -> (copy: Vec<String>)
    ensures
        copy.deep_view() == ids.deep_view(),
{
    let mut copy: Vec<String> = Vec::new();
    let mut i: usize = 0;
    while i < ids.len()
        invariant
            i <= ids.len(),
            copy.len() == i,
            forall|j: int| 0 <= j < i ==> copy[j]@ == ids[j]@,
        decreases ids.len() - i,
    {
        copy.push(ids[i].clone());
        i = i + 1;
    }
    copy
}

/// Copies a list of `(node, peers)` entries.
pub fn copy_entries(entries: &Vec<(String, Vec<String>)>) -> (copy: Vec<(String, Vec<String>)>)
    ensures
        copy.deep_view() == entries.deep_view(),
{
    let mut copy: Vec<(String, Vec<String>)> = Vec::new();
    let mut i: usize = 0;
    while i < entries.len()
        invariant
            i <= entries.len(),
            copy.len() == i,
            forall|j: int| 0 <= j < i ==> copy[j].deep_view() == entries[j].deep_view(),
        decreases entries.len() - i,
    {
        let node = entries[i].0.clone();
        let peers = copy_ids(&entries[i].1);
        copy.push((node, peers));
        i = i + 1;
    }
    copy
}

/// Looks up the peers of `node` in the map that `entries` denotes.
pub fn neighbours<'a>(entries: &'a Vec<(String, Vec<String>)>, node: &String) -> (peers: Option<
    &'a Vec<String>,
>)
    ensures
        peers is Some == adjacency(entries.deep_view()).contains_key(node@),
        peers matches Some(found) ==> found.deep_view() == adjacency(entries.deep_view())[node@],
{
    let ghost all = entries.deep_view();
    let mut peers: Option<&'a Vec<String>> = None;
    let mut i: usize = 0;
    while i < entries.len()
        invariant
            i <= entries.len(),
            all == entries.deep_view(),
            peers is Some == adjacency(all.take(i as int)).contains_key(node@),
            peers matches Some(found) ==> found.deep_view() == adjacency(all.take(i as int))[node@],
        decreases entries.len() - i,
    {
        assert(all.take(i + 1).drop_last() =~= all.take(i as int));
        if entries[i].0 == *node {
            peers = Some(&entries[i].1);
        }
        i = i + 1;
    }
    assert(all.take(i as int) =~= all);
    peers
}

} // verus!
