//! Who is whose neighbour.

use vstd::prelude::*;

use crate::error::NodeError;

verus! {

/// The strings of `list`, each as its sequence of characters.
pub open spec fn names(list: Seq<String>) -> Seq<Seq<char>> {
    list.map_values(|name: String| name@)
}

/// One node and the nodes next to it.
#[derive(Debug, PartialEq, Eq)]
struct Adjacency {
    node: String,
    neighbors: Vec<String>,
}

/// A mapping from a node's id to the ids of its neighbours, in the order in
/// which they were given. Each node has at most one entry.
///
/// `==` compares the entries in the order in which the nodes were first
/// inserted; compare the lookups where that order should not count.
#[derive(Debug, PartialEq, Eq)]
pub struct Topology {
    entries: Vec<Adjacency>,
}

spec fn position(entries: Seq<Adjacency>, node: Seq<char>) -> int {
    choose|i: int| 0 <= i < entries.len() && entries[i].node@ == node
}

spec fn listed(entries: Seq<Adjacency>, node: Seq<char>) -> bool {
    exists|i: int| 0 <= i < entries.len() && #[trigger] entries[i].node@ == node
}

spec fn distinct(entries: Seq<Adjacency>) -> bool {
    forall|i: int, j: int|
        0 <= i < entries.len() && 0 <= j < entries.len() && i != j ==> #[trigger] entries[i].node@
            != #[trigger] entries[j].node@
}

spec fn as_map(entries: Seq<Adjacency>) -> Map<Seq<char>, Seq<Seq<char>>> {
    Map::new(
        |node: Seq<char>| listed(entries, node),
        |node: Seq<char>| names(entries[position(entries, node)].neighbors@),
    )
}

proof fn lemma_entry(entries: Seq<Adjacency>, i: int)
    requires
        distinct(entries),
        0 <= i < entries.len(),
    ensures
        as_map(entries).contains_key(entries[i].node@),
        as_map(entries)[entries[i].node@] == names(entries[i].neighbors@),
{
    let node = entries[i].node@;
    assert(listed(entries, node));
    let at = position(entries, node);
    assert(at == i);
}

proof fn lemma_pushed(entries: Seq<Adjacency>, entry: Adjacency)
    requires
        distinct(entries),
        !listed(entries, entry.node@),
    ensures
        distinct(entries.push(entry)),
        as_map(entries.push(entry)) == as_map(entries).insert(
            entry.node@,
            names(entry.neighbors@),
        ),
{
    let grown = entries.push(entry);
    assert(distinct(grown)) by {
        assert forall|i: int, j: int|
            0 <= i < grown.len() && 0 <= j < grown.len() && i != j implies #[trigger] grown[i].node@
            != #[trigger] grown[j].node@ by {
            if i < entries.len() && j < entries.len() {
                assert(entries[i].node@ != entries[j].node@);
            } else if i < entries.len() {
                assert(entries[i].node@ == grown[i].node@);
            } else {
                assert(entries[j].node@ == grown[j].node@);
            }
        }
    }
    let want = as_map(entries).insert(entry.node@, names(entry.neighbors@));
    assert forall|node: Seq<char>| as_map(grown).contains_key(node) <==> want.contains_key(
        node,
    ) by {
        if listed(grown, node) {
            let i = position(grown, node);
            if i < entries.len() {
                assert(entries[i].node@ == node);
            }
        }
        if listed(entries, node) {
            let i = position(entries, node);
            assert(grown[i].node@ == node);
        }
        if node == entry.node@ {
            assert(grown[entries.len() as int].node@ == node);
        }
    }
    assert forall|node: Seq<char>| as_map(grown).contains_key(node) implies as_map(grown)[node]
        == want[node] by {
        let i = position(grown, node);
        lemma_entry(grown, i);
        if i < entries.len() {
            assert(entries[i] == grown[i]);
            lemma_entry(entries, i);
        }
    }
    assert(as_map(grown) =~= want);
}

proof fn lemma_replaced(entries: Seq<Adjacency>, at: int, entry: Adjacency)
    requires
        distinct(entries),
        0 <= at < entries.len(),
        entries[at].node@ == entry.node@,
    ensures
        distinct(entries.update(at, entry)),
        as_map(entries.update(at, entry)) == as_map(entries).insert(
            entry.node@,
            names(entry.neighbors@),
        ),
{
    let changed = entries.update(at, entry);
    assert(distinct(changed)) by {
        assert forall|i: int, j: int|
            0 <= i < changed.len() && 0 <= j < changed.len() && i != j implies
            #[trigger] changed[i].node@ != #[trigger] changed[j].node@ by {
            assert(changed[i].node@ == entries[i].node@);
            assert(changed[j].node@ == entries[j].node@);
        }
    }
    let want = as_map(entries).insert(entry.node@, names(entry.neighbors@));
    assert forall|node: Seq<char>| as_map(changed).contains_key(node) <==> want.contains_key(
        node,
    ) by {
        if listed(changed, node) {
            let i = position(changed, node);
            assert(entries[i].node@ == node);
        }
        if listed(entries, node) {
            let i = position(entries, node);
            assert(changed[i].node@ == node);
        }
        if node == entry.node@ {
            assert(changed[at].node@ == node);
        }
    }
    assert forall|node: Seq<char>| as_map(changed).contains_key(node) implies as_map(
        changed,
    )[node] == want[node] by {
        let i = position(changed, node);
        lemma_entry(changed, i);
        if i != at {
            assert(entries[i] == changed[i]);
            lemma_entry(entries, i);
        }
    }
    assert(as_map(changed) =~= want);
}

/// A copy of `list`, name by name.
fn copy_names(list: &Vec<String>) -> (copy: Vec<String>)
    ensures
        copy@ == list@,
{
    let mut copy: Vec<String> = Vec::new();
    let mut i: usize = 0;
    while i < list.len()
        invariant
            i <= list@.len(),
            copy@ == list@.take(i as int),
        decreases list@.len() - i,
    {
        copy.push(list[i].clone());
        i += 1;
    }
    copy
}

impl View for Topology {
    type V = Map<Seq<char>, Seq<Seq<char>>>;

    closed spec fn view(&self) -> Map<Seq<char>, Seq<Seq<char>>> {
        as_map(self.entries@)
    }
}

spec fn alike(left: Seq<Adjacency>, right: Seq<Adjacency>) -> bool {
    &&& left.len() == right.len()
    &&& forall|i: int|
        0 <= i < left.len() ==> (#[trigger] left[i]).node@ == right[i].node@ && names(
            left[i].neighbors@,
        ) == names(right[i].neighbors@)
}

proof fn lemma_alike(left: Seq<Adjacency>, right: Seq<Adjacency>)
    requires
        alike(left, right),
        distinct(right),
    ensures
        distinct(left),
        as_map(left) == as_map(right),
{
    assert forall|i: int, j: int|
        0 <= i < left.len() && 0 <= j < left.len() && i != j implies #[trigger] left[i].node@
        != #[trigger] left[j].node@ by {
        assert(left[i].node@ == right[i].node@);
        assert(left[j].node@ == right[j].node@);
    }
    assert forall|node: Seq<char>| as_map(left).contains_key(node) <==> as_map(
        right,
    ).contains_key(node) by {
        if listed(left, node) {
            let i = position(left, node);
            assert(right[i].node@ == node);
        }
        if listed(right, node) {
            let i = position(right, node);
            assert(left[i].node@ == node);
        }
    }
    assert forall|node: Seq<char>| as_map(left).contains_key(node) implies as_map(left)[node]
        == as_map(right)[node] by {
        let i = position(left, node);
        lemma_entry(left, i);
        assert(right[i].node@ == node);
        lemma_entry(right, i);
    }
    assert(as_map(left) =~= as_map(right));
}

impl Clone for Topology {
    fn clone(&self) -> (copy: Self)
        ensures
            copy@ == self@,
    {
        proof {
            use_type_invariant(self);
        }
        let mut entries: Vec<Adjacency> = Vec::new();
        let mut i: usize = 0;
        while i < self.entries.len()
            invariant
                i <= self.entries@.len(),
                alike(entries@, self.entries@.take(i as int)),
            decreases self.entries@.len() - i,
        {
            let entry = &self.entries[i];
            entries.push(
                Adjacency { node: entry.node.clone(), neighbors: copy_names(&entry.neighbors) },
            );
            i += 1;
        }
        proof {
            assert(self.entries@.take(i as int) == self.entries@);
            lemma_alike(entries@, self.entries@);
        }
        Topology { entries }
    }
}

impl Topology {
    #[verifier::type_invariant]
    spec fn well_formed(self) -> bool {
        distinct(self.entries@)
    }

    /// A topology in which no node has an entry.
    pub fn new() -> (topology: Self)
        ensures
            topology@ == Map::<Seq<char>, Seq<Seq<char>>>::empty(),
    {
        let topology = Topology { entries: Vec::new() };
        assert(topology@ =~= Map::<Seq<char>, Seq<Seq<char>>>::empty());
        topology
    }

    fn find(&self, node: &String) -> (at: Option<usize>)
        ensures
            match at {
                Some(i) => i < self.entries@.len() && self.entries@[i as int].node@ == node@,
                None => !listed(self.entries@, node@),
            },
    {
        let mut i: usize = 0;
        while i < self.entries.len()
            invariant
                i <= self.entries@.len(),
                forall|j: int| 0 <= j < i ==> self.entries@[j].node@ != node@,
            decreases self.entries@.len() - i,
        {
            if self.entries[i].node == *node {
                return Some(i);
            }
            i += 1;
        }
        None
    }

    /// Gives `node` the neighbours `neighbors`, in place of any it had.
    pub fn insert(&mut self, node: String, neighbors: Vec<String>)
        ensures
            final(self)@ == old(self)@.insert(node@, names(neighbors@)),
    {
        proof {
            use_type_invariant(&*self);
        }
        let found = self.find(&node);
        let entry = Adjacency { node, neighbors };
        let mut entries: Vec<Adjacency> = Vec::new();
        std::mem::swap(&mut self.entries, &mut entries);
        match found {
            Some(at) => {
                proof {
                    lemma_replaced(entries@, at as int, entry);
                }
                entries.set(at, entry);
            },
            None => {
                proof {
                    lemma_pushed(entries@, entry);
                }
                entries.push(entry);
            },
        }
        std::mem::swap(&mut self.entries, &mut entries);
    }

    /// The neighbours of `node`. A node without an entry, or with an empty
    /// one, has none to offer.
    pub fn neighbors_of(&self, node: &String) -> (found: Result<&Vec<String>, NodeError>)
        ensures
            match found {
                Ok(list) => self@.contains_key(node@) && names(list@) == self@[node@]
                    && list@.len() > 0,
                Err(e) => e == NodeError::TopologyLookupMiss && (!self@.contains_key(node@)
                    || self@[node@].len() == 0),
            },
    {
        proof {
            use_type_invariant(self);
        }
        match self.find(node) {
            Some(at) => {
                proof {
                    lemma_entry(self.entries@, at as int);
                }
                let list = &self.entries[at].neighbors;
                if list.len() == 0 {
                    Err(NodeError::TopologyLookupMiss)
                } else {
                    Ok(list)
                }
            },
            None => Err(NodeError::TopologyLookupMiss),
        }
    }

    /// Every entry as a pair of the node and its neighbours, each node once.
    pub fn pairs(&self) -> (list: Vec<(String, Vec<String>)>)
        ensures
            forall|i: int|
                0 <= i < list@.len() ==> self@.contains_key((#[trigger] list@[i]).0@)
                    && self@[list@[i].0@] == names(list@[i].1@),
            forall|node: Seq<char>|
                self@.contains_key(node) ==> exists|i: int|
                    0 <= i < list@.len() && (#[trigger] list@[i]).0@ == node,
            forall|i: int, j: int|
                0 <= i < list@.len() && 0 <= j < list@.len() && i != j ==> (#[trigger] list@[i]).0@
                    != (#[trigger] list@[j]).0@,
    {
        proof {
            use_type_invariant(self);
        }
        let mut list: Vec<(String, Vec<String>)> = Vec::new();
        let mut i: usize = 0;
        while i < self.entries.len()
            invariant
                i <= self.entries@.len(),
                list@.len() == i,
                forall|j: int|
                    0 <= j < i ==> (#[trigger] list@[j]).0@ == self.entries@[j].node@ && names(
                        list@[j].1@,
                    ) == names(self.entries@[j].neighbors@),
            decreases self.entries@.len() - i,
        {
            let entry = &self.entries[i];
            list.push((entry.node.clone(), copy_names(&entry.neighbors)));
            i += 1;
        }
        proof {
            assert forall|j: int| 0 <= j < list@.len() implies self@.contains_key(
                (#[trigger] list@[j]).0@,
            ) && self@[list@[j].0@] == names(list@[j].1@) by {
                lemma_entry(self.entries@, j);
            }
            assert forall|node: Seq<char>| self@.contains_key(node) implies exists|j: int|
                0 <= j < list@.len() && (#[trigger] list@[j]).0@ == node by {
                let at = position(self.entries@, node);
                assert(list@[at].0@ == node);
            }
            assert forall|a: int, b: int|
                0 <= a < list@.len() && 0 <= b < list@.len() && a != b implies (
            #[trigger] list@[a]).0@ != (#[trigger] list@[b]).0@ by {
                assert(self.entries@[a].node@ != self.entries@[b].node@);
            }
        }
        list
    }
}

} // verus!
