//! A Huffman coder for byte strings.
//!
//! The bytes of the input are the leaves of a binary tree. A byte is coded
//! by the path from the root of the tree to its leaf: a step to the left is
//! `false`, a step to the right is `true`. The tree is built from the bottom:
//! the two least frequent nodes are joined under a new node, again and again,
//! until one node is left.

use std::collections::HashMap;
use vstd::prelude::*;

verus! {

broadcast use vstd::std_specs::hash::group_hash_axioms;

/// A node of the code tree: a leaf with its byte, or an inner node with two
/// children. `freq` counts the bytes of the input below the node.
#[derive(Debug, PartialEq, Eq)]
pub struct Node {
    pub byte: Option<u8>,
    pub freq: u64,
    pub left: Option<Box<Node>>,
    pub right: Option<Box<Node>>,
}

impl Node {
    /// A node with these fields.
    pub fn new(byte: Option<u8>, freq: u64, left: Option<Box<Node>>, right: Option<Box<Node>>) -> (node:
        Self)
        ensures
            node == (Node { byte, freq, left, right }),
    {
        Node { byte, freq, left, right }
    }

    /// Whether the node has no children.
    pub fn is_leaf(&self) -> (r: bool)
        ensures
            r == (self.left is None && self.right is None),
    {
        self.left.is_none() && self.right.is_none()
    }

    /// The node in a box, as a child of another node.
    pub fn box_and_wrap(self) -> (r: Option<Box<Node>>)
        ensures
            r == Some(Box::new(self)),
    {
        let boxed_value = Box::new(self);
        Some(boxed_value)
    }
}

/// How often `byte` occurs in `data`.
pub open spec fn count_of(data: Seq<u8>, byte: u8) -> nat
    decreases data.len(),
{
    if data.len() == 0 {
        0
    } else {
        count_of(data.drop_last(), byte) + if data.last() == byte {
            1nat
        } else {
            0nat
        }
    }
}

/// A byte occurs in a string at most as often as the string is long.
pub proof fn lemma_count_bound(data: Seq<u8>, byte: u8)
    ensures
        count_of(data, byte) <= data.len(),
    decreases data.len(),
{
    if data.len() > 0 {
        lemma_count_bound(data.drop_last(), byte);
    }
}

/// Whether a map holds the frequencies of `data`: it has an entry for each
/// byte that occurs, which counts how often the byte occurs, and no other.
pub open spec fn is_freq_map(freq_table: Map<u8, u64>, data: Seq<u8>) -> bool {
    forall|byte: u8|
        (#[trigger] freq_table.contains_key(byte) <==> count_of(data, byte) > 0) && (
        freq_table.contains_key(byte) ==> freq_table[byte] as nat == count_of(data, byte))
}

/// The frequencies of a map byte by byte: entry `b` is the frequency of the
/// byte `b`, zero where the map has none.
pub open spec fn freq_seq(freq_table: Map<u8, u64>) -> Seq<u64> {
    Seq::new(
        256,
        |byte: int|
            if freq_table.contains_key(byte as u8) {
                freq_table[byte as u8]
            } else {
                0u64
            },
    )
}

/// Counts how often each byte occurs.
pub fn build_frequencies(input_data: &[u8]) -> (freq_table: HashMap<u8, u64>)
    ensures
        is_freq_map(freq_table@, input_data@),
{
    let mut freq_table: HashMap<u8, u64> = HashMap::new();
    let mut i: usize = 0;
    while i < input_data.len()
        invariant
            i <= input_data@.len(),
            is_freq_map(freq_table@, input_data@.take(i as int)),
        decreases input_data@.len() - i,
    {
        let byte = input_data[i];
        let ghost before = freq_table@;
        proof {
            lemma_count_bound(input_data@.take(i as int), byte);
            assert(input_data@.take(i + 1).drop_last() =~= input_data@.take(i as int));
            assert(before.contains_key(byte) <==> count_of(input_data@.take(i as int), byte) > 0);
        }
        let seen: u64 = match freq_table.get(&byte) {
            Some(count) => *count,
            None => 0,
        };
        freq_table.insert(byte, seen + 1);
        proof {
            assert forall|other: u8|
                (#[trigger] freq_table@.contains_key(other) <==> count_of(
                    input_data@.take(i + 1),
                    other,
                ) > 0) && (freq_table@.contains_key(other) ==> freq_table@[other] as nat
                    == count_of(input_data@.take(i + 1), other)) by {
                assert(before.contains_key(other) <==> count_of(
                    input_data@.take(i as int),
                    other,
                ) > 0);
            }
        }
        i += 1;
    }
    assert(input_data@.take(input_data@.len() as int) =~= input_data@);
    freq_table
}

/// The place at which a node of frequency `freq` joins a list that runs
/// from the most frequent node to the least: behind every node that is at
/// least as frequent, searched from `from` on.
pub open spec fn insert_position(freqs: Seq<u64>, freq: u64, from: int) -> int
    decreases freqs.len() - from,
{
    if from < 0 || from >= freqs.len() {
        freqs.len() as int
    } else if freqs[from] < freq {
        from
    } else {
        insert_position(freqs, freq, from + 1)
    }
}

/// The place of a new node lies inside the list or at its end.
pub proof fn lemma_insert_position_bound(freqs: Seq<u64>, freq: u64, from: int)
    requires
        0 <= from <= freqs.len(),
    ensures
        from <= insert_position(freqs, freq, from) <= freqs.len(),
    decreases freqs.len() - from,
{
    if from < freqs.len() && freqs[from] >= freq {
        lemma_insert_position_bound(freqs, freq, from + 1);
    }
}

/// The sum of the frequencies.
pub open spec fn sum_of(freqs: Seq<u64>) -> nat
    decreases freqs.len(),
{
    if freqs.len() == 0 {
        0
    } else {
        sum_of(freqs.drop_last()) + freqs.last() as nat
    }
}

/// A list with one more frequency sums to that much more.
pub proof fn lemma_sum_insert(freqs: Seq<u64>, at: int, freq: u64)
    requires
        0 <= at <= freqs.len(),
    ensures
        sum_of(freqs.insert(at, freq)) == sum_of(freqs) + freq as nat,
    decreases freqs.len(),
{
    let longer = freqs.insert(at, freq);
    if at == freqs.len() {
        assert(longer.drop_last() =~= freqs);
    } else {
        assert(longer.drop_last() =~= freqs.drop_last().insert(at, freq));
        assert(longer.last() == freqs.last());
        lemma_sum_insert(freqs.drop_last(), at, freq);
    }
}

/// The pairs of byte and frequency as frequencies alone.
pub open spec fn pair_freqs(pairs: Seq<(u8, u64)>) -> Seq<u64> {
    pairs.map_values(|pair: (u8, u64)| pair.1)
}

/// A list of pairs with one more pair: the pair stands behind every pair
/// that is at least as frequent.
pub open spec fn insert_pair(pairs: Seq<(u8, u64)>, pair: (u8, u64)) -> Seq<(u8, u64)> {
    pairs.insert(insert_position(pair_freqs(pairs), pair.1, 0), pair)
}

/// The bytes `256 - n ..= 255` that occur, each with its frequency, from
/// the most frequent to the least; of two bytes that are equally frequent
/// the greater comes first.
pub open spec fn queue(freq_table: Seq<u64>, n: nat) -> Seq<(u8, u64)>
    decreases n,
{
    if n == 0 {
        Seq::empty()
    } else {
        let byte = (256 - n) as u8;
        let rest = queue(freq_table, (n - 1) as nat);
        if freq_table[byte as int] > 0 {
            insert_pair(rest, (byte, freq_table[byte as int]))
        } else {
            rest
        }
    }
}

/// The sum of the last `n` entries of a table.
pub open spec fn tail_sum(freq_table: Seq<u64>, n: nat) -> nat
    decreases n,
{
    if n == 0 {
        0
    } else {
        tail_sum(freq_table, (n - 1) as nat) + freq_table[256 - n] as nat
    }
}

/// The frequencies of the queue sum to what the bytes in it sum to.
pub proof fn lemma_queue_sum(freq_table: Seq<u64>, n: nat)
    requires
        freq_table.len() == 256,
        n <= 256,
    ensures
        sum_of(pair_freqs(queue(freq_table, n))) == tail_sum(freq_table, n),
        queue(freq_table, n).len() <= n,
    decreases n,
{
    if n > 0 {
        lemma_queue_sum(freq_table, (n - 1) as nat);
        let byte = (256 - n) as u8;
        let rest = queue(freq_table, (n - 1) as nat);
        let freq = freq_table[byte as int];
        if freq > 0 {
            let at = insert_position(pair_freqs(rest), freq, 0);
            lemma_insert_position_bound(pair_freqs(rest), freq, 0);
            lemma_sum_insert(pair_freqs(rest), at, freq);
            assert(pair_freqs(rest.insert(at, (byte, freq))) =~= pair_freqs(rest).insert(at, freq));
        }
    } else {
        assert(pair_freqs(Seq::<(u8, u64)>::empty()) =~= Seq::<u64>::empty());
    }
}

/// The number of bytes of `data` that are at least `256 - n`.
pub open spec fn tail_count(data: Seq<u8>, n: nat) -> nat
    decreases n,
{
    if n == 0 {
        0
    } else {
        tail_count(data, (n - 1) as nat) + count_of(data, (256 - n) as u8)
    }
}

proof fn lemma_tail_count_push(data: Seq<u8>, byte: u8, n: nat)
    requires
        n <= 256,
    ensures
        tail_count(data.push(byte), n) == tail_count(data, n) + if byte >= 256 - n {
            1nat
        } else {
            0nat
        },
    decreases n,
{
    if n > 0 {
        lemma_tail_count_push(data, byte, (n - 1) as nat);
        assert(data.push(byte).drop_last() =~= data);
    }
}

proof fn lemma_tail_count_empty(n: nat)
    ensures
        tail_count(Seq::<u8>::empty(), n) == 0,
    decreases n,
{
    if n > 0 {
        lemma_tail_count_empty((n - 1) as nat);
    }
}

/// Every byte of a string is counted once among all byte values.
pub proof fn lemma_tail_count_all(data: Seq<u8>)
    ensures
        tail_count(data, 256) == data.len(),
    decreases data.len(),
{
    if data.len() == 0 {
        lemma_tail_count_empty(256);
        assert(data =~= Seq::<u8>::empty());
    } else {
        lemma_tail_count_all(data.drop_last());
        lemma_tail_count_push(data.drop_last(), data.last(), 256);
        assert(data.drop_last().push(data.last()) =~= data);
    }
}

/// The table of the frequencies of `data`.
pub open spec fn is_table_of(freq_table: Seq<u64>, data: Seq<u8>) -> bool {
    &&& freq_table.len() == 256
    &&& forall|byte: u8| (#[trigger] freq_table[byte as int]) as nat == count_of(data, byte)
}

proof fn lemma_tail_sum_is_count(freq_table: Seq<u64>, data: Seq<u8>, n: nat)
    requires
        is_table_of(freq_table, data),
        n <= 256,
    ensures
        tail_sum(freq_table, n) == tail_count(data, n),
    decreases n,
{
    if n > 0 {
        lemma_tail_sum_is_count(freq_table, data, (n - 1) as nat);
        let byte = (256 - n) as u8;
        assert(freq_table[byte as int] as nat == count_of(data, byte));
    }
}

/// Inserts a pair behind every pair that is at least as frequent.
fn insert_pair_by_freq(pairs: &mut Vec<(u8, u64)>, pair: (u8, u64))
    ensures
        final(pairs)@ == insert_pair(old(pairs)@, pair),
{
    let mut at: usize = 0;
    while at < pairs.len() && pairs[at].1 >= pair.1
        invariant
            at <= pairs@.len(),
            insert_position(pair_freqs(pairs@), pair.1, 0) == insert_position(
                pair_freqs(pairs@),
                pair.1,
                at as int,
            ),
        decreases pairs@.len() - at,
    {
        at += 1;
    }
    pairs.insert(at, pair);
}

/// Lists the bytes that occur with their frequencies, from the most
/// frequent to the least; of two bytes that are equally frequent the greater
/// comes first.
pub fn build_priority_queue(freq_table: &HashMap<u8, u64>) -> (heap: Vec<(u8, u64)>)
    ensures
        heap@ == queue(freq_seq(freq_table@), 256),
{
    let mut heap: Vec<(u8, u64)> = Vec::new();
    let mut n: usize = 0;
    while n < 256
        invariant
            n <= 256,
            heap@ == queue(freq_seq(freq_table@), n as nat),
        decreases 256 - n,
    {
        n += 1;
        let byte = (256 - n) as u8;
        match freq_table.get(&byte) {
            Some(freq) => {
                if *freq > 0 {
                    insert_pair_by_freq(&mut heap, (byte, *freq));
                }
            },
            None => {},
        }
    }
    heap
}

impl Node {
    /// A leaf has a byte and no children; an inner node has no byte and two
    /// children, which are well-formed in turn.
    pub open spec fn wf(self) -> bool
        decreases self,
    {
        match self.byte {
            Some(_) => self.left is None && self.right is None,
            None => match (self.left, self.right) {
                (Some(left), Some(right)) => left.wf() && right.wf(),
                _ => false,
            },
        }
    }
}

/// The leaf of a byte with its frequency.
pub open spec fn leaf_of(pair: (u8, u64)) -> Node {
    Node { byte: Some(pair.0), freq: pair.1, left: None, right: None }
}

/// The leaves of a list of pairs.
pub open spec fn nodes_of(pairs: Seq<(u8, u64)>) -> Seq<Node> {
    pairs.map_values(|pair: (u8, u64)| leaf_of(pair))
}

/// The frequencies of a list of nodes.
pub open spec fn node_freqs(nodes: Seq<Node>) -> Seq<u64> {
    nodes.map_values(|node: Node| node.freq)
}

/// The node above two nodes: it counts what the two count together.
pub open spec fn parent_of(left: Node, right: Node) -> Node {
    Node {
        byte: None,
        freq: (left.freq + right.freq) as u64,
        left: Some(Box::new(left)),
        right: Some(Box::new(right)),
    }
}

/// A list of nodes with one more node: the node stands behind every node
/// that is at least as frequent.
pub open spec fn insert_node(nodes: Seq<Node>, node: Node) -> Seq<Node> {
    nodes.insert(insert_position(node_freqs(nodes), node.freq, 0), node)
}

/// A list of nodes with its last two joined: the last becomes the left
/// child and the one before it the right child of a new node, which takes
/// its place by its frequency.
pub open spec fn merge_step(nodes: Seq<Node>) -> Seq<Node> {
    insert_node(
        nodes.take(nodes.len() - 2),
        parent_of(nodes[nodes.len() - 1], nodes[nodes.len() - 2]),
    )
}

/// Joining the last two nodes makes the list shorter by one.
pub proof fn lemma_merge_len(nodes: Seq<Node>)
    requires
        nodes.len() >= 2,
    ensures
        merge_step(nodes).len() == nodes.len() - 1,
{
    let rest = nodes.take(nodes.len() - 2);
    let parent = parent_of(nodes[nodes.len() - 1], nodes[nodes.len() - 2]);
    lemma_insert_position_bound(node_freqs(rest), parent.freq, 0);
}

/// The list that is left when the last two nodes are joined until there is
/// one node: that node is the root of the code tree.
pub open spec fn build(nodes: Seq<Node>) -> Seq<Node>
    decreases nodes.len(),
{
    if nodes.len() <= 1 {
        nodes
    } else {
        proof {
            lemma_merge_len(nodes);
        }
        build(merge_step(nodes))
    }
}

/// Every node of the list is well-formed.
pub open spec fn all_wf(nodes: Seq<Node>) -> bool {
    forall|i: int| 0 <= i < nodes.len() ==> (#[trigger] nodes[i]).wf()
}

/// Joining the last two nodes keeps the sum of the frequencies, and keeps
/// the nodes well-formed.
pub proof fn lemma_merge_keeps(nodes: Seq<Node>)
    requires
        nodes.len() >= 2,
        sum_of(node_freqs(nodes)) <= u64::MAX,
    ensures
        nodes[nodes.len() - 1].freq + nodes[nodes.len() - 2].freq <= u64::MAX,
        sum_of(node_freqs(merge_step(nodes))) == sum_of(node_freqs(nodes)),
        all_wf(nodes) ==> all_wf(merge_step(nodes)),
{
    let n = nodes.len() as int;
    let freqs = node_freqs(nodes);
    let rest = nodes.take(n - 2);
    let left = nodes[n - 1];
    let right = nodes[n - 2];
    assert(freqs.drop_last().drop_last() =~= node_freqs(rest));
    assert(freqs.last() == left.freq);
    assert(freqs.drop_last().last() == right.freq);
    assert(sum_of(freqs) == sum_of(freqs.drop_last()) + left.freq);
    assert(sum_of(freqs.drop_last()) == sum_of(freqs.drop_last().drop_last()) + right.freq);
    let parent = parent_of(left, right);
    let at = insert_position(node_freqs(rest), parent.freq, 0);
    lemma_insert_position_bound(node_freqs(rest), parent.freq, 0);
    lemma_sum_insert(node_freqs(rest), at, parent.freq);
    assert(node_freqs(rest.insert(at, parent)) =~= node_freqs(rest).insert(at, parent.freq));
    if all_wf(nodes) {
        assert(left.wf() && right.wf());
        assert(parent.wf());
        assert forall|i: int| 0 <= i < merge_step(nodes).len() implies (#[trigger] merge_step(
            nodes,
        )[i]).wf() by {
            if i < at {
                assert(merge_step(nodes)[i] == nodes[i]);
            } else if i > at {
                assert(merge_step(nodes)[i] == nodes[i - 1]);
            }
        }
    }
}

/// Makes a leaf of each pair.
pub fn build_nodes(freq_table: Vec<(u8, u64)>) -> (nodes: Vec<Node>)
    ensures
        nodes@ == nodes_of(freq_table@),
{
    let mut nodes: Vec<Node> = Vec::new();
    let mut i: usize = 0;
    while i < freq_table.len()
        invariant
            i <= freq_table@.len(),
            nodes@.len() == i,
            forall|k: int| 0 <= k < i ==> nodes@[k] == leaf_of(freq_table@[k]),
        decreases freq_table@.len() - i,
    {
        let (byte, freq) = freq_table[i];
        nodes.push(Node::new(Some(byte), freq, None, None));
        i += 1;
    }
    assert(nodes@ =~= nodes_of(freq_table@));
    nodes
}

/// Joins two nodes under a new one.
pub fn create_parent(left_node: Node, right_node: Node) -> (parent: Node)
    requires
        left_node.freq + right_node.freq <= u64::MAX,
    ensures
        parent == parent_of(left_node, right_node),
{
    let parent_node_freq = left_node.freq + right_node.freq;
    let boxed_left_node = left_node.box_and_wrap();
    let boxed_right_node = right_node.box_and_wrap();
    Node::new(None, parent_node_freq, boxed_left_node, boxed_right_node)
}

/// Moves the last node of the list to its place: behind every node that is
/// at least as frequent.
pub fn reorganize_nodes_by_freq(nodes: Vec<Node>) -> (sorted: Vec<Node>)
    requires
        nodes@.len() >= 1,
    ensures
        sorted@ == insert_node(nodes@.drop_last(), nodes@.last()),
{
    let mut nodes = nodes;
    let node = nodes.pop().unwrap();
    let mut at: usize = 0;
    while at < nodes.len() && nodes[at].freq >= node.freq
        invariant
            at <= nodes@.len(),
            insert_position(node_freqs(nodes@), node.freq, 0) == insert_position(
                node_freqs(nodes@),
                node.freq,
                at as int,
            ),
        decreases nodes@.len() - at,
    {
        at += 1;
    }
    nodes.insert(at, node);
    nodes
}

/// Joins the last two nodes of the list until one node is left.
pub fn build_tree(nodes: Vec<Node>) -> (tree: Vec<Node>)
    requires
        nodes@.len() >= 1,
        sum_of(node_freqs(nodes@)) <= u64::MAX,
    ensures
        tree@ == build(nodes@),
        tree@.len() == 1,
    decreases nodes@.len(),
{
    let mut nodes = nodes;
    if nodes.len() == 1 {
        return nodes;
    }
    let ghost before = nodes@;
    proof {
        lemma_merge_keeps(before);
        lemma_merge_len(before);
    }
    let left_node = nodes.pop().unwrap();
    let right_node = nodes.pop().unwrap();
    let parent_node = create_parent(left_node, right_node);
    nodes.push(parent_node);
    assert(nodes@.drop_last() =~= before.take(before.len() - 2));
    let reorganized_nodes = reorganize_nodes_by_freq(nodes);
    build_tree(reorganized_nodes)
}

/// The table of the frequencies of `data`.
pub open spec fn counts(data: Seq<u8>) -> Seq<u64> {
    Seq::new(256, |byte: int| count_of(data, byte as u8) as u64)
}

/// The code tree of `data`.
pub open spec fn code_tree(data: Seq<u8>) -> Node {
    build(nodes_of(queue(counts(data), 256)))[0]
}

/// The bytes at the leaves of a tree.
pub open spec fn leaves(node: Node) -> Set<u8>
    decreases node,
{
    match node.byte {
        Some(byte) => set![byte],
        None => match (node.left, node.right) {
            (Some(left), Some(right)) => leaves(*left).union(leaves(*right)),
            _ => Set::empty(),
        },
    }
}

/// The bytes at the leaves of a list of trees.
pub open spec fn forest(nodes: Seq<Node>) -> Set<u8>
    decreases nodes.len(),
{
    if nodes.len() == 0 {
        Set::empty()
    } else {
        forest(nodes.drop_last()).union(leaves(nodes.last()))
    }
}

/// A list with one more tree has the leaves of that tree besides its own.
pub proof fn lemma_forest_insert(nodes: Seq<Node>, at: int, node: Node)
    requires
        0 <= at <= nodes.len(),
    ensures
        forest(nodes.insert(at, node)) == forest(nodes).union(leaves(node)),
    decreases nodes.len(),
{
    let longer = nodes.insert(at, node);
    if at == nodes.len() {
        assert(longer.drop_last() =~= nodes);
    } else {
        assert(longer.drop_last() =~= nodes.drop_last().insert(at, node));
        assert(longer.last() == nodes.last());
        lemma_forest_insert(nodes.drop_last(), at, node);
        assert(forest(longer) =~= forest(nodes).union(leaves(node)));
    }
}

/// Joining the last two trees keeps the leaves.
pub proof fn lemma_merge_forest(nodes: Seq<Node>)
    requires
        nodes.len() >= 2,
    ensures
        forest(merge_step(nodes)) == forest(nodes),
{
    let n = nodes.len() as int;
    let rest = nodes.take(n - 2);
    let left = nodes[n - 1];
    let right = nodes[n - 2];
    let parent = parent_of(left, right);
    lemma_insert_position_bound(node_freqs(rest), parent.freq, 0);
    lemma_forest_insert(rest, insert_position(node_freqs(rest), parent.freq, 0), parent);
    assert(nodes.drop_last().drop_last() =~= rest);
    assert(forest(nodes) == forest(nodes.drop_last()).union(leaves(left)));
    assert(forest(nodes.drop_last()) == forest(rest).union(leaves(right)));
    assert(leaves(parent) == leaves(left).union(leaves(right)));
    assert(forest(merge_step(nodes)) =~= forest(nodes));
}

/// The tree that is built from a list has the leaves of the list; it is
/// well-formed where the trees of the list are.
pub proof fn lemma_build(nodes: Seq<Node>)
    requires
        nodes.len() >= 1,
        sum_of(node_freqs(nodes)) <= u64::MAX,
    ensures
        build(nodes).len() == 1,
        forest(build(nodes)) == forest(nodes),
        all_wf(nodes) ==> all_wf(build(nodes)),
    decreases nodes.len(),
{
    if nodes.len() > 1 {
        lemma_merge_len(nodes);
        lemma_merge_keeps(nodes);
        lemma_merge_forest(nodes);
        lemma_build(merge_step(nodes));
    }
}

/// The leaves of the queue are the bytes that occur.
pub proof fn lemma_queue_forest(freq_table: Seq<u64>, n: nat)
    requires
        freq_table.len() == 256,
        n <= 256,
    ensures
        forall|byte: u8|
            forest(nodes_of(queue(freq_table, n))).contains(byte) <==> (byte >= 256 - n
                && freq_table[byte as int] > 0),
        all_wf(nodes_of(queue(freq_table, n))),
    decreases n,
{
    if n == 0 {
        assert(nodes_of(queue(freq_table, 0)) =~= Seq::<Node>::empty());
    } else {
        lemma_queue_forest(freq_table, (n - 1) as nat);
        let byte = (256 - n) as u8;
        let rest = queue(freq_table, (n - 1) as nat);
        let freq = freq_table[byte as int];
        if freq > 0 {
            let at = insert_position(pair_freqs(rest), freq, 0);
            lemma_insert_position_bound(pair_freqs(rest), freq, 0);
            assert(nodes_of(rest.insert(at, (byte, freq))) =~= nodes_of(rest).insert(
                at,
                leaf_of((byte, freq)),
            ));
            lemma_forest_insert(nodes_of(rest), at, leaf_of((byte, freq)));
            assert(leaves(leaf_of((byte, freq))) == set![byte]);
            let longer = nodes_of(queue(freq_table, n));
            assert forall|i: int| 0 <= i < longer.len() implies (#[trigger] longer[i]).wf() by {
                if i < at {
                    assert(longer[i] == nodes_of(rest)[i]);
                } else if i > at {
                    assert(longer[i] == nodes_of(rest)[i - 1]);
                }
            }
        }
    }
}

/// The codes of the leaves of a tree, added to `acc`: the code of a leaf is
/// `path` followed by the way from the root to the leaf, `false` for a step
/// to the left and `true` for a step to the right.
pub open spec fn table_of(node: Node, path: Seq<bool>, acc: Map<u8, Seq<bool>>) -> Map<
    u8,
    Seq<bool>,
>
    decreases node,
{
    match node.byte {
        Some(byte) => acc.insert(byte, path),
        None => match (node.left, node.right) {
            (Some(left), Some(right)) => table_of(
                *right,
                path.push(true),
                table_of(*left, path.push(false), acc),
            ),
            _ => acc,
        },
    }
}

/// The table of a tree has a code for each leaf of the tree, besides the
/// codes it had.
pub proof fn lemma_table_dom(node: Node, path: Seq<bool>, acc: Map<u8, Seq<bool>>)
    ensures
        table_of(node, path, acc).dom() == acc.dom().union(leaves(node)),
    decreases node,
{
    match node.byte {
        Some(byte) => {
            assert(table_of(node, path, acc).dom() =~= acc.dom().union(leaves(node)));
        },
        None => match (node.left, node.right) {
            (Some(left), Some(right)) => {
                let half = table_of(*left, path.push(false), acc);
                lemma_table_dom(*left, path.push(false), acc);
                lemma_table_dom(*right, path.push(true), half);
                assert(table_of(node, path, acc).dom() =~= acc.dom().union(leaves(node)));
            },
            _ => {
                assert(table_of(node, path, acc).dom() =~= acc.dom().union(leaves(node)));
            },
        },
    }
}

/// The code table of `data`: the code of each byte that occurs.
pub open spec fn code_table(data: Seq<u8>) -> Map<u8, Seq<bool>> {
    table_of(code_tree(data), Seq::empty(), Map::empty())
}

/// The codes of the bytes of `data`, one behind the other.
pub open spec fn encoded(data: Seq<u8>, table: Map<u8, Seq<bool>>) -> Seq<bool>
    decreases data.len(),
{
    if data.len() == 0 {
        Seq::empty()
    } else {
        encoded(data.drop_last(), table) + table[data.last()]
    }
}

/// A byte of a string occurs in it.
pub proof fn lemma_count_positive(data: Seq<u8>, i: int)
    requires
        0 <= i < data.len(),
    ensures
        count_of(data, data[i]) > 0,
    decreases data.len(),
{
    if i < data.len() - 1 {
        lemma_count_positive(data.drop_last(), i);
    }
}

/// The counts of a string are the table of its frequencies, and sum to its
/// length.
pub proof fn lemma_counts(data: Seq<u8>)
    requires
        data.len() <= u64::MAX,
    ensures
        is_table_of(counts(data), data),
        sum_of(pair_freqs(queue(counts(data), 256))) == data.len(),
{
    assert forall|byte: u8| (#[trigger] counts(data)[byte as int]) as nat == count_of(
        data,
        byte,
    ) by {
        lemma_count_bound(data, byte);
    }
    lemma_queue_sum(counts(data), 256);
    lemma_tail_sum_is_count(counts(data), data, 256);
    lemma_tail_count_all(data);
}

/// The code tree of a string that is not empty is well-formed, and its
/// leaves are the bytes that occur in the string: the code table has a code
/// for those bytes and for no other.
pub proof fn lemma_code_table(data: Seq<u8>)
    requires
        0 < data.len() <= u64::MAX,
    ensures
        code_tree(data).wf(),
        forall|byte: u8| code_table(data).contains_key(byte) <==> count_of(data, byte) > 0,
        forall|i: int| 0 <= i < data.len() ==> code_table(data).contains_key(#[trigger] data[i]),
{
    let table = counts(data);
    let list = nodes_of(queue(table, 256));
    lemma_counts(data);
    lemma_queue_forest(table, 256);
    assert(node_freqs(list) =~= pair_freqs(queue(table, 256)));
    assert(list.len() >= 1) by {
        if list.len() == 0 {
            assert(sum_of(node_freqs(list)) == 0);
        }
    }
    lemma_build(list);
    let root = build(list)[0];
    assert(root.wf());
    assert(build(list).drop_last().len() == 0);
    assert(forest(build(list).drop_last()) =~= Set::<u8>::empty());
    assert(build(list).last() == root);
    assert(forest(build(list)) =~= leaves(root));
    lemma_table_dom(root, Seq::empty(), Map::empty());
    assert forall|byte: u8| code_table(data).contains_key(byte) <==> count_of(data, byte)
        > 0 by {
        assert(code_table(data).dom().contains(byte) <==> leaves(root).contains(byte));
        assert(table[byte as int] as nat == count_of(data, byte));
    }
    assert forall|i: int| 0 <= i < data.len() implies code_table(data).contains_key(
        #[trigger] data[i],
    ) by {
        lemma_count_positive(data, i);
    }
}

/// A table of codes as a map from bytes to bit sequences.
pub open spec fn codes(table: Map<u8, Vec<bool>>) -> Map<u8, Seq<bool>> {
    table.map_values(|code: Vec<bool>| code@)
}

/// Builds the code tree of `data`.
pub fn create_tree(data: &[u8]) -> (tree: Node)
    requires
        data@.len() > 0,
    ensures
        tree == code_tree(data@),
        tree.wf(),
{
    let len = data.len();
    let huffman_frequencies = build_frequencies(data);
    proof {
        lemma_counts(data@);
        lemma_code_table(data@);
        assert(freq_seq(huffman_frequencies@) =~= counts(data@)) by {
            assert forall|k: int| 0 <= k < 256 implies freq_seq(huffman_frequencies@)[k]
                == counts(data@)[k] by {
                let byte = k as u8;
                assert(huffman_frequencies@.contains_key(byte) <==> count_of(data@, byte) > 0);
                lemma_count_bound(data@, byte);
            }
        }
    }
    let priority_queue = build_priority_queue(&huffman_frequencies);
    let nodes = build_nodes(priority_queue);
    proof {
        assert(node_freqs(nodes@) =~= pair_freqs(priority_queue@));
        if nodes@.len() == 0 {
            assert(sum_of(node_freqs(nodes@)) == 0);
        }
    }
    build_tree(nodes).pop().unwrap()
}

/// Walks the tree below `node` and enters the code of each leaf in
/// `lookup_table`. `bit_sequence` is the way from the root to `node`.
pub fn traverse_tree(
    node: &Node,
    lookup_table: &mut HashMap<u8, Vec<bool>>,
    bit_sequence: &mut Vec<bool>,
)
    requires
        node.wf(),
    ensures
        codes(final(lookup_table)@) == table_of(
            *node,
            old(bit_sequence)@,
            codes(old(lookup_table)@),
        ),
        final(bit_sequence)@ == old(bit_sequence)@,
    decreases node,
{
    let ghost path = bit_sequence@;
    let ghost acc = codes(lookup_table@);
    match node.byte {
        Some(byte) => {
            let code = bit_sequence.clone();
            assert(code@ =~= path);
            lookup_table.insert(byte, code);
            assert(codes(lookup_table@) =~= acc.insert(byte, path));
        },
        None => {
            match (&node.left, &node.right) {
                (Some(left), Some(right)) => {
                    bit_sequence.push(false);
                    traverse_tree(left, lookup_table, bit_sequence);
                    bit_sequence.pop();
                    assert(bit_sequence@ =~= path);
                    bit_sequence.push(true);
                    traverse_tree(right, lookup_table, bit_sequence);
                    bit_sequence.pop();
                    assert(bit_sequence@ =~= path);
                },
                _ => {},
            }
        },
    }
}

/// The code of each leaf of a tree.
pub fn create_lookup_table(tree: Node) -> (lookup_table: HashMap<u8, Vec<bool>>)
    requires
        tree.wf(),
    ensures
        codes(lookup_table@) == table_of(tree, Seq::empty(), Map::empty()),
{
    let mut lookup_table: HashMap<u8, Vec<bool>> = HashMap::new();
    let mut bit_sequence = Vec::new();
    assert(codes(lookup_table@) =~= Map::<u8, Seq<bool>>::empty());
    traverse_tree(&tree, &mut lookup_table, &mut bit_sequence);
    lookup_table
}

/// Codes a string of bytes that is not empty. Gives the code of each byte
/// that occurs in the string, and the codes of the bytes of the string one
/// behind the other.
pub fn encode(data: &[u8]) -> (r: (HashMap<u8, Vec<bool>>, Vec<bool>))
    requires
        data@.len() > 0,
    ensures
        codes(r.0@) == code_table(data@),
        r.1@ == encoded(data@, code_table(data@)),
{
    let len = data.len();
    let huffman_tree = create_tree(data);
    let huffman_table = create_lookup_table(huffman_tree);
    proof {
        lemma_code_table(data@);
    }
    let mut encoded_data: Vec<bool> = Vec::new();
    let mut i: usize = 0;
    while i < data.len()
        invariant
            i <= data@.len(),
            codes(huffman_table@) == code_table(data@),
            forall|k: int| 0 <= k < data@.len() ==> code_table(data@).contains_key(
                #[trigger] data@[k],
            ),
            encoded_data@ == encoded(data@.take(i as int), code_table(data@)),
        decreases data@.len() - i,
    {
        let byte = data[i];
        assert(code_table(data@).contains_key(data@[i as int]));
        assert(huffman_table@.contains_key(byte));
        let code = huffman_table.get(&byte).unwrap();
        assert(code@ == code_table(data@)[byte]);
        let ghost before = encoded_data@;
        let mut j: usize = 0;
        while j < code.len()
            invariant
                j <= code@.len(),
                encoded_data@ == before + code@.take(j as int),
            decreases code@.len() - j,
        {
            encoded_data.push(code[j]);
            j += 1;
            assert(encoded_data@ =~= before + code@.take(j as int));
        }
        proof {
            assert(code@.take(code@.len() as int) =~= code@);
            assert(data@.take(i + 1).drop_last() =~= data@.take(i as int));
            assert(data@.take(i + 1).last() == byte);
        }
        i += 1;
    }
    assert(data@.take(data@.len() as int) =~= data@);
    (huffman_table, encoded_data)
}

} // verus!
