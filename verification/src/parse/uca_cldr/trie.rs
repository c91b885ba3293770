//! The prefix tree of a table of collation elements, and the search for
//! the longest key with which a sequence of code points begins.
//!
//! The tree is built by entering the entries of a table one after the
//! other. For a table that is ordered by the length of its keys the outcome
//! has a plain description, which the second half of this file proves: a
//! key is in the tree where the key and each of its shorter prefixes is a
//! key of the table, and it has the weights of the last entry with that
//! key.

use crate::parse::lemma_filter_push;
use crate::parse::uca_cldr::allkeys::{
    entries_view, ordered_by_length, Weights, WeightsEntry, WeightsEntryView,
};
use crate::parse::ucd::quick_checks::{
    quick_check, quick_check_at, QuickCheck, QuickCheckRange, QuickChecks,
};
use std::collections::HashMap;
use vstd::prelude::*;

verus! {

/// A node of the prefix tree of a table: the collation elements of the key
/// that leads to the node, and the nodes of the keys that are one code point
/// longer.
#[derive(Debug)]
pub struct TrieNode<'a> {
    pub weights: &'a Vec<Weights>,
    pub children: Option<HashMap<u32, TrieNode<'a>>>,
}

impl<'a> TrieNode<'a> {
    /// The number of nodes directly below this one.
    pub fn children_len(&self) -> (n: usize)
        ensures
            n == match self.children {
                Some(children) => children@.len(),
                None => 0,
            },
    {
        match &self.children {
            Some(children) => children.len(),
            None => 0,
        }
    }
}

/// The node below `node` for the code point `c`.
pub open spec fn child_of(node: TrieNode, c: u32) -> Option<TrieNode> {
    match node.children {
        Some(children) => if children@.contains_key(c) {
            Some(children@[c])
        } else {
            None
        },
        None => None,
    }
}

/// The node that `key` leads to. Only keys of one to three code points lead
/// anywhere, and a node is reached only through the nodes of all shorter
/// prefixes of its key.
pub open spec fn node_at(roots: Map<u32, TrieNode>, key: Seq<u32>) -> Option<TrieNode> {
    if key.len() == 0 || key.len() > 3 || !roots.contains_key(key[0]) {
        None
    } else if key.len() == 1 {
        Some(roots[key[0]])
    } else {
        match child_of(roots[key[0]], key[1]) {
            None => None,
            Some(second) => if key.len() == 2 {
                Some(second)
            } else {
                child_of(second, key[2])
            },
        }
    }
}

/// What a prefix tree holds: the keys that lead to a node, each with the
/// collation elements of its node.
pub open spec fn contents(roots: Map<u32, TrieNode>) -> Map<Seq<u32>, Seq<Weights>> {
    Map::new(
        |key: Seq<u32>| node_at(roots, key) is Some,
        |key: Seq<u32>| node_at(roots, key).unwrap().weights@,
    )
}

/// Whether `key` is `prefix` with one code point or more after it.
pub open spec fn extends(key: Seq<u32>, prefix: Seq<u32>) -> bool {
    prefix.len() < key.len() && key.take(prefix.len() as int) == prefix
}

/// Whether `key` is entered into `tree`. A key of one code point always is.
/// A key of two or three code points is entered only where the key without
/// its last code point is there already, and is dropped otherwise.
pub open spec fn enters(tree: Map<Seq<u32>, Seq<Weights>>, key: Seq<u32>) -> bool {
    key.len() == 1 || ((key.len() == 2 || key.len() == 3) && tree.contains_key(key.drop_last()))
}

/// What a tree holds after `key` is put to it. A key that is entered takes
/// the place of an equal key and of all that extend it; a key that is
/// dropped leaves the tree as it was.
pub open spec fn with_key(
    tree: Map<Seq<u32>, Seq<Weights>>,
    key: Seq<u32>,
    weights: Seq<Weights>,
) -> Map<Seq<u32>, Seq<Weights>> {
    if enters(tree, key) {
        Map::new(
            |k: Seq<u32>| k == key || (tree.contains_key(k) && !extends(k, key)),
            |k: Seq<u32>|
                if k == key {
                    weights
                } else {
                    tree[k]
                },
        )
    } else {
        tree
    }
}

/// What the prefix tree of a table holds: the entries of the table entered
/// one after the other, from the first to the last.
pub open spec fn trie_of(table: Seq<WeightsEntryView>) -> Map<Seq<u32>, Seq<Weights>>
    decreases table.len(),
{
    if table.len() == 0 {
        Map::empty()
    } else {
        with_key(trie_of(table.drop_last()), table.last().codes, table.last().weights)
    }
}

/// The number of entries of a table that are dropped when its prefix tree
/// is built.
pub open spec fn dropped_of(table: Seq<WeightsEntryView>) -> nat
    decreases table.len(),
{
    if table.len() == 0 {
        0
    } else if enters(trie_of(table.drop_last()), table.last().codes) {
        dropped_of(table.drop_last())
    } else {
        dropped_of(table.drop_last()) + 1
    }
}

/// A key of one code point is the sequence of that code point.
proof fn lemma_key1(k: Seq<u32>, c0: u32)
    ensures
        (k == seq![c0]) <==> (k.len() == 1 && k[0] == c0),
        seq![c0].len() == 1,
        seq![c0][0] == c0,
{
    if k.len() == 1 && k[0] == c0 {
        assert(k =~= seq![c0]);
    }
}

/// A key of two code points is the sequence of the two.
proof fn lemma_key2(k: Seq<u32>, c0: u32, c1: u32)
    ensures
        (k == seq![c0, c1]) <==> (k.len() == 2 && k[0] == c0 && k[1] == c1),
        seq![c0, c1].len() == 2,
        seq![c0, c1][0] == c0,
        seq![c0, c1][1] == c1,
        seq![c0, c1].drop_last() == seq![c0],
        k.len() >= 2 ==> (k.take(2) == seq![c0, c1] <==> k[0] == c0 && k[1] == c1),
        k.len() >= 1 ==> (k.take(1) == seq![c0] <==> k[0] == c0),
{
    if k.len() == 2 && k[0] == c0 && k[1] == c1 {
        assert(k =~= seq![c0, c1]);
    }
    assert(seq![c0, c1].drop_last() =~= seq![c0]);
    if k.len() >= 2 {
        if k[0] == c0 && k[1] == c1 {
            assert(k.take(2) =~= seq![c0, c1]);
        }
        if k.take(2) == seq![c0, c1] {
            assert(k.take(2)[0] == c0);
            assert(k.take(2)[1] == c1);
        }
    }
    if k.len() >= 1 {
        if k[0] == c0 {
            assert(k.take(1) =~= seq![c0]);
        }
        if k.take(1) == seq![c0] {
            assert(k.take(1)[0] == c0);
        }
    }
}

/// A key of three code points is the sequence of the three.
proof fn lemma_key3(k: Seq<u32>, c0: u32, c1: u32, c2: u32)
    ensures
        (k == seq![c0, c1, c2]) <==> (k.len() == 3 && k[0] == c0 && k[1] == c1 && k[2] == c2),
        seq![c0, c1, c2].len() == 3,
        seq![c0, c1, c2][0] == c0,
        seq![c0, c1, c2][1] == c1,
        seq![c0, c1, c2][2] == c2,
        seq![c0, c1, c2].drop_last() == seq![c0, c1],
{
    if k.len() == 3 && k[0] == c0 && k[1] == c1 && k[2] == c2 {
        assert(k =~= seq![c0, c1, c2]);
    }
    assert(seq![c0, c1, c2].drop_last() =~= seq![c0, c1]);
}

/// Enters a key of one code point.
fn insert_first<'a>(roots: &mut HashMap<u32, TrieNode<'a>>, c0: u32, weights: &'a Vec<Weights>)
    ensures
        contents(final(roots)@) == with_key(contents(old(roots)@), seq![c0], weights@),
{
    roots.insert(c0, TrieNode { weights, children: None });
    proof {
        let before = contents(old(roots)@);
        let after = contents(roots@);
        let expected = with_key(before, seq![c0], weights@);
        assert forall|k: Seq<u32>|
            #![trigger after.dom().contains(k)]
            #![trigger expected.dom().contains(k)]
            after.contains_key(k) == expected.contains_key(k) && (after.contains_key(k)
                ==> after[k] == expected[k]) by {
            lemma_key1(k, c0);
            if k.len() >= 1 {
                lemma_key2(k, c0, 0);
            }
        }
        assert(after =~= expected);
    }
}

/// Enters a key of two code points, if its first code point is a key.
fn insert_second<'a>(
    roots: &mut HashMap<u32, TrieNode<'a>>,
    c0: u32,
    c1: u32,
    weights: &'a Vec<Weights>,
) -> (entered: bool)
    ensures
        contents(final(roots)@) == with_key(contents(old(roots)@), seq![c0, c1], weights@),
        entered == enters(contents(old(roots)@), seq![c0, c1]),
{
    let ghost before = contents(roots@);
    let ghost key = seq![c0, c1];
    proof {
        lemma_key2(key, c0, c1);
        lemma_key1(seq![c0], c0);
    }
    match roots.remove(&c0) {
        None => {
            assert(roots@ =~= old(roots)@);
            assert(!before.contains_key(key.drop_last()));
            false
        },
        Some(root) => {
            let TrieNode { weights: own, children } = root;
            let mut children = match children {
                Some(children) => children,
                None => HashMap::new(),
            };
            children.insert(c1, TrieNode { weights, children: None });
            roots.insert(c0, TrieNode { weights: own, children: Some(children) });
            proof {
                let after = contents(roots@);
                let expected = with_key(before, key, weights@);
                assert(before.contains_key(key.drop_last()));
                assert forall|k: Seq<u32>|
                    #![trigger after.dom().contains(k)]
                    #![trigger expected.dom().contains(k)]
                    after.contains_key(k) == expected.contains_key(k) && (after.contains_key(k)
                        ==> after[k] == expected[k]) by {
                    lemma_key2(k, c0, c1);
                }
                assert(after =~= expected);
            }
            true
        },
    }
}

/// Enters a key of three code points, if its first two code points are a
/// key.
fn insert_third<'a>(
    roots: &mut HashMap<u32, TrieNode<'a>>,
    c0: u32,
    c1: u32,
    c2: u32,
    weights: &'a Vec<Weights>,
) -> (entered: bool)
    ensures
        contents(final(roots)@) == with_key(contents(old(roots)@), seq![c0, c1, c2], weights@),
        entered == enters(contents(old(roots)@), seq![c0, c1, c2]),
{
    let ghost before = contents(roots@);
    let ghost key = seq![c0, c1, c2];
    proof {
        lemma_key3(key, c0, c1, c2);
        lemma_key2(seq![c0, c1], c0, c1);
    }
    match roots.remove(&c0) {
        None => {
            assert(roots@ =~= old(roots)@);
            assert(!before.contains_key(key.drop_last()));
            false
        },
        Some(root) => {
            let TrieNode { weights: own, children } = root;
            match children {
                None => {
                    roots.insert(c0, TrieNode { weights: own, children: None });
                    assert(roots@ =~= old(roots)@);
                    assert(!before.contains_key(key.drop_last()));
                    false
                },
                Some(mut children) => {
                    let ghost first_level = children@;
                    match children.remove(&c1) {
                        None => {
                            assert(children@ =~= first_level);
                            roots.insert(c0, TrieNode { weights: own, children: Some(children) });
                            proof {
                                let after = contents(roots@);
                                assert(!before.contains_key(key.drop_last()));
                                assert forall|k: Seq<u32>|
                                    #![trigger after.dom().contains(k)]
                                    #![trigger before.dom().contains(k)]
                                    after.contains_key(k) == before.contains_key(k) && (
                                    after.contains_key(k) ==> after[k] == before[k]) by {}
                                assert(after =~= before);
                            }
                            false
                        },
                        Some(second) => {
                            let TrieNode { weights: second_own, children: grandchildren } = second;
                            let mut grandchildren = match grandchildren {
                                Some(grandchildren) => grandchildren,
                                None => HashMap::new(),
                            };
                            grandchildren.insert(c2, TrieNode { weights, children: None });
                            children.insert(
                                c1,
                                TrieNode { weights: second_own, children: Some(grandchildren) },
                            );
                            roots.insert(c0, TrieNode { weights: own, children: Some(children) });
                            proof {
                                let after = contents(roots@);
                                let expected = with_key(before, key, weights@);
                                assert(before.contains_key(key.drop_last()));
                                assert forall|k: Seq<u32>|
                                    #![trigger after.dom().contains(k)]
                                    #![trigger expected.dom().contains(k)]
                                    after.contains_key(k) == expected.contains_key(k) && (
                                    after.contains_key(k) ==> after[k] == expected[k]) by {
                                    lemma_key3(k, c0, c1, c2);
                                }
                                assert(after =~= expected);
                            }
                            true
                        },
                    }
                },
            }
        },
    }
}

/// The class of the entries that can take part in matching text in
/// canonical decomposed form: those with no code point in their key whose
/// quick-check value is `No`.
pub open spec fn is_decomposed(checks: Seq<QuickCheckRange>) -> spec_fn(WeightsEntryView) -> bool {
    |e: WeightsEntryView|
        forall|i: int|
            0 <= i < e.codes.len() ==> quick_check_at(checks, #[trigger] e.codes[i])
                != QuickCheck::No
}

/// The entries of a table that go into its prefix tree: all of them, or
/// with quick-check values at hand those that `is_decomposed` admits.
pub open spec fn selected(
    table: Seq<WeightsEntryView>,
    checks: Option<Seq<QuickCheckRange>>,
) -> Seq<WeightsEntryView> {
    match checks {
        Some(checks) => table.filter(is_decomposed(checks)),
        None => table,
    }
}

/// Whether no code point of the key has the quick-check value `No`.
fn decomposed(codes: &Vec<u32>, checks: &QuickChecks) -> (r: bool)
    ensures
        r == forall|i: int|
            0 <= i < codes@.len() ==> quick_check_at(checks@, #[trigger] codes@[i])
                != QuickCheck::No,
{
    let mut i: usize = 0;
    while i < codes.len()
        invariant
            i <= codes.len(),
            forall|j: int|
                0 <= j < i ==> quick_check_at(checks@, #[trigger] codes@[j]) != QuickCheck::No,
        decreases codes.len() - i,
    {
        match quick_check(checks, codes[i]) {
            QuickCheck::No => {
                return false;
            },
            _ => {},
        }
        i += 1;
    }
    true
}

/// Builds the prefix tree of the selected entries of a table, and counts
/// the entries that are dropped.
fn build<'a>(table: &'a Vec<WeightsEntry>, checks: Option<&QuickChecks>) -> (r: (
    HashMap<u32, TrieNode<'a>>,
    usize,
))
    requires
        forall|i: int| 0 <= i < table@.len() ==> 1 <= (#[trigger] table@[i]).codes@.len() <= 3,
    ensures
        contents(r.0@) == trie_of(
            selected(
                entries_view(table@),
                match checks {
                    Some(checks) => Some(checks@),
                    None => None,
                },
            ),
        ),
        r.1 == dropped_of(
            selected(
                entries_view(table@),
                match checks {
                    Some(checks) => Some(checks@),
                    None => None,
                },
            ),
        ),
{
    let mut roots: HashMap<u32, TrieNode<'a>> = HashMap::new();
    let mut dropped: usize = 0;
    let ghost entries = entries_view(table@);
    let ghost values = match checks {
        Some(checks) => Some(checks@),
        None => None,
    };
    let mut i: usize = 0;
    proof {
        assert(entries.take(0) =~= Seq::empty());
        reveal(Seq::filter);
        assert(selected(entries.take(0), values) =~= Seq::empty());
        assert(contents(roots@) =~= Map::empty());
    }
    while i < table.len()
        invariant
            i <= table.len(),
            entries == entries_view(table@),
            values == match checks {
                Some(checks) => Some(checks@),
                None => None,
            },
            forall|i: int| 0 <= i < table@.len() ==> 1 <= (#[trigger] table@[i]).codes@.len() <= 3,
            contents(roots@) == trie_of(selected(entries.take(i as int), values)),
            dropped == dropped_of(selected(entries.take(i as int), values)),
            dropped <= i,
        decreases table.len() - i,
    {
        let entry = &table[i];
        let codes = &entry.codes;
        let ghost before = selected(entries.take(i as int), values);
        proof {
            assert(entries.take(i + 1) =~= entries.take(i as int).push(entry@));
            if let Some(values) = values {
                lemma_filter_push(entries.take(i as int), entry@, is_decomposed(values));
            }
        }
        let take = match checks {
            Some(checks) => decomposed(codes, checks),
            None => true,
        };
        if take {
            proof {
                assert(selected(entries.take(i + 1), values) == before.push(entry@));
                assert(before.push(entry@).drop_last() =~= before);
            }
            let entered = if codes.len() == 1 {
                assert(codes@ =~= seq![codes@[0]]);
                insert_first(&mut roots, codes[0], &entry.weights);
                true
            } else if codes.len() == 2 {
                assert(codes@ =~= seq![codes@[0], codes@[1]]);
                insert_second(&mut roots, codes[0], codes[1], &entry.weights)
            } else {
                assert(codes@ =~= seq![codes@[0], codes@[1], codes@[2]]);
                insert_third(&mut roots, codes[0], codes[1], codes[2], &entry.weights)
            };
            if !entered {
                dropped += 1;
            }
        }
        i += 1;
    }
    assert(entries.take(i as int) =~= entries);
    (roots, dropped)
}

/// Builds the prefix tree of a table. The entries are entered in the order
/// of the table, so a table ordered by the length of its keys has each key
/// entered after its prefixes. An entry of two or three code points whose
/// key without its last code point is no key so far is dropped.
pub fn weights_trie<'a>(table: &'a Vec<WeightsEntry>) -> (roots: HashMap<u32, TrieNode<'a>>)
    requires
        forall|i: int| 0 <= i < table@.len() ==> 1 <= (#[trigger] table@[i]).codes@.len() <= 3,
    ensures
        contents(roots@) == trie_of(entries_view(table@)),
{
    build(table, None).0
}

/// Builds the prefix tree of a table as `weights_trie` does, and says with
/// it how many entries were dropped, so that a table whose entries do not
/// all reach the tree does not go unnoticed.
pub fn weights_trie_counted<'a>(table: &'a Vec<WeightsEntry>) -> (r: (
    HashMap<u32, TrieNode<'a>>,
    usize,
))
    requires
        forall|i: int| 0 <= i < table@.len() ==> 1 <= (#[trigger] table@[i]).codes@.len() <= 3,
    ensures
        contents(r.0@) == trie_of(entries_view(table@)),
        r.1 == dropped_of(entries_view(table@)),
{
    build(table, None)
}

/// Builds the prefix tree of the entries of a table that can take part in
/// matching text in canonical decomposed form: an entry with a code point
/// whose quick-check value is `No` is left out, and the others are entered
/// as `weights_trie` enters them.
pub fn weights_trie_decomposed<'a>(table: &'a Vec<WeightsEntry>, checks: &QuickChecks) -> (roots:
    HashMap<u32, TrieNode<'a>>)
    requires
        forall|i: int| 0 <= i < table@.len() ==> 1 <= (#[trigger] table@[i]).codes@.len() <= 3,
    ensures
        contents(roots@) == trie_of(entries_view(table@).filter(is_decomposed(checks@))),
{
    build(table, Some(checks)).0
}

/// Whether the first `n` code points of `sequence` are the longest start of
/// `sequence` that is a key of `tree`.
pub open spec fn is_longest_match(
    tree: Map<Seq<u32>, Seq<Weights>>,
    sequence: Seq<u32>,
    n: int,
) -> bool {
    &&& 1 <= n <= sequence.len()
    &&& tree.contains_key(sequence.take(n))
    &&& forall|m: int| n < m <= sequence.len() ==> !tree.contains_key(#[trigger] sequence.take(m))
}

/// Whether no start of `sequence` is a key of `tree`.
pub open spec fn has_no_match(tree: Map<Seq<u32>, Seq<Weights>>, sequence: Seq<u32>) -> bool {
    forall|m: int| 1 <= m <= sequence.len() ==> !tree.contains_key(#[trigger] sequence.take(m))
}

/// Finds the longest start of `sequence` that is a key of the tree, and
/// returns its collation elements and its length; `None` where not even the
/// first code point is a key. A longer match is never passed over for a
/// shorter one.
pub fn lookup_longest_match<'a, 'b>(roots: &'b HashMap<u32, TrieNode<'a>>, sequence: &[u32]) -> (r:
    Option<(&'a Vec<Weights>, usize)>)
    ensures
        match r {
            Some((weights, consumed)) => {
                &&& is_longest_match(contents(roots@), sequence@, consumed as int)
                &&& weights@ == contents(roots@)[sequence@.take(consumed as int)]
            },
            None => has_no_match(contents(roots@), sequence@),
        },
{
    let len = sequence.len();
    if len == 0 {
        return None;
    }
    let ghost tree = contents(roots@);
    let ghost s = sequence@;
    let first = match roots.get(&sequence[0]) {
        Some(first) => first,
        None => {
            assert forall|m: int| 1 <= m <= s.len() implies !tree.contains_key(
                #[trigger] s.take(m),
            ) by {
                assert(s.take(m)[0] == s[0]);
            }
            return None;
        },
    };
    assert(s.take(1)[0] == s[0]);
    assert(node_at(roots@, s.take(1)) == Some(*first));
    let second = if len >= 2 {
        match &first.children {
            Some(children) => children.get(&sequence[1]),
            None => None,
        }
    } else {
        None
    };
    let second = match second {
        Some(second) => second,
        None => {
            assert forall|m: int| 1 < m <= s.len() implies !tree.contains_key(
                #[trigger] s.take(m),
            ) by {
                assert(s.take(m)[0] == s[0]);
                assert(s.take(m)[1] == s[1]);
            }
            return Some((first.weights, 1));
        },
    };
    proof {
        assert(s.take(2)[0] == s[0]);
        assert(s.take(2)[1] == s[1]);
        assert(node_at(roots@, s.take(2)) == Some(*second));
    }
    let third = if len >= 3 {
        match &second.children {
            Some(children) => children.get(&sequence[2]),
            None => None,
        }
    } else {
        None
    };
    match third {
        Some(third) => {
            proof {
                assert(s.take(3)[0] == s[0]);
                assert(s.take(3)[1] == s[1]);
                assert(s.take(3)[2] == s[2]);
                assert(node_at(roots@, s.take(3)) == Some(*third));
            }
            Some((third.weights, 3))
        },
        None => {
            assert forall|m: int| 2 < m <= s.len() implies !tree.contains_key(
                #[trigger] s.take(m),
            ) by {
                assert(s.take(m)[0] == s[0]);
                assert(s.take(m)[1] == s[1]);
                assert(s.take(m)[2] == s[2]);
            }
            Some((second.weights, 2))
        },
    }
}

/// Whether some entry of the table has the key `key`.
pub open spec fn is_key(table: Seq<WeightsEntryView>, key: Seq<u32>) -> bool {
    exists|i: int| 0 <= i < table.len() && (#[trigger] table[i]).codes == key
}

/// The weights of the last entry of the table with the key `key`.
pub open spec fn weights_for(table: Seq<WeightsEntryView>, key: Seq<u32>) -> Seq<Weights>
    decreases table.len(),
{
    if table.len() == 0 {
        Seq::empty()
    } else if table.last().codes == key {
        table.last().weights
    } else {
        weights_for(table.drop_last(), key)
    }
}

/// Whether `key` and each of its shorter prefixes is a key of the table.
pub open spec fn reachable(table: Seq<WeightsEntryView>, key: Seq<u32>) -> bool {
    &&& 1 <= key.len() <= 3
    &&& forall|n: int| 1 <= n <= key.len() ==> is_key(table, #[trigger] key.take(n))
}

/// The keys of a table are those of all but its last entry, and the last.
proof fn lemma_is_key_last(table: Seq<WeightsEntryView>, key: Seq<u32>)
    requires
        table.len() > 0,
    ensures
        is_key(table, key) <==> is_key(table.drop_last(), key) || key == table.last().codes,
{
    let rest = table.drop_last();
    if is_key(table, key) {
        let i = choose|i: int| 0 <= i < table.len() && (#[trigger] table[i]).codes == key;
        if i < rest.len() {
            assert(rest[i].codes == key);
        }
    }
    if is_key(rest, key) {
        let i = choose|i: int| 0 <= i < rest.len() && (#[trigger] rest[i]).codes == key;
        assert(table[i].codes == key);
    }
    if key == table.last().codes {
        assert(table[table.len() - 1].codes == key);
    }
}

/// In an ordered table no key is longer than the last.
proof fn lemma_key_length(table: Seq<WeightsEntryView>, key: Seq<u32>)
    requires
        table.len() > 0,
        ordered_by_length(table),
        is_key(table, key),
    ensures
        1 <= key.len() <= table.last().codes.len(),
{
    let i = choose|i: int| 0 <= i < table.len() && (#[trigger] table[i]).codes == key;
    assert(table[i].codes.len() <= table[table.len() - 1].codes.len());
}

/// All but the last entry of an ordered table are an ordered table.
proof fn lemma_ordered_rest(table: Seq<WeightsEntryView>)
    requires
        table.len() > 0,
        ordered_by_length(table),
    ensures
        ordered_by_length(table.drop_last()),
{
    let rest = table.drop_last();
    assert forall|i: int| 0 <= i < rest.len() implies 1 <= (#[trigger] rest[i]).codes.len()
        <= 3 by {
        assert(rest[i] == table[i]);
    }
    assert forall|i: int, j: int| 0 <= i <= j < rest.len() implies (#[trigger] rest[i]).codes.len()
        <= (#[trigger] rest[j]).codes.len() by {
        assert(rest[i] == table[i]);
        assert(rest[j] == table[j]);
    }
}

/// A key that is reachable stays so when an entry is added.
proof fn lemma_reachable_grows(table: Seq<WeightsEntryView>, key: Seq<u32>)
    requires
        table.len() > 0,
        reachable(table.drop_last(), key),
    ensures
        reachable(table, key),
{
    assert forall|n: int| 1 <= n <= key.len() implies is_key(table, #[trigger] key.take(n)) by {
        lemma_is_key_last(table, key.take(n));
    }
}

/// A key other than the last that is reachable in an ordered table is
/// reachable without the last entry, and is not longer than the last key.
proof fn lemma_reachable_before(table: Seq<WeightsEntryView>, key: Seq<u32>)
    requires
        table.len() > 0,
        ordered_by_length(table),
        reachable(table, key),
        key != table.last().codes,
    ensures
        reachable(table.drop_last(), key),
        key.len() <= table.last().codes.len(),
{
    let last = table.last().codes;
    assert(key.take(key.len() as int) =~= key);
    lemma_key_length(table, key);
    assert forall|n: int| 1 <= n <= key.len() implies is_key(
        table.drop_last(),
        #[trigger] key.take(n),
    ) by {
        lemma_is_key_last(table, key.take(n));
        if key.take(n) == last {
            lemma_key_length(table, key.take(n));
            assert(n == key.len());
            assert(key.take(n) =~= key);
        }
    }
}

/// The prefixes of a reachable key are reachable.
proof fn lemma_reachable_prefix(table: Seq<WeightsEntryView>, key: Seq<u32>)
    requires
        reachable(table, key),
        key.len() >= 2,
    ensures
        reachable(table, key.drop_last()),
{
    let prefix = key.drop_last();
    assert forall|n: int| 1 <= n <= prefix.len() implies is_key(
        table,
        #[trigger] prefix.take(n),
    ) by {
        assert(prefix.take(n) =~= key.take(n));
    }
}

/// A key of the table whose prefix is reachable is reachable.
proof fn lemma_reachable_extended(table: Seq<WeightsEntryView>, key: Seq<u32>)
    requires
        is_key(table, key),
        2 <= key.len() <= 3,
        reachable(table, key.drop_last()),
    ensures
        reachable(table, key),
{
    let prefix = key.drop_last();
    assert forall|n: int| 1 <= n <= key.len() implies is_key(table, #[trigger] key.take(n)) by {
        if n == key.len() {
            assert(key.take(n) =~= key);
        } else {
            assert(prefix.take(n) =~= key.take(n));
        }
    }
}

/// What the prefix tree of an ordered table holds of one key: the key is
/// in the tree if and only if the key and each of its shorter prefixes is
/// a key of the table, and it then has the weights of the last entry with
/// that key.
pub proof fn lemma_trie_key(table: Seq<WeightsEntryView>, key: Seq<u32>)
    requires
        ordered_by_length(table),
    ensures
        trie_of(table).contains_key(key) <==> reachable(table, key),
        trie_of(table).contains_key(key) ==> trie_of(table)[key] == weights_for(table, key),
    decreases table.len(),
{
    if table.len() == 0 {
        if reachable(table, key) {
            assert(is_key(table, key.take(1)));
        }
    } else {
        let rest = table.drop_last();
        let last = table.last().codes;
        let weights = table.last().weights;
        let before = trie_of(rest);
        lemma_ordered_rest(table);
        lemma_trie_key(rest, key);
        assert(1 <= last.len() <= 3) by {
            assert(table[table.len() - 1].codes.len() >= 1);
        }
        assert(is_key(table, last)) by {
            assert(table[table.len() - 1].codes == last);
        }
        if last.len() >= 2 {
            lemma_trie_key(rest, last.drop_last());
        }
        let entered = last.len() == 1 || before.contains_key(last.drop_last());
        assert(trie_of(table) == with_key(before, last, weights));
        if key == last {
            if entered {
                if last.len() == 1 {
                    assert forall|n: int| 1 <= n <= last.len() implies is_key(
                        table,
                        #[trigger] last.take(n),
                    ) by {
                        assert(last.take(n) =~= last);
                    }
                } else {
                    lemma_reachable_grows(table, last.drop_last());
                    lemma_reachable_extended(table, last);
                }
            } else {
                if reachable(table, last) {
                    lemma_reachable_prefix(table, last);
                    lemma_reachable_before(table, last.drop_last());
                }
                if before.contains_key(last) {
                    lemma_reachable_prefix(rest, last);
                }
            }
        } else {
            if reachable(table, key) {
                lemma_reachable_before(table, key);
            }
            if reachable(rest, key) {
                lemma_reachable_grows(table, key);
                assert(key.take(key.len() as int) =~= key);
                lemma_is_key_last(table, key);
                lemma_key_length(table, key);
                assert(!extends(key, last));
            }
        }
    }
}

/// The longest match is the longest contraction of the table: where the
/// first `n` code points of a sequence are a reachable key of an ordered
/// table and no longer start of the sequence is one, the longest match of
/// the sequence in the prefix tree has exactly `n` code points. A pair
/// that the table holds is never passed over for its first code point.
pub proof fn lemma_longest_match_in_ordered_table(
    table: Seq<WeightsEntryView>,
    sequence: Seq<u32>,
    n: int,
)
    requires
        ordered_by_length(table),
        1 <= n <= sequence.len(),
        reachable(table, sequence.take(n)),
        forall|m: int| n < m <= sequence.len() ==> !reachable(table, #[trigger] sequence.take(m)),
    ensures
        is_longest_match(trie_of(table), sequence, n),
        trie_of(table)[sequence.take(n)] == weights_for(table, sequence.take(n)),
{
    lemma_trie_key(table, sequence.take(n));
    assert forall|m: int| n < m <= sequence.len() implies !trie_of(table).contains_key(
        #[trigger] sequence.take(m),
    ) by {
        lemma_trie_key(table, sequence.take(m));
    }
}

/// Where the first code point of a sequence is no key of an ordered table,
/// the sequence has no match in the prefix tree.
pub proof fn lemma_no_match_in_ordered_table(table: Seq<WeightsEntryView>, sequence: Seq<u32>)
    requires
        ordered_by_length(table),
        sequence.len() >= 1,
        !is_key(table, sequence.take(1)),
    ensures
        has_no_match(trie_of(table), sequence),
{
    assert forall|m: int| 1 <= m <= sequence.len() implies !trie_of(table).contains_key(
        #[trigger] sequence.take(m),
    ) by {
        lemma_trie_key(table, sequence.take(m));
        if reachable(table, sequence.take(m)) {
            assert(sequence.take(m).take(1) =~= sequence.take(1));
        }
    }
}

/// A sequence has one longest match at most.
pub proof fn lemma_longest_match_is_unique(
    tree: Map<Seq<u32>, Seq<Weights>>,
    sequence: Seq<u32>,
    a: int,
    b: int,
)
    requires
        is_longest_match(tree, sequence, a),
        is_longest_match(tree, sequence, b),
    ensures
        a == b,
{
}

} // verus!
