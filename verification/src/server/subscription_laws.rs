//! Laws of the subscription trie: what a subscription, and taking one back,
//! change for the subscribers of every filter and for the messages that
//! are routed afterwards.

use vstd::prelude::*;
use vstd::multiset::group_multiset_axioms;
use vstd::multiset::Multiset;
use vstd::seq_lib::lemma_multiset_commutative;
use vstd::seq_lib::to_multiset_build;
use vstd::seq_lib::to_multiset_contains;
use vstd::seq_lib::to_multiset_remove;
use crate::server::subscriptions::filter_matches;
use crate::server::subscriptions::lemma_matches_complete;
use crate::server::subscriptions::starts_with_dollar;
use crate::server::subscriptions::apply_changes;
use crate::server::subscriptions::client_position;
use crate::server::subscriptions::ChangeView;
use crate::server::subscriptions::lemma_first_client;
use crate::server::subscriptions::matches_below;
use crate::server::subscriptions::subscription_matches;
use crate::server::subscriptions::upsert;
use crate::server::subscriptions::first_client;
use crate::server::subscriptions::distinct_clients;
use crate::server::subscriptions::without_client;
use crate::server::subscriptions::FilterLevel;
use crate::server::subscriptions::Subscriber;
use crate::server::subscriptions::TrieView;

verus! {

/// Three lists one after the other, of which one gained `x`: together they
/// gained `x`.
proof fn lemma_gained_in_parts(
    a: Seq<Subscriber>,
    b: Seq<Subscriber>,
    c: Seq<Subscriber>,
    a2: Seq<Subscriber>,
    b2: Seq<Subscriber>,
    c2: Seq<Subscriber>,
    x: Subscriber,
)
    requires
        ({
            ||| a2.to_multiset() == a.to_multiset().insert(x) && b2 == b && c2 == c
            ||| a2 == a && b2.to_multiset() == b.to_multiset().insert(x) && c2 == c
            ||| a2 == a && b2 == b && c2.to_multiset() == c.to_multiset().insert(x)
        }),
    ensures
        (a2 + b2 + c2).to_multiset() == (a + b + c).to_multiset().insert(x),
{
    broadcast use group_multiset_axioms;

    lemma_multiset_commutative(a, b);
    lemma_multiset_commutative(a + b, c);
    lemma_multiset_commutative(a2, b2);
    lemma_multiset_commutative(a2 + b2, c2);
    assert((a2 + b2 + c2).to_multiset() =~= (a + b + c).to_multiset().insert(x));
}

/// The node with one more child after the others.
spec fn with_child(node: TrieView, level: FilterLevel, child: TrieView) -> TrieView {
    TrieView { subscriptions: node.subscriptions, children: node.children.push((level, child)) }
}

/// The node with one more child, which is empty, after the others.
spec fn with_empty_child(node: TrieView, level: FilterLevel) -> TrieView {
    with_child(node, level, TrieView::empty())
}

/// Where a level leads after one more child was put after the others: where
/// it led before, or to the new child where it led nowhere and the child
/// stands under it.
proof fn lemma_child_after_push(node: TrieView, level: FilterLevel, child: TrieView, q: FilterLevel)
    ensures
        with_child(node, level, child).child_index(q) == if node.child_index(q) != -1 {
            node.child_index(q)
        } else if q == level {
            node.children.len() as int
        } else {
            -1
        },
{
    let grown = with_child(node, level, child);
    TrieView::lemma_first_child(node.children, q, 0);
    TrieView::lemma_first_child(grown.children, q, 0);
    let k = node.child_index(q);
    let g = grown.child_index(q);
    if k != -1 {
        assert(grown.children[k].0 == q);
        if g != -1 && g < k {
            assert(node.children[g].0 == grown.children[g].0);
        }
    } else if q == level {
        assert(grown.children[node.children.len() as int].0 == q);
        if g != -1 && g < node.children.len() {
            assert(node.children[g].0 == grown.children[g].0);
        }
    } else {
        if g != -1 {
            if g < node.children.len() {
                assert(node.children[g].0 == grown.children[g].0);
            }
        }
    }
}

/// A message reaches nobody from an empty node.
proof fn lemma_empty_matches(topic: Seq<Seq<char>>, idx: int)
    requires
        0 <= idx <= topic.len(),
    ensures
        TrieView::empty().matches(topic, idx) == Seq::<Subscriber>::empty(),
{
    let node = TrieView::empty();
    reveal_with_fuel(TrieView::first_child, 2);
    assert(node.child_index(FilterLevel::MultiWildcard) == -1);
    assert(node.child_index(FilterLevel::SingleWildcard) == -1);
    if idx < topic.len() {
        assert(node.child_index(FilterLevel::Named(topic[idx])) == -1);
    }
    assert(node.matches(topic, idx) =~= Seq::<Subscriber>::empty());
}

/// An empty child under a level that led nowhere changes nothing for the
/// messages that are routed, and leaves a well-formed node well-formed.
proof fn lemma_empty_child(node: TrieView, level: FilterLevel, topic: Seq<Seq<char>>, idx: int)
    requires
        node.wf(),
        node.child_index(level) == -1,
        0 <= idx <= topic.len(),
    ensures
        with_empty_child(node, level).wf(),
        with_empty_child(node, level).child_index(level) == node.children.len(),
        with_empty_child(node, level).matches(topic, idx) == node.matches(topic, idx),
{
    let grown = with_empty_child(node, level);
    let n = node.children.len() as int;
    TrieView::lemma_first_child(node.children, level, 0);
    lemma_child_after_push(node, level, TrieView::empty(), level);
    lemma_child_after_push(node, level, TrieView::empty(), FilterLevel::MultiWildcard);
    lemma_child_after_push(node, level, TrieView::empty(), FilterLevel::SingleWildcard);
    assert forall|i: int, j: int|
        0 <= i < grown.children.len() && 0 <= j < grown.children.len() && i != j implies (
    #[trigger] grown.children[i]).0 != (#[trigger] grown.children[j]).0 by {
        if i < n && j < n {
            assert(node.children[i].0 != node.children[j].0);
        } else if i < n {
            assert(node.children[i].0 != level);
        } else {
            assert(node.children[j].0 != level);
        }
    }
    assert forall|i: int| 0 <= i < grown.children.len() implies (#[trigger] grown.children[i]).1.wf() by {
        if i < n {
            assert(node.children[i].1.wf());
        } else {
            assert(grown.children[i].1 == TrieView::empty());
        }
    }
    assert(grown.wf());
    assert(forall|i: int| 0 <= i < n ==> grown.children[i] == node.children[i]);
    assert(grown.children[n].1.subscriptions =~= Seq::<Subscriber>::empty());
    if idx < topic.len() {
        lemma_child_after_push(node, level, TrieView::empty(), FilterLevel::Named(topic[idx]));
        lemma_empty_matches(topic, idx + 1);
    }
    assert(grown.matches(topic, idx) =~= node.matches(topic, idx));
}

/// One more subscription is reached once more. After a client that had no
/// subscription under the filter `path` subscribed to it, a message whose
/// topic the filter matches reaches the subscriptions it reached before
/// and the new one, once; any other message reaches what it reached
/// before. Subscriptions are counted as often as the walk finds them.
pub proof fn lemma_one_more_subscription(
    node: TrieView,
    path: Seq<FilterLevel>,
    entry: Subscriber,
    topic: Seq<Seq<char>>,
    idx: int,
)
    requires
        node.wf(),
        0 <= idx <= topic.len(),
        forall|i: int|
            0 <= i < node.subscribers_at(path).len() ==> (#[trigger] node.subscribers_at(
                path,
            )[i]).client_id != entry.client_id,
    ensures
        node.with_subscriber(path, entry).matches(topic, idx).to_multiset() == if matches_below(
            path,
            topic,
            idx,
        ) {
            node.matches(topic, idx).to_multiset().insert(entry)
        } else {
            node.matches(topic, idx).to_multiset()
        },
    decreases path.len(), 1nat,
{
    if path.len() == 0 {
        lemma_at_the_node(node, path, entry, topic, idx);
    } else {
        let level = path[0];
        TrieView::lemma_first_child(node.children, level, 0);
        if node.child_index(level) == -1 {
            let grown = with_empty_child(node, level);
            lemma_empty_child(node, level, topic, idx);
            assert(grown.subscribers_at(path) =~= Seq::<Subscriber>::empty()) by {
                TrieView::empty().lemma_empty_node(path.skip(1));
            }
            lemma_below_the_node(grown, path, entry, topic, idx);
            assert(grown.with_subscriber(path, entry) == node.with_subscriber(path, entry)) by {
                let n = node.children.len() as int;
                let made = TrieView::empty().with_subscriber(path.skip(1), entry);
                assert(grown.children.update(n, (level, made)) =~= node.children.push(
                    (level, made),
                ));
            }
        } else {
            lemma_below_the_node(node, path, entry, topic, idx);
        }
    }
}

/// The law for a subscription to the filter that ends at the node.
proof fn lemma_at_the_node(
    node: TrieView,
    path: Seq<FilterLevel>,
    entry: Subscriber,
    topic: Seq<Seq<char>>,
    idx: int,
)
    requires
        0 <= idx <= topic.len(),
        path.len() == 0,
        forall|i: int|
            0 <= i < node.subscriptions.len() ==> (#[trigger] node.subscriptions[i]).client_id
                != entry.client_id,
    ensures
        node.with_subscriber(path, entry).matches(topic, idx).to_multiset() == if matches_below(
            path,
            topic,
            idx,
        ) {
            node.matches(topic, idx).to_multiset().insert(entry)
        } else {
            node.matches(topic, idx).to_multiset()
        },
{
    let after = node.with_subscriber(path, entry);
    lemma_first_client(node.subscriptions, entry.client_id, 0);
    assert(after.subscriptions == node.subscriptions.push(entry));
    assert(after.children == node.children);
    if idx < topic.len() {
        assert(topic.skip(idx).len() > 0);
        assert(!matches_below(path, topic, idx));
        assert(after.matches(topic, idx) == node.matches(topic, idx));
    } else {
        assert(topic.skip(idx).len() == 0);
        assert(matches_below(path, topic, idx));
        let m = node.child_index(FilterLevel::MultiWildcard);
        let wild = !(idx == 0 && topic.len() > 0 && starts_with_dollar(
            topic[0],
        ));
        let multi = if wild && 0 <= m < node.children.len() {
            node.children[m].1.subscriptions
        } else {
            Seq::empty()
        };
        assert(node.matches(topic, idx) == multi + node.subscriptions);
        assert(after.matches(topic, idx) =~= (multi + node.subscriptions).push(entry));
        to_multiset_build(multi + node.subscriptions, entry);
    }
}

/// The law for a subscription to a filter that leads on to a child of the
/// node.
#[verifier::rlimit(40)]
#[verifier::spinoff_prover]
proof fn lemma_below_the_node(
    node: TrieView,
    path: Seq<FilterLevel>,
    entry: Subscriber,
    topic: Seq<Seq<char>>,
    idx: int,
)
    requires
        node.wf(),
        0 <= idx <= topic.len(),
        path.len() > 0,
        0 <= node.child_index(path[0]) < node.children.len(),
        forall|i: int|
            0 <= i < node.subscribers_at(path).len() ==> (#[trigger] node.subscribers_at(
                path,
            )[i]).client_id != entry.client_id,
    ensures
        node.with_subscriber(path, entry).matches(topic, idx).to_multiset() == if matches_below(
            path,
            topic,
            idx,
        ) {
            node.matches(topic, idx).to_multiset().insert(entry)
        } else {
            node.matches(topic, idx).to_multiset()
        },
    decreases path.len(), 0nat,
{
    let level = path[0];
    let rest = path.skip(1);
    let i = node.child_index(level);
    let child = node.children[i].1;
    let child2 = child.with_subscriber(rest, entry);
    let after = node.with_subscriber(path, entry);
    let wild = !(idx == 0 && topic.len() > 0 && starts_with_dollar(
        topic[0],
    ));
    TrieView::lemma_first_child(node.children, level, 0);
    assert(node.children[i].0 == level);
    assert(after.subscriptions == node.subscriptions);
    assert(after.children == node.children.update(i, (level, child2)));
    assert(node.subscribers_at(path) == child.subscribers_at(rest));
    assert(child.wf());

    // every level leads where it led before
    let m = node.child_index(FilterLevel::MultiWildcard);
    let s = node.child_index(FilterLevel::SingleWildcard);
    after.lemma_same_levels(node, FilterLevel::MultiWildcard);
    after.lemma_same_levels(node, FilterLevel::SingleWildcard);
    TrieView::lemma_first_child(node.children, FilterLevel::MultiWildcard, 0);
    TrieView::lemma_first_child(node.children, FilterLevel::SingleWildcard, 0);
    assert(m == i <==> level == FilterLevel::MultiWildcard);
    assert(s == i <==> level == FilterLevel::SingleWildcard);

    let multi = if wild && 0 <= m < node.children.len() {
        node.children[m].1.subscriptions
    } else {
        Seq::empty()
    };
    let multi2 = if wild && 0 <= m < after.children.len() {
        after.children[m].1.subscriptions
    } else {
        Seq::empty()
    };
    let ends_here = rest.len() == 0;
    if level == FilterLevel::MultiWildcard {
        if rest.len() == 0 {
            lemma_first_client(child.subscriptions, entry.client_id, 0);
            assert(child2.subscriptions == child.subscriptions.push(entry));
            to_multiset_build(child.subscriptions, entry);
        } else {
            assert(child2.subscriptions == child.subscriptions);
        }
    }
    assert(multi2.to_multiset() == if wild && level == FilterLevel::MultiWildcard
        && ends_here {
        multi.to_multiset().insert(entry)
    } else {
        multi.to_multiset()
    });
    assert(!(wild && level == FilterLevel::MultiWildcard && ends_here) ==> multi2 == multi);

    if idx < topic.len() {
        let name = FilterLevel::Named(topic[idx]);
        let n = node.child_index(name);
        after.lemma_same_levels(node, name);
        TrieView::lemma_first_child(node.children, name, 0);
        assert(n == i <==> level == name);
        lemma_one_more_subscription(child, rest, entry, topic, idx + 1);
        assert(topic.skip(idx).skip(1) =~= topic.skip(idx + 1));
        assert(topic.skip(idx)[0] == topic[idx]);
        let below = filter_matches(rest, topic.skip(idx + 1));
        assert(matches_below(rest, topic, idx + 1) == below);

        let single = if wild && 0 <= s < node.children.len() {
            node.children[s].1.matches(topic, idx + 1)
        } else {
            Seq::empty()
        };
        let single2 = if wild && 0 <= s < after.children.len() {
            after.children[s].1.matches(topic, idx + 1)
        } else {
            Seq::empty()
        };
        let named = if 0 <= n < node.children.len() {
            node.children[n].1.matches(topic, idx + 1)
        } else {
            Seq::empty()
        };
        let named2 = if 0 <= n < after.children.len() {
            after.children[n].1.matches(topic, idx + 1)
        } else {
            Seq::empty()
        };
        assert(node.matches(topic, idx) == multi + single + named);
        assert(after.matches(topic, idx) == multi2 + single2 + named2);
        let by_multi = wild && level == FilterLevel::MultiWildcard && ends_here;
        let by_single = wild && level == FilterLevel::SingleWildcard && below;
        let by_named = level == name && below;
        assert(matches_below(path, topic, idx) == (by_multi || by_single || by_named));
        if by_multi {
            assert(single2 == single && named2 == named);
            lemma_gained_in_parts(multi, single, named, multi2, single2, named2, entry);
        } else if by_single {
            assert(multi2 == multi && named2 == named);
            lemma_gained_in_parts(multi, single, named, multi2, single2, named2, entry);
        } else if by_named {
            assert(multi2 == multi && single2 == single);
            lemma_gained_in_parts(multi, single, named, multi2, single2, named2, entry);
        } else {
            assert(multi2 == multi);
            assert(single2.to_multiset() == single.to_multiset());
            assert(named2.to_multiset() == named.to_multiset());
            lemma_multiset_commutative(multi, single);
            lemma_multiset_commutative(multi + single, named);
            lemma_multiset_commutative(multi2, single2);
            lemma_multiset_commutative(multi2 + single2, named2);
        }
    } else {
        assert(topic.skip(idx).len() == 0);
        assert(node.matches(topic, idx) == multi + node.subscriptions);
        assert(after.matches(topic, idx) == multi2 + node.subscriptions);
        let by_multi = wild && level == FilterLevel::MultiWildcard && ends_here;
        assert(matches_below(path, topic, idx) == by_multi);
        if by_multi {
            let none = Seq::<Subscriber>::empty();
            lemma_gained_in_parts(multi, node.subscriptions, none, multi2, node.subscriptions, none, entry);
            assert(multi + node.subscriptions + none =~= multi + node.subscriptions);
            assert(multi2 + node.subscriptions + none =~= multi2 + node.subscriptions);
        }
    }
}

/// A subscription changes the subscribers of its own filter and of no
/// other: under the filter `path` the entry takes the place of the same
/// client's earlier entry, or follows the others, and under every other
/// filter the subscribers are the ones that were there.
pub proof fn lemma_subscribers_after(
    node: TrieView,
    path: Seq<FilterLevel>,
    entry: Subscriber,
    q: Seq<FilterLevel>,
)
    ensures
        node.with_subscriber(path, entry).subscribers_at(q) == if q == path {
            upsert(node.subscribers_at(q), entry)
        } else {
            node.subscribers_at(q)
        },
    decreases path.len(),
{
    let after = node.with_subscriber(path, entry);
    if path.len() == 0 {
        if q.len() == 0 {
            assert(q =~= path);
        }
    } else if q.len() == 0 {
    } else {
        let level = path[0];
        let rest = path.skip(1);
        let i = node.child_index(level);
        TrieView::lemma_first_child(node.children, level, 0);
        TrieView::lemma_first_child(node.children, q[0], 0);
        let k = node.child_index(q[0]);
        if q.skip(1) == rest && q[0] == level {
            assert(q =~= path) by {
                assert(q.skip(1).len() == path.skip(1).len());
                assert(q.len() == path.len());
                assert forall|j: int| 0 <= j < q.len() implies q[j] == path[j] by {
                    if j > 0 {
                        assert(q[j] == q.skip(1)[j - 1]);
                        assert(path[j] == path.skip(1)[j - 1]);
                    }
                }
            }
        }
        if 0 <= i < node.children.len() {
            let child = node.children[i].1;
            after.lemma_same_levels(node, q[0]);
            if q[0] == level {
                lemma_subscribers_after(child, rest, entry, q.skip(1));
            }
        } else {
            let made = TrieView::empty().with_subscriber(rest, entry);
            assert(after == with_child(node, level, made));
            lemma_child_after_push(node, level, made, q[0]);
            if q[0] == level {
                lemma_subscribers_after(TrieView::empty(), rest, entry, q.skip(1));
                TrieView::empty().lemma_empty_node(q.skip(1));
                assert(node.subscribers_at(q) =~= Seq::<Subscriber>::empty());
            }
        }
    }
}

/// A subscription keeps a well-formed trie well-formed.
pub proof fn lemma_subscription_keeps_wf(node: TrieView, path: Seq<FilterLevel>, entry: Subscriber)
    requires
        node.wf(),
    ensures
        node.with_subscriber(path, entry).wf(),
    decreases path.len(),
{
    let after = node.with_subscriber(path, entry);
    if path.len() == 0 {
        let list = node.subscriptions;
        let list2 = after.subscriptions;
        lemma_first_client(list, entry.client_id, 0);
        let k = client_position(list, entry.client_id);
        assert forall|i: int, j: int|
            0 <= i < list2.len() && 0 <= j < list2.len() && i != j implies (#[trigger] list2[i]).client_id
            != (#[trigger] list2[j]).client_id by {
            if 0 <= k < list.len() {
                assert(list2[i] == if i == k { entry } else { list[i] });
                assert(list2[j] == if j == k { entry } else { list[j] });
                assert(list[i].client_id != list[j].client_id);
            } else {
                if i < list.len() {
                    assert(list[i].client_id != entry.client_id);
                }
                if j < list.len() {
                    assert(list[j].client_id != entry.client_id);
                }
                if i < list.len() && j < list.len() {
                    assert(list[i].client_id != list[j].client_id);
                }
            }
        }
    } else {
        let level = path[0];
        let rest = path.skip(1);
        let i = node.child_index(level);
        let n = node.children.len() as int;
        TrieView::lemma_first_child(node.children, level, 0);
        if 0 <= i < n {
            lemma_subscription_keeps_wf(node.children[i].1, rest, entry);
            assert forall|a: int, b: int|
                0 <= a < after.children.len() && 0 <= b < after.children.len() && a != b implies (
            #[trigger] after.children[a]).0 != (#[trigger] after.children[b]).0 by {
                assert(node.children[a].0 != node.children[b].0);
            }
            assert forall|a: int| 0 <= a < after.children.len() implies (#[trigger] after.children[a]).1.wf() by {
                assert(node.children[a].1.wf());
            }
        } else {
            lemma_subscription_keeps_wf(TrieView::empty(), rest, entry);
            assert forall|a: int, b: int|
                0 <= a < after.children.len() && 0 <= b < after.children.len() && a != b implies (
            #[trigger] after.children[a]).0 != (#[trigger] after.children[b]).0 by {
                if a < n && b < n {
                    assert(node.children[a].0 != node.children[b].0);
                } else if a < n {
                    assert(node.children[a].0 != level);
                } else {
                    assert(node.children[b].0 != level);
                }
            }
            assert forall|a: int| 0 <= a < after.children.len() implies (#[trigger] after.children[a]).1.wf() by {
                if a < n {
                    assert(node.children[a].1.wf());
                }
            }
        }
    }
}

/// The trie that holds the subscriptions of a list, made in order on an
/// empty trie. Each is a filter and who subscribed to it.
pub open spec fn subscribed(list: Seq<(Seq<FilterLevel>, Subscriber)>) -> TrieView
    decreases list.len(),
{
    if list.len() == 0 {
        TrieView::empty()
    } else {
        subscribed(list.drop_last()).with_subscriber(list.last().0, list.last().1)
    }
}

/// The subscriptions of a list whose filter matches the topic, each as
/// often as it stands in the list.
pub open spec fn reached(list: Seq<(Seq<FilterLevel>, Subscriber)>, topic: Seq<Seq<char>>) -> Multiset<
    Subscriber,
>
    decreases list.len(),
{
    if list.len() == 0 {
        Multiset::empty()
    } else if subscription_matches(list.last().0, topic) {
        reached(list.drop_last(), topic).insert(list.last().1)
    } else {
        reached(list.drop_last(), topic)
    }
}

/// No client subscribes twice to the same filter in the list.
pub open spec fn subscribes_once(list: Seq<(Seq<FilterLevel>, Subscriber)>) -> bool {
    forall|i: int, j: int|
        0 <= i < list.len() && 0 <= j < list.len() && i != j ==> !((#[trigger] list[i]).0 == (
        #[trigger] list[j]).0 && list[i].1.client_id == list[j].1.client_id)
}

/// Whoever stands under a filter of the trie of a list subscribed to that
/// filter in the list.
pub proof fn lemma_subscribed_from_the_list(
    list: Seq<(Seq<FilterLevel>, Subscriber)>,
    q: Seq<FilterLevel>,
    k: int,
)
    requires
        0 <= k < subscribed(list).subscribers_at(q).len(),
    ensures
        exists|j: int|
            0 <= j < list.len() && (#[trigger] list[j]).0 == q && list[j].1 == subscribed(
                list,
            ).subscribers_at(q)[k],
    decreases list.len(),
{
    if list.len() == 0 {
        TrieView::empty().lemma_empty_node(q);
    } else {
        let init = list.drop_last();
        let before = subscribed(init);
        let path = list.last().0;
        let entry = list.last().1;
        let x = subscribed(list).subscribers_at(q)[k];
        lemma_subscribers_after(before, path, entry, q);
        let old_list = before.subscribers_at(q);
        lemma_first_client(old_list, entry.client_id, 0);
        let pos = client_position(old_list, entry.client_id);
        if q == path && (k == pos || (pos == -1 && k == old_list.len())) {
            assert(x == entry);
            assert(list[list.len() - 1].0 == q && list[list.len() - 1].1 == x);
        } else {
            assert(0 <= k < old_list.len() && old_list[k] == x);
            lemma_subscribed_from_the_list(init, q, k);
            let j = choose|j: int|
                0 <= j < init.len() && (#[trigger] init[j]).0 == q && init[j].1 == x;
            assert(list[j] == init[j]);
        }
    }
}

/// Many subscriptions, each reached once. After the subscriptions of a
/// list were made on an empty trie, no client twice under the same filter,
/// a message reaches exactly the subscriptions whose filter matches its
/// topic: each of them once, and no other.
pub proof fn lemma_each_subscription_is_reached_once(
    list: Seq<(Seq<FilterLevel>, Subscriber)>,
    topic: Seq<Seq<char>>,
)
    requires
        subscribes_once(list),
    ensures
        subscribed(list).wf(),
        subscribed(list).matches(topic, 0).to_multiset() == reached(list, topic),
    decreases list.len(),
{
    if list.len() == 0 {
        lemma_empty_matches(topic, 0);
        assert(Seq::<Subscriber>::empty().to_multiset() =~= Multiset::<Subscriber>::empty()) by {
            broadcast use group_multiset_axioms;

            Seq::<Subscriber>::empty().to_multiset_ensures();
        }
    } else {
        let init = list.drop_last();
        let before = subscribed(init);
        let path = list.last().0;
        let entry = list.last().1;
        assert forall|i: int, j: int|
            0 <= i < init.len() && 0 <= j < init.len() && i != j implies !((#[trigger] init[i]).0 == (
        #[trigger] init[j]).0 && init[i].1.client_id == init[j].1.client_id) by {
            assert(init[i] == list[i] && init[j] == list[j]);
        }
        lemma_each_subscription_is_reached_once(init, topic);
        lemma_subscription_keeps_wf(before, path, entry);
        assert forall|k: int| 0 <= k < before.subscribers_at(path).len() implies (
        #[trigger] before.subscribers_at(path)[k]).client_id != entry.client_id by {
            lemma_subscribed_from_the_list(init, path, k);
            let j = choose|j: int|
                0 <= j < init.len() && (#[trigger] init[j]).0 == path && init[j].1
                    == before.subscribers_at(path)[k];
            assert(list[j] == init[j]);
            assert(list[list.len() - 1] == list.last());
        }
        lemma_one_more_subscription(before, path, entry, topic, 0);
    }
}

/// The node with child `i` replaced by `child`, under the same level.
spec fn with_changed_child(node: TrieView, i: int, child: TrieView) -> TrieView {
    TrieView {
        subscriptions: node.subscriptions,
        children: node.children.update(i, (node.children[i].0, child)),
    }
}

/// Taking a subscription back changes the subscribers of its own filter
/// and of no other: under the filter `path` the first entry of the client
/// is gone, and under every other filter the subscribers are the ones that
/// were there, also where nodes were taken out.
pub proof fn lemma_subscribers_without(
    node: TrieView,
    path: Seq<FilterLevel>,
    client_id: Seq<char>,
    q: Seq<FilterLevel>,
)
    ensures
        node.without_subscriber(path, client_id).subscribers_at(q) == if q == path {
            without_client(node.subscribers_at(q), client_id)
        } else {
            node.subscribers_at(q)
        },
    decreases path.len(),
{
    let after = node.without_subscriber(path, client_id);
    if path.len() == 0 {
        if q.len() == 0 {
            assert(q =~= path);
        }
    } else {
        let level = path[0];
        let rest = path.skip(1);
        let i = node.child_index(level);
        TrieView::lemma_first_child(node.children, level, 0);
        if q.len() > 0 && q.skip(1) == rest && q[0] == level {
            assert(q =~= path) by {
                assert(q.skip(1).len() == path.skip(1).len());
                assert(q.len() == path.len());
                assert forall|j: int| 0 <= j < q.len() implies q[j] == path[j] by {
                    if j > 0 {
                        assert(q[j] == q.skip(1)[j - 1]);
                        assert(path[j] == path.skip(1)[j - 1]);
                    }
                }
            }
        }
        if !(0 <= i < node.children.len()) {
            if q == path {
                assert(node.subscribers_at(q) =~= Seq::<Subscriber>::empty());
                reveal_with_fuel(first_client, 2);
            }
        } else if q.len() == 0 {
        } else {
            let child = node.children[i].1;
            let child2 = child.without_subscriber(rest, client_id);
            let mid = with_changed_child(node, i, child2);
            mid.lemma_same_levels(node, q[0]);
            TrieView::lemma_first_child(node.children, q[0], 0);
            if q[0] == level {
                lemma_subscribers_without(child, rest, client_id, q.skip(1));
            }
            assert(mid.subscribers_at(q) == if q == path {
                without_client(node.subscribers_at(q), client_id)
            } else {
                node.subscribers_at(q)
            });
            if child2.is_empty() && !node.level_stands_again(i) {
                assert(after.children == mid.children.remove(i));
                assert forall|j: int| 0 <= j < mid.children.len() && j != i implies (
                #[trigger] mid.children[j]).0 != mid.children[i].0 by {
                    if j < i {
                        assert(node.children[j].0 != level);
                    } else {
                        assert(node.children[j].0 != node.children[i].0);
                    }
                }
                mid.lemma_without_child(after, i, q[0]);
                if q[0] == level {
                    child2.lemma_empty_node(q.skip(1));
                    assert(after.subscribers_at(q) =~= Seq::<Subscriber>::empty());
                }
            } else {
                assert(after == mid);
            }
        }
    }
}

/// Taking a subscription back keeps a well-formed trie well-formed.
pub proof fn lemma_withdrawal_keeps_wf(node: TrieView, path: Seq<FilterLevel>, client_id: Seq<char>)
    requires
        node.wf(),
    ensures
        node.without_subscriber(path, client_id).wf(),
    decreases path.len(),
{
    let after = node.without_subscriber(path, client_id);
    if path.len() == 0 {
        let list = node.subscriptions;
        let list2 = after.subscriptions;
        lemma_first_client(list, client_id, 0);
        let k = client_position(list, client_id);
        assert forall|i: int, j: int|
            0 <= i < list2.len() && 0 <= j < list2.len() && i != j implies (#[trigger] list2[i]).client_id
            != (#[trigger] list2[j]).client_id by {
            if 0 <= k < list.len() {
                let i0 = if i < k { i } else { i + 1 };
                let j0 = if j < k { j } else { j + 1 };
                assert(list2[i] == list[i0]);
                assert(list2[j] == list[j0]);
                assert(list[i0].client_id != list[j0].client_id);
            } else {
                assert(list[i].client_id != list[j].client_id);
            }
        }
    } else {
        let level = path[0];
        let rest = path.skip(1);
        let i = node.child_index(level);
        TrieView::lemma_first_child(node.children, level, 0);
        if 0 <= i < node.children.len() {
            let child2 = node.children[i].1.without_subscriber(rest, client_id);
            lemma_withdrawal_keeps_wf(node.children[i].1, rest, client_id);
            if child2.is_empty() && !node.level_stands_again(i) {
                assert forall|a: int, b: int|
                    0 <= a < after.children.len() && 0 <= b < after.children.len() && a != b implies (
                #[trigger] after.children[a]).0 != (#[trigger] after.children[b]).0 by {
                    let a0 = if a < i { a } else { a + 1 };
                    let b0 = if b < i { b } else { b + 1 };
                    assert(after.children[a] == node.children[a0]);
                    assert(after.children[b] == node.children[b0]);
                    assert(node.children[a0].0 != node.children[b0].0);
                }
                assert forall|a: int| 0 <= a < after.children.len() implies (
                #[trigger] after.children[a]).1.wf() by {
                    let a0 = if a < i { a } else { a + 1 };
                    assert(after.children[a] == node.children[a0]);
                    assert(node.children[a0].1.wf());
                }
            } else {
                assert forall|a: int, b: int|
                    0 <= a < after.children.len() && 0 <= b < after.children.len() && a != b implies (
                #[trigger] after.children[a]).0 != (#[trigger] after.children[b]).0 by {
                    assert(node.children[a].0 != node.children[b].0);
                }
                assert forall|a: int| 0 <= a < after.children.len() implies (
                #[trigger] after.children[a]).1.wf() by {
                    assert(node.children[a].1.wf());
                }
            }
        }
    }
}

/// Who took a subscription back is no longer reached through it: where
/// no client stood twice under the filter, the client has no entry under
/// it afterwards.
pub proof fn lemma_withdrawn_is_gone(
    node: TrieView,
    path: Seq<FilterLevel>,
    client_id: Seq<char>,
    k: int,
)
    requires
        distinct_clients(node.subscribers_at(path)),
        0 <= k < node.without_subscriber(path, client_id).subscribers_at(path).len(),
    ensures
        node.without_subscriber(path, client_id).subscribers_at(path)[k].client_id != client_id,
{
    lemma_subscribers_without(node, path, client_id, path);
    let list = node.subscribers_at(path);
    lemma_first_client(list, client_id, 0);
    let pos = client_position(list, client_id);
    if 0 <= pos < list.len() {
        let k0 = if k < pos { k } else { k + 1 };
        assert(list.remove(pos)[k] == list[k0]);
        assert(list[k0].client_id != list[pos].client_id);
    }
}

/// Three lists one after the other, of which one lost an `x` that it held:
/// together they lost one `x`.
proof fn lemma_lost_in_parts(
    a: Seq<Subscriber>,
    b: Seq<Subscriber>,
    c: Seq<Subscriber>,
    a2: Seq<Subscriber>,
    b2: Seq<Subscriber>,
    c2: Seq<Subscriber>,
    x: Subscriber,
)
    requires
        ({
            ||| a.contains(x) && a2.to_multiset() == a.to_multiset().remove(x) && b2 == b && c2 == c
            ||| a2 == a && b.contains(x) && b2.to_multiset() == b.to_multiset().remove(x) && c2 == c
            ||| a2 == a && b2 == b && c.contains(x) && c2.to_multiset() == c.to_multiset().remove(x)
        }),
    ensures
        (a2 + b2 + c2).to_multiset() == (a + b + c).to_multiset().remove(x),
{
    broadcast use group_multiset_axioms;

    lemma_multiset_commutative(a, b);
    lemma_multiset_commutative(a + b, c);
    lemma_multiset_commutative(a2, b2);
    lemma_multiset_commutative(a2 + b2, c2);
    to_multiset_contains(a, x);
    to_multiset_contains(b, x);
    to_multiset_contains(c, x);
    assert((a2 + b2 + c2).to_multiset() =~= (a + b + c).to_multiset().remove(x));
}

/// Three lists one after the other, each with the entries it had, in
/// whatever order: together they have the entries they had.
proof fn lemma_same_in_parts(
    a: Seq<Subscriber>,
    b: Seq<Subscriber>,
    c: Seq<Subscriber>,
    a2: Seq<Subscriber>,
    b2: Seq<Subscriber>,
    c2: Seq<Subscriber>,
)
    requires
        a2.to_multiset() == a.to_multiset(),
        b2.to_multiset() == b.to_multiset(),
        c2.to_multiset() == c.to_multiset(),
    ensures
        (a2 + b2 + c2).to_multiset() == (a + b + c).to_multiset(),
{
    lemma_multiset_commutative(a, b);
    lemma_multiset_commutative(a + b, c);
    lemma_multiset_commutative(a2, b2);
    lemma_multiset_commutative(a2 + b2, c2);
}

/// The entry that a client loses when it takes its subscription to the
/// filter `path` back, where it has one.
pub open spec fn withdrawn_entry(node: TrieView, path: Seq<FilterLevel>, client_id: Seq<char>) -> Option<
    Subscriber,
> {
    let list = node.subscribers_at(path);
    let k = client_position(list, client_id);
    if 0 <= k < list.len() {
        Some(list[k])
    } else {
        None
    }
}

/// What a message reaches after `lost` was taken from what it reached,
/// where there was something to take.
pub open spec fn reached_without(reached: Multiset<Subscriber>, lost: Option<Subscriber>) -> Multiset<
    Subscriber,
> {
    match lost {
        Some(x) => reached.remove(x),
        None => reached,
    }
}

/// Taking out a child that is empty, and whose level leads to no other
/// child, changes nothing for the messages that are routed.
proof fn lemma_pruned_child(mid: TrieView, i: int, topic: Seq<Seq<char>>, idx: int)
    requires
        0 <= idx <= topic.len(),
        0 <= i < mid.children.len(),
        mid.children[i].1.is_empty(),
        forall|j: int|
            0 <= j < mid.children.len() && j != i ==> (#[trigger] mid.children[j]).0
                != mid.children[i].0,
    ensures
        (TrieView { subscriptions: mid.subscriptions, children: mid.children.remove(i) }).matches(
            topic,
            idx,
        ) == mid.matches(topic, idx),
{
    let after = TrieView { subscriptions: mid.subscriptions, children: mid.children.remove(i) };
    let gone = mid.children[i].1;
    assert(gone.subscriptions =~= Seq::<Subscriber>::empty());
    assert(gone.children =~= Seq::<(FilterLevel, TrieView)>::empty());
    assert(gone == TrieView::empty());
    mid.lemma_without_child(after, i, FilterLevel::MultiWildcard);
    mid.lemma_without_child(after, i, FilterLevel::SingleWildcard);
    if idx < topic.len() {
        mid.lemma_without_child(after, i, FilterLevel::Named(topic[idx]));
        lemma_empty_matches(topic, idx + 1);
    }
    assert(after.matches(topic, idx) =~= mid.matches(topic, idx));
}

/// The law of a withdrawal for a node of which one child changed as the
/// law says.
#[verifier::rlimit(40)]
#[verifier::spinoff_prover]
proof fn lemma_less_below(
    node: TrieView,
    path: Seq<FilterLevel>,
    client_id: Seq<char>,
    topic: Seq<Seq<char>>,
    idx: int,
)
    requires
        node.wf(),
        0 <= idx <= topic.len(),
        path.len() > 0,
        0 <= node.child_index(path[0]) < node.children.len(),
        idx < topic.len() ==> ({
            let child = node.children[node.child_index(path[0])].1;
            child.without_subscriber(path.skip(1), client_id).matches(topic, idx + 1).to_multiset()
                == if matches_below(path.skip(1), topic, idx + 1) {
                reached_without(
                    child.matches(topic, idx + 1).to_multiset(),
                    withdrawn_entry(child, path.skip(1), client_id),
                )
            } else {
                child.matches(topic, idx + 1).to_multiset()
            }
        }),
    ensures
        ({
            let i = node.child_index(path[0]);
            let child2 = node.children[i].1.without_subscriber(path.skip(1), client_id);
            with_changed_child(node, i, child2).matches(topic, idx).to_multiset() == if matches_below(
                path,
                topic,
                idx,
            ) {
                reached_without(
                    node.matches(topic, idx).to_multiset(),
                    withdrawn_entry(node, path, client_id),
                )
            } else {
                node.matches(topic, idx).to_multiset()
            }
        }),
{
    let lost = withdrawn_entry(node, path, client_id);
    let wild = !(idx == 0 && topic.len() > 0 && starts_with_dollar(topic[0]));
    let m = node.child_index(FilterLevel::MultiWildcard);
    let multi = if wild && 0 <= m < node.children.len() {
        node.children[m].1.subscriptions
    } else {
        Seq::empty()
    };
    let level = path[0];
    let rest = path.skip(1);
    let i = node.child_index(level);
    TrieView::lemma_first_child(node.children, level, 0);
    let child = node.children[i].1;
    let child2 = child.without_subscriber(rest, client_id);
    let mid = with_changed_child(node, i, child2);
    assert(node.children[i].0 == level);
    assert(node.subscribers_at(path) == child.subscribers_at(rest));
    assert(lost == withdrawn_entry(child, rest, client_id));

    let s = node.child_index(FilterLevel::SingleWildcard);
    mid.lemma_same_levels(node, FilterLevel::MultiWildcard);
    mid.lemma_same_levels(node, FilterLevel::SingleWildcard);
    TrieView::lemma_first_child(node.children, FilterLevel::MultiWildcard, 0);
    TrieView::lemma_first_child(node.children, FilterLevel::SingleWildcard, 0);
    assert(m == i <==> level == FilterLevel::MultiWildcard);
    assert(s == i <==> level == FilterLevel::SingleWildcard);
    let multi2 = if wild && 0 <= m < mid.children.len() {
        mid.children[m].1.subscriptions
    } else {
        Seq::empty()
    };
    let at_child = level == FilterLevel::MultiWildcard && rest.len() == 0;
    if level == FilterLevel::MultiWildcard {
        if rest.len() == 0 {
            lemma_first_client(child.subscriptions, client_id, 0);
            let k = client_position(child.subscriptions, client_id);
            if 0 <= k < child.subscriptions.len() {
                assert(child2.subscriptions == child.subscriptions.remove(k));
                to_multiset_remove(child.subscriptions, k);
                assert(child.subscriptions.contains(child.subscriptions[k]));
            } else {
                assert(child2.subscriptions == child.subscriptions);
            }
        } else {
            assert(child2.subscriptions == child.subscriptions);
        }
    }
    let by_multi = wild && at_child;
    assert(!by_multi ==> multi2 == multi);
    assert(by_multi ==> multi2.to_multiset() == reached_without(multi.to_multiset(), lost));
    assert(by_multi && lost is Some ==> multi.contains(lost->0));

    if idx < topic.len() {
        let name = FilterLevel::Named(topic[idx]);
        let n = node.child_index(name);
        mid.lemma_same_levels(node, name);
        TrieView::lemma_first_child(node.children, name, 0);
        assert(n == i <==> level == name);
        assert(topic.skip(idx).skip(1) =~= topic.skip(idx + 1));
        assert(topic.skip(idx)[0] == topic[idx]);
        let below = filter_matches(rest, topic.skip(idx + 1));
        assert(matches_below(rest, topic, idx + 1) == below);
        if below && lost is Some {
            let list = child.subscribers_at(rest);
            lemma_first_client(list, client_id, 0);
            assert(list.contains(lost->0));
            lemma_matches_complete(child, topic, idx + 1, rest, lost->0);
        }
        let single = if wild && 0 <= s < node.children.len() {
            node.children[s].1.matches(topic, idx + 1)
        } else {
            Seq::empty()
        };
        let single2 = if wild && 0 <= s < mid.children.len() {
            mid.children[s].1.matches(topic, idx + 1)
        } else {
            Seq::empty()
        };
        let named = if 0 <= n < node.children.len() {
            node.children[n].1.matches(topic, idx + 1)
        } else {
            Seq::empty()
        };
        let named2 = if 0 <= n < mid.children.len() {
            mid.children[n].1.matches(topic, idx + 1)
        } else {
            Seq::empty()
        };
        assert(node.matches(topic, idx) == multi + single + named);
        assert(mid.matches(topic, idx) == multi2 + single2 + named2);
        let by_single = wild && level == FilterLevel::SingleWildcard && below;
        let by_named = level == name && below;
        assert(matches_below(path, topic, idx) == (by_multi || by_single || by_named));
        if by_multi && lost is Some {
            assert(single2 == single && named2 == named);
            lemma_lost_in_parts(multi, single, named, multi2, single2, named2, lost->0);
        } else if by_single && lost is Some {
            assert(multi2 == multi && named2 == named);
            lemma_lost_in_parts(multi, single, named, multi2, single2, named2, lost->0);
        } else if by_named && lost is Some {
            assert(multi2 == multi && single2 == single);
            lemma_lost_in_parts(multi, single, named, multi2, single2, named2, lost->0);
        } else {
            assert(multi2.to_multiset() == multi.to_multiset());
            assert(single2.to_multiset() == single.to_multiset());
            assert(named2.to_multiset() == named.to_multiset());
            lemma_same_in_parts(multi, single, named, multi2, single2, named2);
        }
    } else {
        assert(topic.skip(idx).len() == 0);
        let none = Seq::<Subscriber>::empty();
        assert(node.matches(topic, idx) == multi + node.subscriptions);
        assert(mid.matches(topic, idx) == multi2 + node.subscriptions);
        assert(multi + node.subscriptions + none =~= multi + node.subscriptions);
        assert(multi2 + node.subscriptions + none =~= multi2 + node.subscriptions);
        assert(matches_below(path, topic, idx) == by_multi);
        if by_multi && lost is Some {
            lemma_lost_in_parts(
                multi,
                node.subscriptions,
                none,
                multi2,
                node.subscriptions,
                none,
                lost->0,
            );
        } else {
            lemma_same_in_parts(multi, node.subscriptions, none, multi2, node.subscriptions, none);
        }
    }
}

/// The law of a withdrawal for the filter that ends at the node.
proof fn lemma_less_at_the_node(
    node: TrieView,
    path: Seq<FilterLevel>,
    client_id: Seq<char>,
    topic: Seq<Seq<char>>,
    idx: int,
)
    requires
        0 <= idx <= topic.len(),
        path.len() == 0,
    ensures
        node.without_subscriber(path, client_id).matches(topic, idx).to_multiset() == if matches_below(
            path,
            topic,
            idx,
        ) {
            reached_without(
                node.matches(topic, idx).to_multiset(),
                withdrawn_entry(node, path, client_id),
            )
        } else {
            node.matches(topic, idx).to_multiset()
        },
{
    let after = node.without_subscriber(path, client_id);
    let wild = !(idx == 0 && topic.len() > 0 && starts_with_dollar(topic[0]));
    let m = node.child_index(FilterLevel::MultiWildcard);
    let multi = if wild && 0 <= m < node.children.len() {
        node.children[m].1.subscriptions
    } else {
        Seq::empty()
    };
    let list = node.subscriptions;
    lemma_first_client(list, client_id, 0);
    let k = client_position(list, client_id);
    assert(after.children == node.children);
    if idx < topic.len() {
        assert(topic.skip(idx).len() > 0);
        assert(!matches_below(path, topic, idx));
        assert(after.matches(topic, idx) == node.matches(topic, idx));
    } else {
        assert(topic.skip(idx).len() == 0);
        assert(matches_below(path, topic, idx));
        assert(node.matches(topic, idx) == multi + list);
        if 0 <= k < list.len() {
            assert(after.subscriptions == list.remove(k));
            assert(after.matches(topic, idx) =~= (multi + list).remove(multi.len() + k));
            to_multiset_remove(multi + list, multi.len() + k);
        } else {
            assert(after.subscriptions == list);
        }
    }
}

/// A subscription that was taken back is reached once less. After a
/// client took its subscription to the filter `path` back, a message whose
/// topic the filter matches reaches what it reached before without the
/// entry of the client under that filter; any other message reaches what
/// it reached before. The nodes that are taken out change nothing.
pub proof fn lemma_one_subscription_less(
    node: TrieView,
    path: Seq<FilterLevel>,
    client_id: Seq<char>,
    topic: Seq<Seq<char>>,
    idx: int,
)
    requires
        node.wf(),
        0 <= idx <= topic.len(),
    ensures
        node.without_subscriber(path, client_id).matches(topic, idx).to_multiset() == if matches_below(
            path,
            topic,
            idx,
        ) {
            reached_without(
                node.matches(topic, idx).to_multiset(),
                withdrawn_entry(node, path, client_id),
            )
        } else {
            node.matches(topic, idx).to_multiset()
        },
    decreases path.len(),
{
    let after = node.without_subscriber(path, client_id);
    if path.len() == 0 {
        lemma_less_at_the_node(node, path, client_id, topic, idx);
    } else {
        let level = path[0];
        let rest = path.skip(1);
        let i = node.child_index(level);
        TrieView::lemma_first_child(node.children, level, 0);
        if !(0 <= i < node.children.len()) {
            assert(after == node);
            assert(node.subscribers_at(path) =~= Seq::<Subscriber>::empty());
            reveal_with_fuel(first_client, 2);
            assert(withdrawn_entry(node, path, client_id) is None);
        } else {
            let child = node.children[i].1;
            let child2 = child.without_subscriber(rest, client_id);
            let mid = with_changed_child(node, i, child2);
            assert(child.wf());
            if idx < topic.len() {
                lemma_one_subscription_less(child, rest, client_id, topic, idx + 1);
            }
            lemma_less_below(node, path, client_id, topic, idx);
            if child2.is_empty() && !node.level_stands_again(i) {
                assert forall|j: int| 0 <= j < mid.children.len() && j != i implies (
                #[trigger] mid.children[j]).0 != mid.children[i].0 by {
                    if j < i {
                        assert(node.children[j].0 != level);
                    } else {
                        assert(node.children[j].0 != node.children[i].0);
                    }
                }
                lemma_pruned_child(mid, i, topic, idx);
                assert(after.children == mid.children.remove(i));
                assert(after == (TrieView {
                    subscriptions: mid.subscriptions,
                    children: mid.children.remove(i),
                }));
            } else {
                assert(after == mid);
            }
        }
    }
}

/// Changes made in order change the subscribers of every filter as
/// `apply_changes` says, and keep a well-formed trie well-formed.
pub proof fn lemma_changes(trie: TrieView, changes: Seq<ChangeView>, path: Seq<FilterLevel>)
    ensures
        trie.changed_by(changes).subscribers_at(path) == apply_changes(
            trie.subscribers_at(path),
            path,
            changes,
        ),
        trie.wf() ==> trie.changed_by(changes).wf(),
    decreases changes.len(),
{
    if changes.len() > 0 {
        let before = trie.changed_by(changes.drop_last());
        lemma_changes(trie, changes.drop_last(), path);
        match changes.last() {
            ChangeView::Add { filter, subscriber } => {
                lemma_subscribers_after(before, filter, subscriber, path);
                if trie.wf() {
                    lemma_subscription_keeps_wf(before, filter, subscriber);
                }
            },
            ChangeView::Remove { filter, client_id } => {
                lemma_subscribers_without(before, filter, client_id, path);
                if trie.wf() {
                    lemma_withdrawal_keeps_wf(before, filter, client_id);
                }
            },
        }
    }
}

} // verus!
