//! Topic names, topic filters and the subscription trie.
//!
//! `foo/bar/#` is the filter `[Named, Named, MultiWildcard]`; a leading `/`
//! gives an empty first level.

use std::collections::VecDeque;
use std::sync::Arc;
use vstd::prelude::*;
use crate::wire::strings::has_wildcard;
use crate::wire::strings::str_has_wildcard;
use vstd::std_specs::cmp::PartialEqSpecImpl;
use crate::server::ClientId;
use crate::server::subscription_laws::lemma_changes;
use crate::server::subscription_laws::lemma_subscribers_after;
use crate::server::subscription_laws::lemma_subscribers_without;
use crate::server::subscription_laws::lemma_subscription_keeps_wf;
use crate::server::subscription_laws::lemma_withdrawal_keeps_wf;
use crate::server::message::MqttMessage;
use crate::v3::qos::MQualityOfService;
use crate::v3::subscription_request::MSubscriptionRequests;
use crate::v3::subscription_request::SubscriptionRequestView;
use crate::wire::strings::MqttString;
use crate::wire::strings::strings_view;

verus! {

/// Appends a character to a `String`, as `String::push` does.
pub assume_specification[ String::push ](s: &mut String, ch: char)
    ensures
        final(s)@ == old(s)@.push(ch),
;

/// The levels of a topic: the pieces between the `/` separators. There is
/// always at least one level, and a level may be empty.
pub open spec fn split_levels(s: Seq<char>) -> Seq<Seq<char>>
    decreases s.len(),
{
    if s.len() == 0 {
        seq![Seq::<char>::empty()]
    } else {
        let init = split_levels(s.drop_last());
        if s.last() == '/' {
            init.push(Seq::<char>::empty())
        } else {
            init.drop_last().push(init.last().push(s.last()))
        }
    }
}

/// The levels joined again with `/` between them.
pub open spec fn join_levels(levels: Seq<Seq<char>>) -> Seq<char>
    decreases levels.len(),
{
    if levels.len() == 0 {
        Seq::<char>::empty()
    } else if levels.len() == 1 {
        levels[0]
    } else {
        join_levels(levels.drop_last()) + seq!['/'] + levels.last()
    }
}

/// Splitting never gives an empty list, no level holds a separator, and
/// joining the levels gives the topic back.
pub proof fn lemma_split_levels(s: Seq<char>)
    ensures
        split_levels(s).len() >= 1,
        forall|i: int, j: int|
            0 <= i < split_levels(s).len() && 0 <= j < split_levels(s)[i].len()
                ==> split_levels(s)[i][j] != '/',
        join_levels(split_levels(s)) == s,
    decreases s.len(),
{
    if s.len() == 0 {
    } else {
        let init = split_levels(s.drop_last());
        lemma_split_levels(s.drop_last());
        if s.last() == '/' {
            let r = init.push(Seq::<char>::empty());
            assert(r.drop_last() =~= init);
            assert(join_levels(r) =~= s.drop_last() + seq!['/'] + Seq::<char>::empty());
            assert(s.drop_last() + seq!['/'] + Seq::<char>::empty() =~= s);
        } else {
            let last = init.last().push(s.last());
            let r = init.drop_last().push(last);
            if init.len() == 1 {
                assert(join_levels(init) == init[0]);
                assert(r[0] =~= s.drop_last().push(s.last()));
                assert(s.drop_last().push(s.last()) =~= s);
            } else {
                assert(r.drop_last() =~= init.drop_last());
                assert(join_levels(r) =~= join_levels(init.drop_last()) + seq!['/'] + last);
                assert(join_levels(init) =~= join_levels(init.drop_last()) + seq!['/']
                    + init.last());
                assert(join_levels(init.drop_last()) + seq!['/'] + last =~= (join_levels(
                    init.drop_last(),
                ) + seq!['/'] + init.last()).push(s.last()));
                assert(s.drop_last().push(s.last()) =~= s);
            }
        }
    }
}

/// The levels of the topic a message is published on.
#[derive(Debug, Clone)]
pub struct TopicName(pub VecDeque<String>);

impl View for TopicName {
    type V = Seq<Seq<char>>;

    open spec fn view(&self) -> Seq<Seq<char>> {
        Seq::new(self.0@.len(), |i: int| self.0@[i]@)
    }
}

impl TopicName {
    /// Splits a topic at its `/` separators.
    pub fn parse_from(topic: &str) -> (r: TopicName)
        ensures
            r@ == split_levels(topic@),
    {
        let mut levels: VecDeque<String> = VecDeque::new();
        let mut current = String::new();
        let ghost mut done: Seq<char> = Seq::empty();
        for c in it: topic.chars()
            invariant
                it.seq() == topic@,
                done == topic@.take(it.index() as int),
                Seq::new(levels@.len(), |i: int| levels@[i]@).push(current@) == split_levels(done),
        {
            proof {
                let next = topic@.take(it.index() + 1);
                assert(next.drop_last() =~= done);
                assert(next.last() == c);
                let init = split_levels(done);
                let shown = Seq::new(levels@.len(), |i: int| levels@[i]@);
                assert(init.last() == current@);
                assert(init.drop_last() =~= shown);
                done = next;
            }
            if c == '/' {
                levels.push_back(current);
                current = String::new();
                proof {
                    let shown = Seq::new(levels@.len(), |i: int| levels@[i]@);
                    assert(shown.push(current@) =~= split_levels(done));
                }
            } else {
                current.push(c);
                proof {
                    let shown = Seq::new(levels@.len(), |i: int| levels@[i]@);
                    assert(shown.push(current@) =~= split_levels(done));
                }
            }
        }
        proof {
            assert(topic@.take(topic@.len() as int) =~= topic@);
        }
        levels.push_back(current);
        let r = TopicName(levels);
        proof {
            assert(r@ =~= split_levels(topic@));
        }
        r
    }
}

/// Whether a topic level begins with `$`, which marks topics that
/// wildcards at the first level do not reach.
pub open spec fn starts_with_dollar(level: Seq<char>) -> bool {
    level.len() > 0 && level[0] == '$'
}

fn level_starts_with_dollar(level: &str) -> (b: bool)
    ensures
        b == starts_with_dollar(level@),
{
    for c in it: level.chars()
        invariant
            it.seq() == level@,
            it.index() == 0,
    {
        return c == '$';
    }
    false
}

/// One level of a topic filter, as plain data.
pub enum FilterLevel {
    /// `#`: this level and everything below it.
    MultiWildcard,
    /// `+`: any one level.
    SingleWildcard,
    /// A level that must be matched exactly.
    Named(Seq<char>),
}

/// One level of a topic filter.
#[derive(Debug, Clone, PartialEq, Eq, Hash)]
pub enum TopicFilter {
    MultiWildcard,
    SingleWildcard,
    Named(String),
}

impl View for TopicFilter {
    type V = FilterLevel;

    open spec fn view(&self) -> FilterLevel {
        match self {
            TopicFilter::MultiWildcard => FilterLevel::MultiWildcard,
            TopicFilter::SingleWildcard => FilterLevel::SingleWildcard,
            TopicFilter::Named(name) => FilterLevel::Named(name@),
        }
    }
}

/// What a piece between two separators means in a filter.
pub open spec fn filter_level(piece: Seq<char>) -> FilterLevel {
    if piece == seq!['#'] {
        FilterLevel::MultiWildcard
    } else if piece == seq!['+'] {
        FilterLevel::SingleWildcard
    } else {
        FilterLevel::Named(piece)
    }
}

/// The levels of a filter: its pieces, each read as a wildcard or a name.
pub open spec fn filter_levels(s: Seq<char>) -> Seq<FilterLevel> {
    Seq::new(split_levels(s).len(), |i: int| filter_level(split_levels(s)[i]))
}

/// The views of a list of filter levels.
pub open spec fn levels_view(levels: Seq<TopicFilter>) -> Seq<FilterLevel> {
    Seq::new(levels.len(), |i: int| levels[i]@)
}

/// A filter is valid when `#` stands only at its end and no named level
/// holds a wildcard character.
pub open spec fn is_valid_filter(levels: Seq<FilterLevel>) -> bool {
    &&& levels.len() >= 1
    &&& forall|i: int|
        0 <= i < levels.len() ==> match #[trigger] levels[i] {
            FilterLevel::MultiWildcard => i == levels.len() - 1,
            FilterLevel::SingleWildcard => true,
            FilterLevel::Named(name) => !has_wildcard(name),
        }
}

/// Whether a filter is valid.
pub fn filter_is_valid(levels: &VecDeque<TopicFilter>) -> (b: bool)
    ensures
        b == is_valid_filter(levels_view(levels@)),
{
    if levels.len() == 0 {
        return false;
    }
    let mut i: usize = 0;
    while i < levels.len()
        invariant
            i <= levels@.len(),
            levels@.len() >= 1,
            forall|k: int|
                0 <= k < i ==> match #[trigger] levels_view(levels@)[k] {
                    FilterLevel::MultiWildcard => k == levels@.len() - 1,
                    FilterLevel::SingleWildcard => true,
                    FilterLevel::Named(name) => !has_wildcard(name),
                },
        decreases levels@.len() - i,
    {
        let fits = match &levels[i] {
            TopicFilter::MultiWildcard => i == levels.len() - 1,
            TopicFilter::SingleWildcard => true,
            TopicFilter::Named(name) => !str_has_wildcard(name.as_str()),
        };
        if !fits {
            proof {
                let level = levels_view(levels@)[i as int];
                assert(!(match level {
                    FilterLevel::MultiWildcard => i == levels@.len() - 1,
                    FilterLevel::SingleWildcard => true,
                    FilterLevel::Named(name) => !has_wildcard(name),
                }));
            }
            return false;
        }
        i = i + 1;
    }
    true
}

/// Whether a filter matches a topic, level by level: a name matches itself,
/// `+` matches any one level, and `#` at the end matches whatever is left,
/// also nothing.
pub open spec fn filter_matches(filter: Seq<FilterLevel>, topic: Seq<Seq<char>>) -> bool
    decreases filter.len(),
{
    if filter.len() == 0 {
        topic.len() == 0
    } else {
        match filter[0] {
            FilterLevel::MultiWildcard => filter.len() == 1,
            FilterLevel::SingleWildcard => topic.len() > 0 && filter_matches(
                filter.skip(1),
                topic.skip(1),
            ),
            FilterLevel::Named(name) => topic.len() > 0 && topic[0] == name && filter_matches(
                filter.skip(1),
                topic.skip(1),
            ),
        }
    }
}

/// Whether a subscription to `filter` receives a message published on
/// `topic`. A topic whose first level begins with `$` is not reached by a
/// filter that begins with a wildcard.
pub open spec fn subscription_matches(filter: Seq<FilterLevel>, topic: Seq<Seq<char>>) -> bool {
    &&& filter_matches(filter, topic)
    &&& !(topic.len() > 0 && starts_with_dollar(topic[0]) && filter.len() > 0 && !(filter[0] is Named))
}

impl TopicFilter {
    /// Splits a filter at its `/` separators and reads each piece.
    pub fn parse_from(topic: String) -> (r: VecDeque<TopicFilter>)
        ensures
            levels_view(r@) == filter_levels(topic@),
    {
        let mut name = TopicName::parse_from(topic.as_str());
        let ghost pieces = name@;
        let mut levels: VecDeque<TopicFilter> = VecDeque::new();
        let multi = "#".to_owned();
        let single = "+".to_owned();
        proof {
            reveal_strlit("#");
            reveal_strlit("+");
            assert(multi@ =~= seq!['#']);
            assert(single@ =~= seq!['+']);
        }
        let total: usize = name.0.len();
        while name.0.len() > 0
            invariant
                multi@ == seq!['#'],
                single@ == seq!['+'],
                pieces.len() == total,
                levels@.len() + name.0@.len() == total,
                forall|i: int|
                    0 <= i < name.0@.len() ==> (#[trigger] name.0@[i])@ == pieces[levels@.len() + i],
                forall|i: int| 0 <= i < levels@.len() ==> (#[trigger] levels@[i])@ == filter_level(pieces[i]),
            decreases name.0@.len(),
        {
            let piece = name.0.pop_front().unwrap();
            let level = if piece == multi {
                TopicFilter::MultiWildcard
            } else if piece == single {
                TopicFilter::SingleWildcard
            } else {
                TopicFilter::Named(piece)
            };
            levels.push_back(level);
        }
        proof {
            assert(levels_view(levels@) =~= filter_levels(topic@));
        }
        levels
    }

    /// Whether two levels are the same.
    pub fn equals(&self, other: &TopicFilter) -> (b: bool)
        ensures
            b == (self@ == other@),
    {
        match (self, other) {
            (TopicFilter::MultiWildcard, TopicFilter::MultiWildcard) => true,
            (TopicFilter::SingleWildcard, TopicFilter::SingleWildcard) => true,
            (TopicFilter::Named(a), TopicFilter::Named(b)) => *a == *b,
            _ => false,
        }
    }

    /// A copy of this level.
    pub fn duplicate(&self) -> (r: TopicFilter)
        ensures
            r@ == self@,
    {
        match self {
            TopicFilter::MultiWildcard => TopicFilter::MultiWildcard,
            TopicFilter::SingleWildcard => TopicFilter::SingleWildcard,
            TopicFilter::Named(name) => TopicFilter::Named(name.clone()),
        }
    }
}

/// What the broker knows of a subscribing client: its identifier and the
/// handle of the queue that its connection drains.
#[derive(Debug, Clone, PartialEq, Eq)]
pub struct ClientInformation {
    pub client_id: ClientId,
    pub client_sender: u64,
}

/// One subscription of one client, as plain data.
pub struct Subscriber {
    pub client_id: Seq<char>,
    pub client_sender: u64,
    pub qos: MQualityOfService,
}

/// One subscription of one client. Two subscriptions are equal when they
/// belong to the same client.
#[derive(Debug, Clone)]
pub struct ClientSubscription {
    pub client: ClientInformation,
    pub qos: MQualityOfService,
}

impl PartialEq for ClientSubscription {
    fn eq(&self, other: &Self) -> (r: bool) {
        self.client.client_id.equals(&other.client.client_id)
    }
}

impl PartialEqSpecImpl for ClientSubscription {
    open spec fn obeys_eq_spec() -> bool {
        true
    }

    open spec fn eq_spec(&self, other: &Self) -> bool {
        self.client.client_id@ == other.client.client_id@
    }
}

impl View for ClientSubscription {
    type V = Subscriber;

    open spec fn view(&self) -> Subscriber {
        Subscriber {
            client_id: self.client.client_id@,
            client_sender: self.client.client_sender,
            qos: self.qos,
        }
    }
}

impl ClientSubscription {
    /// A copy of this subscription.
    pub fn duplicate(&self) -> (r: ClientSubscription)
        ensures
            r@ == self@,
    {
        ClientSubscription {
            client: ClientInformation {
                client_id: self.client.client_id.duplicate(),
                client_sender: self.client.client_sender,
            },
            qos: self.qos,
        }
    }
}

/// The views of a list of subscriptions.
pub open spec fn subscribers(list: Seq<ClientSubscription>) -> Seq<Subscriber> {
    Seq::new(list.len(), |i: int| list[i]@)
}

/// No client stands twice in the list.
pub open spec fn distinct_clients(list: Seq<Subscriber>) -> bool {
    forall|i: int, j: int|
        0 <= i < list.len() && 0 <= j < list.len() && i != j ==> (#[trigger] list[i]).client_id != (
        #[trigger] list[j]).client_id
}

/// Where `client_id` first stands in the list at or after `from`, or -1.
pub open spec fn first_client(list: Seq<Subscriber>, client_id: Seq<char>, from: int) -> int
    decreases list.len() - from,
{
    if from < 0 || from >= list.len() {
        -1
    } else if list[from].client_id == client_id {
        from
    } else {
        first_client(list, client_id, from + 1)
    }
}

/// Where `client_id` first stands in the list, or -1.
pub open spec fn client_position(list: Seq<Subscriber>, client_id: Seq<char>) -> int {
    first_client(list, client_id, 0)
}

/// `first_client` finds the first entry of the client and nothing before.
pub proof fn lemma_first_client(list: Seq<Subscriber>, client_id: Seq<char>, from: int)
    requires
        0 <= from <= list.len(),
    ensures
        ({
            let k = first_client(list, client_id, from);
            if k == -1 {
                forall|i: int| from <= i < list.len() ==> (#[trigger] list[i]).client_id != client_id
            } else {
                &&& from <= k < list.len()
                &&& list[k].client_id == client_id
                &&& forall|j: int| from <= j < k ==> (#[trigger] list[j]).client_id != client_id
            }
        }),
    decreases list.len() - from,
{
    if from < list.len() && list[from].client_id != client_id {
        lemma_first_client(list, client_id, from + 1);
    }
}

/// The list with `entry` in the place of the same client's earlier entry,
/// or at the end where the client had none.
pub open spec fn upsert(list: Seq<Subscriber>, entry: Subscriber) -> Seq<Subscriber> {
    let i = client_position(list, entry.client_id);
    if 0 <= i < list.len() {
        list.update(i, entry)
    } else {
        list.push(entry)
    }
}

/// The list without the first entry of the client, where it has one.
pub open spec fn without_client(list: Seq<Subscriber>, client_id: Seq<char>) -> Seq<Subscriber> {
    let i = client_position(list, client_id);
    if 0 <= i < list.len() {
        list.remove(i)
    } else {
        list
    }
}

/// A node of the subscription trie, as plain data: who subscribed to the
/// filter that leads here, and the nodes one level further down.
pub struct TrieView {
    pub subscriptions: Seq<Subscriber>,
    pub children: Seq<(FilterLevel, TrieView)>,
}

impl TrieView {
    /// No client stands twice at a node, no level leads to two children,
    /// and the same holds further down.
    pub open spec fn wf(self) -> bool
        decreases self,
    {
        &&& distinct_clients(self.subscriptions)
        &&& forall|i: int, j: int|
            0 <= i < self.children.len() && 0 <= j < self.children.len() && i != j ==> (
            #[trigger] self.children[i]).0 != (#[trigger] self.children[j]).0
        &&& forall|i: int| 0 <= i < self.children.len() ==> (#[trigger] self.children[i]).1.wf()
    }

    /// Which child at or after `from` is the first under `level`, or -1.
    pub open spec fn first_child(
        children: Seq<(FilterLevel, TrieView)>,
        level: FilterLevel,
        from: int,
    ) -> int
        decreases children.len() - from,
    {
        if from < 0 || from >= children.len() {
            -1
        } else if children[from].0 == level {
            from
        } else {
            Self::first_child(children, level, from + 1)
        }
    }

    /// Which child `level` leads to, or -1: the first one under that level.
    pub open spec fn child_index(self, level: FilterLevel) -> int {
        Self::first_child(self.children, level, 0)
    }

    /// `first_child` finds the first child under the level and nothing
    /// before.
    pub proof fn lemma_first_child(children: Seq<(FilterLevel, TrieView)>, level: FilterLevel, from: int)
        requires
            0 <= from <= children.len(),
        ensures
            ({
                let k = Self::first_child(children, level, from);
                if k == -1 {
                    forall|i: int| from <= i < children.len() ==> (#[trigger] children[i]).0 != level
                } else {
                    &&& from <= k < children.len()
                    &&& children[k].0 == level
                    &&& forall|j: int| from <= j < k ==> (#[trigger] children[j]).0 != level
                }
            }),
        decreases children.len() - from,
    {
        if from < children.len() && children[from].0 != level {
            Self::lemma_first_child(children, level, from + 1);
        }
    }

    /// Who subscribed to exactly the filter `path`, counted from this node.
    pub open spec fn subscribers_at(self, path: Seq<FilterLevel>) -> Seq<Subscriber>
        decreases path.len(),
    {
        if path.len() == 0 {
            self.subscriptions
        } else {
            let i = self.child_index(path[0]);
            if 0 <= i < self.children.len() {
                self.children[i].1.subscribers_at(path.skip(1))
            } else {
                Seq::empty()
            }
        }
    }

    /// The subscriptions that a message on `topic` reaches from this node,
    /// when the first `idx` levels of the topic led here. They come in the
    /// order of the walk: the `#` child, what lies under the `+` child,
    /// what lies under the child named like the level, and, at the end of
    /// the topic, the node itself. At the first level of a topic that begins
    /// with `$` the wildcard children are passed over.
    pub open spec fn matches(self, topic: Seq<Seq<char>>, idx: int) -> Seq<Subscriber>
        decreases topic.len() - idx,
    {
        let wild = !(idx == 0 && topic.len() > 0 && starts_with_dollar(topic[0]));
        let m = self.child_index(FilterLevel::MultiWildcard);
        let multi = if wild && 0 <= m < self.children.len() {
            self.children[m].1.subscriptions
        } else {
            Seq::empty()
        };
        if 0 <= idx < topic.len() {
            let s = self.child_index(FilterLevel::SingleWildcard);
            let single = if wild && 0 <= s < self.children.len() {
                self.children[s].1.matches(topic, idx + 1)
            } else {
                Seq::empty()
            };
            let n = self.child_index(FilterLevel::Named(topic[idx]));
            let named = if 0 <= n < self.children.len() {
                self.children[n].1.matches(topic, idx + 1)
            } else {
                Seq::empty()
            };
            multi + single + named
        } else {
            multi + self.subscriptions
        }
    }

    /// The node without subscribers and without children.
    pub open spec fn empty() -> TrieView {
        TrieView { subscriptions: Seq::empty(), children: Seq::empty() }
    }

    /// The node after `entry` subscribed to the filter `path`, counted from
    /// this node. On the way down the child under each level is followed,
    /// and made after the other children where there is none. At the end
    /// the entry takes the place of the same client's earlier entry, or
    /// follows the other entries. Nothing else changes.
    pub open spec fn with_subscriber(self, path: Seq<FilterLevel>, entry: Subscriber) -> TrieView
        decreases path.len(),
    {
        if path.len() == 0 {
            TrieView { subscriptions: upsert(self.subscriptions, entry), children: self.children }
        } else {
            let i = self.child_index(path[0]);
            if 0 <= i < self.children.len() {
                TrieView {
                    subscriptions: self.subscriptions,
                    children: self.children.update(
                        i,
                        (self.children[i].0, self.children[i].1.with_subscriber(path.skip(1), entry)),
                    ),
                }
            } else {
                TrieView {
                    subscriptions: self.subscriptions,
                    children: self.children.push(
                        (path[0], Self::empty().with_subscriber(path.skip(1), entry)),
                    ),
                }
            }
        }
    }

    /// Whether a child after child `i` stands under the same level.
    pub open spec fn level_stands_again(self, i: int) -> bool {
        exists|j: int|
            i < j < self.children.len() && (#[trigger] self.children[j]).0 == self.children[i].0
    }

    /// The node after the client took its subscription to the filter
    /// `path` back, counted from this node. The first entry of the client
    /// at the end of the path is taken out. A child on the path that is
    /// left without subscribers and without children is taken out too,
    /// unless another child stands under its level. Nothing else changes.
    pub open spec fn without_subscriber(self, path: Seq<FilterLevel>, client_id: Seq<char>) -> TrieView
        decreases path.len(),
    {
        if path.len() == 0 {
            TrieView {
                subscriptions: without_client(self.subscriptions, client_id),
                children: self.children,
            }
        } else {
            let i = self.child_index(path[0]);
            if 0 <= i < self.children.len() {
                let child = self.children[i].1.without_subscriber(path.skip(1), client_id);
                if child.is_empty() && !self.level_stands_again(i) {
                    TrieView { subscriptions: self.subscriptions, children: self.children.remove(i) }
                } else {
                    TrieView {
                        subscriptions: self.subscriptions,
                        children: self.children.update(i, (self.children[i].0, child)),
                    }
                }
            } else {
                self
            }
        }
    }

    /// Whether nobody subscribed at the node and nothing lies below it.
    pub open spec fn is_empty(self) -> bool {
        self.subscriptions.len() == 0 && self.children.len() == 0
    }

    /// Nobody subscribed under any filter that leads through an empty
    /// node.
    pub proof fn lemma_empty_node(self, path: Seq<FilterLevel>)
        requires
            self.is_empty(),
        ensures
            self.subscribers_at(path) =~= Seq::<Subscriber>::empty(),
    {
        reveal_with_fuel(TrieView::subscribers_at, 2);
    }

    /// Taking out child `k`, after which no child stands under its level,
    /// leaves every other level leading to the child it led to before.
    pub proof fn lemma_without_child(self, other: TrieView, k: int, level: FilterLevel)
        requires
            0 <= k < self.children.len(),
            other.children == self.children.remove(k),
            forall|j: int|
                0 <= j < self.children.len() && j != k ==> (#[trigger] self.children[j]).0
                    != self.children[k].0,
        ensures
            level == self.children[k].0 ==> self.child_index(level) == k && other.child_index(level)
                == -1,
            level != self.children[k].0 ==> ({
                let a = self.child_index(level);
                let b = other.child_index(level);
                if a == -1 {
                    b == -1
                } else {
                    &&& 0 <= a < self.children.len()
                    &&& a != k
                    &&& 0 <= b < other.children.len()
                    &&& other.children[b] == self.children[a]
                }
            }),
    {
        Self::lemma_first_child(self.children, level, 0);
        Self::lemma_first_child(other.children, level, 0);
        let a = self.child_index(level);
        let b = other.child_index(level);
        assert(forall|j: int|
            0 <= j < other.children.len() ==> #[trigger] other.children[j] == self.children[if j
                < k {
                j
            } else {
                j + 1
            }]);
        if level == self.children[k].0 {
            if a != k && a != -1 {
                assert(self.children[a].0 != self.children[k].0);
            }
            if b != -1 {
                let j = if b < k {
                    b
                } else {
                    b + 1
                };
                assert(self.children[j].0 != self.children[k].0);
            }
        } else {
            if a != -1 {
                let a2 = if a < k {
                    a
                } else {
                    a - 1
                };
                assert(other.children[a2] == self.children[a]);
                if b == -1 {
                    assert(other.children[a2].0 != level);
                } else if b < a2 {
                    let j = if b < k {
                        b
                    } else {
                        b + 1
                    };
                    assert(self.children[j].0 == level);
                } else if b > a2 {
                    assert(other.children[a2].0 != level);
                }
            } else if b != -1 {
                let j = if b < k {
                    b
                } else {
                    b + 1
                };
                assert(self.children[j].0 == level);
            }
        }
    }

    /// Two nodes whose children stand under the same levels in the same
    /// order lead to the same child for every level.
    pub proof fn lemma_same_levels(self, other: TrieView, level: FilterLevel)
        requires
            self.children.len() == other.children.len(),
            forall|i: int|
                0 <= i < self.children.len() ==> (#[trigger] self.children[i]).0
                    == other.children[i].0,
        ensures
            self.child_index(level) == other.child_index(level),
    {
        Self::lemma_first_child(self.children, level, 0);
        Self::lemma_first_child(other.children, level, 0);
        let a = self.child_index(level);
        let b = other.child_index(level);
        if a != -1 {
            assert(other.children[a].0 == level);
        }
        if b != -1 {
            assert(self.children[b].0 == level);
        }
    }
}

/// A node of the subscription trie: who subscribed to the filter that leads
/// here, and the nodes one level further down.
#[derive(Debug, PartialEq)]
pub struct SubscriptionTopic {
    pub subscriptions: Vec<ClientSubscription>,
    pub children: Vec<(TopicFilter, SubscriptionTopic)>,
}

impl View for SubscriptionTopic {
    type V = TrieView;

    open spec fn view(&self) -> TrieView {
        self.model()
    }
}

impl SubscriptionTopic {
    /// The node as plain data.
    pub open spec fn model(self) -> TrieView
        decreases self,
    {
        TrieView {
            subscriptions: subscribers(self.subscriptions@),
            children: Seq::new(
                self.children@.len(),
                |i: int|
                    if 0 <= i < self.children@.len() {
                        (self.children@[i].0@, self.children@[i].1.model())
                    } else {
                        (FilterLevel::MultiWildcard, arbitrary())
                    },
            ),
        }
    }
}

impl SubscriptionTopic {
    /// The view of a node, one level unfolded.
    pub proof fn lemma_view(self)
        ensures
            self@.subscriptions == subscribers(self.subscriptions@),
            self@.children.len() == self.children@.len(),
            forall|i: int|
                0 <= i < self.children@.len() ==> #[trigger] self@.children[i] == (
                    self.children@[i].0@,
                    self.children@[i].1@,
                ),
    {
    }

    /// A trie without subscriptions.
    pub fn new() -> (r: SubscriptionTopic)
        ensures
            r@ == TrieView::empty(),
            r@.wf(),
            r@.subscriptions.len() == 0,
            r@.children.len() == 0,
            forall|path: Seq<FilterLevel>| #[trigger] r@.subscribers_at(path).len() == 0,
    {
        let r = SubscriptionTopic { subscriptions: Vec::new(), children: Vec::new() };
        proof {
            assert(r@.subscriptions =~= Seq::<Subscriber>::empty());
            assert(r@.children =~= Seq::<(FilterLevel, TrieView)>::empty());
            assert forall|path: Seq<FilterLevel>| #[trigger] r@.subscribers_at(path).len() == 0 by {
                reveal_with_fuel(TrieView::subscribers_at, 2);
            }
        }
        r
    }

    /// The child that `level` leads to.
    pub fn find_child(&self, level: &TopicFilter) -> (r: Option<usize>)
        ensures
            match r {
                Some(i) => i == self@.child_index(level@) && i < self.children@.len()
                    && self@.children[i as int].0 == level@,
                None => self@.child_index(level@) == -1,
            },
    {
        let mut i: usize = 0;
        while i < self.children.len()
            invariant
                i <= self.children@.len(),
                self@.children.len() == self.children@.len(),
                forall|j: int| 0 <= j < i ==> (#[trigger] self@.children[j]).0 != level@,
            decreases self.children@.len() - i,
        {
            if self.children[i].0.equals(level) {
                proof {
                    assert(self@.children[i as int].0 == level@);
                    TrieView::lemma_first_child(self@.children, level@, 0);
                }
                return Some(i);
            }
            i = i + 1;
        }
        proof {
            TrieView::lemma_first_child(self@.children, level@, 0);
        }
        None
    }

    /// Where a client first stands among the subscriptions of this node.
    pub fn find_client(&self, client_id: &ClientId) -> (r: Option<usize>)
        ensures
            match r {
                Some(i) => i == client_position(self@.subscriptions, client_id@)
                    && i < self.subscriptions@.len(),
                None => client_position(self@.subscriptions, client_id@) == -1,
            },
    {
        let ghost list = subscribers(self.subscriptions@);
        let mut i: usize = 0;
        while i < self.subscriptions.len()
            invariant
                list == subscribers(self.subscriptions@),
                i <= self.subscriptions@.len(),
                forall|j: int| 0 <= j < i ==> (#[trigger] list[j]).client_id != client_id@,
            decreases self.subscriptions@.len() - i,
        {
            if self.subscriptions[i].client.client_id.equals(client_id) {
                proof {
                    assert(list[i as int].client_id == client_id@);
                    lemma_first_client(list, client_id@, 0);
                }
                return Some(i);
            }
            i = i + 1;
        }
        proof {
            lemma_first_client(list, client_id@, 0);
        }
        None
    }

    /// Records that `client` subscribed to the filter `topic`, counted from
    /// this node: nodes are made on the way down where they are missing, and
    /// at the end the client's entry is put in the place of its earlier one,
    /// or appended. The trie afterwards is exactly what `with_subscriber`
    /// says: no other filter's subscribers change, no other node is made,
    /// and a well-formed trie stays well-formed.
    pub fn add_subscription(&mut self, mut topic: VecDeque<TopicFilter>, client: ClientSubscription)
        ensures
            final(self)@ == old(self)@.with_subscriber(levels_view(topic@), client@),
            old(self)@.wf() ==> final(self)@.wf(),
            forall|path: Seq<FilterLevel>| #[trigger]
                final(self)@.subscribers_at(path) == if path == levels_view(topic@) {
                    upsert(old(self)@.subscribers_at(path), client@)
                } else {
                    old(self)@.subscribers_at(path)
                },
        decreases topic@.len(),
    {
        let ghost full = levels_view(topic@);
        let ghost before = self@;
        match topic.pop_front() {
            None => {
                let ghost list = subscribers(self.subscriptions@);
                match self.find_client(&client.client.client_id) {
                    Some(i) => {
                        self.subscriptions[i] = client;
                    },
                    None => {
                        self.subscriptions.push(client);
                    },
                }
                proof {
                    assert(subscribers(self.subscriptions@) =~= upsert(list, client@));
                    assert(full =~= Seq::<FilterLevel>::empty());
                    assert(self@.children =~= before.children);
                }
            },
            Some(filter) => {
                let ghost rest = levels_view(topic@);
                let ghost level = filter@;
                proof {
                    assert(full.len() > 0 && full[0] == level);
                    assert(full.skip(1) =~= rest);
                }
                let found = self.find_child(&filter);
                let idx: usize = match found {
                    Some(i) => i,
                    None => {
                        self.children.push((filter, SubscriptionTopic::new()));
                        self.children.len() - 1
                    },
                };
                let ghost mid = self@;
                proof {
                    assert(mid.subscriptions == before.subscriptions);
                    TrieView::lemma_first_child(before.children, level, 0);
                    if found is None {
                        assert(mid.children =~= before.children.push(
                            (level, self.children@[idx as int].1@),
                        ));
                    } else {
                        assert(mid.children =~= before.children);
                    }
                    assert(mid.children[idx as int].0 == level);
                }
                self.children[idx].1.add_subscription(topic, client);
                proof {
                    let now = self@;
                    assert(now.children.len() == mid.children.len());
                    assert(now.subscriptions == mid.subscriptions);
                    let grown = mid.children[idx as int].1.with_subscriber(rest, client@);
                    assert(now.children[idx as int] == (level, grown));
                    assert(forall|j: int|
                        0 <= j < now.children.len() && j != idx ==> (#[trigger] now.children[j])
                            == mid.children[j]);
                    if found is None {
                        assert(before.child_index(level) == -1);
                        assert(now.children =~= before.children.push((level, grown)));
                    } else {
                        assert(before.child_index(level) == idx);
                        assert(now.children =~= before.children.update(idx as int, (level, grown)));
                    }
                }
            },
        }
        proof {
            assert(self@ == before.with_subscriber(full, client@));
            if before.wf() {
                lemma_subscription_keeps_wf(before, full, client@);
            }
            assert forall|path: Seq<FilterLevel>| #[trigger]
                self@.subscribers_at(path) == if path == full {
                    upsert(before.subscribers_at(path), client@)
                } else {
                    before.subscribers_at(path)
                } by {
                lemma_subscribers_after(before, full, client@, path);
            }
        }
    }
}

impl SubscriptionTopic {
    /// Whether a child after `idx` stands under the same level as child
    /// `idx`.
    fn level_stands_again(&self, idx: usize) -> (b: bool)
        requires
            idx < self.children@.len(),
        ensures
            b == exists|j: int|
                idx < j < self@.children.len() && (#[trigger] self@.children[j]).0
                    == self@.children[idx as int].0,
    {
        proof {
            self.lemma_view();
        }
        let total: usize = self.children.len();
        let mut j: usize = idx + 1;
        while j < self.children.len()
            invariant
                idx < j <= self.children@.len(),
                self@.children.len() == self.children@.len(),
                forall|k: int|
                    idx < k < j ==> (#[trigger] self@.children[k]).0 != self@.children[idx as int].0,
            decreases self.children@.len() - j,
        {
            if self.children[j].0.equals(&self.children[idx].0) {
                proof {
                    assert(self@.children[j as int].0 == self@.children[idx as int].0);
                }
                return true;
            }
            j = j + 1;
        }
        false
    }

    /// Takes back the subscription of the client to the filter `topic`,
    /// counted from this node, and takes out the nodes on the way that
    /// are left empty. The trie afterwards is exactly what
    /// `without_subscriber` says: no other filter's subscribers change, no
    /// other node leaves, and a well-formed trie stays well-formed.
    pub fn remove_subscription(&mut self, mut topic: VecDeque<TopicFilter>, client_id: &ClientId)
        ensures
            final(self)@ == old(self)@.without_subscriber(levels_view(topic@), client_id@),
            old(self)@.wf() ==> final(self)@.wf(),
            forall|path: Seq<FilterLevel>| #[trigger]
                final(self)@.subscribers_at(path) == if path == levels_view(topic@) {
                    without_client(old(self)@.subscribers_at(path), client_id@)
                } else {
                    old(self)@.subscribers_at(path)
                },
        decreases topic@.len(),
    {
        let ghost full = levels_view(topic@);
        let ghost before = self@;
        match topic.pop_front() {
            None => {
                let ghost list = subscribers(self.subscriptions@);
                match self.find_client(client_id) {
                    Some(i) => {
                        let _ = self.subscriptions.remove(i);
                    },
                    None => {},
                }
                proof {
                    assert(subscribers(self.subscriptions@) =~= without_client(list, client_id@));
                    assert(full =~= Seq::<FilterLevel>::empty());
                    assert(self@.children =~= before.children);
                }
            },
            Some(filter) => {
                let ghost rest = levels_view(topic@);
                let ghost level = filter@;
                proof {
                    assert(full.len() > 0 && full[0] == level);
                    assert(full.skip(1) =~= rest);
                    TrieView::lemma_first_child(before.children, level, 0);
                }
                match self.find_child(&filter) {
                    None => {
                        proof {
                            assert(before.child_index(level) == -1);
                        }
                    },
                    Some(idx) => {
                        let ghost child_at_call = self.children@[idx as int].1@;
                        proof {
                            self.lemma_view();
                            assert(child_at_call == before.children[idx as int].1);
                            assert(before.child_index(level) == idx);
                        }
                        self.children[idx].1.remove_subscription(topic, client_id);
                        let ghost mid = self@;
                        let ghost child_after = self.children@[idx as int].1@;
                        proof {
                            self.lemma_view();
                            assert(child_after == child_at_call.without_subscriber(rest, client_id@));
                            assert(mid.subscriptions == before.subscriptions);
                            assert(mid.children =~= before.children.update(
                                idx as int,
                                (level, child_after),
                            ));
                            assert(mid.level_stands_again(idx as int) == before.level_stands_again(
                                idx as int,
                            )) by {
                                if before.level_stands_again(idx as int) {
                                    let j = choose|j: int|
                                        idx < j < before.children.len() && (
                                        #[trigger] before.children[j]).0
                                            == before.children[idx as int].0;
                                    assert(mid.children[j].0 == mid.children[idx as int].0);
                                }
                                if mid.level_stands_again(idx as int) {
                                    let j = choose|j: int|
                                        idx < j < mid.children.len() && (#[trigger] mid.children[j]).0
                                            == mid.children[idx as int].0;
                                    assert(before.children[j].0 == before.children[idx as int].0);
                                }
                            }
                        }
                        let empty = self.children[idx].1.subscriptions.len() == 0
                            && self.children[idx].1.children.len() == 0;
                        proof {
                            self.children@[idx as int].1.lemma_view();
                            assert(empty == child_after.is_empty());
                        }
                        if empty && !self.level_stands_again(idx) {
                            let _ = self.children.remove(idx);
                            proof {
                                assert(self@.subscriptions == mid.subscriptions);
                                assert(self@.children =~= before.children.remove(idx as int));
                            }
                        }
                    },
                }
            },
        }
        proof {
            assert(self@ == before.without_subscriber(full, client_id@));
            if before.wf() {
                lemma_withdrawal_keeps_wf(before, full, client_id@);
            }
            assert forall|path: Seq<FilterLevel>| #[trigger]
                self@.subscribers_at(path) == if path == full {
                    without_client(before.subscribers_at(path), client_id@)
                } else {
                    before.subscribers_at(path)
                } by {
                lemma_subscribers_without(before, full, client_id@, path);
            }
        }
    }
}

impl Default for SubscriptionTopic {
    /// A trie without subscriptions.
    fn default() -> (r: SubscriptionTopic)
        ensures
            r@ == TrieView::empty(),
            r@.wf(),
    {
        SubscriptionTopic::new()
    }
}

/// The views of a list of borrowed subscriptions.
pub open spec fn borrowed_subscribers(list: Seq<&ClientSubscription>) -> Seq<Subscriber> {
    Seq::new(list.len(), |i: int| list[i]@)
}

/// Appends a borrow of every subscription in `list` to `out`.
fn push_borrowed<'a>(out: &mut Vec<&'a ClientSubscription>, list: &'a Vec<ClientSubscription>)
    ensures
        borrowed_subscribers(final(out)@) == borrowed_subscribers(old(out)@) + subscribers(list@),
{
    let mut i: usize = 0;
    while i < list.len()
        invariant
            i <= list@.len(),
            borrowed_subscribers(out@) == borrowed_subscribers(old(out)@) + subscribers(
                list@,
            ).take(i as int),
        decreases list@.len() - i,
    {
        let ghost prev = borrowed_subscribers(out@);
        out.push(&list[i]);
        proof {
            assert(borrowed_subscribers(out@) =~= prev.push(list@[i as int]@));
            assert(subscribers(list@).take(i + 1) =~= subscribers(list@).take(i as int).push(
                list@[i as int]@,
            ));
            assert(borrowed_subscribers(out@) =~= borrowed_subscribers(old(out)@) + subscribers(
                list@,
            ).take(i + 1));
        }
        i = i + 1;
    }
    proof {
        assert(subscribers(list@).take(list@.len() as int) =~= subscribers(list@));
    }
}

/// Moves every borrow in `more` to the end of `out`.
fn append_borrowed<'a>(out: &mut Vec<&'a ClientSubscription>, more: Vec<&'a ClientSubscription>)
    ensures
        borrowed_subscribers(final(out)@) == borrowed_subscribers(old(out)@) + borrowed_subscribers(
            more@,
        ),
{
    let mut more = more;
    let ghost added = more@;
    out.append(&mut more);
    proof {
        assert(borrowed_subscribers(out@) =~= borrowed_subscribers(old(out)@)
            + borrowed_subscribers(added));
    }
}

impl TopicName {
    /// The subscriptions under `routing` that a message on this topic
    /// reaches, when the first `idx` levels of the topic led to `routing`.
    pub fn get_matches<'a>(&'a self, idx: usize, routing: &'a SubscriptionTopic) -> (r: Vec<
        &'a ClientSubscription,
    >)
        requires
            idx <= self@.len(),
        ensures
            borrowed_subscribers(r@) == routing@.matches(self@, idx as int),
        decreases self@.len() - idx,
    {
        let mut out: Vec<&'a ClientSubscription> = Vec::new();
        proof {
            routing.lemma_view();
            assert(borrowed_subscribers(out@) =~= Seq::<Subscriber>::empty());
        }
        let wild = !(idx == 0 && self.0.len() > 0 && level_starts_with_dollar(self.0[0].as_str()));
        let ghost multi = Seq::<Subscriber>::empty();
        if wild {
            match routing.find_child(&TopicFilter::MultiWildcard) {
                Some(m) => {
                    proof {
                        routing.children@[m as int].1.lemma_view();
                        multi = routing@.children[m as int].1.subscriptions;
                    }
                    push_borrowed(&mut out, &routing.children[m].1.subscriptions);
                },
                None => {},
            }
        }
        proof {
            assert(borrowed_subscribers(out@) =~= multi);
        }
        if idx < self.0.len() {
            let ghost single = Seq::<Subscriber>::empty();
            if wild {
                match routing.find_child(&TopicFilter::SingleWildcard) {
                    Some(s) => {
                        let found = self.get_matches(idx + 1, &routing.children[s].1);
                        proof {
                            single = borrowed_subscribers(found@);
                        }
                        append_borrowed(&mut out, found);
                    },
                    None => {},
                }
            }
            proof {
                assert(borrowed_subscribers(out@) =~= multi + single);
            }
            let key = TopicFilter::Named(self.0[idx].clone());
            match routing.find_child(&key) {
                Some(n) => {
                    let found = self.get_matches(idx + 1, &routing.children[n].1);
                    append_borrowed(&mut out, found);
                },
                None => {
                    proof {
                        assert(borrowed_subscribers(out@) =~= multi + single + Seq::<
                            Subscriber,
                        >::empty());
                    }
                },
            }
        } else {
            push_borrowed(&mut out, &routing.subscriptions);
        }
        out
    }
}

/// An element is in a concatenation exactly when it is in one of the parts.
proof fn lemma_contains_concat(a: Seq<Subscriber>, b: Seq<Subscriber>, x: Subscriber)
    ensures
        (a + b).contains(x) <==> a.contains(x) || b.contains(x),
{
    if (a + b).contains(x) {
        let i = choose|i: int| 0 <= i < (a + b).len() && (a + b)[i] == x;
        if i < a.len() {
            assert(a[i] == x);
        } else {
            assert(b[i - a.len()] == x);
        }
    }
    if a.contains(x) {
        let i = choose|i: int| 0 <= i < a.len() && a[i] == x;
        assert((a + b)[i] == x);
    }
    if b.contains(x) {
        let i = choose|i: int| 0 <= i < b.len() && b[i] == x;
        assert((a + b)[a.len() + i] == x);
    }
}

/// Whether the filter `path`, counted from a node that the first `idx`
/// levels of `topic` led to, matches what is left of the topic.
pub open spec fn matches_below(path: Seq<FilterLevel>, topic: Seq<Seq<char>>, idx: int) -> bool {
    if idx == 0 {
        subscription_matches(path, topic)
    } else {
        filter_matches(path, topic.skip(idx))
    }
}

/// Whatever the walk from a node finds was subscribed under a filter that
/// matches what is left of the topic. The filter is handed back.
pub proof fn lemma_matches_sound(node: TrieView, topic: Seq<Seq<char>>, idx: int, x: Subscriber) -> (path:
    Seq<FilterLevel>)
    requires
        0 <= idx <= topic.len(),
        node.matches(topic, idx).contains(x),
    ensures
        matches_below(path, topic, idx),
        node.subscribers_at(path).contains(x),
    decreases topic.len() - idx,
{
    reveal_with_fuel(TrieView::subscribers_at, 2);
    reveal_with_fuel(filter_matches, 2);
    assert(topic.skip(0) =~= topic);
    let wild = !(idx == 0 && topic.len() > 0 && starts_with_dollar(topic[0]));
    let m = node.child_index(FilterLevel::MultiWildcard);
    let multi = if wild && 0 <= m < node.children.len() {
        node.children[m].1.subscriptions
    } else {
        Seq::empty()
    };
    if multi.contains(x) {
        let path = seq![FilterLevel::MultiWildcard];
        assert(path.skip(1) =~= Seq::<FilterLevel>::empty());
        return path;
    }
    if idx < topic.len() {
        let s = node.child_index(FilterLevel::SingleWildcard);
        let single = if wild && 0 <= s < node.children.len() {
            node.children[s].1.matches(topic, idx + 1)
        } else {
            Seq::empty()
        };
        let n = node.child_index(FilterLevel::Named(topic[idx]));
        let named = if 0 <= n < node.children.len() {
            node.children[n].1.matches(topic, idx + 1)
        } else {
            Seq::empty()
        };
        lemma_contains_concat(multi + single, named, x);
        lemma_contains_concat(multi, single, x);
        assert(topic.skip(idx).skip(1) =~= topic.skip(idx + 1));
        if single.contains(x) {
            let tail = lemma_matches_sound(node.children[s].1, topic, idx + 1, x);
            let path = seq![FilterLevel::SingleWildcard] + tail;
            assert(path.skip(1) =~= tail);
            path
        } else {
            let tail = lemma_matches_sound(node.children[n].1, topic, idx + 1, x);
            let path = seq![FilterLevel::Named(topic[idx])] + tail;
            assert(path.skip(1) =~= tail);
            path
        }
    } else {
        lemma_contains_concat(multi, node.subscriptions, x);
        Seq::empty()
    }
}

/// Whatever was subscribed under a filter that matches what is left of the
/// topic is found by the walk from the node.
pub proof fn lemma_matches_complete(
    node: TrieView,
    topic: Seq<Seq<char>>,
    idx: int,
    path: Seq<FilterLevel>,
    x: Subscriber,
)
    requires
        0 <= idx <= topic.len(),
        matches_below(path, topic, idx),
        node.subscribers_at(path).contains(x),
    ensures
        node.matches(topic, idx).contains(x),
    decreases topic.len() - idx,
{
    reveal_with_fuel(TrieView::subscribers_at, 2);
    reveal_with_fuel(filter_matches, 2);
    assert(topic.skip(0) =~= topic);
    let wild = !(idx == 0 && topic.len() > 0 && starts_with_dollar(topic[0]));
    let m = node.child_index(FilterLevel::MultiWildcard);
    let multi = if wild && 0 <= m < node.children.len() {
        node.children[m].1.subscriptions
    } else {
        Seq::empty()
    };
    assert(filter_matches(path, topic.skip(idx)));
    if path.len() == 0 {
        lemma_contains_concat(multi, node.subscriptions, x);
    } else {
        let k = node.child_index(path[0]);
        assert(0 <= k < node.children.len());
        if idx < topic.len() {
            assert(topic.skip(idx).skip(1) =~= topic.skip(idx + 1));
        }
        match path[0] {
            FilterLevel::MultiWildcard => {
                assert(path.skip(1) =~= Seq::<FilterLevel>::empty());
                if idx < topic.len() {
                    let s = node.child_index(FilterLevel::SingleWildcard);
                    let single = if wild && 0 <= s < node.children.len() {
                        node.children[s].1.matches(topic, idx + 1)
                    } else {
                        Seq::empty()
                    };
                    let n = node.child_index(FilterLevel::Named(topic[idx]));
                    let named = if 0 <= n < node.children.len() {
                        node.children[n].1.matches(topic, idx + 1)
                    } else {
                        Seq::empty()
                    };
                    lemma_contains_concat(multi + single, named, x);
                    lemma_contains_concat(multi, single, x);
                } else {
                    lemma_contains_concat(multi, node.subscriptions, x);
                }
            },
            FilterLevel::SingleWildcard => {
                let single = node.children[k].1.matches(topic, idx + 1);
                let n = node.child_index(FilterLevel::Named(topic[idx]));
                let named = if 0 <= n < node.children.len() {
                    node.children[n].1.matches(topic, idx + 1)
                } else {
                    Seq::empty()
                };
                lemma_matches_complete(node.children[k].1, topic, idx + 1, path.skip(1), x);
                lemma_contains_concat(multi + single, named, x);
                lemma_contains_concat(multi, single, x);
            },
            FilterLevel::Named(name) => {
                let s = node.child_index(FilterLevel::SingleWildcard);
                let single = if wild && 0 <= s < node.children.len() {
                    node.children[s].1.matches(topic, idx + 1)
                } else {
                    Seq::empty()
                };
                let named = node.children[k].1.matches(topic, idx + 1);
                assert(topic.skip(idx)[0] == topic[idx]);
                lemma_matches_complete(node.children[k].1, topic, idx + 1, path.skip(1), x);
                lemma_contains_concat(multi + single, named, x);
            },
        }
    }
}

/// A message on `topic` reaches a subscription of the trie exactly when the
/// subscription was made under a filter that matches the topic.
pub proof fn lemma_matches_iff_filter(trie: TrieView, topic: Seq<Seq<char>>, x: Subscriber)
    ensures
        trie.matches(topic, 0).contains(x) <==> exists|path: Seq<FilterLevel>|
            subscription_matches(path, topic) && #[trigger] trie.subscribers_at(path).contains(x),
{
    if trie.matches(topic, 0).contains(x) {
        let path = lemma_matches_sound(trie, topic, 0, x);
        assert(subscription_matches(path, topic) && trie.subscribers_at(path).contains(x));
    }
    if exists|path: Seq<FilterLevel>|
        subscription_matches(path, topic) && #[trigger] trie.subscribers_at(path).contains(x) {
        let path = choose|path: Seq<FilterLevel>|
            subscription_matches(path, topic) && #[trigger] trie.subscribers_at(path).contains(x);
        lemma_matches_complete(trie, topic, 0, path, x);
    }
}

/// A change to the subscription table, as plain data.
pub enum ChangeView {
    Add { filter: Seq<FilterLevel>, subscriber: Subscriber },
    Remove { filter: Seq<FilterLevel>, client_id: Seq<char> },
}

impl TrieView {
    /// The trie after one change.
    pub open spec fn changed(self, change: ChangeView) -> TrieView {
        match change {
            ChangeView::Add { filter, subscriber } => self.with_subscriber(filter, subscriber),
            ChangeView::Remove { filter, client_id } => self.without_subscriber(filter, client_id),
        }
    }

    /// The trie after the changes were made in order.
    pub open spec fn changed_by(self, changes: Seq<ChangeView>) -> TrieView
        decreases changes.len(),
    {
        if changes.len() == 0 {
            self
        } else {
            self.changed_by(changes.drop_last()).changed(changes.last())
        }
    }
}

/// A change to the subscription table: a client subscribes to a filter,
/// or takes its subscription to a filter back.
#[derive(Debug, Clone, PartialEq)]
pub enum SubscriptionChange {
    Add { filter: VecDeque<TopicFilter>, subscription: ClientSubscription },
    Remove { filter: VecDeque<TopicFilter>, client_id: ClientId },
}

impl View for SubscriptionChange {
    type V = ChangeView;

    open spec fn view(&self) -> ChangeView {
        match self {
            SubscriptionChange::Add { filter, subscription } => ChangeView::Add {
                filter: levels_view(filter@),
                subscriber: subscription@,
            },
            SubscriptionChange::Remove { filter, client_id } => ChangeView::Remove {
                filter: levels_view(filter@),
                client_id: client_id@,
            },
        }
    }
}

/// The views of a list of changes.
pub open spec fn changes_view(changes: Seq<SubscriptionChange>) -> Seq<ChangeView> {
    Seq::new(changes.len(), |i: int| changes[i]@)
}

/// The subscribers of the filter `path` after one change, where `list`
/// were its subscribers before.
pub open spec fn apply_change(list: Seq<Subscriber>, path: Seq<FilterLevel>, change: ChangeView) -> Seq<
    Subscriber,
> {
    match change {
        ChangeView::Add { filter, subscriber } => if filter == path {
            upsert(list, subscriber)
        } else {
            list
        },
        ChangeView::Remove { filter, client_id } => if filter == path {
            without_client(list, client_id)
        } else {
            list
        },
    }
}

/// The subscribers of the filter `path` after the changes were made in
/// order, where `list` were its subscribers before.
pub open spec fn apply_changes(list: Seq<Subscriber>, path: Seq<FilterLevel>, changes: Seq<ChangeView>) -> Seq<
    Subscriber,
>
    decreases changes.len(),
{
    if changes.len() == 0 {
        list
    } else {
        apply_change(apply_changes(list, path, changes.drop_last()), path, changes.last())
    }
}

/// The subscriptions that a client asks for: each request's filter, split
/// into levels, with the client and the requested quality of service.
pub open spec fn requested_changes(
    client: ClientInformation,
    requests: Seq<SubscriptionRequestView>,
) -> Seq<ChangeView> {
    Seq::new(
        requests.len(),
        |i: int|
            ChangeView::Add {
                filter: filter_levels(requests[i].topic),
                subscriber: Subscriber {
                    client_id: client.client_id@,
                    client_sender: client.client_sender,
                    qos: requests[i].qos,
                },
            },
    )
}

/// The subscriptions that a client takes back: each filter, split into
/// levels, with the client.
pub open spec fn withdrawn_changes(client_id: Seq<char>, filters: Seq<Seq<char>>) -> Seq<ChangeView> {
    Seq::new(
        filters.len(),
        |i: int| ChangeView::Remove { filter: filter_levels(filters[i]), client_id },
    )
}

/// A copy of a list of filter levels.
pub fn duplicate_levels(levels: &VecDeque<TopicFilter>) -> (r: VecDeque<TopicFilter>)
    ensures
        levels_view(r@) == levels_view(levels@),
{
    let mut r: VecDeque<TopicFilter> = VecDeque::new();
    let mut i: usize = 0;
    while i < levels.len()
        invariant
            i <= levels@.len(),
            r@.len() == i,
            forall|j: int| 0 <= j < i ==> (#[trigger] r@[j])@ == levels@[j]@,
        decreases levels@.len() - i,
    {
        r.push_back(levels[i].duplicate());
        i = i + 1;
    }
    proof {
        assert(levels_view(r@) =~= levels_view(levels@));
    }
    r
}

/// Turns the entries of a SUBSCRIBE packet into subscriptions of `client`.
pub fn subscription_changes(client: &ClientInformation, subscriptions: &MSubscriptionRequests) -> (r:
    Vec<SubscriptionChange>)
    ensures
        changes_view(r@) == requested_changes(*client, subscriptions@),
{
    let mut r: Vec<SubscriptionChange> = Vec::new();
    let mut i: usize = 0;
    while i < subscriptions.requests.len()
        invariant
            i <= subscriptions.requests@.len(),
            r@.len() == i,
            forall|j: int|
                0 <= j < i ==> #[trigger] changes_view(r@)[j] == requested_changes(
                    *client,
                    subscriptions@,
                )[j],
        decreases subscriptions.requests@.len() - i,
    {
        let request = &subscriptions.requests[i];
        let levels = TopicFilter::parse_from(request.topic.as_str().to_owned());
        let subscription = ClientSubscription {
            client: ClientInformation {
                client_id: client.client_id.duplicate(),
                client_sender: client.client_sender,
            },
            qos: request.qos,
        };
        let ghost before = r@;
        r.push(SubscriptionChange::Add { filter: levels, subscription });
        proof {
            assert forall|j: int| 0 <= j < i + 1 implies #[trigger] changes_view(r@)[j]
                == requested_changes(*client, subscriptions@)[j] by {
                if j < i {
                    assert(changes_view(before)[j] == requested_changes(*client, subscriptions@)[j]);
                    assert(r@[j] == before[j]);
                }
            }
        }
        i = i + 1;
    }
    proof {
        assert(changes_view(r@) =~= requested_changes(*client, subscriptions@));
    }
    r
}

/// Turns the filters of an UNSUBSCRIBE packet into withdrawals of the
/// client.
pub fn withdrawal_changes(client_id: &ClientId, filters: &Vec<MqttString>) -> (r: Vec<
    SubscriptionChange,
>)
    ensures
        changes_view(r@) == withdrawn_changes(client_id@, strings_view(filters@)),
{
    let mut r: Vec<SubscriptionChange> = Vec::new();
    let mut i: usize = 0;
    while i < filters.len()
        invariant
            i <= filters@.len(),
            r@.len() == i,
            forall|j: int|
                0 <= j < i ==> #[trigger] changes_view(r@)[j] == withdrawn_changes(
                    client_id@,
                    strings_view(filters@),
                )[j],
        decreases filters@.len() - i,
    {
        let levels = TopicFilter::parse_from(filters[i].as_str().to_owned());
        let ghost before = r@;
        r.push(SubscriptionChange::Remove { filter: levels, client_id: client_id.duplicate() });
        proof {
            assert forall|j: int| 0 <= j < i + 1 implies #[trigger] changes_view(r@)[j]
                == withdrawn_changes(client_id@, strings_view(filters@))[j] by {
                if j < i {
                    assert(changes_view(before)[j] == withdrawn_changes(
                        client_id@,
                        strings_view(filters@),
                    )[j]);
                    assert(r@[j] == before[j]);
                }
            }
        }
        i = i + 1;
    }
    proof {
        assert(changes_view(r@) =~= withdrawn_changes(client_id@, strings_view(filters@)));
    }
    r
}

impl SubscriptionTopic {
    /// A copy of this trie.
    pub fn duplicate(&self) -> (r: SubscriptionTopic)
        ensures
            r@ == self@,
        decreases self,
    {
        let mut subscriptions: Vec<ClientSubscription> = Vec::new();
        let mut i: usize = 0;
        while i < self.subscriptions.len()
            invariant
                i <= self.subscriptions@.len(),
                subscriptions@.len() == i,
                forall|j: int| 0 <= j < i ==> (#[trigger] subscriptions@[j])@ == self.subscriptions@[j]@,
            decreases self.subscriptions@.len() - i,
        {
            subscriptions.push(self.subscriptions[i].duplicate());
            i = i + 1;
        }
        let mut children: Vec<(TopicFilter, SubscriptionTopic)> = Vec::new();
        let mut k: usize = 0;
        while k < self.children.len()
            invariant
                k <= self.children@.len(),
                children@.len() == k,
                forall|j: int|
                    0 <= j < k ==> (#[trigger] children@[j]).0@ == self.children@[j].0@
                        && children@[j].1@ == self.children@[j].1@,
            decreases self.children@.len() - k,
        {
            let level = self.children[k].0.duplicate();
            let child = self.children[k].1.duplicate();
            children.push((level, child));
            k = k + 1;
        }
        let r = SubscriptionTopic { subscriptions, children };
        proof {
            assert(r@.subscriptions =~= self@.subscriptions);
            assert(r@.children =~= self@.children);
        }
        r
    }

    /// A copy of this trie with the changes made in order.
    pub fn with_changes(&self, changes: &Vec<SubscriptionChange>) -> (r: SubscriptionTopic)
        ensures
            r@ == self@.changed_by(changes_view(changes@)),
            self@.wf() ==> r@.wf(),
            forall|path: Seq<FilterLevel>| #[trigger]
                r@.subscribers_at(path) == apply_changes(
                    self@.subscribers_at(path),
                    path,
                    changes_view(changes@),
                ),
    {
        let mut table = self.duplicate();
        let ghost all = changes_view(changes@);
        let mut i: usize = 0;
        while i < changes.len()
            invariant
                i <= changes@.len(),
                all == changes_view(changes@),
                table@ == self@.changed_by(all.take(i as int)),
            decreases changes@.len() - i,
        {
            let ghost before = table@;
            match &changes[i] {
                SubscriptionChange::Add { filter, subscription } => {
                    table.add_subscription(duplicate_levels(filter), subscription.duplicate());
                },
                SubscriptionChange::Remove { filter, client_id } => {
                    table.remove_subscription(duplicate_levels(filter), client_id);
                },
            }
            proof {
                assert(all.take(i + 1).drop_last() =~= all.take(i as int));
                assert(all.take(i + 1).last() == all[i as int]);
                assert(table@ == before.changed(all[i as int]));
            }
            i = i + 1;
        }
        proof {
            assert(all.take(changes@.len() as int) =~= all);
            lemma_changes(self@, all, Seq::empty());
            assert forall|path: Seq<FilterLevel>| #[trigger]
                table@.subscribers_at(path) == apply_changes(
                    self@.subscribers_at(path),
                    path,
                    all,
                ) by {
                lemma_changes(self@, all, path);
            }
        }
        table
    }

    /// The subscriptions that `message` reaches, in the order of the walk.
    pub fn route(&self, message: &MqttMessage) -> (r: Vec<ClientSubscription>)
        ensures
            subscribers(r@) == self@.matches(split_levels(message@.topic), 0),
    {
        let topic = TopicName::parse_from(message.topic());
        let found = topic.get_matches(0, self);
        let mut r: Vec<ClientSubscription> = Vec::new();
        let mut i: usize = 0;
        while i < found.len()
            invariant
                i <= found@.len(),
                r@.len() == i,
                forall|j: int| 0 <= j < i ==> (#[trigger] r@[j])@ == found@[j]@,
            decreases found@.len() - i,
        {
            r.push(found[i].duplicate());
            i = i + 1;
        }
        proof {
            assert(subscribers(r@) =~= borrowed_subscribers(found@));
        }
        r
    }
}

/// The shared subscription table of the broker. Every clone of a manager
/// reaches the same table. A reader takes the table as it stands at that
/// moment; a writer publishes a changed copy, starting over where another
/// writer was faster. No reader ever sees a table that is half changed.
#[verifier::external_body]
pub struct SubscriptionManager {
    subscriptions: Arc<arc_swap::ArcSwap<SubscriptionTopic>>,
}

/// Makes the shared table with `arc_swap::ArcSwap::from_pointee`. Only a
/// well-formed table is taken. Trusted: nothing is claimed of the result.
#[verifier::external_body]
fn manager_with(table: SubscriptionTopic) -> (r: SubscriptionManager)
    requires
        table@.wf(),
{
    SubscriptionManager { subscriptions: Arc::new(arc_swap::ArcSwap::from_pointee(table)) }
}

/// Another handle to the same table, by `Arc::clone`. Trusted: nothing is
/// claimed of the result.
#[verifier::external_body]
fn manager_share(manager: &SubscriptionManager) -> (r: SubscriptionManager) {
    SubscriptionManager { subscriptions: manager.subscriptions.clone() }
}

/// The table as it stands, by `arc_swap::ArcSwapAny::load_full`. Which
/// table that is cannot be said, since other handles may have published in
/// between. Trusted: the table is well-formed. `load_full` hands back a
/// table that was stored before; the field is private, and the only
/// tables ever stored are the one that `manager_with` took, which is
/// well-formed, and those that `with_changes` made of a stored table,
/// which keeps a well-formed table well-formed.
#[verifier::external_body]
fn manager_load(manager: &SubscriptionManager) -> (r: Arc<SubscriptionTopic>)
    ensures
        r@.wf(),
{
    manager.subscriptions.load_full()
}

/// Publishes a copy of the table with `changes` made, by
/// `arc_swap::ArcSwapAny::rcu`, which runs `SubscriptionTopic::with_changes`
/// on the table as it stands and tries again where another writer was
/// faster. Hands back the table that the changes were made on, which
/// `rcu` returns. Trusted: that table is well-formed, for the reason given
/// at `manager_load`.
#[verifier::external_body]
fn manager_publish(manager: &SubscriptionManager, changes: &Vec<SubscriptionChange>) -> (r: Arc<
    SubscriptionTopic,
>)
    ensures
        r@.wf(),
{
    manager.subscriptions.rcu(|table| table.with_changes(changes))
}

impl Clone for SubscriptionManager {
    fn clone(&self) -> (r: Self) {
        manager_share(self)
    }
}

impl SubscriptionManager {
    /// A manager of an empty table.
    pub fn new() -> (r: SubscriptionManager) {
        manager_with(SubscriptionTopic::new())
    }

    /// The table as it stands at this moment. Whichever table it is, no
    /// client stands twice under a filter in it.
    pub fn snapshot(&self) -> (r: Arc<SubscriptionTopic>)
        ensures
            r@.wf(),
    {
        manager_load(self)
    }

    /// Subscribes `client` to every filter in `subscriptions`, in order, and
    /// publishes the result. Hands back the changes that were made, and
    /// the table they were made on.
    pub fn subscribe(&self, client: &ClientInformation, subscriptions: &MSubscriptionRequests) -> (r: (
        Vec<SubscriptionChange>,
        Arc<SubscriptionTopic>,
    ))
        ensures
            changes_view(r.0@) == requested_changes(*client, subscriptions@),
            r.1@.wf(),
    {
        let changes = subscription_changes(client, subscriptions);
        let before = manager_publish(self, &changes);
        (changes, before)
    }

    /// Takes back the subscriptions of the client to every filter in
    /// `filters`, in order, and publishes the result. Hands back the
    /// changes that were made, and the table they were made on.
    pub fn unsubscribe(&self, client_id: &ClientId, filters: &Vec<MqttString>) -> (r: (
        Vec<SubscriptionChange>,
        Arc<SubscriptionTopic>,
    ))
        ensures
            changes_view(r.0@) == withdrawn_changes(client_id@, strings_view(filters@)),
            r.1@.wf(),
    {
        let changes = withdrawal_changes(client_id, filters);
        let before = manager_publish(self, &changes);
        (changes, before)
    }

    /// The subscriptions that `message` reaches in the table as it stands
    /// at this moment, which is a well-formed one. The caller hands the
    /// message to each of them.
    pub fn route_message(&self, message: &MqttMessage) -> (r: Vec<ClientSubscription>)
        ensures
            exists|table: TrieView|
                table.wf() && #[trigger] table.matches(split_levels(message@.topic), 0)
                    == subscribers(r@),
    {
        let table = manager_load(self);
        let r = table.route(message);
        proof {
            assert(table@.wf() && table@.matches(split_levels(message@.topic), 0) == subscribers(
                r@,
            ));
        }
        r
    }
}

} // verus!
