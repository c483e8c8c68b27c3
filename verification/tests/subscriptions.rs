use std::collections::VecDeque;

use cloudmqtt::server::message::MqttMessage;
use cloudmqtt::server::subscriptions::ClientInformation;
use cloudmqtt::server::subscriptions::filter_is_valid;
use cloudmqtt::server::subscriptions::ClientSubscription;
use cloudmqtt::server::subscriptions::SubscriptionChange;
use cloudmqtt::server::subscriptions::SubscriptionManager;
use cloudmqtt::server::subscriptions::SubscriptionTopic;
use cloudmqtt::server::subscriptions::TopicFilter;
use cloudmqtt::server::subscriptions::TopicName;
use cloudmqtt::server::ClientId;
use cloudmqtt::v3::qos::MQualityOfService;
use cloudmqtt::v3::subscription_request::MSubscriptionRequest;
use cloudmqtt::v3::subscription_request::MSubscriptionRequests;
use cloudmqtt::wire::strings::MqttString;

fn client_subscription(qos: MQualityOfService) -> ClientSubscription {
    ClientSubscription {
        client: ClientInformation {
            client_id: ClientId::new(String::from("test-sub")),
            client_sender: 0,
        },
        qos,
    }
}

fn subscription_of(client: &str, sender: u64, qos: MQualityOfService) -> ClientSubscription {
    ClientSubscription {
        client: ClientInformation { client_id: ClientId::new(String::from(client)), client_sender: sender },
        qos,
    }
}

fn message(author: &str, topic: &str) -> MqttMessage {
    MqttMessage::new(
        ClientId::new(String::from(author)),
        vec![1, 2, 3],
        MqttString::new(topic).unwrap(),
        false,
        MQualityOfService::AtMostOnce,
    )
}

fn matches(filter: &str, topic: &str) -> bool {
    let mut trie = SubscriptionTopic::new();
    trie.add_subscription(
        TopicFilter::parse_from(filter.to_string()),
        subscription_of("s", 1, MQualityOfService::AtMostOnce),
    );
    !trie.route(&message("p", topic)).is_empty()
}

#[test]
fn check_macro_builder() {
    let real = SubscriptionTopic {
        subscriptions: vec![],
        children: vec![(
            TopicFilter::SingleWildcard,
            SubscriptionTopic {
                subscriptions: vec![client_subscription(MQualityOfService::AtLeastOnce)],
                children: Default::default(),
            },
        )],
    };

    let mut built = SubscriptionTopic::new();
    built.children.push((TopicFilter::SingleWildcard, SubscriptionTopic::new()));
    built.children[0].1.subscriptions.push(client_subscription(MQualityOfService::AtLeastOnce));

    assert_eq!(built, real);
}

#[test]
fn check_simple_apply_change() {
    let check = SubscriptionTopic {
        subscriptions: vec![],
        children: vec![(
            TopicFilter::Named(String::from("foo")),
            SubscriptionTopic {
                subscriptions: vec![client_subscription(MQualityOfService::AtLeastOnce)],
                ..Default::default()
            },
        )],
    };

    let new = {
        let mut new = SubscriptionTopic::default();
        new.add_subscription(
            vec![TopicFilter::Named(String::from("foo"))].into(),
            client_subscription(MQualityOfService::AtLeastOnce),
        );
        new
    };

    assert_eq!(check, new);
}

#[test]
fn check_full_merging() {
    // A client stands at most once under a filter: its second subscription
    // to "foo" takes the place of its first.
    let check = SubscriptionTopic {
        subscriptions: vec![],
        children: vec![(
            TopicFilter::Named(String::from("foo")),
            SubscriptionTopic {
                subscriptions: vec![client_subscription(MQualityOfService::AtLeastOnce)],
                children: vec![(
                    TopicFilter::SingleWildcard,
                    SubscriptionTopic {
                        subscriptions: vec![client_subscription(MQualityOfService::AtMostOnce)],
                        children: vec![],
                    },
                )],
            },
        )],
    };

    let new = {
        let mut new = SubscriptionTopic {
            subscriptions: vec![],
            children: vec![(
                TopicFilter::Named(String::from("foo")),
                SubscriptionTopic {
                    subscriptions: vec![client_subscription(MQualityOfService::AtLeastOnce)],
                    children: vec![],
                },
            )],
        };
        new.add_subscription(
            vec![TopicFilter::Named("foo".to_owned())].into(),
            client_subscription(MQualityOfService::AtLeastOnce),
        );
        new.add_subscription(
            TopicFilter::parse_from("foo/+".to_string()),
            client_subscription(MQualityOfService::AtMostOnce),
        );
        new
    };

    assert_eq!(check, new);
}

#[test]
fn second_subscription_replaces_the_first() {
    let mut trie = SubscriptionTopic::new();
    let filter = || TopicFilter::parse_from("a/b".to_string());
    trie.add_subscription(filter(), subscription_of("c1", 1, MQualityOfService::AtMostOnce));
    trie.add_subscription(filter(), subscription_of("c2", 2, MQualityOfService::AtMostOnce));
    trie.add_subscription(filter(), subscription_of("c1", 3, MQualityOfService::ExactlyOnce));
    let found = trie.route(&message("p", "a/b"));
    assert_eq!(found.len(), 2);
    assert_eq!(found[0].client.client_sender, 3);
    assert_eq!(found[0].qos, MQualityOfService::ExactlyOnce);
    assert_eq!(found[1].client.client_sender, 2);
}

#[test]
fn filters_are_split_into_levels() {
    let levels: VecDeque<TopicFilter> = TopicFilter::parse_from("foo/+/bar/#".to_string());
    assert_eq!(
        levels,
        VecDeque::from(vec![
            TopicFilter::Named("foo".to_string()),
            TopicFilter::SingleWildcard,
            TopicFilter::Named("bar".to_string()),
            TopicFilter::MultiWildcard,
        ])
    );
    assert_eq!(
        TopicFilter::parse_from("/a+".to_string()),
        VecDeque::from(vec![TopicFilter::Named(String::new()), TopicFilter::Named("a+".to_string())])
    );
    assert_eq!(TopicFilter::parse_from(String::new()), VecDeque::from(vec![TopicFilter::Named(String::new())]));
}

#[test]
fn topics_are_split_into_levels() {
    assert_eq!(TopicName::parse_from("a/b").0, VecDeque::from(vec!["a".to_string(), "b".to_string()]));
    assert_eq!(TopicName::parse_from("/finance").0, VecDeque::from(vec![String::new(), "finance".to_string()]));
    assert_eq!(TopicName::parse_from("a/").0, VecDeque::from(vec!["a".to_string(), String::new()]));
    assert_eq!(TopicName::parse_from("").0, VecDeque::from(vec![String::new()]));
}

#[test]
fn multi_level_wildcard_matches_the_level_and_below() {
    assert!(matches("sport/#", "sport"));
    assert!(matches("sport/#", "sport/tennis"));
    assert!(matches("sport/#", "sport/tennis/player1"));
    assert!(!matches("sport/#", "sports"));
}

#[test]
fn single_level_wildcard_matches_one_level() {
    assert!(matches("sport/+/player1", "sport/tennis/player1"));
    assert!(!matches("sport/+/player1", "sport/tennis/ranked/player1"));
    assert!(!matches("sport/+/player1", "sport/player1"));
    assert!(!matches("sport/+", "sport"));
    assert!(matches("sport/+", "sport/"));
}

#[test]
fn leading_empty_level_is_a_level() {
    assert!(matches("+/+", "/finance"));
    assert!(matches("/+", "/finance"));
    assert!(!matches("+", "/finance"));
}

#[test]
fn wildcards_at_the_root_do_not_reach_dollar_topics() {
    assert!(!matches("#", "$SYS/broker/uptime"));
    assert!(!matches("+/broker/uptime", "$SYS/broker/uptime"));
    assert!(matches("#", "SYS/broker/uptime"));
}

#[test]
fn dollar_filters_reach_dollar_topics() {
    assert!(matches("$SYS/#", "$SYS/broker/uptime"));
    assert!(matches("$SYS/+/uptime", "$SYS/broker/uptime"));
    assert!(!matches("$SYS/#", "SYS/broker/uptime"));
}

#[test]
fn single_wildcard_below_the_end_of_the_topic_does_not_match() {
    assert!(!matches("a/+/#", "a"));
    assert!(matches("a/+/#", "a/b"));
    assert!(matches("a/#", "a"));
}

#[test]
fn matches_come_in_the_order_of_the_walk() {
    let mut trie = SubscriptionTopic::new();
    let add = |trie: &mut SubscriptionTopic, filter: &str, sender: u64| {
        trie.add_subscription(
            TopicFilter::parse_from(filter.to_string()),
            subscription_of(&format!("c{}", sender), sender, MQualityOfService::AtMostOnce),
        );
    };
    add(&mut trie, "a/b", 1);
    add(&mut trie, "a/+", 2);
    add(&mut trie, "#", 3);
    add(&mut trie, "a/#", 4);
    add(&mut trie, "+/b", 5);
    add(&mut trie, "a/b/#", 6);
    add(&mut trie, "x/y", 7);
    let senders: Vec<u64> =
        trie.route(&message("p", "a/b")).iter().map(|s| s.client.client_sender).collect();
    assert_eq!(senders, vec![3, 5, 4, 2, 6, 1]);
    let topic = TopicName::parse_from("a/b");
    let borrowed: Vec<u64> =
        topic.get_matches(0, &trie).iter().map(|s| s.client.client_sender).collect();
    assert_eq!(borrowed, senders);
}

#[test]
fn copy_of_a_trie_is_equal_to_it() {
    let mut trie = SubscriptionTopic::new();
    trie.add_subscription(
        TopicFilter::parse_from("a/+/c".to_string()),
        subscription_of("c1", 1, MQualityOfService::AtLeastOnce),
    );
    let copy = trie.duplicate();
    assert_eq!(copy, trie);
    let changed = trie.with_changes(&vec![SubscriptionChange::Add {
        filter: TopicFilter::parse_from("a/#".to_string()),
        subscription: subscription_of("c2", 2, MQualityOfService::AtMostOnce),
    }]);
    assert_eq!(copy, trie);
    assert_eq!(changed.route(&message("p", "a/b/c")).len(), 2);
    assert_eq!(trie.route(&message("p", "a/b/c")).len(), 1);
    let back = changed.with_changes(&vec![
        SubscriptionChange::Remove {
            filter: TopicFilter::parse_from("a/#".to_string()),
            client_id: ClientId::new("c2".to_string()),
        },
        SubscriptionChange::Remove {
            filter: TopicFilter::parse_from("x/y".to_string()),
            client_id: ClientId::new("c2".to_string()),
        },
    ]);
    assert_eq!(back, trie);
}

#[test]
fn manager_publishes_subscriptions_to_every_handle() {
    let manager = SubscriptionManager::new();
    let other = manager.clone();
    let client = ClientInformation { client_id: ClientId::new("c1".to_string()), client_sender: 11 };
    let requests = MSubscriptionRequests {
        requests: vec![
            MSubscriptionRequest {
                topic: MqttString::new("sport/+").unwrap(),
                qos: MQualityOfService::AtLeastOnce,
            },
            MSubscriptionRequest { topic: MqttString::new("news").unwrap(), qos: MQualityOfService::AtMostOnce },
        ],
    };
    assert!(other.route_message(&message("p", "sport/tennis")).is_empty());
    let (changes, before) = manager.subscribe(&client, &requests);
    assert_eq!(changes.len(), 2);
    assert_eq!(
        changes[0],
        SubscriptionChange::Add {
            filter: TopicFilter::parse_from("sport/+".to_string()),
            subscription: subscription_of("c1", 11, MQualityOfService::AtLeastOnce),
        }
    );
    assert!(matches!(
        &changes[1],
        SubscriptionChange::Add { subscription, .. } if subscription.qos == MQualityOfService::AtMostOnce
    ));
    assert_eq!(*before, SubscriptionTopic::new());
    let found = other.route_message(&message("p", "sport/tennis"));
    assert_eq!(found.len(), 1);
    assert_eq!(found[0].client.client_sender, 11);
    assert_eq!(found[0].qos, MQualityOfService::AtLeastOnce);
    assert_eq!(other.route_message(&message("p", "news")).len(), 1);
    assert!(other.route_message(&message("p", "weather")).is_empty());
    assert_eq!(manager.snapshot().children.len(), 2);
}

#[test]
fn removal_takes_the_entry_and_the_empty_nodes() {
    let mut trie = SubscriptionTopic::new();
    let filter = |f: &str| TopicFilter::parse_from(f.to_string());
    trie.add_subscription(filter("a/b/c"), subscription_of("c1", 1, MQualityOfService::AtMostOnce));
    trie.add_subscription(filter("a/b"), subscription_of("c2", 2, MQualityOfService::AtMostOnce));
    trie.add_subscription(filter("a/b/c"), subscription_of("c2", 3, MQualityOfService::AtMostOnce));
    trie.remove_subscription(filter("a/b/c"), &ClientId::new("c1".to_string()));
    let left: Vec<u64> = trie.route(&message("p", "a/b/c")).iter().map(|s| s.client.client_sender).collect();
    assert_eq!(left, vec![3]);
    trie.remove_subscription(filter("a/b/c"), &ClientId::new("c2".to_string()));
    assert!(trie.route(&message("p", "a/b/c")).is_empty());
    // the node of "c" is gone, the node of "b" still has a subscriber
    assert_eq!(trie.children[0].1.children[0].1.children.len(), 0);
    assert_eq!(trie.route(&message("p", "a/b")).len(), 1);
    // taking back what was never subscribed changes nothing
    let before = trie.duplicate();
    trie.remove_subscription(filter("a/x"), &ClientId::new("c2".to_string()));
    trie.remove_subscription(filter("a/b"), &ClientId::new("c9".to_string()));
    assert_eq!(trie, before);
    trie.remove_subscription(filter("a/b"), &ClientId::new("c2".to_string()));
    assert_eq!(trie, SubscriptionTopic::new());
}

#[test]
fn manager_takes_subscriptions_back() {
    let manager = SubscriptionManager::new();
    let client = ClientInformation { client_id: ClientId::new("c1".to_string()), client_sender: 11 };
    let requests = MSubscriptionRequests {
        requests: vec![MSubscriptionRequest {
            topic: MqttString::new("sport/+").unwrap(),
            qos: MQualityOfService::AtLeastOnce,
        }],
    };
    manager.subscribe(&client, &requests);
    assert_eq!(manager.route_message(&message("p", "sport/tennis")).len(), 1);
    let (changes, before) =
        manager.unsubscribe(&client.client_id, &vec![MqttString::new("sport/+").unwrap()]);
    assert_eq!(
        changes,
        vec![SubscriptionChange::Remove {
            filter: TopicFilter::parse_from("sport/+".to_string()),
            client_id: ClientId::new("c1".to_string()),
        }]
    );
    assert_eq!(before.route(&message("p", "sport/tennis")).len(), 1);
    assert!(manager.route_message(&message("p", "sport/tennis")).is_empty());
    assert_eq!(*manager.snapshot(), SubscriptionTopic::new());
}

#[test]
fn valid_filters_have_their_wildcards_in_place() {
    let valid = |f: &str| filter_is_valid(&TopicFilter::parse_from(f.to_string()));
    assert!(valid("#"));
    assert!(valid("+"));
    assert!(valid("a/b"));
    assert!(valid("a/+/b/#"));
    assert!(valid("/"));
    assert!(valid(""));
    assert!(!valid("a/#/b"));
    assert!(!valid("#/"));
    assert!(!valid("a+"));
    assert!(!valid("a/b#"));
    assert!(!valid("+a/b"));
    assert!(!filter_is_valid(&VecDeque::new()));
}

#[test]
fn subscriptions_shape_the_trie_in_the_order_they_come() {
    let mut trie = SubscriptionTopic::new();
    let filter = |f: &str| TopicFilter::parse_from(f.to_string());
    let named = |s: &str| TopicFilter::Named(s.to_string());
    trie.add_subscription(filter("a/b"), subscription_of("c1", 1, MQualityOfService::AtMostOnce));
    trie.add_subscription(filter("x"), subscription_of("c2", 2, MQualityOfService::AtLeastOnce));
    trie.add_subscription(filter("a/+"), subscription_of("c3", 3, MQualityOfService::AtMostOnce));
    trie.add_subscription(filter("a/b"), subscription_of("c4", 4, MQualityOfService::AtMostOnce));
    trie.add_subscription(filter("a/b"), subscription_of("c1", 5, MQualityOfService::ExactlyOnce));
    let expected = SubscriptionTopic {
        subscriptions: vec![],
        children: vec![
            (
                named("a"),
                SubscriptionTopic {
                    subscriptions: vec![],
                    children: vec![
                        (
                            named("b"),
                            SubscriptionTopic {
                                subscriptions: vec![
                                    subscription_of("c1", 5, MQualityOfService::ExactlyOnce),
                                    subscription_of("c4", 4, MQualityOfService::AtMostOnce),
                                ],
                                children: vec![],
                            },
                        ),
                        (
                            TopicFilter::SingleWildcard,
                            SubscriptionTopic {
                                subscriptions: vec![subscription_of("c3", 3, MQualityOfService::AtMostOnce)],
                                children: vec![],
                            },
                        ),
                    ],
                },
            ),
            (
                named("x"),
                SubscriptionTopic {
                    subscriptions: vec![subscription_of("c2", 2, MQualityOfService::AtLeastOnce)],
                    children: vec![],
                },
            ),
        ],
    };
    assert_eq!(trie, expected);
    let at_b = &trie.children[0].1.children[0].1.subscriptions;
    assert_eq!(at_b[0].client.client_sender, 5);
    assert_eq!(at_b[0].qos, MQualityOfService::ExactlyOnce);
    assert_eq!(at_b[1].client.client_sender, 4);

    // taking the first child of "a" away leaves the second in its place
    trie.remove_subscription(filter("a/b"), &ClientId::new("c1".to_string()));
    trie.remove_subscription(filter("a/b"), &ClientId::new("c4".to_string()));
    assert_eq!(trie.children.len(), 2);
    assert_eq!(trie.children[0].1.children.len(), 1);
    assert_eq!(trie.children[0].1.children[0].0, TopicFilter::SingleWildcard);
    // the node of "x" goes with its only subscriber
    trie.remove_subscription(filter("x"), &ClientId::new("c2".to_string()));
    assert_eq!(trie.children.len(), 1);
    assert_eq!(trie.children[0].0, named("a"));
}

#[test]
fn a_client_is_reached_once_for_each_matching_subscription() {
    let mut trie = SubscriptionTopic::new();
    let filter = |f: &str| TopicFilter::parse_from(f.to_string());
    trie.add_subscription(filter("a/+"), subscription_of("c1", 1, MQualityOfService::AtMostOnce));
    trie.add_subscription(filter("a/b"), subscription_of("c2", 2, MQualityOfService::AtMostOnce));
    trie.add_subscription(filter("a/#"), subscription_of("c1", 3, MQualityOfService::AtMostOnce));
    trie.add_subscription(filter("x"), subscription_of("c3", 4, MQualityOfService::AtMostOnce));
    trie.add_subscription(filter("a/b/c"), subscription_of("c2", 5, MQualityOfService::AtMostOnce));
    let mut reached: Vec<u64> = trie.route(&message("p", "a/b")).iter().map(|s| s.client.client_sender).collect();
    reached.sort();
    assert_eq!(reached, vec![1, 2, 3]);
    let mut reached: Vec<u64> = trie.route(&message("p", "a/b/c")).iter().map(|s| s.client.client_sender).collect();
    reached.sort();
    assert_eq!(reached, vec![3, 5]);
    assert!(trie.route(&message("p", "b")).is_empty());
    // one more subscription is reached once more, and only where it matches
    trie.add_subscription(filter("+/b"), subscription_of("c4", 6, MQualityOfService::AtMostOnce));
    let mut reached: Vec<u64> = trie.route(&message("p", "a/b")).iter().map(|s| s.client.client_sender).collect();
    reached.sort();
    assert_eq!(reached, vec![1, 2, 3, 6]);
    let mut reached: Vec<u64> = trie.route(&message("p", "a/b/c")).iter().map(|s| s.client.client_sender).collect();
    reached.sort();
    assert_eq!(reached, vec![3, 5]);
}
