use broker::concurrent_list::ConcurrentList;
use broker::server::datatypes::{Message, PeerAddress, Timestamp};
use broker::server::server::{Server, Snapshot};
use broker::server::services::message::{
    DeliveryAction, DeliveryEvent, DeliveryLoop, IteratorStopped, MessageError, MessageService,
    ReverseMessageIterator,
};
use broker::server::services::topic::{TopicError, TopicService};
use broker::server::services::AuthService;

fn peer(port: u16) -> PeerAddress {
    PeerAddress { host: 0x7f00_0001, port }
}

fn login(server: &mut Server, port: u16, name: &str) {
    AuthService::new(peer(port)).login(&mut server.logins, name.to_string());
}

fn create(server: &mut Server, port: u16, name: &str) -> u128 {
    TopicService::new(peer(port))
        .create_topic(&server.logins, &mut server.topics, name.to_string())
        .unwrap()
        .0
}

fn post(
    service: &mut MessageService,
    server: &mut Server,
    topic: u128,
    text: &str,
) -> Result<Message, MessageError> {
    service.post_message(&server.logins, &server.topics, &mut server.messages, topic, text, None)
}

fn contents(messages: &[Message]) -> Vec<String> {
    messages.iter().map(|m| m.content.clone()).collect()
}

fn read(service: &mut MessageService, server: &Server, topic: u128) -> Vec<String> {
    contents(
        &service
            .get_messages_sync(&server.logins, &server.topics, &server.messages, topic)
            .unwrap(),
    )
}

fn delivered(action: DeliveryAction) -> Option<String> {
    match action {
        DeliveryAction::Deliver(message) => Some(message.content),
        _ => None,
    }
}

#[test]
fn requests_without_login_are_refused() {
    let mut server = Server::new();
    let topics = TopicService::new(peer(1));
    assert_eq!(
        topics.create_topic(&server.logins, &mut server.topics, "t".to_string()).unwrap_err(),
        TopicError::NotAuthenticated
    );
    assert_eq!(
        topics.get_topic(&server.logins, &server.topics, 1).unwrap_err(),
        TopicError::NotAuthenticated
    );
    assert_eq!(
        topics.get_all_topics(&server.logins, &server.topics).unwrap_err(),
        TopicError::NotAuthenticated
    );
    assert_eq!(
        topics.update_topic(&server.logins, &mut server.topics, 1, "x", None).unwrap_err(),
        TopicError::NotAuthenticated
    );
    assert_eq!(
        topics.delete_topic(&server.logins, &mut server.topics, 1).unwrap_err(),
        TopicError::NotAuthenticated
    );
    let mut messages = MessageService::new(peer(1), &server.messages);
    assert_eq!(post(&mut messages, &mut server, 1, "hi").unwrap_err(), MessageError::NotAuthenticated);
    assert_eq!(
        messages
            .get_messages_sync(&server.logins, &server.topics, &server.messages, 1)
            .unwrap_err(),
        MessageError::NotAuthenticated
    );
    assert!(matches!(
        messages.subscribe(&server.logins, &server.topics, &server.messages, 1),
        Err(MessageError::NotAuthenticated)
    ));
    assert_eq!(messages.unsubscribe(&server.logins, 1), Err(MessageError::NotAuthenticated));
    assert_eq!(messages.delete_message(&server.logins, 1), Err(MessageError::NotAuthenticated));
}

#[test]
fn logout_ends_the_session() {
    let mut server = Server::new();
    login(&mut server, 1, "alice");
    create(&mut server, 1, "general");
    AuthService::new(peer(1)).logout(&mut server.logins);
    assert_eq!(
        TopicService::new(peer(1))
            .create_topic(&server.logins, &mut server.topics, "other".to_string())
            .unwrap_err(),
        TopicError::NotAuthenticated
    );
}

#[test]
fn empty_sanitized_content_is_invalid() {
    let mut server = Server::new();
    login(&mut server, 1, "alice");
    let general = create(&mut server, 1, "general");
    let mut service = MessageService::new(peer(1), &server.messages);
    assert_eq!(
        post(&mut service, &mut server, general, "   \t \n").unwrap_err(),
        MessageError::InvalidContent
    );
    assert_eq!(post(&mut service, &mut server, general, "\u{1}").unwrap_err(), MessageError::InvalidContent);
    assert!(read(&mut service, &server, general).is_empty());
    assert_eq!(server.messages.len(), 0);
}

#[test]
fn invalid_content_is_reported_before_a_missing_topic() {
    let mut server = Server::new();
    login(&mut server, 1, "alice");
    let mut service = MessageService::new(peer(1), &server.messages);
    assert_eq!(post(&mut service, &mut server, 42, " ").unwrap_err(), MessageError::InvalidContent);
    assert_eq!(post(&mut service, &mut server, 42, "x").unwrap_err(), MessageError::EntityDoesNotExist);
}

#[test]
fn create_post_read() {
    let mut server = Server::new();
    login(&mut server, 1, "alice");
    let news = create(&mut server, 1, "news");
    let mut service = MessageService::new(peer(1), &server.messages);
    let first = post(&mut service, &mut server, news, "Hello ").unwrap();
    let second = post(&mut service, &mut server, news, "\tworld\t").unwrap();
    assert_eq!(first.content, "Hello");
    assert_eq!(second.content, "world");
    assert_ne!(first.uuid, second.uuid);
    assert!(first.timestamp.nanos < 1_000_000_000);
    assert!(first.timestamp.seconds > 1_600_000_000);
    let found = service
        .get_messages_sync(&server.logins, &server.topics, &server.messages, news)
        .unwrap();
    assert_eq!(contents(&found), vec!["Hello", "world"]);
    assert!(found.iter().all(|m| m.author_name == "alice" && m.topic_uuid == news));
    assert_eq!(found[0].uuid, first.uuid);
    assert_eq!(found[0].timestamp, first.timestamp);
}

#[test]
fn post_with_given_identifier_and_time() {
    let mut server = Server::new();
    login(&mut server, 1, "alice");
    let news = create(&mut server, 1, "news");
    let mut service = MessageService::new(peer(1), &server.messages);
    let now = Timestamp { seconds: 1_700_000_000, nanos: 5 };
    let message = service
        .post_message_at(
            &server.logins,
            &server.topics,
            &mut server.messages,
            news,
            " hi\u{7} ",
            Some("k".to_string()),
            77,
            now,
        )
        .unwrap();
    assert_eq!(message.uuid, 77);
    assert_eq!(message.timestamp, now);
    assert_eq!(message.content, "hi");
    assert_eq!(message.key, Some("k".to_string()));
    assert_eq!(message.author_name, "alice");
    assert_eq!(server.messages.len(), 1);
}

#[test]
fn duplicate_topic_is_refused() {
    let mut server = Server::new();
    login(&mut server, 1, "alice");
    login(&mut server, 2, "bob");
    let first = TopicService::new(peer(1)).create_topic(
        &server.logins,
        &mut server.topics,
        "general".to_string(),
    );
    let (_, topic) = first.unwrap();
    assert_eq!(topic.name, "general");
    assert_eq!(topic.creator, "alice");
    assert_eq!(topic.retention, None);
    let second = TopicService::new(peer(2)).create_topic(
        &server.logins,
        &mut server.topics,
        "general".to_string(),
    );
    assert_eq!(second.unwrap_err(), TopicError::AlreadyExists);
    assert_eq!(server.topics.len(), 1);
}

#[test]
fn update_keeps_names_unique() {
    let mut server = Server::new();
    login(&mut server, 1, "alice");
    let a = create(&mut server, 1, "a");
    let b = create(&mut server, 1, "b");
    let service = TopicService::new(peer(1));
    assert_eq!(
        service.update_topic(&server.logins, &mut server.topics, a, "b", None).unwrap_err(),
        TopicError::AlreadyExists
    );
    let same = service.update_topic(&server.logins, &mut server.topics, a, " a ", Some(90)).unwrap();
    assert_eq!(same.name, "a");
    assert_eq!(same.retention, Some(90));
    let renamed = service.update_topic(&server.logins, &mut server.topics, b, "c", None).unwrap();
    assert_eq!(renamed.name, "c");
    assert_eq!(renamed.creator, "alice");
    assert_eq!(service.get_topic(&server.logins, &server.topics, b).unwrap().name, "c");
    assert_eq!(service.get_topic(&server.logins, &server.topics, a).unwrap().retention, Some(90));
    assert_eq!(
        service.update_topic(&server.logins, &mut server.topics, 12345, "z", None).unwrap_err(),
        TopicError::NotFound
    );
}

#[test]
fn topics_are_listed_and_deleted() {
    let mut server = Server::new();
    login(&mut server, 1, "alice");
    let a = create(&mut server, 1, "a");
    let b = create(&mut server, 1, "b");
    let service = TopicService::new(peer(1));
    let mut names: Vec<(u128, String)> = service
        .get_all_topics(&server.logins, &server.topics)
        .unwrap()
        .into_iter()
        .map(|(id, topic)| (id, topic.name))
        .collect();
    names.sort_by(|x, y| x.1.cmp(&y.1));
    assert_eq!(names, vec![(a, "a".to_string()), (b, "b".to_string())]);
    assert_eq!(service.delete_topic(&server.logins, &mut server.topics, a), Ok(()));
    assert_eq!(
        service.delete_topic(&server.logins, &mut server.topics, a),
        Err(TopicError::NotFound)
    );
    assert_eq!(
        service.get_topic(&server.logins, &server.topics, a).unwrap_err(),
        TopicError::NotFound
    );
    let mut messages = MessageService::new(peer(1), &server.messages);
    assert_eq!(
        post(&mut messages, &mut server, a, "late").unwrap_err(),
        MessageError::EntityDoesNotExist
    );
}

#[test]
fn create_topic_at_uses_what_it_is_given() {
    let mut server = Server::new();
    login(&mut server, 1, "alice");
    let now = Timestamp { seconds: 12, nanos: 34 };
    let (id, topic) = TopicService::new(peer(1))
        .create_topic_at(&server.logins, &mut server.topics, "t".to_string(), 99, now)
        .unwrap();
    assert_eq!(id, 99);
    assert_eq!(topic.timestamp, now);
    assert_eq!(server.topics.get(99).unwrap().name, "t");
}

#[test]
fn delete_message_is_not_implemented() {
    let mut server = Server::new();
    login(&mut server, 1, "alice");
    let mut service = MessageService::new(peer(1), &server.messages);
    assert_eq!(service.delete_message(&server.logins, 5), Err(MessageError::Unimplemented));
}

#[test]
fn live_subscribe_delivers_in_order() {
    let mut server = Server::new();
    login(&mut server, 1, "a");
    login(&mut server, 2, "b");
    let topic = create(&mut server, 1, "t");
    let mut subscriber = MessageService::new(peer(1), &server.messages);
    let mut poster = MessageService::new(peer(2), &server.messages);
    let subscription = subscriber
        .subscribe(&server.logins, &server.topics, &server.messages, topic)
        .ok()
        .unwrap();
    let mut delivery = subscription.delivery;
    let mut history = subscription.history;
    assert!(matches!(
        delivery.step(DeliveryEvent::Wakeup, &subscriber, &server.messages),
        DeliveryAction::Idle
    ));
    post(&mut poster, &mut server, topic, "m1").unwrap();
    post(&mut poster, &mut server, topic, "m2").unwrap();
    let first = delivery.step(DeliveryEvent::Wakeup, &subscriber, &server.messages);
    assert_eq!(delivered(first), Some("m1".to_string()));
    let second = delivery.step(DeliveryEvent::Delivered, &subscriber, &server.messages);
    assert_eq!(delivered(second), Some("m2".to_string()));
    assert!(matches!(
        delivery.step(DeliveryEvent::Delivered, &subscriber, &server.messages),
        DeliveryAction::Idle
    ));
    assert_eq!(history.next(&server.messages, 10).unwrap().len(), 0);
}

#[test]
fn subscribers_see_only_their_topic() {
    let mut server = Server::new();
    login(&mut server, 1, "a");
    login(&mut server, 2, "b");
    let t1 = create(&mut server, 1, "t1");
    let t2 = create(&mut server, 1, "t2");
    let mut subscriber = MessageService::new(peer(1), &server.messages);
    let mut poster = MessageService::new(peer(2), &server.messages);
    let mut delivery = subscriber
        .subscribe(&server.logins, &server.topics, &server.messages, t1)
        .ok()
        .unwrap()
        .delivery;
    post(&mut poster, &mut server, t2, "x").unwrap();
    assert!(matches!(
        delivery.step(DeliveryEvent::Wakeup, &subscriber, &server.messages),
        DeliveryAction::Idle
    ));
    post(&mut poster, &mut server, t2, "y").unwrap();
    post(&mut poster, &mut server, t1, "mine").unwrap();
    post(&mut poster, &mut server, t2, "z").unwrap();
    let action = delivery.step(DeliveryEvent::Wakeup, &subscriber, &server.messages);
    assert_eq!(delivered(action), Some("mine".to_string()));
    assert!(matches!(
        delivery.step(DeliveryEvent::Delivered, &subscriber, &server.messages),
        DeliveryAction::Idle
    ));
}

#[test]
fn subscribe_to_a_missing_topic_is_refused() {
    let mut server = Server::new();
    login(&mut server, 1, "a");
    let mut service = MessageService::new(peer(1), &server.messages);
    assert!(matches!(
        service.subscribe(&server.logins, &server.topics, &server.messages, 9),
        Err(MessageError::EntityDoesNotExist)
    ));
    assert_eq!(
        service
            .get_messages_sync(&server.logins, &server.topics, &server.messages, 9)
            .unwrap_err(),
        MessageError::EntityDoesNotExist
    );
}

#[test]
fn unsubscribe_ends_every_delivery_for_the_topic() {
    let mut server = Server::new();
    login(&mut server, 1, "a");
    let t1 = create(&mut server, 1, "t1");
    let t2 = create(&mut server, 1, "t2");
    let mut service = MessageService::new(peer(1), &server.messages);
    let mut one = service
        .subscribe(&server.logins, &server.topics, &server.messages, t1)
        .ok()
        .unwrap()
        .delivery;
    let mut two = service
        .subscribe(&server.logins, &server.topics, &server.messages, t1)
        .ok()
        .unwrap()
        .delivery;
    let mut other = service
        .subscribe(&server.logins, &server.topics, &server.messages, t2)
        .ok()
        .unwrap()
        .delivery;
    assert_eq!((one.subscription(), two.subscription(), other.subscription()), (0, 1, 2));
    let mut poster = MessageService::new(peer(1), &server.messages);
    post(&mut poster, &mut server, t1, "a").unwrap();
    post(&mut poster, &mut server, t2, "b").unwrap();
    assert_eq!(service.unsubscribe(&server.logins, t1), Ok(()));
    assert!(!service.is_subscribed(0));
    assert!(!service.is_subscribed(1));
    assert!(service.is_subscribed(2));
    assert!(matches!(
        one.step(DeliveryEvent::Wakeup, &service, &server.messages),
        DeliveryAction::Exit
    ));
    assert!(matches!(
        two.step(DeliveryEvent::Wakeup, &service, &server.messages),
        DeliveryAction::Exit
    ));
    let action = other.step(DeliveryEvent::Wakeup, &service, &server.messages);
    assert_eq!(delivered(action), Some("b".to_string()));
    // A loop that is over stays over.
    assert!(matches!(
        one.step(DeliveryEvent::Wakeup, &service, &server.messages),
        DeliveryAction::Exit
    ));
}

#[test]
fn failed_delivery_ends_the_loop() {
    let mut server = Server::new();
    login(&mut server, 1, "a");
    let topic = create(&mut server, 1, "t");
    let mut service = MessageService::new(peer(1), &server.messages);
    let mut delivery = service
        .subscribe(&server.logins, &server.topics, &server.messages, topic)
        .ok()
        .unwrap()
        .delivery;
    let mut poster = MessageService::new(peer(1), &server.messages);
    post(&mut poster, &mut server, topic, "a").unwrap();
    post(&mut poster, &mut server, topic, "b").unwrap();
    assert!(delivered(delivery.step(DeliveryEvent::Wakeup, &service, &server.messages)).is_some());
    assert!(matches!(
        delivery.step(DeliveryEvent::DeliveryFailed, &service, &server.messages),
        DeliveryAction::Exit
    ));
    assert!(matches!(
        delivery.step(DeliveryEvent::Wakeup, &service, &server.messages),
        DeliveryAction::Exit
    ));
}

#[test]
fn delivery_idles_at_a_tombstone_and_goes_on() {
    let mut server = Server::new();
    login(&mut server, 1, "a");
    let topic = create(&mut server, 1, "t");
    let mut service = MessageService::new(peer(1), &server.messages);
    let mut delivery = service
        .subscribe(&server.logins, &server.topics, &server.messages, topic)
        .ok()
        .unwrap()
        .delivery;
    let mut poster = MessageService::new(peer(1), &server.messages);
    post(&mut poster, &mut server, topic, "gone").unwrap();
    post(&mut poster, &mut server, topic, "kept").unwrap();
    let mut cursor = server.messages.reference();
    cursor.remove_at(&mut server.messages, 0);
    assert!(matches!(
        delivery.step(DeliveryEvent::Wakeup, &service, &server.messages),
        DeliveryAction::Idle
    ));
    let action = delivery.step(DeliveryEvent::Wakeup, &service, &server.messages);
    assert_eq!(delivered(action), Some("kept".to_string()));
}

#[test]
fn history_walks_back_in_batches() {
    let mut server = Server::new();
    login(&mut server, 1, "a");
    let t1 = create(&mut server, 1, "t1");
    let t2 = create(&mut server, 1, "t2");
    let mut poster = MessageService::new(peer(1), &server.messages);
    for (topic, text) in [(t1, "1"), (t2, "x"), (t1, "2"), (t1, "3"), (t2, "y"), (t1, "4")] {
        post(&mut poster, &mut server, topic, text).unwrap();
    }
    let mut service = MessageService::new(peer(1), &server.messages);
    let mut history = service
        .subscribe(&server.logins, &server.topics, &server.messages, t1)
        .ok()
        .unwrap()
        .history;
    post(&mut poster, &mut server, t1, "later").unwrap();
    assert_eq!(contents(&history.next(&server.messages, 0).unwrap()), Vec::<String>::new());
    assert_eq!(contents(&history.next(&server.messages, 2).unwrap()), vec!["4", "3"]);
    assert_eq!(contents(&history.next(&server.messages, 10).unwrap()), vec!["2", "1"]);
    assert_eq!(contents(&history.next(&server.messages, 10).unwrap()), Vec::<String>::new());
    history.stop();
    assert_eq!(history.next(&server.messages, 1).unwrap_err(), IteratorStopped);
}

#[test]
fn history_iterator_from_a_cursor() {
    let list = ConcurrentList::from_vec(vec![
        Message { topic_uuid: 1, content: "a".to_string(), ..Message::default() },
        Message { topic_uuid: 2, content: "b".to_string(), ..Message::default() },
        Message { topic_uuid: 1, content: "c".to_string(), ..Message::default() },
    ]);
    let mut cursor = list.reference();
    cursor.drain_forward(&list);
    let mut history = ReverseMessageIterator::new(cursor, 1);
    assert_eq!(contents(&history.next(&list, 1).unwrap()), vec!["c"]);
    assert_eq!(contents(&history.next(&list, 1).unwrap()), vec!["a"]);
    let mut delivery = DeliveryLoop::new(list.reference(), 0, 2);
    assert_eq!(delivery.subscription(), 0);
    let mut service = MessageService::new(peer(1), &list);
    assert!(matches!(
        delivery.step(DeliveryEvent::Wakeup, &service, &list),
        DeliveryAction::Exit
    ));
    let _ = &mut service;
}

#[test]
fn snapshot_restore() {
    let mut server = Server::new();
    login(&mut server, 1, "alice");
    let a = create(&mut server, 1, "a");
    let b = create(&mut server, 1, "b");
    let mut service = MessageService::new(peer(1), &server.messages);
    post(&mut service, &mut server, a, "1").unwrap();
    post(&mut service, &mut server, b, "2").unwrap();
    post(&mut service, &mut server, a, "3").unwrap();
    let snapshot = server.serialize();
    assert_eq!(snapshot.topics.len(), 2);
    assert_eq!(contents(&snapshot.messages), vec!["1", "2", "3"]);

    let mut restored = Server::deserialize(snapshot);
    // Logins are not kept.
    assert_eq!(
        TopicService::new(peer(1)).get_all_topics(&restored.logins, &restored.topics).unwrap_err(),
        TopicError::NotAuthenticated
    );
    login(&mut restored, 1, "alice");
    let mut topics = TopicService::new(peer(1))
        .get_all_topics(&restored.logins, &restored.topics)
        .unwrap();
    topics.sort_by(|x, y| x.1.name.cmp(&y.1.name));
    assert_eq!(topics.len(), 2);
    assert_eq!((topics[0].0, topics[0].1.name.as_str()), (a, "a"));
    assert_eq!((topics[1].0, topics[1].1.name.as_str()), (b, "b"));
    let mut reader = MessageService::new(peer(1), &restored.messages);
    assert_eq!(read(&mut reader, &restored, a), vec!["1", "3"]);
    assert_eq!(read(&mut reader, &restored, b), vec!["2"]);
}

#[test]
fn snapshot_leaves_tombstones_out() {
    let mut server = Server::new();
    login(&mut server, 1, "alice");
    let a = create(&mut server, 1, "a");
    let mut service = MessageService::new(peer(1), &server.messages);
    for text in ["1", "2", "3"] {
        post(&mut service, &mut server, a, text).unwrap();
    }
    let mut cursor = server.messages.reference();
    cursor.remove_at(&mut server.messages, 1);
    assert_eq!(read(&mut service, &server, a), vec!["1", "3"]);
    let snapshot = server.serialize();
    assert_eq!(contents(&snapshot.messages), vec!["1", "3"]);
    let restored = Server::deserialize(Snapshot { topics: snapshot.topics, messages: snapshot.messages });
    assert_eq!(restored.messages.len(), 2);
}

#[test]
fn default_server_is_empty() {
    let server = Server::default();
    assert_eq!(server.topics.len(), 0);
    assert_eq!(server.messages.len(), 0);
    assert_eq!(server.messages.nodes_count(), 1);
}
