use broker::client::cli::{parse_line, take_line, Command, Input};
use broker::client::datatypes::{Message, Topic};
use broker::client::history::{merge_histories, topic_by_name};
use broker::server::datatypes::Timestamp;

fn line(command: Command) -> Input {
    Input::Line(command)
}

#[test]
fn empty_input_is_the_end() {
    assert_eq!(parse_line(""), Input::Eof);
}

#[test]
fn white_space_is_a_blank_line() {
    assert_eq!(parse_line("\n"), Input::Blank);
    assert_eq!(parse_line("  \t \r\n"), Input::Blank);
}

#[test]
fn commands_are_told_by_their_first_word() {
    assert_eq!(parse_line("/q\n"), line(Command::Quit));
    assert_eq!(parse_line("  /stop now\n"), line(Command::Quit));
    assert_eq!(parse_line("/topic news\n"), line(Command::SwitchTopic(Some("news".to_string()))));
    assert_eq!(parse_line("/topic\n"), line(Command::SwitchTopic(None)));
    assert_eq!(parse_line("/topic a b\n"), line(Command::SwitchTopic(Some("a".to_string()))));
    assert_eq!(parse_line("/topic  b\n"), line(Command::SwitchTopic(Some("".to_string()))));
    assert_eq!(parse_line("/key k1\n"), line(Command::SetKey(Some("k1".to_string()))));
    assert_eq!(parse_line("/key\n"), line(Command::SetKey(None)));
    assert_eq!(parse_line("/retention 12.3\n"), line(Command::Retention(Some("12.3".to_string()))));
    assert_eq!(parse_line("/retention -\n"), line(Command::Retention(Some("-".to_string()))));
    assert_eq!(parse_line("/retention\n"), line(Command::Retention(None)));
}

#[test]
fn anything_else_is_a_message() {
    assert_eq!(parse_line(" hello world \n"), line(Command::Post("hello world".to_string())));
    assert_eq!(parse_line("/topics x\n"), line(Command::Post("/topics x".to_string())));
    assert_eq!(parse_line("/Q\n"), line(Command::Post("/Q".to_string())));
    assert_eq!(parse_line("q"), line(Command::Post("q".to_string())));
}

#[test]
fn lines_are_taken_from_the_buffer_one_by_one() {
    let mut buffer = "first\nsecond\nrest".to_string();
    assert_eq!(take_line(&mut buffer), Some("first\n".to_string()));
    assert_eq!(buffer, "second\nrest");
    assert_eq!(take_line(&mut buffer), Some("second\n".to_string()));
    assert_eq!(buffer, "rest");
    assert_eq!(take_line(&mut buffer), None);
    assert_eq!(buffer, "rest");
    let mut buffer = "\n".to_string();
    assert_eq!(take_line(&mut buffer), Some("\n".to_string()));
    assert_eq!(buffer, "");
    assert_eq!(take_line(&mut buffer), None);
}

fn message(text: &str, seconds: i64, nanos: u32) -> Message {
    Message {
        uuid: 0,
        topic_uuid: 0,
        author_name: String::new(),
        content: text.to_string(),
        timestamp: Timestamp { seconds, nanos },
        key: None,
    }
}

#[test]
fn histories_are_merged_in_time_order() {
    let merged = merge_histories(vec![
        vec![message("c", 3, 0), message("a", 1, 5)],
        vec![],
        vec![message("b", 1, 9), message("d", 3, 0), message("z", -4, 1)],
    ]);
    let texts: Vec<&str> = merged.iter().map(|m| m.content.as_str()).collect();
    assert_eq!(texts, vec!["z", "a", "b", "c", "d"]);
    assert!(merge_histories(Vec::new()).is_empty());
    assert_eq!(merged[0].clone().content, "z");
}

#[test]
fn topics_are_found_by_name() {
    let topic = |uuid: u128, name: &str| Topic {
        uuid,
        name: name.to_string(),
        creator: String::new(),
        timestamp: Timestamp { seconds: 0, nanos: 0 },
        retention: None,
    };
    let topics = vec![topic(1, "a"), topic(2, "b"), topic(3, "a")];
    assert_eq!(topic_by_name(&topics, &"a".to_string()), Some(0));
    assert_eq!(topic_by_name(&topics, &"b".to_string()), Some(1));
    assert_eq!(topic_by_name(&topics, &"c".to_string()), None);
}
