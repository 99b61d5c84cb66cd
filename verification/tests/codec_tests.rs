use todolists::codec::{decode, encode};
use todolists::task::Task;

fn task(name: &str, done: bool) -> Task {
    Task { name: name.to_string(), done }
}

#[test]
fn encode_writes_compact_json() {
    let tasks = vec![task("milk", false), task("eggs", true)];
    assert_eq!(
        encode(&tasks),
        "[{\"name\":\"milk\",\"done\":false},{\"name\":\"eggs\",\"done\":true}]"
    );
}

#[test]
fn encode_of_no_tasks_is_empty_array() {
    assert_eq!(encode(&Vec::new()), "[]");
}

#[test]
fn encode_of_one_task_has_no_comma() {
    assert_eq!(encode(&vec![task("a", true)]), "[{\"name\":\"a\",\"done\":true}]");
}

#[test]
fn encode_escapes_quote_and_backslash() {
    assert_eq!(
        encode(&vec![task("say \"hi\" \\ bye", false)]),
        "[{\"name\":\"say \\\"hi\\\" \\\\ bye\",\"done\":false}]"
    );
}

#[test]
fn encode_escapes_control_characters() {
    assert_eq!(
        encode(&vec![task("\u{8}\t\n\u{c}\r\u{0}\u{1f}\u{7f}", false)]),
        "[{\"name\":\"\\b\\t\\n\\f\\r\\u0000\\u001f\u{7f}\",\"done\":false}]"
    );
}

#[test]
fn encode_keeps_other_characters() {
    assert_eq!(
        encode(&vec![task("caf\u{e9} \u{1f600} /", true)]),
        "[{\"name\":\"caf\u{e9} \u{1f600} /\",\"done\":true}]"
    );
}

#[test]
fn decode_reads_back_what_encode_wrote() {
    let tasks = vec![
        task("milk", false),
        task("a \"quoted\" \\ name\n\ttab", true),
        task("", false),
        task("\u{0}\u{1}\u{b}\u{e}\u{1f} caf\u{e9} \u{1f600}", true),
        task("{\"name\":\"x\",\"done\":true}", false),
    ];
    assert_eq!(decode(&encode(&tasks)), tasks);
}

#[test]
fn decode_reads_back_every_control_character() {
    let mut tasks = Vec::new();
    for code in 0u32..0x30 {
        let c = char::from_u32(code).unwrap();
        tasks.push(task(&format!("a{}b", c), code % 2 == 0));
    }
    assert_eq!(decode(&encode(&tasks)), tasks);
}

#[test]
fn decode_reads_the_empty_array() {
    assert_eq!(decode("[]"), Vec::new());
}

#[test]
fn decode_reads_given_text() {
    assert_eq!(
        decode("[{\"name\":\"milk\",\"done\":false},{\"name\":\"b\\\\c\\u0001\",\"done\":true}]"),
        vec![task("milk", false), task("b\\c\u{1}", true)]
    );
}

#[test]
fn decode_of_garbage_is_empty() {
    assert_eq!(decode("garbage"), Vec::new());
    assert_eq!(decode(""), Vec::new());
    assert_eq!(decode("["), Vec::new());
    assert_eq!(decode("]"), Vec::new());
    assert_eq!(decode("[{\"name\":\"milk\",\"done\":false}"), Vec::new());
    assert_eq!(decode("[{\"name\":\"milk\",\"done\":false},]"), Vec::new());
    assert_eq!(decode("[{\"name\":\"milk\",\"done\":false}]x"), Vec::new());
    assert_eq!(decode("[{\"name\":\"milk\",\"done\":maybe}]"), Vec::new());
    assert_eq!(decode("[{\"name\":\"mi\"lk\",\"done\":true}]"), Vec::new());
    assert_eq!(decode("[{\"name\":\"milk\\\",\"done\":true}]"), Vec::new());
    assert_eq!(decode("{\"name\":\"milk\",\"done\":false}"), Vec::new());
}

#[test]
fn decode_refuses_escapes_that_encode_does_not_write() {
    assert_eq!(decode("[{\"name\":\"\\u0041\",\"done\":true}]"), Vec::new());
    assert_eq!(decode("[{\"name\":\"\\u000a\",\"done\":true}]"), Vec::new());
    assert_eq!(decode("[{\"name\":\"\\u001F\",\"done\":true}]"), Vec::new());
    assert_eq!(decode("[{\"name\":\"\\/\",\"done\":true}]"), Vec::new());
    assert_eq!(decode("[{\"name\":\"a\nb\",\"done\":true}]"), Vec::new());
    assert_eq!(decode("[ {\"name\":\"a\",\"done\":true}]"), Vec::new());
    assert_eq!(decode("[{\"done\":true,\"name\":\"a\"}]"), Vec::new());
}

#[test]
fn encoded_text_is_json_with_the_same_values() {
    let tasks = vec![
        task("milk", false),
        task("a \"quoted\" \\ name\n\ttab \u{1} caf\u{e9}", true),
    ];
    let parsed: serde_json::Value = serde_json::from_str(&encode(&tasks)).unwrap();
    let items = parsed.as_array().unwrap();
    assert_eq!(items.len(), 2);
    for (item, task) in items.iter().zip(tasks.iter()) {
        let members = item.as_object().unwrap();
        assert_eq!(members.len(), 2);
        assert_eq!(members.get("name").unwrap().as_str().unwrap(), task.name);
        assert_eq!(members.get("done").unwrap().as_bool().unwrap(), task.done);
    }
}

#[test]
fn names_are_escaped_as_json_strings_are() {
    for code in 0u32..0x100 {
        let name = format!("x{}y", char::from_u32(code).unwrap());
        let text = encode(&vec![task(&name, false)]);
        let quoted = serde_json::to_string(&serde_json::Value::String(name)).unwrap();
        assert_eq!(text, format!("[{{\"name\":{},\"done\":false}}]", quoted));
    }
}
