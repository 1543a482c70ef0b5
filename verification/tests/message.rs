use acpe::message::Message;

#[test]
fn it_should_add_items() {
    let mut message = Message::<String, _, _>::new();

    let update = (0, "This represents an entity.".to_string());
    let destroy = 1;

    message.update(update.clone());
    message.destroy(destroy);

    let updates: Vec<&(i32, String)> = message.update_items().collect();
    let destroys: Vec<&i32> = message.destroy_items().collect();

    assert_eq!(vec![&update], updates);
    assert_eq!(vec![&destroy], destroys);
}

#[test]
fn it_should_provide_draining_iterators() {
    let mut message = Message::<String, _, _>::new();

    let update = (0, "This represents an entity.".to_string());

    message.update(update.clone());

    let updates: Vec<(i32, String)> = message.drain_update_items().into_iter().collect();

    assert_eq!(vec![update], updates);

    let empty_updates: Vec<&(i32, String)> = message.update_items().collect();

    assert_eq!(empty_updates.len(), 0);
}

#[test]
fn draining_leaves_header_and_destroyed_ids() {
    let mut message = Message::<u64, i32, String>::new();
    message.header = 4;
    message.update((7, "seven".to_string()));
    message.update((8, "eight".to_string()));
    message.destroy(9);

    let drained = message.drain_update_items();

    assert_eq!(drained, vec![(7, "seven".to_string()), (8, "eight".to_string())]);
    assert_eq!(message.header, 4);
    assert_eq!(message.update.len(), 0);
    assert_eq!(message.destroy, vec![9]);
    assert_eq!(message.drain_update_items(), vec![]);
}

#[test]
fn message_with_text_round_trips() {
    let mut message = Message::<String, i32, String>::new();
    message.header = "head \"er\"".to_string();
    message.update((0, "This represents an entity.".to_string()));
    message.update((-3, "two\nlines".to_string()));
    message.destroy(1);

    let bytes = message.clone().encode();
    assert_eq!(
        String::from_utf8(bytes.clone()).unwrap(),
        "\"head \\\"er\\\"\"\nUPDATE 0 \"This represents an entity.\"\nUPDATE -3 \"two\\nlines\"\nDESTROY 1\n"
    );

    let back = Message::<String, i32, String>::decode(&bytes).unwrap();
    assert_eq!(back, message);
}
