use chat_server::db::messages::{
    latest_message_id, list_message, list_message_after, list_message_before, new_message_record,
};
use chat_server::entity::message::Model;
use chat_server::entity::RoomId;

const ROOM: u32 = 1;

fn msg(id: u32, room: u32) -> Model {
    Model {
        id,
        user_name: format!("user{}", id),
        content: format!("msg{}", id),
        timestamp: 1_686_566_400_000_000_000 + i128::from(id),
        room_id: Some(room),
        user_id: None,
    }
}

/// `n` messages of room 1 with ids 1..=n, as the store assigns them.
fn stored(n: u32) -> Vec<Model> {
    (1..=n).map(|id| msg(id, ROOM)).collect()
}

fn ids(page: &[Model]) -> Vec<u32> {
    page.iter().map(|m| m.id).collect()
}

#[test]
fn test_new_message_record_stamps_and_keeps_fields() {
    let form = Model {
        id: 77,
        user_name: "test_user".to_string(),
        content: "test content".to_string(),
        timestamp: 0,
        room_id: Some(4),
        user_id: Some(9),
    };
    let record = new_message_record(form, 1_700_000_000_123_456_789);
    assert_eq!(record.id, 0);
    assert_eq!(record.user_name, "test_user");
    assert_eq!(record.content, "test content");
    assert_eq!(record.timestamp, 1_700_000_000_123_456_789);
    assert_eq!(record.room_id, Some(4));
    assert_eq!(record.user_id, Some(9));
}

#[test]
fn test_latest_message_id_empty() {
    assert_eq!(latest_message_id(&Vec::new(), RoomId(ROOM)), None);
}

#[test]
fn test_latest_message_id_single_message() {
    assert_eq!(latest_message_id(&stored(1), RoomId(ROOM)), Some(1));
}

#[test]
fn test_latest_message_id_multiple_messages() {
    assert_eq!(latest_message_id(&stored(5), RoomId(ROOM)), Some(5));
}

#[test]
fn test_latest_message_id_ignores_other_rooms() {
    let mut rows = stored(3);
    rows.push(msg(10, 2));
    assert_eq!(latest_message_id(&rows, RoomId(ROOM)), Some(3));
    assert_eq!(latest_message_id(&rows, RoomId(2)), Some(10));
    assert_eq!(latest_message_id(&rows, RoomId(3)), None);
}

#[test]
fn test_list_message_before_empty_result() {
    let page = list_message_before(&stored(5), RoomId(ROOM), 0, 10);
    assert_eq!(page.len(), 0);
}

#[test]
fn test_list_message_before_full_range() {
    let page = list_message_before(&stored(3), RoomId(ROOM), 10, 10);
    assert_eq!(ids(&page), vec![3, 2, 1]);
}

#[test]
fn test_list_message_before_partial_range() {
    let page = list_message_before(&stored(5), RoomId(ROOM), 3, 10);
    assert_eq!(page.len(), 3);
    assert!(page.iter().all(|m| m.id <= 3));
}

#[test]
fn test_list_message_before_respects_limit() {
    let page = list_message_before(&stored(10), RoomId(ROOM), 100, 3);
    assert_eq!(ids(&page), vec![10, 9, 8]);
}

#[test]
fn test_list_message_before_with_limit() {
    let page = list_message_before(&stored(10), RoomId(ROOM), 7, 3);
    assert_eq!(ids(&page), vec![7, 6, 5]);
}

#[test]
fn test_list_message_before_id_at_boundary() {
    let page = list_message_before(&stored(5), RoomId(ROOM), 1, 10);
    assert_eq!(ids(&page), vec![1]);
}

#[test]
fn test_list_message_after_empty_result() {
    let page = list_message_after(&stored(5), RoomId(ROOM), 100, 10);
    assert_eq!(page.len(), 0);
}

#[test]
fn test_list_message_after_full_range() {
    let page = list_message_after(&stored(3), RoomId(ROOM), 1, 10);
    assert_eq!(ids(&page), vec![1, 2, 3]);
}

#[test]
fn test_list_message_after_partial_range() {
    let page = list_message_after(&stored(5), RoomId(ROOM), 3, 10);
    assert_eq!(ids(&page), vec![3, 4, 5]);
}

#[test]
fn test_list_message_after_respects_limit() {
    let page = list_message_after(&stored(10), RoomId(ROOM), 1, 3);
    assert_eq!(ids(&page), vec![1, 2, 3]);
}

#[test]
fn test_list_message_after_with_limit() {
    let page = list_message_after(&stored(10), RoomId(ROOM), 3, 4);
    assert_eq!(ids(&page), vec![3, 4, 5, 6]);
}

#[test]
fn test_list_message_after_id_at_boundary() {
    let page = list_message_after(&stored(5), RoomId(ROOM), 5, 10);
    assert_eq!(ids(&page), vec![5]);
}

#[test]
fn test_list_message_after_db_max_id() {
    let page = list_message_after(&stored(3), RoomId(ROOM), 3, 5);
    assert_eq!(ids(&page), vec![3]);
}

#[test]
fn test_list_message_after_at_largest_id() {
    let mut rows = stored(2);
    rows.push(msg(u32::MAX, ROOM));
    let page = list_message_after(&rows, RoomId(ROOM), u32::MAX, 5);
    assert_eq!(ids(&page), vec![u32::MAX]);
    let page = list_message_after(&rows, RoomId(ROOM), 0, 5);
    assert_eq!(ids(&page), vec![1, 2, u32::MAX]);
}

#[test]
fn test_list_message_before_at_id_zero() {
    let mut rows = vec![msg(0, ROOM)];
    rows.extend(stored(2));
    let page = list_message_before(&rows, RoomId(ROOM), 1, 5);
    assert_eq!(ids(&page), vec![1, 0]);
}

#[test]
fn test_message_content_preserved_exactly() {
    let original_content = "Line 1\nLine 2\tTabbed\r\nSpecial: !@#$%^&*()";
    let mut rows = stored(2);
    let mut m = msg(3, ROOM);
    m.content = original_content.to_string();
    rows.push(m);
    let retrieved = list_message_after(&rows, RoomId(ROOM), 3, 1);
    assert_eq!(retrieved[0].content, original_content);
}

#[test]
fn test_list_message_before_and_after_consistency() {
    let rows = stored(5);
    let before_messages = list_message_before(&rows, RoomId(ROOM), 3, 10);
    let after_messages = list_message_after(&rows, RoomId(ROOM), 3, 10);

    assert!(before_messages.iter().any(|m| m.id == 3));
    assert!(after_messages.iter().any(|m| m.id == 3));

    let total_unique = before_messages.len() + after_messages.len() - 1;
    assert_eq!(total_unique, 5);
}

#[test]
fn test_list_message_empty_table() {
    let page = list_message(&Vec::new(), RoomId(ROOM), 10);
    assert_eq!(page.len(), 0);
}

#[test]
fn test_list_message_basic() {
    let page = list_message(&stored(5), RoomId(ROOM), 10);
    assert_eq!(ids(&page), vec![5, 4, 3, 2, 1]);
}

#[test]
fn test_list_message_respects_limit() {
    let page = list_message(&stored(10), RoomId(ROOM), 3);
    assert_eq!(ids(&page), vec![10, 9, 8]);
}

#[test]
fn test_list_message_ordering_descending() {
    let page = list_message(&stored(7), RoomId(ROOM), 100);
    for i in 0..page.len() - 1 {
        assert!(page[i].id > page[i + 1].id);
    }
}

#[test]
fn test_list_message_limit_one() {
    let page = list_message(&stored(5), RoomId(ROOM), 1);
    assert_eq!(ids(&page), vec![5]);
}

#[test]
fn test_list_message_limit_larger_than_data() {
    let page = list_message(&stored(3), RoomId(ROOM), 100);
    assert_eq!(page.len(), 3);
}

#[test]
fn test_list_message_db() {
    let page = list_message(&stored(5), RoomId(ROOM), 3);
    assert_eq!(ids(&page), vec![5, 4, 3]);
}

#[test]
fn test_list_message_db_limit_exceeds_count() {
    let page = list_message(&stored(2), RoomId(ROOM), 10);
    assert_eq!(page.len(), 2);
}

#[test]
fn test_list_message_limit_zero() {
    assert_eq!(list_message(&stored(4), RoomId(ROOM), 0).len(), 0);
    assert_eq!(list_message_before(&stored(4), RoomId(ROOM), 4, 0).len(), 0);
    assert_eq!(list_message_after(&stored(4), RoomId(ROOM), 1, 0).len(), 0);
}

#[test]
fn test_list_message_consistency_with_latest_id() {
    let rows = stored(5);
    let latest_id = latest_message_id(&rows, RoomId(ROOM)).unwrap();
    let list_result = list_message(&rows, RoomId(ROOM), 1);
    assert_eq!(latest_id, list_result[0].id);
}

#[test]
fn test_list_message_multiple_calls_consistency() {
    let rows = stored(10);
    let result1 = list_message(&rows, RoomId(ROOM), 5);
    let result2 = list_message(&rows, RoomId(ROOM), 5);
    assert_eq!(result1, result2);
}

#[test]
fn test_list_message_with_identical_timestamps() {
    let rows: Vec<Model> = (1..=5)
        .map(|id| Model { timestamp: 42, ..msg(id, ROOM) })
        .collect();
    let page = list_message(&rows, RoomId(ROOM), 10);
    for i in 0..page.len() - 1 {
        assert!(page[i].id > page[i + 1].id);
    }
}

#[test]
fn test_list_message_returns_correct_fields() {
    let rows = vec![Model {
        id: 1,
        user_name: "alice".to_string(),
        content: "Test message with特殊字符 and emoji 😊".to_string(),
        timestamp: 5,
        room_id: Some(ROOM),
        user_id: None,
    }];
    let page = list_message(&rows, RoomId(ROOM), 10);
    assert_eq!(page.len(), 1);
    assert_eq!(page[0], rows[0]);
}

#[test]
fn test_list_message_unordered_rows_and_other_rooms() {
    let rows = vec![
        msg(4, ROOM),
        msg(9, 2),
        msg(1, ROOM),
        msg(7, ROOM),
        msg(2, 2),
        Model { room_id: None, ..msg(8, ROOM) },
        msg(3, ROOM),
    ];
    assert_eq!(ids(&list_message(&rows, RoomId(ROOM), 10)), vec![7, 4, 3, 1]);
    assert_eq!(ids(&list_message_before(&rows, RoomId(ROOM), 5, 2)), vec![4, 3]);
    assert_eq!(ids(&list_message_after(&rows, RoomId(ROOM), 2, 2)), vec![3, 4]);
    assert_eq!(ids(&list_message(&rows, RoomId(2), 10)), vec![9, 2]);
    assert_eq!(latest_message_id(&rows, RoomId(ROOM)), Some(7));
}

#[test]
fn test_pages_from_a_cursor_cover_the_room_once_each() {
    // ids 2, 4, 6, 8 in the room, one message of another room between them
    let rows = vec![msg(2, ROOM), msg(4, ROOM), msg(5, 9), msg(6, ROOM), msg(8, ROOM)];
    // the cursor is no message's id: the pages split the room's messages
    let before = list_message_before(&rows, RoomId(ROOM), 5, 10);
    let after = list_message_after(&rows, RoomId(ROOM), 5, 10);
    assert_eq!(ids(&before), vec![4, 2]);
    assert_eq!(ids(&after), vec![6, 8]);
    assert_eq!(before.len() + after.len(), 4);
    // the cursor is a message's id: that message is on both pages
    let before = list_message_before(&rows, RoomId(ROOM), 6, 10);
    let after = list_message_after(&rows, RoomId(ROOM), 6, 10);
    assert_eq!(ids(&before), vec![6, 4, 2]);
    assert_eq!(ids(&after), vec![6, 8]);
    assert_eq!(before.len() + after.len(), 4 + 1);
}
