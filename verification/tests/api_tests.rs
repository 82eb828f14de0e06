use chat_server::api::login::{check_credentials, login_reply, LoginReply};
use chat_server::api::me::me_reply;
use chat_server::api::messages::{
    history_page, latest_reply, meta_id, plan_message_query, run_message_query, MessageQuery, PAGE_LIMIT,
};
use chat_server::db::messages::has_distinct_ids;
use chat_server::api::notice::Notice;
use chat_server::api::register::{check_name_free, register_reply};
use chat_server::api::rooms::{check_room_name, create_room_error_notice, create_room_reply};
use chat_server::api::ws::{
    inbound_frame, session_step, socket_channel, FrameAction, InboundFrame, SessionAction, SessionEvent,
    SessionPhase,
};
use chat_server::db::users::CreateUserError;
use chat_server::db::rooms::new_room_record;
use chat_server::db::users::new_user_record;
use chat_server::db::room_users::membership_record;
use chat_server::db::DbError;
use chat_server::entity::message::Model;
use chat_server::entity::{room, room_user, user, RoomId};
use chat_server::middleware::auth::{auth_on_cookie, auth_verdict, AuthStep};
use chat_server::middleware::room_auth::{room_access, room_from_path};
use chat_server::ws::hub::CreateRoomError;
use chat_server::ws::protocol::RoomCommand;

fn db_err() -> DbError {
    DbError { reason: "connection refused".to_string() }
}

fn bob() -> user::Model {
    user::Model {
        id: 1,
        user_name: "bob".to_string(),
        password: "secret123".to_string(),
        token: "TOKENbob".to_string(),
    }
}

fn refused(r: LoginReply) -> Option<Notice> {
    match r {
        LoginReply::Refused(n) => Some(n),
        LoginReply::Accepted { .. } => None,
    }
}

#[test]
fn test_notice_status_and_text() {
    assert_eq!(Notice::EmptyCredentials.status(), 400);
    assert_eq!(Notice::EmptyCredentials.text(), "用户名或密码不能为空");
    assert_eq!(Notice::BadCredentials.status(), 401);
    assert_eq!(Notice::BadCredentials.text(), "用户不存在或密码错误");
    assert_eq!(Notice::RemoteError.status(), 503);
    assert_eq!(Notice::RemoteError.text(), "远程连接错误");
    assert_eq!(Notice::LoggedIn.status(), 200);
    assert_eq!(Notice::LoggedIn.text(), "登录成功");
    assert_eq!(Notice::Registered.status(), 201);
    assert_eq!(Notice::Registered.text(), "注册成功");
    assert_eq!(Notice::UserNameTaken.status(), 409);
    assert_eq!(Notice::UserNameTaken.text(), "该用户名已被使用");
    assert_eq!(Notice::LoginRequired.status(), 400);
    assert_eq!(Notice::LoginRequired.text(), "请登录");
    assert_eq!(Notice::NotRoomMember.status(), 400);
    assert_eq!(Notice::NotRoomMember.text(), "不正确的房间");
    assert_eq!(Notice::EmptyRoomName.status(), 400);
    assert_eq!(Notice::EmptyRoomName.text(), "房间名不能为空");
    assert_eq!(Notice::DuplicateRoomName.status(), 409);
    assert_eq!(Notice::DuplicateRoomName.text(), "房间名重复");
    assert_eq!(Notice::RoomCreated.status(), 200);
    assert_eq!(Notice::RoomCreated.text(), "创建房间成功");
    assert_eq!(Notice::Verified.status(), 200);
    assert_eq!(Notice::Verified.text(), "验证成功");
    assert_eq!(Notice::ConflictingCursors.status(), 400);
    assert_eq!(Notice::ConflictingCursors.text(), "before_id 和 after_id 不能同时存在");
    assert_eq!(Notice::NotImplemented.status(), 418);
    assert_eq!(Notice::NotImplemented.text(), "还没实现呢");
}

#[test]
fn test_login_empty_username() {
    assert_eq!(check_credentials(&String::new(), &"password".to_string()), Some(Notice::EmptyCredentials));
}

#[test]
fn test_login_empty_password() {
    assert_eq!(check_credentials(&"bob".to_string(), &String::new()), Some(Notice::EmptyCredentials));
}

#[test]
fn test_register_empty_both_fields() {
    assert_eq!(check_credentials(&String::new(), &String::new()), Some(Notice::EmptyCredentials));
}

#[test]
fn test_whitespace_in_credentials() {
    assert_eq!(check_credentials(&"   ".to_string(), &"pass with spaces".to_string()), None);
}

#[test]
fn test_login_success() {
    match login_reply(Ok(Some(bob())), &"secret123".to_string()) {
        LoginReply::Accepted { token } => assert_eq!(token, "TOKENbob"),
        LoginReply::Refused(n) => panic!("refused with {:?}", n),
    }
}

#[test]
fn test_login_wrong_password() {
    assert_eq!(refused(login_reply(Ok(Some(bob())), &"wrong_password".to_string())), Some(Notice::BadCredentials));
}

#[test]
fn test_login_nonexistent_user() {
    assert_eq!(refused(login_reply(Ok(None), &"password".to_string())), Some(Notice::BadCredentials));
}

#[test]
fn test_login_store_failure() {
    assert_eq!(refused(login_reply(Err(db_err()), &"secret123".to_string())), Some(Notice::RemoteError));
}

#[test]
fn test_register_duplicate_user() {
    assert_eq!(check_name_free(Ok(Some(bob()))), Err(Notice::UserNameTaken));
    assert_eq!(check_name_free(Ok(None)), Ok(()));
    assert_eq!(check_name_free(Err(db_err())), Err(Notice::RemoteError));
}

#[test]
fn test_register_success() {
    assert_eq!(register_reply(Ok(bob())), Notice::Registered);
    assert_eq!(register_reply(Err(CreateUserError::Store(db_err()))), Notice::RemoteError);
}

#[test]
fn test_register_reply_on_each_failure() {
    assert_eq!(register_reply(Err(CreateUserError::NameTaken)), Notice::UserNameTaken);
    assert_eq!(register_reply(Err(CreateUserError::NoRandomSource)), Notice::RemoteError);
}

#[test]
fn test_me_with_valid_token() {
    let (notice, name) = me_reply(&bob());
    assert_eq!(notice, Notice::Verified);
    assert_eq!(name, "bob");
}

#[test]
fn test_me_without_token() {
    assert!(matches!(auth_on_cookie(None), AuthStep::Refuse(Notice::LoginRequired)));
    match auth_on_cookie(Some("abc".to_string())) {
        AuthStep::Lookup(t) => assert_eq!(t, "abc"),
        AuthStep::Refuse(_) => panic!("a cookie is looked up"),
    }
}

#[test]
fn test_me_with_invalid_token() {
    assert_eq!(auth_verdict(Ok(None)), Err(Notice::LoginRequired));
    assert_eq!(auth_verdict(Ok(Some(bob()))), Ok(bob()));
    assert_eq!(auth_verdict(Err(db_err())), Err(Notice::RemoteError));
}

#[test]
fn test_room_messages_not_member() {
    assert_eq!(room_access(RoomId(1), Ok(false)), Err(Notice::NotRoomMember));
    assert_eq!(room_access(RoomId(1), Ok(true)), Ok(RoomId(1)));
    assert_eq!(room_access(RoomId(1), Err(db_err())), Err(Notice::RemoteError));
}

#[test]
fn test_room_from_path_defaults_to_zero() {
    assert_eq!(room_from_path(Some(12)), RoomId(12));
    assert_eq!(room_from_path(None), RoomId(0));
}

#[test]
fn test_create_room_empty_name() {
    assert_eq!(check_room_name(&String::new()), Some(Notice::EmptyRoomName));
    assert_eq!(check_room_name(&"聊天室".to_string()), None);
}

#[test]
fn test_create_room_replies() {
    assert_eq!(create_room_error_notice(&CreateRoomError::DuplicateRoomName), Notice::DuplicateRoomName);
    assert_eq!(create_room_error_notice(&CreateRoomError::Db(db_err())), Notice::RemoteError);
    assert_eq!(create_room_reply(Ok(room_user::Model { room_id: 1, user_id: 2 })), Notice::RoomCreated);
    assert_eq!(create_room_reply(Err(db_err())), Notice::RemoteError);
}

#[test]
fn test_room_and_membership_records() {
    let form = room::Model { id: 9, room_name: "general".to_string(), password: "room_pass".to_string() };
    assert_eq!(
        new_room_record(form),
        room::Model { id: 0, room_name: "general".to_string(), password: "room_pass".to_string() }
    );
    assert_eq!(membership_record(RoomId(3), 7), room_user::Model { room_id: 3, user_id: 7 });
}

#[test]
fn test_room_messages_before_and_after_mutually_exclusive() {
    assert_eq!(plan_message_query(Some(3), Some(2), None), Err(Notice::ConflictingCursors));
}

#[test]
fn test_room_messages_default_limit() {
    assert_eq!(plan_message_query(None, None, None), Ok(MessageQuery::Latest { limit: PAGE_LIMIT }));
    assert_eq!(PAGE_LIMIT, 50);
}

#[test]
fn test_message_query_limit_is_capped() {
    assert_eq!(plan_message_query(Some(9), None, Some(10)), Ok(MessageQuery::Before { before_id: 9, limit: 10 }));
    assert_eq!(plan_message_query(None, Some(4), Some(500)), Ok(MessageQuery::After { after_id: 4, limit: 50 }));
    assert_eq!(plan_message_query(None, None, Some(50)), Ok(MessageQuery::Latest { limit: 50 }));
}

#[test]
fn test_run_message_query() {
    let rows: Vec<Model> = (1..=6)
        .map(|id| Model {
            id,
            user_name: "u".to_string(),
            content: "c".to_string(),
            timestamp: 0,
            room_id: Some(1),
            user_id: None,
        })
        .collect();
    let ids = |q| run_message_query(&rows, RoomId(1), q).iter().map(|m| m.id).collect::<Vec<_>>();
    assert_eq!(ids(MessageQuery::Before { before_id: 4, limit: 2 }), vec![4, 3]);
    assert_eq!(ids(MessageQuery::After { after_id: 4, limit: 2 }), vec![4, 5]);
    assert_eq!(ids(MessageQuery::Latest { limit: 2 }), vec![6, 5]);
    assert_eq!(run_message_query(&rows, RoomId(2), MessageQuery::Latest { limit: 10 }).len(), 0);
}

#[test]
fn test_room_message_meta_empty() {
    assert_eq!(meta_id(None), 1);
    assert_eq!(meta_id(Some(3)), 3);
}

fn session_user() -> user::Model {
    user::Model { id: 7, user_name: "alice".to_string(), password: "pw".to_string(), token: "tok".to_string() }
}

fn framed(user_name: &str, user_id: Option<u32>) -> Model {
    Model {
        id: 0,
        user_name: user_name.to_string(),
        content: "hello".to_string(),
        timestamp: 1,
        room_id: Some(3),
        user_id,
    }
}

#[test]
fn test_inbound_frame_forwards_the_users_own_message_unchanged() {
    for claimed in [Some(99), Some(7), None] {
        match inbound_frame(InboundFrame::Text(Some(framed("alice", claimed))), &session_user()) {
            FrameAction::Forward(RoomCommand::ClientMessage { message }) => {
                assert_eq!(message, framed("alice", claimed));
            }
            _ => panic!("the user's own message is passed on"),
        }
    }
}

#[test]
fn test_inbound_frame_skips_messages_signed_by_others() {
    assert!(matches!(
        inbound_frame(InboundFrame::Text(Some(framed("mallory", Some(7)))), &session_user()),
        FrameAction::Skip
    ));
}

#[test]
fn test_inbound_frame_skips_text_that_is_not_a_message() {
    assert!(matches!(inbound_frame(InboundFrame::Text(None), &session_user()), FrameAction::Skip));
}

#[test]
fn test_inbound_frame_closes_on_any_other_frame() {
    assert!(matches!(inbound_frame(InboundFrame::Other, &session_user()), FrameAction::Close));
}

#[test]
fn test_registered_user_signs_in_and_is_authenticated() {
    let form = user::Model {
        id: 0,
        user_name: "carol".to_string(),
        password: "pw".to_string(),
        token: String::new(),
    };
    assert!(check_credentials(&form.user_name, &form.password).is_none());
    let record = new_user_record(form.clone()).expect("the generator can be seeded");
    // the store assigns the id
    let stored = user::Model { id: 12, ..record.clone() };
    for _ in 0..2 {
        match login_reply(Ok(Some(stored.clone())), &form.password) {
            LoginReply::Accepted { token } => assert_eq!(token, record.token),
            _ => panic!("the registered user logs in"),
        }
    }
    let token = match auth_on_cookie(Some(record.token.clone())) {
        AuthStep::Lookup(t) => t,
        _ => panic!("a cookie is looked up"),
    };
    assert_eq!(token, stored.token);
    let current = auth_verdict(Ok(Some(stored.clone()))).expect("the token's user passes");
    assert_eq!(current, stored);
    let (_, name) = me_reply(&current);
    assert_eq!(name, "carol");
}

#[test]
fn test_socket_channel_only_for_a_live_room() {
    assert_eq!(socket_channel(Some(5u8)), Ok(5u8));
    assert_eq!(socket_channel::<u8>(None), Err(Notice::NotRoomMember));
}

#[test]
fn test_session_starts_reading_only_after_a_delivered_join() {
    let (phase, action) = session_step(SessionPhase::Joining, SessionEvent::JoinSent(true), &session_user());
    assert_eq!(phase, SessionPhase::Open);
    assert!(matches!(action, SessionAction::ReadNext));
    let (phase, action) = session_step(SessionPhase::Joining, SessionEvent::JoinSent(false), &session_user());
    assert_eq!(phase, SessionPhase::Closed);
    assert!(matches!(action, SessionAction::Stop));
}

#[test]
fn test_open_session_forwards_skips_and_leaves() {
    let m = framed("alice", None);
    let (phase, action) =
        session_step(SessionPhase::Open, SessionEvent::Frame(InboundFrame::Text(Some(m.clone()))), &session_user());
    assert_eq!(phase, SessionPhase::Open);
    match action {
        SessionAction::Forward(RoomCommand::ClientMessage { message }) => assert_eq!(message, m),
        _ => panic!("the user's own message is passed on"),
    }
    let (phase, action) = session_step(
        SessionPhase::Open,
        SessionEvent::Frame(InboundFrame::Text(Some(framed("mallory", None)))),
        &session_user(),
    );
    assert_eq!(phase, SessionPhase::Open);
    assert!(matches!(action, SessionAction::ReadNext));
    let (phase, action) = session_step(SessionPhase::Open, SessionEvent::Frame(InboundFrame::Other), &session_user());
    assert_eq!(phase, SessionPhase::Closed);
    assert!(matches!(action, SessionAction::Leave));
    let (phase, action) = session_step(SessionPhase::Open, SessionEvent::WriterDone, &session_user());
    assert_eq!(phase, SessionPhase::Closed);
    assert!(matches!(action, SessionAction::Leave));
}

#[test]
fn test_closed_session_only_stops() {
    for event in [SessionEvent::JoinSent(true), SessionEvent::Frame(InboundFrame::Other), SessionEvent::WriterDone] {
        let (phase, action) = session_step(SessionPhase::Closed, event, &session_user());
        assert_eq!(phase, SessionPhase::Closed);
        assert!(matches!(action, SessionAction::Stop));
    }
}

fn row(id: u32) -> Model {
    Model { id, user_name: "u".to_string(), content: "c".to_string(), timestamp: 0, room_id: Some(1), user_id: None }
}

#[test]
fn test_history_page_answers() {
    let rows: Vec<Model> = vec![row(3), row(1), row(2)];
    let page = history_page(Ok(rows), RoomId(1), MessageQuery::Latest { limit: 2 }).expect("a page");
    assert_eq!(page.iter().map(|m| m.id).collect::<Vec<_>>(), vec![3, 2]);
    assert_eq!(history_page(Err(db_err()), RoomId(1), MessageQuery::Latest { limit: 2 }), Err(Notice::RemoteError));
    assert_eq!(
        history_page(Ok(vec![row(1), row(1)]), RoomId(1), MessageQuery::Latest { limit: 2 }),
        Err(Notice::RemoteError)
    );
}

#[test]
fn test_latest_reply_answers() {
    assert_eq!(latest_reply(Ok(Some(9))), Ok(9));
    assert_eq!(latest_reply(Ok(None)), Ok(1));
    assert_eq!(latest_reply(Err(db_err())), Err(Notice::RemoteError));
}

#[test]
fn test_has_distinct_ids() {
    assert!(has_distinct_ids(&vec![]));
    assert!(has_distinct_ids(&vec![row(1), row(2), row(3)]));
    assert!(!has_distinct_ids(&vec![row(1), row(2), row(1)]));
}
