use vstd::prelude::*;

verus! {

/// Every reply the HTTP interface gives besides data: a status code and a
/// message for the user.
#[derive(Clone, Copy, Debug, PartialEq, Eq, Structural)]
pub enum Notice {
    /// 400: a user name or password is empty.
    EmptyCredentials,
    /// 401: no such user, or the password is wrong.
    BadCredentials,
    /// 503: the store could not be reached.
    RemoteError,
    /// 200: logged in.
    LoggedIn,
    /// 201: registered.
    Registered,
    /// 409: the user name is taken.
    UserNameTaken,
    /// 400: no valid session cookie.
    LoginRequired,
    /// 400: the room does not exist or the user is not in it.
    NotRoomMember,
    /// 400: the room name is empty.
    EmptyRoomName,
    /// 409: the room name is taken.
    DuplicateRoomName,
    /// 200: the room was created.
    RoomCreated,
    /// 200: the session is valid.
    Verified,
    /// 400: a page was asked for both before and after an id.
    ConflictingCursors,
    /// 418: the endpoint is not implemented.
    NotImplemented,
}

pub open spec fn status_of(n: Notice) -> u16 {
    match n {
        Notice::EmptyCredentials => 400,
        Notice::BadCredentials => 401,
        Notice::RemoteError => 503,
        Notice::LoggedIn => 200,
        Notice::Registered => 201,
        Notice::UserNameTaken => 409,
        Notice::LoginRequired => 400,
        Notice::NotRoomMember => 400,
        Notice::EmptyRoomName => 400,
        Notice::DuplicateRoomName => 409,
        Notice::RoomCreated => 200,
        Notice::Verified => 200,
        Notice::ConflictingCursors => 400,
        Notice::NotImplemented => 418,
    }
}

pub open spec fn text_of(n: Notice) -> Seq<char> {
    match n {
        Notice::EmptyCredentials => "用户名或密码不能为空"@,
        Notice::BadCredentials => "用户不存在或密码错误"@,
        Notice::RemoteError => "远程连接错误"@,
        Notice::LoggedIn => "登录成功"@,
        Notice::Registered => "注册成功"@,
        Notice::UserNameTaken => "该用户名已被使用"@,
        Notice::LoginRequired => "请登录"@,
        Notice::NotRoomMember => "不正确的房间"@,
        Notice::EmptyRoomName => "房间名不能为空"@,
        Notice::DuplicateRoomName => "房间名重复"@,
        Notice::RoomCreated => "创建房间成功"@,
        Notice::Verified => "验证成功"@,
        Notice::ConflictingCursors => "before_id 和 after_id 不能同时存在"@,
        Notice::NotImplemented => "还没实现呢"@,
    }
}

impl Notice {
    /// The HTTP status code of the reply.
    pub fn status(&self) -> (r: u16)
        ensures
            r == status_of(*self),
    {
        match self {
            Notice::EmptyCredentials => 400,
            Notice::BadCredentials => 401,
            Notice::RemoteError => 503,
            Notice::LoggedIn => 200,
            Notice::Registered => 201,
            Notice::UserNameTaken => 409,
            Notice::LoginRequired => 400,
            Notice::NotRoomMember => 400,
            Notice::EmptyRoomName => 400,
            Notice::DuplicateRoomName => 409,
            Notice::RoomCreated => 200,
            Notice::Verified => 200,
            Notice::ConflictingCursors => 400,
            Notice::NotImplemented => 418,
        }
    }

    /// The message the reply carries.
    pub fn text(&self) -> (r: String)
        ensures
            r@ == text_of(*self),
    {
        match self {
            Notice::EmptyCredentials => String::from_str("用户名或密码不能为空"),
            Notice::BadCredentials => String::from_str("用户不存在或密码错误"),
            Notice::RemoteError => String::from_str("远程连接错误"),
            Notice::LoggedIn => String::from_str("登录成功"),
            Notice::Registered => String::from_str("注册成功"),
            Notice::UserNameTaken => String::from_str("该用户名已被使用"),
            Notice::LoginRequired => String::from_str("请登录"),
            Notice::NotRoomMember => String::from_str("不正确的房间"),
            Notice::EmptyRoomName => String::from_str("房间名不能为空"),
            Notice::DuplicateRoomName => String::from_str("房间名重复"),
            Notice::RoomCreated => String::from_str("创建房间成功"),
            Notice::Verified => String::from_str("验证成功"),
            Notice::ConflictingCursors => String::from_str("before_id 和 after_id 不能同时存在"),
            Notice::NotImplemented => String::from_str("还没实现呢"),
        }
    }
}

} // verus!
