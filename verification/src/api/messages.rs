use vstd::prelude::*;

use crate::api::notice::Notice;
use crate::db::DbError;
use crate::db::messages::{
    distinct_ids, has_distinct_ids, list_message, list_message_after, list_message_before, newest_first_page,
    oldest_first_page,
};
use crate::entity::RoomId;
use crate::entity::message::Model;

verus! {

/// The most messages one page may hold.
pub const PAGE_LIMIT: u32 = 50;

/// The page size asked for, capped at `PAGE_LIMIT`, which is also the default.
pub open spec fn effective_limit(limit: Option<u32>) -> u32 {
    match limit {
        Some(v) => if v < PAGE_LIMIT { v } else { PAGE_LIMIT },
        None => PAGE_LIMIT,
    }
}

/// Which page of a room's history is asked for.
#[derive(Clone, Copy, Debug, PartialEq, Eq, Structural)]
pub enum MessageQuery {
    /// Newest first, ids at most `before_id`.
    Before { before_id: u32, limit: u32 },
    /// Oldest first, ids at least `after_id`.
    After { after_id: u32, limit: u32 },
    /// The newest messages, newest first.
    Latest { limit: u32 },
}

/// The query a history request's parameters ask for: at most one cursor may
/// be given, and the page size is capped.
pub open spec fn plan_message_query_result(before_id: Option<u32>, after_id: Option<u32>, limit: Option<u32>) -> Result<MessageQuery, Notice> {
    match (before_id, after_id) {
        (Some(_), Some(_)) => Err(Notice::ConflictingCursors),
        (Some(b), None) => Ok(MessageQuery::Before { before_id: b, limit: effective_limit(limit) }),
        (None, Some(a)) => Ok(MessageQuery::After { after_id: a, limit: effective_limit(limit) }),
        (None, None) => Ok(MessageQuery::Latest { limit: effective_limit(limit) }),
    }
}

/// `page` is the page of the stored messages `rows` that `query` asks for.
pub open spec fn query_page(rows: Seq<Model>, room_id: RoomId, query: MessageQuery, page: Seq<Model>) -> bool {
    match query {
        MessageQuery::Before { before_id, limit } => newest_first_page(rows, room_id.0, before_id as int, limit as nat, page),
        MessageQuery::After { after_id, limit } => oldest_first_page(rows, room_id.0, after_id as int, limit as nat, page),
        MessageQuery::Latest { limit } => newest_first_page(rows, room_id.0, u32::MAX as int, limit as nat, page),
    }
}

/// Reads the query parameters of a history request: at most one cursor may
/// be given, and the page size is capped.
pub fn plan_message_query(before_id: Option<u32>, after_id: Option<u32>, limit: Option<u32>) -> (r: Result<MessageQuery, Notice>)
    ensures
        r == plan_message_query_result(before_id, after_id, limit),
{
    let capped = match limit {
        Some(v) => if v < PAGE_LIMIT { v } else { PAGE_LIMIT },
        None => PAGE_LIMIT,
    };
    match (before_id, after_id) {
        (Some(_), Some(_)) => Err(Notice::ConflictingCursors),
        (Some(b), None) => Ok(MessageQuery::Before { before_id: b, limit: capped }),
        (None, Some(a)) => Ok(MessageQuery::After { after_id: a, limit: capped }),
        (None, None) => Ok(MessageQuery::Latest { limit: capped }),
    }
}

/// The page `query` asks for, out of the stored messages `rows`.
pub fn run_message_query(rows: &Vec<Model>, room_id: RoomId, query: MessageQuery) -> (page: Vec<Model>)
    requires
        distinct_ids(rows@),
    ensures
        query_page(rows@, room_id, query, page@),
{
    match query {
        MessageQuery::Before { before_id, limit } => list_message_before(rows, room_id, before_id, limit as u64),
        MessageQuery::After { after_id, limit } => list_message_after(rows, room_id, after_id, limit as u64),
        MessageQuery::Latest { limit } => list_message(rows, room_id, limit as u64),
    }
}

/// The id the history's metadata reports: the latest message id, or 1 for a
/// room without messages.
pub fn meta_id(latest: Option<u32>) -> (r: u32)
    ensures
        r == (match latest {
            Some(id) => id,
            None => 1,
        }),
{
    match latest {
        Some(id) => id,
        None => 1,
    }
}

/// The answer to a history request, given what the store read for it: the
/// page `query` asks for out of the rows read, or a remote error when the
/// read failed or gave two rows one id.
pub fn history_page(read: Result<Vec<Model>, DbError>, room_id: RoomId, query: MessageQuery) -> (r: Result<
    Vec<Model>,
    Notice,
>)
    ensures
        match read {
            Err(_) => r == Err::<Vec<Model>, Notice>(Notice::RemoteError),
            Ok(rows) => if distinct_ids(rows@) {
                r matches Ok(page) && query_page(rows@, room_id, query, page@)
            } else {
                r == Err::<Vec<Model>, Notice>(Notice::RemoteError)
            },
        },
{
    match read {
        Err(_) => Err(Notice::RemoteError),
        Ok(rows) => {
            if has_distinct_ids(&rows) {
                Ok(run_message_query(&rows, room_id, query))
            } else {
                Err(Notice::RemoteError)
            }
        },
    }
}

/// The answer to a request for the history's metadata once the latest id was
/// read: the id `meta_id` reports, or a remote error when the store failed.
pub fn latest_reply(read: Result<Option<u32>, DbError>) -> (r: Result<u32, Notice>)
    ensures
        r == (match read {
            Ok(Some(id)) => Ok::<u32, Notice>(id),
            Ok(None) => Ok::<u32, Notice>(1),
            Err(_) => Err::<u32, Notice>(Notice::RemoteError),
        }),
{
    match read {
        Ok(latest) => Ok(meta_id(latest)),
        Err(_) => Err(Notice::RemoteError),
    }
}

/// The query a request plans, stated in its parameters: both cursors are
/// refused; a `before_id` alone pages newest first from it, an `after_id`
/// alone oldest first from it, no cursor gives the latest page; and in every
/// case the page size is the requested one when it is within `PAGE_LIMIT`,
/// `PAGE_LIMIT` when it is larger or not given.
pub proof fn lemma_planned_query_follows_parameters(
    before_id: Option<u32>,
    after_id: Option<u32>,
    limit: Option<u32>,
)
    ensures
        ({
            let size: u32 = match limit {
                Some(v) => if v <= PAGE_LIMIT { v } else { PAGE_LIMIT },
                None => PAGE_LIMIT,
            };
            let planned = plan_message_query_result(before_id, after_id, limit);
            &&& (before_id is Some && after_id is Some) ==> planned == Err::<MessageQuery, Notice>(
                Notice::ConflictingCursors,
            )
            &&& forall|b: u32|
                before_id == Some(b) && after_id is None ==> planned == Ok::<MessageQuery, Notice>(
                    MessageQuery::Before { before_id: b, limit: size },
                )
            &&& forall|a: u32|
                before_id is None && after_id == Some(a) ==> planned == Ok::<MessageQuery, Notice>(
                    MessageQuery::After { after_id: a, limit: size },
                )
            &&& (before_id is None && after_id is None) ==> planned == Ok::<MessageQuery, Notice>(
                MessageQuery::Latest { limit: size },
            )
        }),
{
}

/// A history page never holds more than `PAGE_LIMIT` messages, and a page
/// size within the cap is honoured as asked.
pub proof fn lemma_page_size_capped(
    rows: Seq<Model>,
    room_id: RoomId,
    before_id: Option<u32>,
    after_id: Option<u32>,
    limit: Option<u32>,
    query: MessageQuery,
    page: Seq<Model>,
)
    requires
        plan_message_query_result(before_id, after_id, limit) == Ok::<MessageQuery, Notice>(query),
        query_page(rows, room_id, query, page),
    ensures
        page.len() <= PAGE_LIMIT,
        forall|v: u32| limit == Some(v) && v <= PAGE_LIMIT ==> effective_limit(limit) == v,
{
}

} // verus!
