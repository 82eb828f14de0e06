use vstd::prelude::*;

use crate::entity::RoomId;
use crate::entity::message::Model;

verus! {

/// The message was posted in `room`.
pub open spec fn in_room(m: Model, room: u32) -> bool {
    m.room_id == Some(room)
}

/// No two stored messages share an id (the id is the table's primary key).
pub open spec fn distinct_ids(rows: Seq<Model>) -> bool {
    forall|i: int, j: int|
        0 <= i < rows.len() && 0 <= j < rows.len() && i != j ==> rows[i].id != rows[j].id
}

/// Whether no two of `rows` share an id.
pub fn has_distinct_ids(rows: &Vec<Model>) -> (b: bool)
    ensures
        b == distinct_ids(rows@),
{
    let n = rows.len();
    let mut i: usize = 0;
    while i < n
        invariant
            0 <= i <= n,
            n == rows.len(),
            forall|a: int, c: int| 0 <= a < i && 0 <= c < n && a != c ==> rows@[a].id != rows@[c].id,
        decreases n - i,
    {
        let mut j: usize = 0;
        while j < n
            invariant
                0 <= i < n,
                0 <= j <= n,
                n == rows.len(),
                forall|a: int, c: int| 0 <= a < i && 0 <= c < n && a != c ==> rows@[a].id != rows@[c].id,
                forall|c: int| 0 <= c < j && c != i ==> rows@[i as int].id != rows@[c].id,
            decreases n - j,
        {
            if j != i && rows[i].id == rows[j].id {
                assert(rows@[i as int].id == rows@[j as int].id);
                return false;
            }
            j = j + 1;
        }
        i = i + 1;
    }
    true
}

/// `page` holds, newest first, the `limit` messages of highest id among the
/// messages of `room` in `rows` whose id is at most `upper` (all of them when
/// there are fewer).
pub open spec fn newest_first_page(
    rows: Seq<Model>,
    room: u32,
    upper: int,
    limit: nat,
    page: Seq<Model>,
) -> bool {
    &&& page.len() <= limit
    &&& forall|i: int|
        0 <= i < page.len() ==> #[trigger] rows.contains(page[i]) && in_room(page[i], room)
            && page[i].id <= upper
    &&& forall|i: int, j: int| 0 <= i < j < page.len() ==> page[i].id > page[j].id
    &&& forall|r: Model|
        #[trigger] rows.contains(r) && in_room(r, room) && r.id <= upper && !page.contains(r)
            ==> page.len() == limit && (limit > 0 ==> r.id < page[limit - 1].id)
}

/// `page` holds, oldest first, the `limit` messages of lowest id among the
/// messages of `room` in `rows` whose id is at least `lower` (all of them
/// when there are fewer).
pub open spec fn oldest_first_page(
    rows: Seq<Model>,
    room: u32,
    lower: int,
    limit: nat,
    page: Seq<Model>,
) -> bool {
    &&& page.len() <= limit
    &&& forall|i: int|
        0 <= i < page.len() ==> #[trigger] rows.contains(page[i]) && in_room(page[i], room)
            && page[i].id >= lower
    &&& forall|i: int, j: int| 0 <= i < j < page.len() ==> page[i].id < page[j].id
    &&& forall|r: Model|
        #[trigger] rows.contains(r) && in_room(r, room) && r.id >= lower && !page.contains(r)
            ==> page.len() == limit && (limit > 0 ==> r.id > page[limit - 1].id)
}

/// `latest` is the highest id of a message of `room` in `rows`, or `None`
/// when the room has no message.
pub open spec fn is_latest_id(rows: Seq<Model>, room: u32, latest: Option<u32>) -> bool {
    match latest {
        None => forall|r: Model| #[trigger] rows.contains(r) ==> !in_room(r, room),
        Some(x) => {
            &&& exists|r: Model| #[trigger] rows.contains(r) && in_room(r, room) && r.id == x
            &&& forall|r: Model| #[trigger] rows.contains(r) && in_room(r, room) ==> r.id <= x
        },
    }
}

fn posted_in(m: &Model, room: u32) -> (b: bool)
    ensures
        b == in_room(*m, room),
{
    match m.room_id {
        Some(r) => r == room,
        None => false,
    }
}

/// Index of the message of `room` with the highest id not above `bound`.
fn highest_at_most(rows: &Vec<Model>, room: u32, bound: u32) -> (r: Option<usize>)
    ensures
        match r {
            Some(i) => {
                &&& i < rows.len()
                &&& in_room(rows@[i as int], room)
                &&& rows@[i as int].id <= bound
                &&& forall|j: int|
                    0 <= j < rows.len() && in_room(#[trigger] rows@[j], room) && rows@[j].id
                        <= bound ==> rows@[j].id <= rows@[i as int].id
            },
            None => forall|j: int|
                0 <= j < rows.len() && in_room(#[trigger] rows@[j], room) ==> rows@[j].id > bound,
        },
{
    let mut best: Option<usize> = None;
    let mut k: usize = 0;
    while k < rows.len()
        invariant
            k <= rows.len(),
            match best {
                Some(i) => {
                    &&& i < k
                    &&& in_room(rows@[i as int], room)
                    &&& rows@[i as int].id <= bound
                    &&& forall|j: int|
                        0 <= j < k && in_room(#[trigger] rows@[j], room) && rows@[j].id <= bound
                            ==> rows@[j].id <= rows@[i as int].id
                },
                None => forall|j: int|
                    0 <= j < k && in_room(#[trigger] rows@[j], room) ==> rows@[j].id > bound,
            },
        decreases rows.len() - k,
    {
        if posted_in(&rows[k], room) && rows[k].id <= bound {
            match best {
                None => {
                    best = Some(k);
                },
                Some(i) => {
                    if rows[k].id > rows[i].id {
                        best = Some(k);
                    }
                },
            }
        }
        k = k + 1;
    }
    best
}

/// Index of the message of `room` with the lowest id not below `bound`.
fn lowest_at_least(rows: &Vec<Model>, room: u32, bound: u32) -> (r: Option<usize>)
    ensures
        match r {
            Some(i) => {
                &&& i < rows.len()
                &&& in_room(rows@[i as int], room)
                &&& rows@[i as int].id >= bound
                &&& forall|j: int|
                    0 <= j < rows.len() && in_room(#[trigger] rows@[j], room) && rows@[j].id
                        >= bound ==> rows@[j].id >= rows@[i as int].id
            },
            None => forall|j: int|
                0 <= j < rows.len() && in_room(#[trigger] rows@[j], room) ==> rows@[j].id < bound,
        },
{
    let mut best: Option<usize> = None;
    let mut k: usize = 0;
    while k < rows.len()
        invariant
            k <= rows.len(),
            match best {
                Some(i) => {
                    &&& i < k
                    &&& in_room(rows@[i as int], room)
                    &&& rows@[i as int].id >= bound
                    &&& forall|j: int|
                        0 <= j < k && in_room(#[trigger] rows@[j], room) && rows@[j].id >= bound
                            ==> rows@[j].id >= rows@[i as int].id
                },
                None => forall|j: int|
                    0 <= j < k && in_room(#[trigger] rows@[j], room) ==> rows@[j].id < bound,
            },
        decreases rows.len() - k,
    {
        if posted_in(&rows[k], room) && rows[k].id >= bound {
            match best {
                None => {
                    best = Some(k);
                },
                Some(i) => {
                    if rows[k].id < rows[i].id {
                        best = Some(k);
                    }
                },
            }
        }
        k = k + 1;
    }
    best
}

/// The newest-first page of `room` below `upper` (inclusive), at most `limit` long.
fn newest_first(rows: &Vec<Model>, room: u32, upper: u32, limit: u64) -> (page: Vec<Model>)
    requires
        distinct_ids(rows@),
    ensures
        newest_first_page(rows@, room, upper as int, limit as nat, page@),
{
    let mut page: Vec<Model> = Vec::new();
    let mut bound: u32 = upper;
    let mut exhausted = false;
    while (page.len() as u64) < limit && !exhausted
        invariant
            distinct_ids(rows@),
            page.len() <= limit,
            bound <= upper,
            forall|i: int|
                0 <= i < page.len() ==> #[trigger] rows@.contains(page@[i]) && in_room(
                    page@[i],
                    room,
                ) && page@[i].id <= upper,
            !exhausted ==> forall|i: int| 0 <= i < page.len() ==> #[trigger] page@[i].id > bound,
            forall|i: int, j: int| 0 <= i < j < page.len() ==> page@[i].id > page@[j].id,
            !exhausted ==> forall|r: Model|
                #[trigger] rows@.contains(r) && in_room(r, room) && r.id <= upper && r.id > bound
                    ==> page@.contains(r),
            exhausted ==> forall|r: Model|
                #[trigger] rows@.contains(r) && in_room(r, room) && r.id <= upper
                    ==> page@.contains(r),
        decreases limit - page.len(), (if exhausted { 0int } else { 1int }),
    {
        match highest_at_most(rows, room, bound) {
            None => {
                exhausted = true;
                assert forall|r: Model|
                    #[trigger] rows@.contains(r) && in_room(r, room) && r.id <= upper implies page@.contains(r) by {
                    let j = choose|j: int| 0 <= j < rows@.len() && rows@[j] == r;
                    assert(in_room(rows@[j], room));
                }
            },
            Some(i) => {
                let x = rows[i].id;
                let ghost old_page = page@;
                let m = rows[i].duplicate();
                page.push(m);
                assert(page@[page@.len() - 1] == rows@[i as int]);
                assert(rows@.contains(rows@[i as int]));
                assert forall|k: int| 0 <= k < old_page.len() implies page@[k] == old_page[k] by {}
                if x == 0 {
                    exhausted = true;
                    assert forall|r: Model|
                        #[trigger] rows@.contains(r) && in_room(r, room) && r.id <= upper implies page@.contains(r) by {
                        let j = choose|j: int| 0 <= j < rows@.len() && rows@[j] == r;
                        assert(in_room(rows@[j], room));
                        if r.id > bound {
                            assert(old_page.contains(r));
                            let k = choose|k: int| 0 <= k < old_page.len() && old_page[k] == r;
                            assert(page@[k] == r);
                        } else {
                            assert(rows@[j].id <= x);
                            assert(j == i as int);
                            assert(page@[page@.len() - 1] == r);
                        }
                    }
                } else {
                    let ghost old_bound = bound;
                    bound = x - 1;
                    assert forall|r: Model|
                        #[trigger] rows@.contains(r) && in_room(r, room) && r.id <= upper && r.id > bound implies page@.contains(r) by {
                        let j = choose|j: int| 0 <= j < rows@.len() && rows@[j] == r;
                        assert(in_room(rows@[j], room));
                        if r.id > old_bound {
                            assert(old_page.contains(r));
                            let k = choose|k: int| 0 <= k < old_page.len() && old_page[k] == r;
                            assert(page@[k] == r);
                        } else {
                            assert(rows@[j].id <= x);
                            assert(j == i as int);
                            assert(page@[page@.len() - 1] == r);
                        }
                    }
                }
            },
        }
    }
    proof {
        if !exhausted {
            assert(page.len() == limit);
        }
    }
    page
}

/// The oldest-first page of `room` above `lower` (inclusive), at most `limit` long.
fn oldest_first(rows: &Vec<Model>, room: u32, lower: u32, limit: u64) -> (page: Vec<Model>)
    requires
        distinct_ids(rows@),
    ensures
        oldest_first_page(rows@, room, lower as int, limit as nat, page@),
{
    let mut page: Vec<Model> = Vec::new();
    let mut bound: u32 = lower;
    let mut exhausted = false;
    while (page.len() as u64) < limit && !exhausted
        invariant
            distinct_ids(rows@),
            page.len() <= limit,
            bound >= lower,
            forall|i: int|
                0 <= i < page.len() ==> #[trigger] rows@.contains(page@[i]) && in_room(
                    page@[i],
                    room,
                ) && page@[i].id >= lower,
            !exhausted ==> forall|i: int| 0 <= i < page.len() ==> #[trigger] page@[i].id < bound,
            forall|i: int, j: int| 0 <= i < j < page.len() ==> page@[i].id < page@[j].id,
            !exhausted ==> forall|r: Model|
                #[trigger] rows@.contains(r) && in_room(r, room) && r.id >= lower && r.id < bound
                    ==> page@.contains(r),
            exhausted ==> forall|r: Model|
                #[trigger] rows@.contains(r) && in_room(r, room) && r.id >= lower
                    ==> page@.contains(r),
        decreases limit - page.len(), (if exhausted { 0int } else { 1int }),
    {
        match lowest_at_least(rows, room, bound) {
            None => {
                exhausted = true;
                assert forall|r: Model|
                    #[trigger] rows@.contains(r) && in_room(r, room) && r.id >= lower implies page@.contains(r) by {
                    let j = choose|j: int| 0 <= j < rows@.len() && rows@[j] == r;
                    assert(in_room(rows@[j], room));
                }
            },
            Some(i) => {
                let x = rows[i].id;
                let ghost old_page = page@;
                let m = rows[i].duplicate();
                page.push(m);
                assert(page@[page@.len() - 1] == rows@[i as int]);
                assert(rows@.contains(rows@[i as int]));
                assert forall|k: int| 0 <= k < old_page.len() implies page@[k] == old_page[k] by {}
                if x == u32::MAX {
                    exhausted = true;
                    assert forall|r: Model|
                        #[trigger] rows@.contains(r) && in_room(r, room) && r.id >= lower implies page@.contains(r) by {
                        let j = choose|j: int| 0 <= j < rows@.len() && rows@[j] == r;
                        assert(in_room(rows@[j], room));
                        if r.id < bound {
                            assert(old_page.contains(r));
                            let k = choose|k: int| 0 <= k < old_page.len() && old_page[k] == r;
                            assert(page@[k] == r);
                        } else {
                            assert(rows@[j].id >= x);
                            assert(j == i as int);
                            assert(page@[page@.len() - 1] == r);
                        }
                    }
                } else {
                    let ghost old_bound = bound;
                    bound = x + 1;
                    assert forall|r: Model|
                        #[trigger] rows@.contains(r) && in_room(r, room) && r.id >= lower && r.id < bound implies page@.contains(r) by {
                        let j = choose|j: int| 0 <= j < rows@.len() && rows@[j] == r;
                        assert(in_room(rows@[j], room));
                        if r.id < old_bound {
                            assert(old_page.contains(r));
                            let k = choose|k: int| 0 <= k < old_page.len() && old_page[k] == r;
                            assert(page@[k] == r);
                        } else {
                            assert(rows@[j].id >= x);
                            assert(j == i as int);
                            assert(page@[page@.len() - 1] == r);
                        }
                    }
                }
            },
        }
    }
    proof {
        if !exhausted {
            assert(page.len() == limit);
        }
    }
    page
}

/// The record `insert_message` stores for `form`: the author, the text, the
/// room and the user of the form, stamped with `now`; the id is left at 0
/// for the store to assign.
pub fn new_message_record(form: Model, now: i128) -> (r: Model)
    ensures
        r == (Model { id: 0, timestamp: now, ..form }),
{
    Model { id: 0, timestamp: now, ..form }
}

/// The highest id of a message of `room_id` in `rows`, `None` when the room has none.
pub fn latest_message_id(rows: &Vec<Model>, room_id: RoomId) -> (r: Option<u32>)
    ensures
        is_latest_id(rows@, room_id.0, r),
{
    match highest_at_most(rows, room_id.0, u32::MAX) {
        None => {
            assert forall|r: Model| #[trigger] rows@.contains(r) implies !in_room(r, room_id.0) by {
                let j = choose|j: int| 0 <= j < rows@.len() && rows@[j] == r;
                if in_room(rows@[j], room_id.0) {
                    assert(rows@[j].id > u32::MAX);
                }
            }
            None
        },
        Some(i) => {
            assert(rows@.contains(rows@[i as int]));
            assert forall|r: Model| #[trigger] rows@.contains(r) && in_room(r, room_id.0) implies r.id <= rows@[i as int].id by {
                let j = choose|j: int| 0 <= j < rows@.len() && rows@[j] == r;
                assert(in_room(rows@[j], room_id.0));
            }
            Some(rows[i].id)
        },
    }
}

/// The messages of `room_id` whose id is at most `before_id`, newest first,
/// at most `limit` of them.
pub fn list_message_before(rows: &Vec<Model>, room_id: RoomId, before_id: u32, limit: u64) -> (page: Vec<Model>)
    requires
        distinct_ids(rows@),
    ensures
        newest_first_page(rows@, room_id.0, before_id as int, limit as nat, page@),
{
    newest_first(rows, room_id.0, before_id, limit)
}

/// The messages of `room_id` whose id is at least `after_id`, oldest first,
/// at most `limit` of them.
pub fn list_message_after(rows: &Vec<Model>, room_id: RoomId, after_id: u32, limit: u64) -> (page: Vec<Model>)
    requires
        distinct_ids(rows@),
    ensures
        oldest_first_page(rows@, room_id.0, after_id as int, limit as nat, page@),
{
    oldest_first(rows, room_id.0, after_id, limit)
}

/// The newest messages of `room_id`, newest first, at most `limit` of them.
/// (Every id is a `u32`, so the bound `u32::MAX` leaves no message of the room out.)
pub fn list_message(rows: &Vec<Model>, room_id: RoomId, limit: u64) -> (page: Vec<Model>)
    requires
        distinct_ids(rows@),
    ensures
        newest_first_page(rows@, room_id.0, u32::MAX as int, limit as nat, page@),
{
    newest_first(rows, room_id.0, u32::MAX, limit)
}

/// Two stored messages with one id are the same message.
proof fn lemma_same_id_same_message(rows: Seq<Model>, a: Model, b: Model)
    requires
        distinct_ids(rows),
        rows.contains(a),
        rows.contains(b),
        a.id == b.id,
    ensures
        a == b,
{
    let i = choose|i: int| 0 <= i < rows.len() && rows[i] == a;
    let j = choose|j: int| 0 <= j < rows.len() && rows[j] == b;
    assert(i == j);
}

#[verifier::spinoff_prover]
proof fn lemma_newest_pages_agree_below(
    rows: Seq<Model>,
    room: u32,
    upper: int,
    limit: nat,
    p: Seq<Model>,
    q: Seq<Model>,
    n: int,
)
    requires
        distinct_ids(rows),
        newest_first_page(rows, room, upper, limit, p),
        newest_first_page(rows, room, upper, limit, q),
        0 <= n <= p.len(),
        n <= q.len(),
    ensures
        forall|k: int| 0 <= k < n ==> p[k] == q[k],
    decreases n,
{
    if n > 0 {
        let k = n - 1;
        lemma_newest_pages_agree_below(rows, room, upper, limit, p, q, k);
        let a = p[k];
        let b = q[k];
        assert(rows.contains(a) && in_room(a, room) && a.id <= upper);
        assert(rows.contains(b) && in_room(b, room) && b.id <= upper);
        if a.id > b.id {
            if q.contains(a) {
                let m = choose|m: int| 0 <= m < q.len() && q[m] == a;
                if m < k {
                    assert(p[m] == q[m]);
                    assert(p[m].id > p[k].id);
                } else if m > k {
                    assert(q[m].id < q[k].id);
                }
            } else {
                assert(q.len() == limit);
                if k < limit - 1 {
                    assert(q[k].id > q[limit - 1].id);
                }
            }
            assert(false);
        }
        if b.id > a.id {
            if p.contains(b) {
                let m = choose|m: int| 0 <= m < p.len() && p[m] == b;
                if m < k {
                    assert(p[m] == q[m]);
                    assert(q[m].id > q[k].id);
                } else if m > k {
                    assert(p[m].id < p[k].id);
                }
            } else {
                assert(p.len() == limit);
                if k < limit - 1 {
                    assert(p[k].id > p[limit - 1].id);
                }
            }
            assert(false);
        }
        lemma_same_id_same_message(rows, a, b);
    }
}

#[verifier::spinoff_prover]
proof fn lemma_oldest_pages_agree_below(
    rows: Seq<Model>,
    room: u32,
    lower: int,
    limit: nat,
    p: Seq<Model>,
    q: Seq<Model>,
    n: int,
)
    requires
        distinct_ids(rows),
        oldest_first_page(rows, room, lower, limit, p),
        oldest_first_page(rows, room, lower, limit, q),
        0 <= n <= p.len(),
        n <= q.len(),
    ensures
        forall|k: int| 0 <= k < n ==> p[k] == q[k],
    decreases n,
{
    if n > 0 {
        let k = n - 1;
        lemma_oldest_pages_agree_below(rows, room, lower, limit, p, q, k);
        let a = p[k];
        let b = q[k];
        assert(rows.contains(a) && in_room(a, room) && a.id >= lower);
        assert(rows.contains(b) && in_room(b, room) && b.id >= lower);
        if a.id < b.id {
            if q.contains(a) {
                let m = choose|m: int| 0 <= m < q.len() && q[m] == a;
                if m < k {
                    assert(p[m] == q[m]);
                    assert(p[m].id < p[k].id);
                } else if m > k {
                    assert(q[m].id > q[k].id);
                }
            } else {
                assert(q.len() == limit);
                if k < limit - 1 {
                    assert(q[k].id < q[limit - 1].id);
                }
            }
            assert(false);
        }
        if b.id < a.id {
            if p.contains(b) {
                let m = choose|m: int| 0 <= m < p.len() && p[m] == b;
                if m < k {
                    assert(p[m] == q[m]);
                    assert(q[m].id < q[k].id);
                } else if m > k {
                    assert(p[m].id > p[k].id);
                }
            } else {
                assert(p.len() == limit);
                if k < limit - 1 {
                    assert(p[k].id < p[limit - 1].id);
                }
            }
            assert(false);
        }
        lemma_same_id_same_message(rows, a, b);
    }
}

/// A newest-first page is determined by the stored messages: two pages of one
/// room, bound and limit over the same messages are equal, so repeated
/// listings give the same result.
pub proof fn lemma_newest_first_page_unique(
    rows: Seq<Model>,
    room: u32,
    upper: int,
    limit: nat,
    p: Seq<Model>,
    q: Seq<Model>,
)
    requires
        distinct_ids(rows),
        newest_first_page(rows, room, upper, limit, p),
        newest_first_page(rows, room, upper, limit, q),
    ensures
        p == q,
{
    let n = if p.len() <= q.len() { p.len() as int } else { q.len() as int };
    lemma_newest_pages_agree_below(rows, room, upper, limit, p, q, n);
    if p.len() < q.len() {
        let b = q[n];
        assert(rows.contains(b));
        if p.contains(b) {
            let m = choose|m: int| 0 <= m < p.len() && p[m] == b;
            assert(q[m].id > q[n].id);
        }
        assert(false);
    }
    if q.len() < p.len() {
        let a = p[n];
        assert(rows.contains(a));
        if q.contains(a) {
            let m = choose|m: int| 0 <= m < q.len() && q[m] == a;
            assert(p[m].id > p[n].id);
        }
        assert(false);
    }
    assert(p =~= q);
}

/// An oldest-first page is determined by the stored messages: two pages of
/// one room, bound and limit over the same messages are equal.
pub proof fn lemma_oldest_first_page_unique(
    rows: Seq<Model>,
    room: u32,
    lower: int,
    limit: nat,
    p: Seq<Model>,
    q: Seq<Model>,
)
    requires
        distinct_ids(rows),
        oldest_first_page(rows, room, lower, limit, p),
        oldest_first_page(rows, room, lower, limit, q),
    ensures
        p == q,
{
    let n = if p.len() <= q.len() { p.len() as int } else { q.len() as int };
    lemma_oldest_pages_agree_below(rows, room, lower, limit, p, q, n);
    if p.len() < q.len() {
        let b = q[n];
        assert(rows.contains(b));
        if p.contains(b) {
            let m = choose|m: int| 0 <= m < p.len() && p[m] == b;
            assert(q[m].id < q[n].id);
        }
        assert(false);
    }
    if q.len() < p.len() {
        let a = p[n];
        assert(rows.contains(a));
        if q.contains(a) {
            let m = choose|m: int| 0 <= m < q.len() && q[m] == a;
            assert(p[m].id < p[n].id);
        }
        assert(false);
    }
    assert(p =~= q);
}

/// The latest id of a room is the id of the first message of its newest-first
/// listing, and the listing is empty exactly when the room has no message.
pub proof fn lemma_latest_id_heads_newest_page(
    rows: Seq<Model>,
    room: u32,
    latest: Option<u32>,
    limit: nat,
    page: Seq<Model>,
)
    requires
        is_latest_id(rows, room, latest),
        newest_first_page(rows, room, u32::MAX as int, limit, page),
        limit > 0,
    ensures
        match latest {
            None => page.len() == 0,
            Some(x) => page.len() > 0 && page[0].id == x,
        },
{
    match latest {
        None => {
            if page.len() > 0 {
                assert(rows.contains(page[0]));
            }
        },
        Some(x) => {
            let r = choose|r: Model| #[trigger] rows.contains(r) && in_room(r, room) && r.id == x;
            if page.len() == 0 {
                assert(!page.contains(r));
            } else {
                assert(rows.contains(page[0]));
                if page[0].id < x {
                    if page.contains(r) {
                        let m = choose|m: int| 0 <= m < page.len() && page[m] == r;
                        if m > 0 {
                            assert(page[m].id < page[0].id);
                        }
                    } else {
                        if limit - 1 > 0 {
                            assert(page[limit - 1].id < page[0].id);
                        }
                    }
                    assert(false);
                }
            }
        },
    }
}

/// A newest-first page stays the page when only part of the stored messages
/// is read, as long as that part holds every message of the page: a store may
/// narrow its query to the ids at most `upper`, newest first, `limit` of them.
pub proof fn lemma_newest_first_page_of_part(
    rows: Seq<Model>,
    part: Seq<Model>,
    room: u32,
    upper: int,
    limit: nat,
    page: Seq<Model>,
)
    requires
        forall|m: Model| #[trigger] part.contains(m) ==> rows.contains(m),
        forall|i: int| 0 <= i < page.len() ==> part.contains(#[trigger] page[i]),
        newest_first_page(rows, room, upper, limit, page),
    ensures
        newest_first_page(part, room, upper, limit, page),
{
    assert forall|r: Model|
        #[trigger] part.contains(r) && in_room(r, room) && r.id <= upper && !page.contains(r) implies page.len()
        == limit && (limit > 0 ==> r.id < page[limit - 1].id) by {
        assert(rows.contains(r));
    }
}

/// An oldest-first page stays the page when only part of the stored messages
/// is read, as long as that part holds every message of the page.
pub proof fn lemma_oldest_first_page_of_part(
    rows: Seq<Model>,
    part: Seq<Model>,
    room: u32,
    lower: int,
    limit: nat,
    page: Seq<Model>,
)
    requires
        forall|m: Model| #[trigger] part.contains(m) ==> rows.contains(m),
        forall|i: int| 0 <= i < page.len() ==> part.contains(#[trigger] page[i]),
        oldest_first_page(rows, room, lower, limit, page),
    ensures
        oldest_first_page(part, room, lower, limit, page),
{
    assert forall|r: Model|
        #[trigger] part.contains(r) && in_room(r, room) && r.id >= lower && !page.contains(r) implies page.len()
        == limit && (limit > 0 ==> r.id > page[limit - 1].id) by {
        assert(rows.contains(r));
    }
}

/// The messages of `room` among `rows`, in stored order.
pub open spec fn room_messages(rows: Seq<Model>, room: u32) -> Seq<Model> {
    rows.filter(|m: Model| in_room(m, room))
}

proof fn lemma_distinct_ids_no_duplicates(rows: Seq<Model>)
    requires
        distinct_ids(rows),
    ensures
        rows.no_duplicates(),
{
    assert forall|i: int, j: int| 0 <= i < rows.len() && 0 <= j < rows.len() && i != j implies rows[i]
        != rows[j] by {
        assert(rows[i].id != rows[j].id);
    }
}

proof fn lemma_room_messages(rows: Seq<Model>, room: u32)
    requires
        rows.no_duplicates(),
    ensures
        room_messages(rows, room).no_duplicates(),
        forall|m: Model|
            #[trigger] room_messages(rows, room).contains(m) <==> rows.contains(m) && in_room(m, room),
    decreases rows.len(),
{
    reveal(Seq::filter);
    if rows.len() > 0 {
        let rest = rows.drop_last();
        let last = rows.last();
        assert forall|i: int, j: int| 0 <= i < rest.len() && 0 <= j < rest.len() && i != j implies rest[i]
            != rest[j] by {
            assert(rest[i] == rows[i] && rest[j] == rows[j]);
        }
        lemma_room_messages(rest, room);
        let sub = room_messages(rest, room);
        assert(rows == rest.push(last));
        assert(!rest.contains(last)) by {
            if rest.contains(last) {
                let k = choose|k: int| 0 <= k < rest.len() && rest[k] == last;
                assert(rows[k] == rows[rows.len() - 1]);
            }
        }
        if in_room(last, room) {
            let grown = sub.push(last);
            assert(room_messages(rows, room) == grown);
            assert forall|m: Model| #[trigger] room_messages(rows, room).contains(m) <==> rows.contains(m)
                && in_room(m, room) by {
                if grown.contains(m) {
                    let k = choose|k: int| 0 <= k < grown.len() && grown[k] == m;
                    if k < sub.len() {
                        assert(sub[k] == m);
                        assert(sub.contains(m));
                        let k2 = choose|k2: int| 0 <= k2 < rest.len() && rest[k2] == m;
                        assert(rows[k2] == m);
                    } else {
                        assert(rows[rows.len() - 1] == m);
                    }
                }
                if rows.contains(m) && in_room(m, room) {
                    let k = choose|k: int| 0 <= k < rows.len() && rows[k] == m;
                    if k < rows.len() - 1 {
                        assert(rest[k] == m);
                        assert(rest.contains(m));
                        assert(sub.contains(m));
                        let k2 = choose|k2: int| 0 <= k2 < sub.len() && sub[k2] == m;
                        assert(grown[k2] == m);
                    } else {
                        assert(grown[sub.len() as int] == m);
                    }
                }
            }
            assert forall|i: int, j: int|
                0 <= i < grown.len() && 0 <= j < grown.len() && i != j implies grown[i] != grown[j] by {
                if i == sub.len() {
                    assert(!sub.contains(last));
                    assert(grown[j] == sub[j]);
                } else if j == sub.len() {
                    assert(!sub.contains(last));
                    assert(grown[i] == sub[i]);
                }
            }
        } else {
            assert(room_messages(rows, room) == sub);
            assert forall|m: Model| #[trigger] room_messages(rows, room).contains(m) <==> rows.contains(m)
                && in_room(m, room) by {
                if rows.contains(m) && m != last {
                    let k = choose|k: int| 0 <= k < rows.len() && rows[k] == m;
                    assert(rest[k] == m);
                }
            }
        }
    }
}

/// A page lists no message twice.
proof fn lemma_strictly_ordered_no_duplicates(page: Seq<Model>, decreasing: bool)
    requires
        decreasing ==> forall|i: int, j: int| 0 <= i < j < page.len() ==> page[i].id > page[j].id,
        !decreasing ==> forall|i: int, j: int| 0 <= i < j < page.len() ==> page[i].id < page[j].id,
    ensures
        page.no_duplicates(),
{
    assert forall|i: int, j: int| 0 <= i < page.len() && 0 <= j < page.len() && i != j implies page[i]
        != page[j] by {
        if i < j {
            assert(page[i].id != page[j].id);
        } else {
            assert(page[j].id != page[i].id);
        }
    }
}

/// Paging backwards and forwards from one cursor with limits no smaller than
/// the room's number of messages: every message of the room is on one of the
/// two pages, the message at the cursor's id is the only one on both, and so
/// the two pages together are one longer than the room's history when a
/// message has the cursor's id, and exactly as long otherwise.
pub proof fn lemma_pages_meet_at_cursor(
    rows: Seq<Model>,
    room: u32,
    cursor: u32,
    before_limit: nat,
    after_limit: nat,
    before: Seq<Model>,
    after: Seq<Model>,
)
    requires
        distinct_ids(rows),
        newest_first_page(rows, room, cursor as int, before_limit, before),
        oldest_first_page(rows, room, cursor as int, after_limit, after),
        before_limit >= room_messages(rows, room).len(),
        after_limit >= room_messages(rows, room).len(),
    ensures
        forall|r: Model|
            #[trigger] rows.contains(r) && in_room(r, room) ==> before.contains(r) || after.contains(r),
        forall|r: Model| #[trigger] before.contains(r) && after.contains(r) ==> r.id == cursor,
        forall|r: Model|
            #[trigger] rows.contains(r) && in_room(r, room) && r.id == cursor ==> before.contains(r)
                && after.contains(r),
        before.len() + after.len() == room_messages(rows, room).len() + (if exists|r: Model|
            #[trigger] rows.contains(r) && in_room(r, room) && r.id == cursor {
            1int
        } else {
            0int
        }),
{
    broadcast use vstd::set::group_set_axioms, vstd::seq_lib::seq_to_set_is_finite;

    lemma_distinct_ids_no_duplicates(rows);
    lemma_room_messages(rows, room);
    let rm = room_messages(rows, room);
    rm.unique_seq_to_set();
    let room_set = rm.to_set();
    lemma_strictly_ordered_no_duplicates(before, true);
    lemma_strictly_ordered_no_duplicates(after, false);
    before.unique_seq_to_set();
    after.unique_seq_to_set();
    let sb = before.to_set();
    let sa = after.to_set();

    assert(sb.subset_of(room_set)) by {
        assert forall|m: Model| #[trigger] sb.contains(m) implies room_set.contains(m) by {
            let i = choose|i: int| 0 <= i < before.len() && before[i] == m;
            assert(rows.contains(before[i]));
        }
    }
    assert(sa.subset_of(room_set)) by {
        assert forall|m: Model| #[trigger] sa.contains(m) implies room_set.contains(m) by {
            let i = choose|i: int| 0 <= i < after.len() && after[i] == m;
            assert(rows.contains(after[i]));
        }
    }

    // every message of the room on the cursor's side is on that page
    assert forall|r: Model| #[trigger] rows.contains(r) && in_room(r, room) && r.id <= cursor implies before.contains(r) by {
        if !before.contains(r) {
            assert(before.len() == before_limit);
            assert(sb.subset_of(room_set.remove(r)));
            vstd::set_lib::lemma_len_subset(sb, room_set.remove(r));
            assert(room_set.contains(r));
        }
    }
    assert forall|r: Model| #[trigger] rows.contains(r) && in_room(r, room) && r.id >= cursor implies after.contains(r) by {
        if !after.contains(r) {
            assert(after.len() == after_limit);
            assert(sa.subset_of(room_set.remove(r)));
            vstd::set_lib::lemma_len_subset(sa, room_set.remove(r));
            assert(room_set.contains(r));
        }
    }
    assert forall|r: Model| #[trigger] before.contains(r) && after.contains(r) implies r.id == cursor by {
        let i = choose|i: int| 0 <= i < before.len() && before[i] == r;
        let j = choose|j: int| 0 <= j < after.len() && after[j] == r;
        assert(rows.contains(before[i]));
        assert(rows.contains(after[j]));
    }

    assert(sb + sa =~= room_set) by {
        assert forall|m: Model| #[trigger] room_set.contains(m) implies (sb + sa).contains(m) by {
            assert(rows.contains(m) && in_room(m, room));
            if m.id <= cursor {
                assert(before.contains(m));
            } else {
                assert(after.contains(m));
            }
        }
    }
    vstd::set_lib::lemma_set_intersect_union_lens(sb, sa);
    let both = sb.intersect(sa);
    if exists|r: Model| #[trigger] rows.contains(r) && in_room(r, room) && r.id == cursor {
        let r = choose|r: Model| #[trigger] rows.contains(r) && in_room(r, room) && r.id == cursor;
        assert(before.contains(r) && after.contains(r));
        assert(both =~= Set::<Model>::empty().insert(r)) by {
            assert forall|m: Model| #[trigger] both.contains(m) implies m == r by {
                assert(before.contains(m) && after.contains(m));
                assert(m.id == cursor);
                let i = choose|i: int| 0 <= i < before.len() && before[i] == m;
                assert(rows.contains(before[i]));
                lemma_same_id_same_message(rows, m, r);
            }
        }
    } else {
        assert(both =~= Set::<Model>::empty()) by {
            assert forall|m: Model| #[trigger] both.contains(m) implies false by {
                assert(before.contains(m) && after.contains(m));
                assert(m.id == cursor);
                let i = choose|i: int| 0 <= i < before.len() && before[i] == m;
                assert(rows.contains(before[i]));
            }
        }
    }
}

} // verus!
