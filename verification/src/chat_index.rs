//! Lets desktop launchers list and open chats: the running app keeps a small
//! index of recent chats in the runtime directory, and `zapfast open-chat <id>`
//! asks it to open one. Locked chats never appear in the index.
//!
//! The library decides what the index holds and when it is written; the
//! app keeps the last write, reads the clock and writes the file.

use vstd::prelude::*;
use crate::text::{chars_of, join, slice_chars, starts_with, string_of};
use crate::json::{decimal, json_str, json_string_literal, json_u32};

verus! {

broadcast use vstd::string::group_string_axioms;

/// Most recent chats listed.
pub const LIMIT: usize = 60;

/// How often the index is rebuilt at most, in milliseconds.
pub const INTERVAL_MS: u64 = 2000;

/// Longest chat id accepted from another process, in bytes.
pub const ID_LIMIT: usize = 128;

/// What the index needs to know of one chat of the app.
pub struct Chat {
    /// The chat's id, as `open-chat:<id>` asks for it.
    pub id: String,
    /// The title the app shows for the chat.
    pub title: String,
    /// Messages not read yet.
    pub unread: u32,
    /// Whether the chat is a group.
    pub group: bool,
    /// Locked chats stay out of the index.
    pub locked: bool,
    /// Archived chats stay out of the index.
    pub archived: bool,
    /// When the chat last had activity; larger is more recent.
    pub last_activity: i64,
}

/// A chat that may appear in the index.
pub open spec fn listed(c: Chat) -> bool {
    !c.locked && !c.archived
}

/// The chat at position `i` comes before the one at position `j`: it is more
/// recent, or as recent and earlier in the app's list.
pub open spec fn comes_before(chats: Seq<Chat>, i: int, j: int) -> bool {
    ||| chats[i].last_activity > chats[j].last_activity
    ||| (chats[i].last_activity == chats[j].last_activity && i < j)
}

/// `order` lists the positions of the chats of the index: listed chats, most
/// recent first, at most `LIMIT` of them, and no listed chat left out that is
/// more recent than one in the list.
pub open spec fn is_recent_order(chats: Seq<Chat>, order: Seq<usize>) -> bool {
    &&& order.len() <= LIMIT
    &&& forall|k: int| 0 <= k < order.len() ==> #[trigger] order[k] < chats.len() && listed(chats[order[k] as int])
    &&& forall|a: int, b: int|
        0 <= a < b < order.len() ==> comes_before(chats, #[trigger] order[a] as int, #[trigger] order[b] as int)
    &&& forall|p: int|
        0 <= p < chats.len() && listed(#[trigger] chats[p]) && !order.contains(p as usize) ==> {
            &&& order.len() == LIMIT
            &&& forall|k: int| 0 <= k < order.len() ==> comes_before(chats, #[trigger] order[k] as int, p)
        }
}

/// Where chat `b[k]` stands in `a`, when `a` holds every chat of `b` and all
/// of them come before `a[i]`: before `i`, and no earlier than `k`.
proof fn lemma_embedding(chats: Seq<Chat>, a: Seq<usize>, b: Seq<usize>, i: int, k: int)
    requires
        is_recent_order(chats, a),
        is_recent_order(chats, b),
        0 <= i < a.len(),
        forall|j: int| 0 <= j < b.len() ==> a.contains(#[trigger] b[j]),
        forall|j: int| 0 <= j < b.len() ==> comes_before(chats, #[trigger] b[j] as int, a[i] as int),
        0 <= k < b.len(),
    ensures
        exists|m: int| k <= m < i && a[m] == b[k],
    decreases k,
{
    let m = choose|m: int| 0 <= m < a.len() && a[m] == b[k];
    assert(comes_before(chats, b[k] as int, a[i] as int));
    if m > i {
        assert(comes_before(chats, a[i] as int, a[m] as int));
    }
    if k > 0 {
        lemma_embedding(chats, a, b, i, k - 1);
        let m1 = choose|m1: int| k - 1 <= m1 < i && a[m1] == b[k - 1];
        assert(comes_before(chats, b[k - 1] as int, b[k] as int));
        if m < m1 {
            assert(comes_before(chats, a[m] as int, a[m1] as int));
        }
    }
    assert(k <= m < i && a[m] == b[k]);
}

/// Every chat of one recent order is in another one.
proof fn lemma_contained(chats: Seq<Chat>, a: Seq<usize>, b: Seq<usize>, i: int)
    requires
        is_recent_order(chats, a),
        is_recent_order(chats, b),
        0 <= i < a.len(),
    ensures
        b.contains(a[i]),
{
    let x = a[i];
    if !b.contains(x) {
        assert(listed(chats[x as int]));
        assert forall|j: int| 0 <= j < b.len() implies a.contains(#[trigger] b[j]) by {
            let y = b[j];
            assert(comes_before(chats, y as int, x as int));
            if !a.contains(y) {
                assert(listed(chats[y as int]));
                assert(comes_before(chats, a[i] as int, y as int));
            }
        }
        assert forall|j: int| 0 <= j < b.len() implies comes_before(chats, #[trigger] b[j] as int, a[i] as int) by {
            assert(comes_before(chats, b[j] as int, x as int));
        }
        lemma_embedding(chats, a, b, i, b.len() - 1);
    }
}

/// Two recent orders agree up to position `k`.
proof fn lemma_same_prefix(chats: Seq<Chat>, a: Seq<usize>, b: Seq<usize>, k: int)
    requires
        is_recent_order(chats, a),
        is_recent_order(chats, b),
        0 <= k < a.len(),
        k < b.len(),
    ensures
        forall|m: int| 0 <= m <= k ==> a[m] == b[m],
    decreases k,
{
    if k > 0 {
        lemma_same_prefix(chats, a, b, k - 1);
    }
    lemma_contained(chats, a, b, k);
    lemma_contained(chats, b, a, k);
    let j = choose|j: int| 0 <= j < b.len() && b[j] == a[k];
    let n = choose|n: int| 0 <= n < a.len() && a[n] == b[k];
    if j < k {
        assert(a[j] == b[j]);
        assert(comes_before(chats, a[j] as int, a[k] as int));
    }
    if n < k {
        assert(a[n] == b[n]);
        assert(comes_before(chats, b[n] as int, b[k] as int));
    }
    if j > k {
        assert(comes_before(chats, b[k] as int, b[j] as int));
        if n > k {
            assert(comes_before(chats, a[k] as int, a[n] as int));
        }
    }
}

/// The chats of the index are determined: two orders that both list them
/// are the same.
pub proof fn law_recent_order_is_unique(chats: Seq<Chat>, a: Seq<usize>, b: Seq<usize>)
    requires
        is_recent_order(chats, a),
        is_recent_order(chats, b),
    ensures
        a == b,
{
    if a.len() > 0 && b.len() > 0 {
        let k = if a.len() < b.len() { a.len() - 1 } else { b.len() - 1 };
        lemma_same_prefix(chats, a, b, k);
    }
    if a.len() < b.len() {
        lemma_contained(chats, b, a, a.len() as int);
        let n = choose|n: int| 0 <= n < a.len() && a[n] == b[a.len() as int];
        assert(a[n] == b[n]);
        assert(comes_before(chats, b[n] as int, b[a.len() as int] as int));
    } else if b.len() < a.len() {
        lemma_contained(chats, a, b, b.len() as int);
        let n = choose|n: int| 0 <= n < b.len() && b[n] == a[b.len() as int];
        assert(a[n] == b[n]);
        assert(comes_before(chats, a[n] as int, a[b.len() as int] as int));
    }
    assert(a =~= b);
}

/// The positions of the chats of the index.
pub open spec fn recent_order(chats: Seq<Chat>) -> Seq<usize> {
    choose|order: Seq<usize>| is_recent_order(chats, order)
}

/// Whether the chat at position `i` comes before the one at position `j`.
fn precedes(chats: &[Chat], i: usize, j: usize) -> (res: bool)
    requires
        i < chats@.len(),
        j < chats@.len(),
    ensures
        res == comes_before(chats@, i as int, j as int),
{
    let a = chats[i].last_activity;
    let b = chats[j].last_activity;
    a > b || (a == b && i < j)
}

/// The positions of the chats of the index, most recent first.
pub fn recent(chats: &[Chat]) -> (order: Vec<usize>)
    ensures
        is_recent_order(chats@, order@),
        order@ == recent_order(chats@),
{
    let mut order: Vec<usize> = Vec::new();
    for i in 0..chats.len()
        invariant
            forall|k: int| 0 <= k < order@.len() ==> #[trigger] order@[k] < i && listed(chats@[order@[k] as int]),
            forall|a: int, b: int|
                0 <= a < b < order@.len() ==> comes_before(chats@, #[trigger] order@[a] as int, #[trigger] order@[b] as int),
            forall|p: int| 0 <= p < i && listed(#[trigger] chats@[p]) ==> order@.contains(p as usize),
    {
        if !chats[i].locked && !chats[i].archived {
            let mut k: usize = 0;
            while k < order.len()
                invariant
                    0 <= k <= order@.len(),
                    i < chats@.len(),
                    forall|m: int| 0 <= m < order@.len() ==> #[trigger] order@[m] < i && listed(chats@[order@[m] as int]),
                    forall|m: int| 0 <= m < k ==> comes_before(chats@, #[trigger] order@[m] as int, i as int),
                ensures
                    0 <= k <= order@.len(),
                    forall|m: int| 0 <= m < k ==> comes_before(chats@, #[trigger] order@[m] as int, i as int),
                    k < order@.len() ==> comes_before(chats@, i as int, order@[k as int] as int),
                decreases order@.len() - k,
            {
                if precedes(chats, i, order[k]) {
                    break;
                }
                k = k + 1;
            }
            let ghost prev = order@;
            order.insert(k, i);
            proof {
                assert(forall|m: int| k <= m < prev.len() ==> comes_before(chats@, i as int, #[trigger] prev[m] as int)) by {
                    if k < prev.len() {
                        assert(comes_before(chats@, i as int, prev[k as int] as int));
                    }
                    assert forall|m: int| k <= m < prev.len() implies comes_before(chats@, i as int, #[trigger] prev[m] as int) by {
                        if m > k {
                            assert(comes_before(chats@, prev[k as int] as int, prev[m] as int));
                        }
                    }
                }
                assert forall|a: int, b: int| 0 <= a < b < order@.len() implies comes_before(chats@, #[trigger] order@[a] as int, #[trigger] order@[b] as int) by {
                    if b < k {
                        assert(order@[a] == prev[a] && order@[b] == prev[b]);
                    } else if b == k {
                        assert(order@[a] == prev[a]);
                    } else if a == k {
                        assert(order@[b] == prev[b - 1]);
                    } else if a < k {
                        assert(order@[a] == prev[a] && order@[b] == prev[b - 1]);
                    } else {
                        assert(order@[a] == prev[a - 1] && order@[b] == prev[b - 1]);
                    }
                }
                assert forall|p: int| 0 <= p < i + 1 && listed(#[trigger] chats@[p]) implies order@.contains(p as usize) by {
                    if p == i {
                        assert(order@[k as int] == i);
                    } else {
                        let m = choose|m: int| 0 <= m < prev.len() && prev[m] == p as usize;
                        if m < k {
                            assert(order@[m] == prev[m]);
                        } else {
                            assert(order@[m + 1] == prev[m]);
                        }
                    }
                }
            }
        }
    }
    let ghost full = order@;
    order.truncate(LIMIT);
    proof {
        assert forall|p: int| 0 <= p < chats@.len() && listed(#[trigger] chats@[p]) && !order@.contains(p as usize) implies {
            &&& order@.len() == LIMIT
            &&& forall|k: int| 0 <= k < order@.len() ==> comes_before(chats@, #[trigger] order@[k] as int, p)
        } by {
            let m = choose|m: int| 0 <= m < full.len() && full[m] == p as usize;
            if m < LIMIT {
                assert(order@[m] == full[m]);
            }
            assert forall|k: int| 0 <= k < order@.len() implies comes_before(chats@, #[trigger] order@[k] as int, p) by {
                assert(order@[k] == full[k]);
            }
        }
        assert(is_recent_order(chats@, order@));
        assert(exists|o: Seq<usize>| is_recent_order(chats@, o));
        law_recent_order_is_unique(chats@, order@, recent_order(chats@));
    }
    order
}

/// One chat of the index as JSON: an object with its id, title, unread
/// count and whether it is a group, in that order.
pub open spec fn entry_json(c: Chat) -> Seq<char> {
    "{\"id\":"@ + json_string_literal(c.id@) + ",\"name\":"@ + json_string_literal(c.title@)
        + ",\"unread\":"@ + decimal(c.unread as nat) + ",\"group\":"@ + (if c.group {
        "true"@
    } else {
        "false"@
    }) + "}"@
}

/// The index file: a JSON array of the chats at the positions of `order`.
pub open spec fn index_json(chats: Seq<Chat>, order: Seq<usize>) -> Seq<char> {
    "["@ + join(order.map_values(|p: usize| entry_json(chats[p as int])), ","@) + "]"@
}

/// The JSON object of one chat.
fn entry(c: &Chat) -> (res: String)
    ensures
        res@ == entry_json(*c),
{
    let mut out = "{\"id\":".to_owned();
    out.append(json_str(c.id.as_str()).as_str());
    out.append(",\"name\":");
    out.append(json_str(c.title.as_str()).as_str());
    out.append(",\"unread\":");
    out.append(json_u32(c.unread).as_str());
    out.append(",\"group\":");
    if c.group {
        out.append("true");
    } else {
        out.append("false");
    }
    out.append("}");
    out
}

/// The index file for the chats at the positions of `order`.
pub fn index_of(chats: &[Chat], order: &[usize]) -> (json: String)
    requires
        forall|k: int| 0 <= k < order@.len() ==> #[trigger] order@[k] < chats@.len(),
    ensures
        json@ == index_json(chats@, order@),
{
    let ghost parts = order@.map_values(|p: usize| entry_json(chats@[p as int]));
    let mut body = String::new();
    for k in 0..order.len()
        invariant
            forall|m: int| 0 <= m < order@.len() ==> #[trigger] order@[m] < chats@.len(),
            parts == order@.map_values(|p: usize| entry_json(chats@[p as int])),
            body@ == join(parts.take(k as int), ","@),
    {
        proof {
            assert(parts.take(k + 1).drop_last() == parts.take(k as int));
        }
        if k > 0 {
            body.append(",");
        }
        let e = entry(&chats[order[k]]);
        body.append(e.as_str());
        proof {
            if k == 0 {
                assert(parts.take(1) =~= seq![parts[0]]);
            }
        }
    }
    assert(parts.take(order@.len() as int) == parts);
    let mut json = "[".to_owned();
    json.append(body.as_str());
    json.append("]");
    json
}

/// The index file for the chats `chats`.
pub open spec fn index_text(chats: Seq<Chat>) -> Seq<char> {
    index_json(chats, recent_order(chats))
}

/// The index file for the app's chats.
pub fn index(chats: &[Chat]) -> (json: String)
    ensures
        json@ == index_text(chats@),
{
    let order = recent(chats);
    index_of(chats, order.as_slice())
}

/// The last index written, and when, in milliseconds of the app's clock.
pub struct Written {
    pub at: u64,
    pub json: String,
}

/// What `sync` remembers between calls.
pub struct IndexState {
    pub last: Option<Written>,
}

/// What the app does after `sync`.
pub enum SyncAction {
    /// The last index is younger than `INTERVAL_MS`: nothing is done.
    Wait,
    /// The index is unchanged: nothing is written, and the interval starts again.
    Keep,
    /// The index changed: the app writes it.
    Write(String),
}

/// Milliseconds from `at` to `now`, or 0 when `now` is earlier.
pub open spec fn elapsed(now: u64, at: u64) -> int {
    if now >= at {
        now - at
    } else {
        0
    }
}

/// The last index was taken less than `INTERVAL_MS` ago.
pub open spec fn throttled(last: Option<Written>, now: u64) -> bool {
    last matches Some(w) && elapsed(now, w.at) < INTERVAL_MS
}

/// The last index holds `json`.
pub open spec fn unchanged(last: Option<Written>, json: Seq<char>) -> bool {
    last matches Some(w) && w.json@ == json
}

/// Rewrites the index when the recent chats changed, at most every
/// `INTERVAL_MS`. `now` is the app's monotonic clock in milliseconds.
pub fn sync(state: &mut IndexState, now: u64, chats: &[Chat]) -> (action: SyncAction)
    ensures
        throttled(old(state).last, now) ==> action is Wait && final(state).last == old(state).last,
        !throttled(old(state).last, now) ==> {
            &&& final(state).last matches Some(w) && w.at == now && w.json@ == index_text(chats@)
            &&& if unchanged(old(state).last, index_text(chats@)) {
                action is Keep
            } else {
                action matches SyncAction::Write(j) && j@ == index_text(chats@)
            }
        },
{
    let waiting = match &state.last {
        Some(w) => now < w.at || now - w.at < INTERVAL_MS,
        None => false,
    };
    if waiting {
        return SyncAction::Wait;
    }
    let json = index(chats);
    let same = match &state.last {
        Some(w) => w.json == json,
        None => false,
    };
    let action = if same {
        SyncAction::Keep
    } else {
        SyncAction::Write(json.clone())
    };
    state.last = Some(Written { at: now, json });
    action
}

/// `char::is_ascii_alphanumeric`: an ASCII digit or letter.
pub open spec fn ascii_alphanumeric(c: char) -> bool {
    ('0' <= c <= '9') || ('a' <= c <= 'z') || ('A' <= c <= 'Z')
}

/// A character that chat ids may hold.
pub open spec fn id_char(c: char) -> bool {
    ascii_alphanumeric(c) || c == '@' || c == '.' || c == '_' || c == '-' || c == ':'
}

/// What the app accepts as a chat id from another process: not empty, at
/// most `ID_LIMIT` bytes in UTF-8, and only `id_char` characters.
pub open spec fn valid_chat_id(id: Seq<char>) -> bool {
    &&& id.len() > 0
    &&& vstd::utf8::encode_utf8(id).len() <= ID_LIMIT
    &&& forall|i: int| 0 <= i < id.len() ==> id_char(#[trigger] id[i])
}

/// The chat id in an `open-chat:<id>` request, if it looks like one.
pub open spec fn open_request(verb: Seq<char>) -> Option<Seq<char>> {
    let id = verb.skip("open-chat:"@.len() as int);
    if "open-chat:"@.is_prefix_of(verb) && valid_chat_id(id) {
        Some(id)
    } else {
        None
    }
}

fn is_id_char(c: char) -> (res: bool)
    ensures
        res == id_char(c),
{
    ('0' <= c && c <= '9') || ('a' <= c && c <= 'z') || ('A' <= c && c <= 'Z') || c == '@' || c == '.'
        || c == '_' || c == '-' || c == ':'
}

/// The chat id in an `open-chat:<id>` request, if it looks like one.
pub fn parse_open(verb: &str) -> (res: Option<String>)
    ensures
        match res {
            Some(id) => open_request(verb@) == Some(id@),
            None => open_request(verb@) is None,
        },
{
    let v = chars_of(verb);
    let prefix = chars_of("open-chat:");
    if !starts_with(&v, &prefix) {
        return None;
    }
    let id = slice_chars(&v, prefix.len(), v.len());
    assert(id@ =~= verb@.skip("open-chat:"@.len() as int));
    if id.len() == 0 {
        return None;
    }
    for i in 0..id.len()
        invariant
            id@ == verb@.skip("open-chat:"@.len() as int),
            forall|j: int| 0 <= j < i ==> id_char(#[trigger] id@[j]),
    {
        if !is_id_char(id[i]) {
            assert(!id_char(id@[i as int]));
            return None;
        }
    }
    proof {
        assert(vstd::utf8::is_ascii_chars(id@));
        vstd::utf8::is_ascii_chars_encode_utf8(id@);
    }
    if id.len() > ID_LIMIT {
        return None;
    }
    Some(string_of(&id))
}

/// Locked and archived chats never appear in the index.
pub proof fn law_index_leaves_out_locked_and_archived(chats: Seq<Chat>, order: Seq<usize>)
    requires
        is_recent_order(chats, order),
    ensures
        forall|k: int|
            0 <= k < order.len() ==> !chats[#[trigger] order[k] as int].locked && !chats[order[k] as int].archived,
{
}

/// `open-chat:<id>` asks for exactly the chat `id`, for every id that looks
/// like one, and a request is only ever answered with the id it carries.
pub proof fn law_open_request_round_trip(verb: Seq<char>, id: Seq<char>)
    ensures
        valid_chat_id(id) ==> open_request("open-chat:"@ + id) == Some(id),
        open_request(verb) == Some(id) ==> verb == "open-chat:"@ + id && valid_chat_id(id),
{
    let p = "open-chat:"@;
    assert((p + id).skip(p.len() as int) =~= id);
    assert((p + id).subrange(0, p.len() as int) =~= p);
    if open_request(verb) == Some(id) {
        assert(verb =~= p + verb.skip(p.len() as int));
    }
}

/// The index is written at most once every `INTERVAL_MS`: after `sync`
/// keeps or writes an index at `at`, every call before `at + INTERVAL_MS`
/// waits.
pub proof fn law_writes_are_spaced(last: Written, now: u64)
    requires
        last.at <= now < last.at + INTERVAL_MS,
    ensures
        throttled(Some(last), now),
{
}

/// The index counts as unchanged exactly when the text written last is the
/// new index text, character for character: any other difference, such as
/// one unread count, makes `sync` write the new index.
pub proof fn law_only_an_identical_index_is_kept(last: Option<Written>, json: Seq<char>)
    ensures
        unchanged(last, json) ==> last is Some && forall|i: int| 0 <= i < json.len() ==> last->0.json@[i] == json[i],
        unchanged(last, json) ==> last->0.json@.len() == json.len(),
        last is Some && last->0.json@ != json ==> !unchanged(last, json),
        last is Some && last->0.json@ == json ==> unchanged(last, json),
        last is None ==> !unchanged(last, json),
{
}

/// The index lists at most 60 chats, none locked or archived, the most
/// recent first; a chat that is neither locked nor archived is left out only
/// when 60 chats at least as recent are listed.
pub proof fn law_index_lists_the_most_recent_chats(chats: Seq<Chat>, o: Seq<usize>)
    requires
        is_recent_order(chats, o),
    ensures
        ({
            &&& o.len() <= 60
            &&& forall|k: int| 0 <= k < o.len() ==> #[trigger] o[k] < chats.len() && !chats[o[k] as int].locked && !chats[o[k] as int].archived
            &&& forall|a: int, b: int|
                0 <= a < b < o.len() ==> chats[#[trigger] o[a] as int].last_activity >= chats[#[trigger] o[b] as int].last_activity
            &&& forall|p: int|
                0 <= p < chats.len() && !(#[trigger] chats[p]).locked && !chats[p].archived && !o.contains(p as usize) ==> {
                    &&& o.len() == 60
                    &&& forall|k: int| 0 <= k < o.len() ==> chats[#[trigger] o[k] as int].last_activity >= chats[p].last_activity
                }
        }),
{
}

/// A request is answered only with an id of 1 to 128 characters, each an
/// ASCII letter or digit or one of `@ . _ - :`, taken whole from after
/// `open-chat:`.
pub proof fn law_open_requests_carry_plain_ids(verb: Seq<char>, id: Seq<char>)
    requires
        open_request(verb) == Some(id),
    ensures
        verb == "open-chat:"@ + id,
        1 <= id.len() <= 128,
        forall|i: int|
            0 <= i < id.len() ==> {
                let c = #[trigger] id[i];
                ||| ('0' <= c <= '9') || ('a' <= c <= 'z') || ('A' <= c <= 'Z')
                ||| c == '@' || c == '.' || c == '_' || c == '-' || c == ':'
            },
{
    law_open_request_round_trip(verb, id);
    assert(vstd::utf8::is_ascii_chars(id)) by {
        assert forall|i: int| 0 <= i < id.len() implies '\0' <= #[trigger] id[i] <= '\u{7f}' by {
            assert(id_char(id[i]));
        }
    }
    vstd::utf8::is_ascii_chars_encode_utf8(id);
}

} // verus!
