//! Laws of the coordinator, proved from the event handlers' contracts
//! alone: uniqueness of the session table, what a ban blocks, when strike
//! counts may fall, who a broadcast may reach, and what a token rejection
//! leaves untouched.

use vstd::prelude::*;
use vstd::utf8::valid_utf8;
use crate::table::{Session, lemma_smap_index, skey, smap, bmap, has_addr};
use crate::text::trim_spec;
use crate::coordinator::{
    ActionV, CoordView, NoticeV, ban_remaining, broadcast_acts, chat_line, connected_post,
    disconnected_post, elapsed_since, message_post, on_time, still_banned, view_wf, BAN_WINDOW_MS,
};

verus! {

/// Law: the session table holds at most one entry per remote address:
/// two entries with the same address are the same entry.
pub proof fn lemma_one_session_per_address(m: CoordView, i: int, j: int)
    requires
        view_wf(m),
        0 <= i < m.sessions.len(),
        0 <= j < m.sessions.len(),
        skey(m.sessions[i]) == skey(m.sessions[j]),
    ensures
        i == j,
{
}

/// Law: the table's map view is faithful: each live session stands in it
/// under its own address.
pub proof fn lemma_table_faithful(m: CoordView, i: int)
    requires
        view_wf(m),
        0 <= i < m.sessions.len(),
    ensures
        smap(m.sessions).contains_key(skey(m.sessions[i])),
        smap(m.sessions)[skey(m.sessions[i])] == m.sessions[i],
{
    lemma_smap_index(m.sessions, i);
}

/// Law: while an origin's ban is current, a connection attempt from it
/// changes neither table and creates no session; the client is told the
/// remaining time and cut off.
pub proof fn lemma_ban_blocks(
    pre: CoordView,
    post: CoordView,
    acts: Seq<ActionV>,
    host: u64,
    port: u16,
    now: u64,
)
    requires
        connected_post(pre, post, acts, host, port, now),
        still_banned(bmap(pre.bans), host, now),
    ensures
        post.sessions == pre.sessions,
        post.bans == pre.bans,
        acts.len() == 2,
        acts[0] == (ActionV::Send {
            host,
            port,
            notice: NoticeV::BanNotice { remaining_ms: ban_remaining(bmap(pre.bans)[host], now) },
        }),
        acts[1] == (ActionV::Shutdown { host, port }),
{
}

/// Law: with the clock moving forward, the remaining time a blocked
/// origin is told strictly decreases across repeated attempts within the
/// ban window.
pub proof fn lemma_ban_remaining_decreases(since: u64, now1: u64, now2: u64)
    requires
        since <= now1 < now2,
        elapsed_since(now2, since) < BAN_WINDOW_MS,
    ensures
        ban_remaining(since, now1) > ban_remaining(since, now2),
{
}

/// Law: handling a message never touches the session of any other
/// address, and never lowers a surviving session's strike count, except
/// the author's own on an on-time, decodable message accepted after
/// authentication, which resets it to zero.
pub proof fn lemma_strikes_reset_only_on_accept(
    pre: CoordView,
    post: CoordView,
    acts: Seq<ActionV>,
    host: u64,
    port: u16,
    bytes: Seq<u8>,
    now: u64,
    a: (u64, u16),
)
    requires
        view_wf(pre),
        message_post(pre, post, acts, host, port, bytes, now),
        smap(pre.sessions).contains_key(a),
        smap(post.sessions).contains_key(a),
    ensures
        a != (host, port) ==> smap(post.sessions)[a] == smap(pre.sessions)[a],
        smap(post.sessions)[a].strikes < smap(pre.sessions)[a].strikes ==> (a == (host, port)
            && smap(pre.sessions)[a].authed && on_time(smap(pre.sessions)[a], now) && valid_utf8(
            bytes,
        ) && smap(post.sessions)[a].strikes == 0),
{
}

/// Law: every chat send an event produces goes to a session that was
/// already authenticated when the event arrived and is not the author,
/// and carries the author's line.
pub proof fn lemma_no_broadcast_before_auth(
    pre: CoordView,
    post: CoordView,
    acts: Seq<ActionV>,
    host: u64,
    port: u16,
    bytes: Seq<u8>,
    now: u64,
    n: int,
    h2: u64,
    p2: u16,
    l: Seq<u8>,
)
    requires
        view_wf(pre),
        message_post(pre, post, acts, host, port, bytes, now),
        0 <= n < acts.len(),
        acts[n] == (ActionV::Send { host: h2, port: p2, notice: NoticeV::Chat { line: l } }),
    ensures
        has_addr(pre.sessions, (h2, p2)),
        smap(pre.sessions)[(h2, p2)].authed,
        (h2, p2) != (host, port),
        smap(pre.sessions)[(host, port)].authed,
        l == chat_line(bytes),
{
    let k = (host, port);
    let sm = smap(pre.sessions);
    if sm.contains_key(k) && sm[k].authed && on_time(sm[k], now) && valid_utf8(bytes) {
        lemma_broadcast_targets(pre.sessions, host, port, chat_line(bytes), n);
        let i = choose|i: int|
            0 <= i < pre.sessions.len() && pre.sessions[i].authed && skey(pre.sessions[i]) != (
            host,
            port,
            ) && acts[n] == ActionV::Send {
                host: pre.sessions[i].host,
                port: pre.sessions[i].port,
                notice: NoticeV::Chat { line: chat_line(bytes) },
            };
        lemma_smap_index(pre.sessions, i);
        assert(skey(pre.sessions[i]) == (h2, p2));
    }
}

/// Each element of the broadcast fan-out is a chat send to some
/// authenticated session other than the sender.
pub proof fn lemma_broadcast_targets(ss: Seq<Session>, host: u64, port: u16, line: Seq<u8>, n: int)
    requires
        0 <= n < broadcast_acts(ss, host, port, line).len(),
    ensures
        (exists|i: int|
            0 <= i < ss.len() && ss[i].authed && skey(ss[i]) != (host, port)
                && broadcast_acts(ss, host, port, line)[n] == (ActionV::Send {
                host: ss[i].host,
                port: ss[i].port,
                notice: NoticeV::Chat { line },
            })),
    decreases ss.len(),
{
    let acts = broadcast_acts(ss, host, port, line);
    let rest = broadcast_acts(ss.drop_last(), host, port, line);
    if n < rest.len() {
        lemma_broadcast_targets(ss.drop_last(), host, port, line, n);
        let i = choose|i: int|
            0 <= i < ss.drop_last().len() && ss.drop_last()[i].authed && skey(
                ss.drop_last()[i],
            ) != (host, port) && rest[n] == ActionV::Send {
                host: ss.drop_last()[i].host,
                port: ss.drop_last()[i].port,
                notice: NoticeV::Chat { line },
            };
        assert(ss.drop_last()[i] == ss[i]);
        assert(acts[n] == rest[n]);
    } else {
        let s = ss.last();
        assert(s.authed && skey(s) != (host, port));
        assert(acts[n] == ActionV::Send {
            host: s.host,
            port: s.port,
            notice: NoticeV::Chat { line },
        });
        assert(0 <= ss.len() - 1 < ss.len() && ss[ss.len() - 1] == s);
    }
}

/// Law: a connection event touches no session of another address.
pub proof fn lemma_connect_touches_only_its_address(
    pre: CoordView,
    post: CoordView,
    acts: Seq<ActionV>,
    host: u64,
    port: u16,
    now: u64,
    a: (u64, u16),
)
    requires
        connected_post(pre, post, acts, host, port, now),
        a != (host, port),
        smap(pre.sessions).contains_key(a),
    ensures
        smap(post.sessions).contains_key(a),
        smap(post.sessions)[a] == smap(pre.sessions)[a],
{
}

/// Law: a disconnect removes its own session alone.
pub proof fn lemma_disconnect_touches_only_its_address(
    pre: CoordView,
    post: CoordView,
    acts: Seq<ActionV>,
    host: u64,
    port: u16,
    a: (u64, u16),
)
    requires
        disconnected_post(pre, post, acts, host, port),
        a != (host, port),
        smap(pre.sessions).contains_key(a),
    ensures
        smap(post.sessions).contains_key(a),
        smap(post.sessions)[a] == smap(pre.sessions)[a],
{
}

/// Law: a wrong token submission is a one-shot gate failure, not abuse:
/// the ban table is untouched, every other session keeps its state, and
/// only the author's session is removed, with a rejection notice and a
/// shutdown.
pub proof fn lemma_rejection_is_not_abuse(
    pre: CoordView,
    post: CoordView,
    acts: Seq<ActionV>,
    host: u64,
    port: u16,
    bytes: Seq<u8>,
    now: u64,
)
    requires
        view_wf(pre),
        message_post(pre, post, acts, host, port, bytes, now),
        smap(pre.sessions).contains_key((host, port)),
        !smap(pre.sessions)[(host, port)].authed,
        valid_utf8(bytes),
        trim_spec(bytes) != pre.token,
    ensures
        post.bans == pre.bans,
        smap(post.sessions) == smap(pre.sessions).remove((host, port)),
        acts == seq![
            ActionV::Send { host, port, notice: NoticeV::Rejected },
            ActionV::Shutdown { host, port },
        ],
{
}

} // verus!
