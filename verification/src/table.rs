//! The session table and the ban table.
//!
//! Both tables live in plain vectors owned by the coordinator.  Their
//! contracts speak of a map view: the session table as a map from remote
//! address (host and port) to session state, the ban table as a map from
//! origin host to the time its ban began.  The lemmas here relate the
//! vector operations the coordinator performs to those maps.

use vstd::prelude::*;

verus! {

/// Server-side state of one live connection.
#[derive(Clone, Copy, Debug)]
pub struct Session {
    /// Origin host of the connection, as a numeric identity.
    pub host: u64,
    /// Remote port; host and port together key the session table.
    pub port: u16,
    /// When the last message accepted for broadcast arrived, if any.
    pub last_accepted: Option<u64>,
    /// Abuse strikes accumulated so far.
    pub strikes: u32,
    /// Whether authentication has succeeded.
    pub authed: bool,
}

/// One origin's ban: the time the ban began, keyed by host alone so all
/// connections from one origin share it.
#[derive(Clone, Copy, Debug)]
pub struct Ban {
    pub host: u64,
    pub since_ms: u64,
}

/// The session table key: the remote address.
pub open spec fn skey(s: Session) -> (u64, u16) {
    (s.host, s.port)
}

/// Some session in `ss` has address `k`.
pub open spec fn has_addr(ss: Seq<Session>, k: (u64, u16)) -> bool {
    exists|i: int| 0 <= i < ss.len() && skey(ss[i]) == k
}

/// No two sessions share an address.
pub open spec fn unique_addrs(ss: Seq<Session>) -> bool {
    forall|i: int, j: int| 0 <= i < j < ss.len() ==> skey(ss[i]) != skey(ss[j])
}

/// The session table as a map from address to session.
pub open spec fn smap(ss: Seq<Session>) -> Map<(u64, u16), Session> {
    Map::new(
        |k: (u64, u16)| has_addr(ss, k),
        |k: (u64, u16)| ss[choose|i: int| 0 <= i < ss.len() && skey(ss[i]) == k],
    )
}

/// Some ban in `bs` is for host `h`.
pub open spec fn has_host(bs: Seq<Ban>, h: u64) -> bool {
    exists|i: int| 0 <= i < bs.len() && bs[i].host == h
}

/// No two bans share a host.
pub open spec fn unique_hosts(bs: Seq<Ban>) -> bool {
    forall|i: int, j: int| 0 <= i < j < bs.len() ==> bs[i].host != bs[j].host
}

/// The ban table as a map from host to the time its ban began.
pub open spec fn bmap(bs: Seq<Ban>) -> Map<u64, u64> {
    Map::new(
        |h: u64| has_host(bs, h),
        |h: u64| bs[choose|i: int| 0 <= i < bs.len() && bs[i].host == h].since_ms,
    )
}

/// In a table without duplicate addresses, the map view holds each
/// session under its own address.
pub proof fn lemma_smap_index(ss: Seq<Session>, i: int)
    requires
        unique_addrs(ss),
        0 <= i < ss.len(),
    ensures
        smap(ss).contains_key(skey(ss[i])),
        smap(ss)[skey(ss[i])] == ss[i],
{
    let k = skey(ss[i]);
    assert(has_addr(ss, k));
    let j = choose|i: int| 0 <= i < ss.len() && skey(ss[i]) == k;
    if i < j {
        assert(skey(ss[i]) != skey(ss[j]));
    }
    if j < i {
        assert(skey(ss[j]) != skey(ss[i]));
    }
}

/// An address no session carries is not in the map view.
pub proof fn lemma_smap_absent(ss: Seq<Session>, k: (u64, u16))
    requires
        forall|i: int| 0 <= i < ss.len() ==> skey(ss[i]) != k,
    ensures
        !smap(ss).contains_key(k),
{
}

/// Appending a session with a new address inserts it into the map view.
pub proof fn lemma_smap_push(ss: Seq<Session>, x: Session)
    requires
        unique_addrs(ss),
        !has_addr(ss, skey(x)),
    ensures
        unique_addrs(ss.push(x)),
        smap(ss.push(x)) == smap(ss).insert(skey(x), x),
{
    let t = ss.push(x);
    assert forall|i: int, j: int| 0 <= i < j < t.len() implies skey(t[i]) != skey(t[j]) by {
        if j == ss.len() {
            assert(t[i] == ss[i]);
            if skey(ss[i]) == skey(x) {
                assert(has_addr(ss, skey(x)));
            }
        } else {
            assert(t[i] == ss[i] && t[j] == ss[j]);
        }
    }
    assert forall|k: (u64, u16)|
        has_addr(t, k) == (k == skey(x) || has_addr(ss, k)) by {
        if has_addr(t, k) {
            let i = choose|i: int| 0 <= i < t.len() && skey(t[i]) == k;
            if i < ss.len() {
                assert(t[i] == ss[i]);
                assert(has_addr(ss, k));
            } else {
                assert(t[i] == x);
            }
        }
        if k == skey(x) {
            assert(skey(t[ss.len() as int]) == k);
            assert(has_addr(t, k));
        }
        if has_addr(ss, k) {
            let i = choose|i: int| 0 <= i < ss.len() && skey(ss[i]) == k;
            assert(skey(t[i]) == k);
            assert(has_addr(t, k));
        }
    }
    assert forall|k: (u64, u16)| #[trigger] smap(t).contains_key(k)
        implies smap(t)[k] == smap(ss).insert(skey(x), x)[k] by {
        let i = choose|i: int| 0 <= i < t.len() && skey(t[i]) == k;
        if k == skey(x) {
            if i < ss.len() {
                assert(t[i] == ss[i]);
                assert(has_addr(ss, k));
                assert(false);
            }
            assert(smap(t)[k] == x);
        } else {
            assert(i < ss.len());
            assert(t[i] == ss[i]);
            lemma_smap_index(ss, i);
            assert(smap(t)[k] == ss[i]);
        }
    }
    assert(smap(t) =~= smap(ss).insert(skey(x), x));
}

/// Overwriting a session in place, keeping its address, updates the map
/// view at that address.
pub proof fn lemma_smap_update(ss: Seq<Session>, i: int, x: Session)
    requires
        unique_addrs(ss),
        0 <= i < ss.len(),
        skey(x) == skey(ss[i]),
    ensures
        unique_addrs(ss.update(i, x)),
        smap(ss.update(i, x)) == smap(ss).insert(skey(x), x),
{
    let t = ss.update(i, x);
    assert forall|j: int| 0 <= j < t.len() implies skey(t[j]) == skey(ss[j]) by {
        if j != i {
            assert(t[j] == ss[j]);
        }
    }
    assert forall|k: (u64, u16)| has_addr(t, k) == has_addr(ss, k) by {
        if has_addr(t, k) {
            let j = choose|i: int| 0 <= i < t.len() && skey(t[i]) == k;
            assert(skey(ss[j]) == k);
            assert(has_addr(ss, k));
        }
        if has_addr(ss, k) {
            let j = choose|i: int| 0 <= i < ss.len() && skey(ss[i]) == k;
            assert(skey(t[j]) == k);
            assert(has_addr(t, k));
        }
    }
    assert forall|k: (u64, u16)| #[trigger] smap(t).contains_key(k)
        implies smap(t)[k] == smap(ss).insert(skey(x), x)[k] by {
        let j = choose|i: int| 0 <= i < t.len() && skey(t[i]) == k;
        if k == skey(x) {
            if j != i {
                assert(skey(ss[j]) == skey(ss[i]));
                if j < i {
                    assert(skey(ss[j]) != skey(ss[i]));
                } else {
                    assert(skey(ss[i]) != skey(ss[j]));
                }
                assert(false);
            }
            assert(smap(t)[k] == x);
        } else {
            assert(j != i);
            assert(t[j] == ss[j]);
            lemma_smap_index(ss, j);
            assert(smap(t)[k] == ss[j]);
        }
    }
    assert(smap(t) =~= smap(ss).insert(skey(x), x));
}

/// Removing the session at one index removes its address from the map
/// view.
pub proof fn lemma_smap_remove(ss: Seq<Session>, i: int)
    requires
        unique_addrs(ss),
        0 <= i < ss.len(),
    ensures
        unique_addrs(ss.remove(i)),
        smap(ss.remove(i)) == smap(ss).remove(skey(ss[i])),
{
    let t = ss.remove(i);
    assert forall|j: int| 0 <= j < t.len() implies t[j] == (if j < i {
        ss[j]
    } else {
        ss[j + 1]
    }) by {
    }
    assert forall|a: int, b: int| 0 <= a < b < t.len() implies skey(t[a]) != skey(t[b]) by {
        let a2 = if a < i { a } else { a + 1 };
        let b2 = if b < i { b } else { b + 1 };
        assert(t[a] == ss[a2] && t[b] == ss[b2]);
        assert(a2 < b2);
    }
    assert forall|k: (u64, u16)|
        has_addr(t, k) == (k != skey(ss[i]) && has_addr(ss, k)) by {
        if has_addr(t, k) {
            let j = choose|i: int| 0 <= i < t.len() && skey(t[i]) == k;
            let j2 = if j < i { j } else { j + 1 };
            assert(t[j] == ss[j2]);
            assert(has_addr(ss, k));
            if j2 < i {
                assert(skey(ss[j2]) != skey(ss[i]));
            } else {
                assert(skey(ss[i]) != skey(ss[j2]));
            }
        }
        if k != skey(ss[i]) && has_addr(ss, k) {
            let j = choose|i: int| 0 <= i < ss.len() && skey(ss[i]) == k;
            assert(j != i);
            let j2 = if j < i { j } else { j - 1 };
            assert(t[j2] == ss[j]);
            assert(skey(t[j2]) == k);
            assert(has_addr(t, k));
        }
    }
    assert forall|k: (u64, u16)| #[trigger] smap(t).contains_key(k)
        implies smap(t)[k] == smap(ss).remove(skey(ss[i]))[k] by {
        let j = choose|i: int| 0 <= i < t.len() && skey(t[i]) == k;
        let j2 = if j < i { j } else { j + 1 };
        assert(t[j] == ss[j2]);
        lemma_smap_index(ss, j2);
        assert(smap(t)[k] == ss[j2]);
    }
    assert(smap(t) =~= smap(ss).remove(skey(ss[i])));
}

/// In a ban table without duplicate hosts, the map view holds each ban's
/// start time under its own host.
pub proof fn lemma_bmap_index(bs: Seq<Ban>, i: int)
    requires
        unique_hosts(bs),
        0 <= i < bs.len(),
    ensures
        bmap(bs).contains_key(bs[i].host),
        bmap(bs)[bs[i].host] == bs[i].since_ms,
{
    let h = bs[i].host;
    assert(has_host(bs, h));
    let j = choose|i: int| 0 <= i < bs.len() && bs[i].host == h;
    if i < j {
        assert(bs[i].host != bs[j].host);
    }
    if j < i {
        assert(bs[j].host != bs[i].host);
    }
}

/// A host no ban carries is not in the map view.
pub proof fn lemma_bmap_absent(bs: Seq<Ban>, h: u64)
    requires
        forall|i: int| 0 <= i < bs.len() ==> bs[i].host != h,
    ensures
        !bmap(bs).contains_key(h),
{
}

/// Appending a ban for a new host inserts its start time into the map
/// view.
pub proof fn lemma_bmap_push(bs: Seq<Ban>, x: Ban)
    requires
        unique_hosts(bs),
        !has_host(bs, x.host),
    ensures
        unique_hosts(bs.push(x)),
        bmap(bs.push(x)) == bmap(bs).insert(x.host, x.since_ms),
{
    let t = bs.push(x);
    assert forall|i: int, j: int| 0 <= i < j < t.len() implies t[i].host != t[j].host by {
        if j == bs.len() {
            assert(t[i] == bs[i]);
            if bs[i].host == x.host {
                assert(has_host(bs, x.host));
            }
        } else {
            assert(t[i] == bs[i] && t[j] == bs[j]);
        }
    }
    assert forall|h: u64| has_host(t, h) == (h == x.host || has_host(bs, h)) by {
        if has_host(t, h) {
            let i = choose|i: int| 0 <= i < t.len() && t[i].host == h;
            if i < bs.len() {
                assert(t[i] == bs[i]);
                assert(has_host(bs, h));
            } else {
                assert(t[i] == x);
            }
        }
        if h == x.host {
            assert(t[bs.len() as int].host == h);
            assert(has_host(t, h));
        }
        if has_host(bs, h) {
            let i = choose|i: int| 0 <= i < bs.len() && bs[i].host == h;
            assert(t[i].host == h);
            assert(has_host(t, h));
        }
    }
    assert forall|h: u64| #[trigger] bmap(t).contains_key(h)
        implies bmap(t)[h] == bmap(bs).insert(x.host, x.since_ms)[h] by {
        let i = choose|i: int| 0 <= i < t.len() && t[i].host == h;
        if h == x.host {
            if i < bs.len() {
                assert(t[i] == bs[i]);
                assert(has_host(bs, h));
                assert(false);
            }
            assert(bmap(t)[h] == x.since_ms);
        } else {
            assert(i < bs.len());
            assert(t[i] == bs[i]);
            lemma_bmap_index(bs, i);
            assert(bmap(t)[h] == bs[i].since_ms);
        }
    }
    assert(bmap(t) =~= bmap(bs).insert(x.host, x.since_ms));
}

/// Overwriting a ban in place, keeping its host, updates the map view at
/// that host.
pub proof fn lemma_bmap_update(bs: Seq<Ban>, i: int, x: Ban)
    requires
        unique_hosts(bs),
        0 <= i < bs.len(),
        x.host == bs[i].host,
    ensures
        unique_hosts(bs.update(i, x)),
        bmap(bs.update(i, x)) == bmap(bs).insert(x.host, x.since_ms),
{
    let t = bs.update(i, x);
    assert forall|j: int| 0 <= j < t.len() implies t[j].host == bs[j].host by {
        if j != i {
            assert(t[j] == bs[j]);
        }
    }
    assert forall|h: u64| has_host(t, h) == has_host(bs, h) by {
        if has_host(t, h) {
            let j = choose|i: int| 0 <= i < t.len() && t[i].host == h;
            assert(bs[j].host == h);
            assert(has_host(bs, h));
        }
        if has_host(bs, h) {
            let j = choose|i: int| 0 <= i < bs.len() && bs[i].host == h;
            assert(t[j].host == h);
            assert(has_host(t, h));
        }
    }
    assert forall|h: u64| #[trigger] bmap(t).contains_key(h)
        implies bmap(t)[h] == bmap(bs).insert(x.host, x.since_ms)[h] by {
        let j = choose|i: int| 0 <= i < t.len() && t[i].host == h;
        if h == x.host {
            if j != i {
                assert(bs[j].host == bs[i].host);
                if j < i {
                    assert(bs[j].host != bs[i].host);
                } else {
                    assert(bs[i].host != bs[j].host);
                }
                assert(false);
            }
            assert(bmap(t)[h] == x.since_ms);
        } else {
            assert(j != i);
            assert(t[j] == bs[j]);
            lemma_bmap_index(bs, j);
            assert(bmap(t)[h] == bs[j].since_ms);
        }
    }
    assert(bmap(t) =~= bmap(bs).insert(x.host, x.since_ms));
}

/// Removing the ban at one index removes its host from the map view.
pub proof fn lemma_bmap_remove(bs: Seq<Ban>, i: int)
    requires
        unique_hosts(bs),
        0 <= i < bs.len(),
    ensures
        unique_hosts(bs.remove(i)),
        bmap(bs.remove(i)) == bmap(bs).remove(bs[i].host),
{
    let t = bs.remove(i);
    assert forall|j: int| 0 <= j < t.len() implies t[j] == (if j < i {
        bs[j]
    } else {
        bs[j + 1]
    }) by {
    }
    assert forall|a: int, b: int| 0 <= a < b < t.len() implies t[a].host != t[b].host by {
        let a2 = if a < i { a } else { a + 1 };
        let b2 = if b < i { b } else { b + 1 };
        assert(t[a] == bs[a2] && t[b] == bs[b2]);
        assert(a2 < b2);
    }
    assert forall|h: u64| has_host(t, h) == (h != bs[i].host && has_host(bs, h)) by {
        if has_host(t, h) {
            let j = choose|i: int| 0 <= i < t.len() && t[i].host == h;
            let j2 = if j < i { j } else { j + 1 };
            assert(t[j] == bs[j2]);
            assert(has_host(bs, h));
            if j2 < i {
                assert(bs[j2].host != bs[i].host);
            } else {
                assert(bs[i].host != bs[j2].host);
            }
        }
        if h != bs[i].host && has_host(bs, h) {
            let j = choose|i: int| 0 <= i < bs.len() && bs[i].host == h;
            assert(j != i);
            let j2 = if j < i { j } else { j - 1 };
            assert(t[j2] == bs[j]);
            assert(t[j2].host == h);
            assert(has_host(t, h));
        }
    }
    assert forall|h: u64| #[trigger] bmap(t).contains_key(h)
        implies bmap(t)[h] == bmap(bs).remove(bs[i].host)[h] by {
        let j = choose|i: int| 0 <= i < t.len() && t[i].host == h;
        let j2 = if j < i { j } else { j + 1 };
        assert(t[j] == bs[j2]);
        lemma_bmap_index(bs, j2);
        assert(bmap(t)[h] == bs[j2].since_ms);
    }
    assert(bmap(t) =~= bmap(bs).remove(bs[i].host));
}

/// Index of the session for `host` and `port`, if one is there.
pub fn find_session(ss: &Vec<Session>, host: u64, port: u16) -> (r: Option<usize>)
    ensures
        match r {
            Some(i) => i < ss@.len() && skey(ss@[i as int]) == (host, port),
            None => !has_addr(ss@, (host, port)),
        },
{
    let n = ss.len();
    let mut i: usize = 0;
    while i < n
        invariant
            0 <= i <= n,
            n == ss@.len(),
            forall|j: int| 0 <= j < i ==> skey(ss@[j]) != (host, port),
        decreases n - i,
    {
        let s = ss[i];
        if s.host == host && s.port == port {
            return Some(i);
        }
        i = i + 1;
    }
    None
}

/// Index of the ban for `host`, if one is there.
pub fn find_ban(bs: &Vec<Ban>, host: u64) -> (r: Option<usize>)
    ensures
        match r {
            Some(i) => i < bs@.len() && bs@[i as int].host == host,
            None => !has_host(bs@, host),
        },
{
    let n = bs.len();
    let mut i: usize = 0;
    while i < n
        invariant
            0 <= i <= n,
            n == bs@.len(),
            forall|j: int| 0 <= j < i ==> bs@[j].host != host,
        decreases n - i,
    {
        if bs[i].host == host {
            return Some(i);
        }
        i = i + 1;
    }
    None
}

/// Overwrites the entry at index `i`.
pub fn set_session(ss: &mut Vec<Session>, i: usize, x: Session)
    requires
        i < old(ss)@.len(),
    ensures
        final(ss)@ == old(ss)@.update(i as int, x),
{
    let _ = ss.remove(i);
    ss.insert(i, x);
    proof {
        assert(ss@ =~= old(ss)@.update(i as int, x));
    }
}

/// Overwrites the entry at index `i`.
pub fn set_ban(bs: &mut Vec<Ban>, i: usize, x: Ban)
    requires
        i < old(bs)@.len(),
    ensures
        final(bs)@ == old(bs)@.update(i as int, x),
{
    let _ = bs.remove(i);
    bs.insert(i, x);
    proof {
        assert(bs@ =~= old(bs)@.update(i as int, x));
    }
}

} // verus!
