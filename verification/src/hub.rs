//! The connection hub: the single owner of the bidirectional identifier
//! tables — token to user, connection to user, user to connections — and the
//! router between the wire layer and the core actor.

use vstd::prelude::*;
use vstd::pervasive::VecAdditionalExecFns;

use crate::codec;
use crate::ids::{ConnectionId, ConnectionIdAllocator, UserId};
use crate::msg::{
    payload_eq, CoreToWs, WebToWs, WorkerToWs, WsServerboundPayload, WsServerboundTx, WsToCore,
    WsToWorker,
};
use crate::token::{str_eq, LoginToken};

verus! {

/// The user a token stands for: first match in the token table.
pub open spec fn token_user(toks: Seq<(LoginToken, UserId)>, tk: Seq<char>) -> Option<UserId>
    decreases toks.len(),
{
    if toks.len() == 0 {
        None
    } else if toks[0].0.tk@ == tk {
        Some(toks[0].1)
    } else {
        token_user(toks.drop_first(), tk)
    }
}

/// The user a live connection belongs to: first match in the connection
/// table.
pub open spec fn owner_in(cu: Seq<(ConnectionId, UserId)>, cid: ConnectionId) -> Option<UserId>
    decreases cu.len(),
{
    if cu.len() == 0 {
        None
    } else if cu[0].0 == cid {
        Some(cu[0].1)
    } else {
        owner_in(cu.drop_first(), cid)
    }
}

/// The connection list recorded for a user: first match in the fan-out
/// table, absent when the user has no entry.
pub open spec fn conns_entry(uc: Seq<(UserId, Vec<ConnectionId>)>, u: UserId) -> Option<
    Seq<ConnectionId>,
>
    decreases uc.len(),
{
    if uc.len() == 0 {
        None
    } else if uc[0].0 == u {
        Some(uc[0].1@)
    } else {
        conns_entry(uc.drop_first(), u)
    }
}

/// How a stream-upgrade handshake ends: admitted as a resolved user with a
/// fresh connection identifier, or rejected.
#[derive(Debug, Clone, Copy, PartialEq, Eq, Structural)]
pub enum AdmitOutcome {
    /// The token resolved; the connection is in the tables under this user.
    Admitted(UserId, ConnectionId),
    /// The credential header was absent or not readable as text.
    RejectedMalformed,
    /// The presented token is not on record.
    RejectedUnauthorized,
}

/// Nothing about the hub moved: all tables and the identifier counter are as
/// they were.
pub open spec fn hub_unchanged(pre: Hub, post: Hub) -> bool {
    &&& post.tokens_view() == pre.tokens_view()
    &&& post.conn_user_view() == pre.conn_user_view()
    &&& post.user_conns_view() == pre.user_conns_view()
    &&& post.next_cid() == pre.next_cid()
}

/// First-match characterization of the token table.
pub proof fn lemma_token_user_at(toks: Seq<(LoginToken, UserId)>, tk: Seq<char>, i: int)
    requires
        0 <= i <= toks.len(),
        forall|k: int| 0 <= k < i ==> (#[trigger] toks[k]).0.tk@ != tk,
        i == toks.len() || toks[i].0.tk@ == tk,
    ensures
        token_user(toks, tk) == (if i == toks.len() {
            None::<UserId>
        } else {
            Some(toks[i].1)
        }),
    decreases i,
{
    if toks.len() == 0 {
    } else if i == 0 {
    } else {
        lemma_token_user_at(toks.drop_first(), tk, i - 1);
    }
}

/// First-match characterization of the fan-out table.
proof fn lemma_conns_entry_first(uc: Seq<(UserId, Vec<ConnectionId>)>, u: UserId, i: int)
    requires
        0 <= i <= uc.len(),
        forall|k: int| 0 <= k < i ==> (#[trigger] uc[k]).0 != u,
        i == uc.len() || uc[i].0 == u,
    ensures
        conns_entry(uc, u) == (if i == uc.len() {
            None::<Seq<ConnectionId>>
        } else {
            Some(uc[i].1@)
        }),
    decreases i,
{
    if uc.len() == 0 {
    } else if i == 0 {
    } else {
        lemma_conns_entry_first(uc.drop_first(), u, i - 1);
    }
}

/// Appending a pair with a fresh key: the new key resolves to the new value,
/// every other key as before.
proof fn lemma_owner_push(cu: Seq<(ConnectionId, UserId)>, cid: ConnectionId, u: UserId)
    requires
        forall|k: int| 0 <= k < cu.len() ==> (#[trigger] cu[k]).0 != cid,
    ensures
        owner_in(cu.push((cid, u)), cid) == Some(u),
        forall|c: ConnectionId|
            c != cid ==> #[trigger] owner_in(cu.push((cid, u)), c) == owner_in(cu, c),
    decreases cu.len(),
{
    if cu.len() == 0 {
        assert(cu.push((cid, u))[0] == (cid, u));
        assert(cu.push((cid, u)).drop_first() =~= Seq::<(ConnectionId, UserId)>::empty());
        assert forall|c: ConnectionId| c != cid implies #[trigger] owner_in(cu.push((cid, u)), c)
            == owner_in(cu, c) by {
            assert(owner_in(cu.push((cid, u)).drop_first(), c) is None);
            assert(owner_in(cu, c) is None);
        }
    } else {
        assert(cu.push((cid, u))[0] == cu[0]);
        assert(cu.push((cid, u)).drop_first() =~= cu.drop_first().push((cid, u)));
        assert(forall|k: int|
            0 <= k < cu.drop_first().len() ==> (#[trigger] cu.drop_first()[k]).0 == cu[k + 1].0);
        lemma_owner_push(cu.drop_first(), cid, u);
        assert forall|c: ConnectionId| c != cid implies #[trigger] owner_in(cu.push((cid, u)), c)
            == owner_in(cu, c) by {
            if cu[0].0 != c {
                assert(owner_in(cu.drop_first().push((cid, u)), c) == owner_in(
                    cu.drop_first(),
                    c,
                ));
            }
        }
    }
}

/// Replacing the list of the entry at `i`: that key resolves to the new
/// list, every other key as before.
proof fn lemma_conns_update(
    uc: Seq<(UserId, Vec<ConnectionId>)>,
    i: int,
    u: UserId,
    l: Vec<ConnectionId>,
)
    requires
        0 <= i < uc.len(),
        uc[i].0 == u,
        forall|k: int| 0 <= k < i ==> (#[trigger] uc[k]).0 != u,
    ensures
        conns_entry(uc.update(i, (u, l)), u) == Some(l@),
        forall|w: UserId|
            w != u ==> #[trigger] conns_entry(uc.update(i, (u, l)), w) == conns_entry(uc, w),
    decreases i,
{
    let upd = uc.update(i, (u, l));
    if i == 0 {
        assert(upd[0] == (u, l));
        assert(upd.drop_first() =~= uc.drop_first());
    } else {
        assert(upd[0] == uc[0]);
        assert(upd.drop_first() =~= uc.drop_first().update(i - 1, (u, l)));
        assert(forall|k: int|
            0 <= k < uc.drop_first().len() ==> #[trigger] uc.drop_first()[k] == uc[k + 1]);
        lemma_conns_update(uc.drop_first(), i - 1, u, l);
        assert forall|w: UserId| w != u implies #[trigger] conns_entry(upd, w) == conns_entry(
            uc,
            w,
        ) by {
            if uc[0].0 != w {
                assert(conns_entry(upd.drop_first(), w) == conns_entry(uc.drop_first(), w));
            }
        }
    }
}

/// Appending an entry with a fresh key: the new key resolves to the new
/// list, every other key as before.
proof fn lemma_conns_push(uc: Seq<(UserId, Vec<ConnectionId>)>, u: UserId, l: Vec<ConnectionId>)
    requires
        forall|k: int| 0 <= k < uc.len() ==> (#[trigger] uc[k]).0 != u,
    ensures
        conns_entry(uc.push((u, l)), u) == Some(l@),
        forall|w: UserId|
            w != u ==> #[trigger] conns_entry(uc.push((u, l)), w) == conns_entry(uc, w),
    decreases uc.len(),
{
    if uc.len() == 0 {
        assert(uc.push((u, l))[0] == (u, l));
        assert(uc.push((u, l)).drop_first() =~= Seq::<(UserId, Vec<ConnectionId>)>::empty());
        assert forall|w: UserId| w != u implies #[trigger] conns_entry(uc.push((u, l)), w)
            == conns_entry(uc, w) by {
            assert(conns_entry(uc.push((u, l)).drop_first(), w) is None);
            assert(conns_entry(uc, w) is None);
        }
    } else {
        assert(uc.push((u, l))[0] == uc[0]);
        assert(uc.push((u, l)).drop_first() =~= uc.drop_first().push((u, l)));
        assert(forall|k: int|
            0 <= k < uc.drop_first().len() ==> #[trigger] uc.drop_first()[k] == uc[k + 1]);
        lemma_conns_push(uc.drop_first(), u, l);
        assert forall|w: UserId| w != u implies #[trigger] conns_entry(uc.push((u, l)), w)
            == conns_entry(uc, w) by {
            if uc[0].0 != w {
                assert(conns_entry(uc.drop_first().push((u, l)), w) == conns_entry(
                    uc.drop_first(),
                    w,
                ));
            }
        }
    }
}

/// The connection table with every connection of one user taken out.
pub open spec fn cu_without_user(cu: Seq<(ConnectionId, UserId)>, u: UserId) -> Seq<
    (ConnectionId, UserId),
>
    decreases cu.len(),
{
    if cu.len() == 0 {
        Seq::<(ConnectionId, UserId)>::empty()
    } else if cu[0].1 == u {
        cu_without_user(cu.drop_first(), u)
    } else {
        seq![cu[0]] + cu_without_user(cu.drop_first(), u)
    }
}

/// The token table with every token of one user taken out.
pub open spec fn tokens_without_user(toks: Seq<(LoginToken, UserId)>, u: UserId) -> Seq<
    (LoginToken, UserId),
>
    decreases toks.len(),
{
    if toks.len() == 0 {
        Seq::<(LoginToken, UserId)>::empty()
    } else if toks[0].1 == u {
        tokens_without_user(toks.drop_first(), u)
    } else {
        seq![toks[0]] + tokens_without_user(toks.drop_first(), u)
    }
}

/// A user's connection list with one connection taken out.
pub open spec fn without_cid(l: Seq<ConnectionId>, cid: ConnectionId) -> Seq<ConnectionId>
    decreases l.len(),
{
    if l.len() == 0 {
        Seq::<ConnectionId>::empty()
    } else if l[0] == cid {
        without_cid(l.drop_first(), cid)
    } else {
        seq![l[0]] + without_cid(l.drop_first(), cid)
    }
}

/// What taking one connection out leaves: never that connection, everything
/// else untouched, and order and distinctness kept.
proof fn lemma_without_cid_props(l: Seq<ConnectionId>, cid: ConnectionId)
    requires
        forall|k1: int, k2: int| 0 <= k1 < k2 < l.len() ==> l[k1] != l[k2],
    ensures
        !without_cid(l, cid).contains(cid),
        forall|c: ConnectionId|
            c != cid ==> (#[trigger] without_cid(l, cid).contains(c) <==> l.contains(c)),
        forall|k: int|
            0 <= k < without_cid(l, cid).len() ==> l.contains(#[trigger] without_cid(l, cid)[k]),
        forall|k1: int, k2: int|
            0 <= k1 < k2 < without_cid(l, cid).len() ==> without_cid(l, cid)[k1] != without_cid(
                l,
                cid,
            )[k2],
    decreases l.len(),
{
    let w = without_cid(l, cid);
    if l.len() == 0 {
        assert(!w.contains(cid));
        assert forall|c: ConnectionId| c != cid implies (#[trigger] w.contains(c) <==> l.contains(
            c,
        )) by {}
    } else {
        assert(forall|k: int|
            0 <= k < l.drop_first().len() ==> #[trigger] l.drop_first()[k] == l[k + 1]);
        lemma_without_cid_props(l.drop_first(), cid);
        let wr = without_cid(l.drop_first(), cid);
        assert(!w.contains(cid)) by {
            if l[0] != cid {
                assert(w == seq![l[0]] + wr);
                if w.contains(cid) {
                    let k = choose|k: int| 0 <= k < w.len() && w[k] == cid;
                    assert(k > 0);
                    assert(wr[k - 1] == cid);
                }
            }
        }
        assert forall|c: ConnectionId| c != cid implies (#[trigger] w.contains(c) <==> l.contains(
            c,
        )) by {
            if l[0] == cid {
                assert(w == wr);
                if l.contains(c) {
                    let k = choose|k: int| 0 <= k < l.len() && l[k] == c;
                    assert(k > 0);
                    assert(l.drop_first()[k - 1] == c);
                    assert(l.drop_first().contains(c));
                }
                if l.drop_first().contains(c) {
                    let k = choose|k: int| 0 <= k < l.drop_first().len() && l.drop_first()[k] == c;
                    assert(l[k + 1] == c);
                }
            } else {
                assert(w == seq![l[0]] + wr);
                if l.contains(c) {
                    let k = choose|k: int| 0 <= k < l.len() && l[k] == c;
                    if k == 0 {
                        assert(w[0] == c);
                    } else {
                        assert(l.drop_first()[k - 1] == c);
                        assert(l.drop_first().contains(c));
                        assert(wr.contains(c));
                        let k2 = choose|k2: int| 0 <= k2 < wr.len() && wr[k2] == c;
                        assert(w[k2 + 1] == c);
                    }
                    assert(w.contains(c));
                }
                if w.contains(c) {
                    let k = choose|k: int| 0 <= k < w.len() && w[k] == c;
                    if k == 0 {
                        assert(l[0] == c);
                    } else {
                        assert(wr[k - 1] == c);
                        assert(wr.contains(c));
                        assert(l.drop_first().contains(c));
                        let k2 = choose|k2: int|
                            0 <= k2 < l.drop_first().len() && l.drop_first()[k2] == c;
                        assert(l[k2 + 1] == c);
                    }
                    assert(l.contains(c));
                }
            }
        }
        assert forall|k: int| 0 <= k < w.len() implies l.contains(#[trigger] w[k]) by {
            if l[0] == cid {
                assert(w == wr);
                assert(l.drop_first().contains(wr[k]));
                let k2 = choose|k2: int|
                    0 <= k2 < l.drop_first().len() && l.drop_first()[k2] == wr[k];
                assert(l[k2 + 1] == w[k]);
            } else {
                assert(w == seq![l[0]] + wr);
                if k == 0 {
                } else {
                    assert(w[k] == wr[k - 1]);
                    assert(l.drop_first().contains(wr[k - 1]));
                    let k2 = choose|k2: int|
                        0 <= k2 < l.drop_first().len() && l.drop_first()[k2] == wr[k - 1];
                    assert(l[k2 + 1] == w[k]);
                }
            }
        }
        assert forall|k1: int, k2: int| 0 <= k1 < k2 < w.len() implies w[k1] != w[k2] by {
            if l[0] == cid {
                assert(w == wr);
            } else {
                assert(w == seq![l[0]] + wr);
                if k1 == 0 {
                    assert(w[k2] == wr[k2 - 1]);
                    assert(l.drop_first().contains(wr[k2 - 1]));
                    let k3 = choose|k3: int|
                        0 <= k3 < l.drop_first().len() && l.drop_first()[k3] == wr[k2 - 1];
                    assert(l[k3 + 1] == wr[k2 - 1]);
                    assert(l[0] != l[k3 + 1]);
                } else {
                    assert(w[k1] == wr[k1 - 1] && w[k2] == wr[k2 - 1]);
                }
            }
        }
    }
}

/// Taking one connection out distributes over concatenation.
proof fn lemma_without_cid_append(a: Seq<ConnectionId>, b: Seq<ConnectionId>, cid: ConnectionId)
    ensures
        without_cid(a + b, cid) == without_cid(a, cid) + without_cid(b, cid),
    decreases a.len(),
{
    if a.len() == 0 {
        assert(a + b =~= b);
        assert(without_cid(a, cid) =~= Seq::<ConnectionId>::empty());
        assert(without_cid(a, cid) + without_cid(b, cid) =~= without_cid(b, cid));
    } else {
        assert((a + b).drop_first() =~= a.drop_first() + b);
        lemma_without_cid_append(a.drop_first(), b, cid);
        if a[0] == cid {
        } else {
            assert(seq![a[0]] + (without_cid(a.drop_first(), cid) + without_cid(b, cid)) =~= (
            seq![a[0]] + without_cid(a.drop_first(), cid)) + without_cid(b, cid));
        }
    }
}

/// A resolved fan-out list is some entry's list.
proof fn lemma_conns_entry_is_entry(uc: Seq<(UserId, Vec<ConnectionId>)>, u: UserId)
    requires
        conns_entry(uc, u) is Some,
    ensures
        exists|i: int|
            0 <= i < uc.len() && (#[trigger] uc[i]).0 == u && conns_entry(uc, u) == Some(
                uc[i].1@,
            ),
    decreases uc.len(),
{
    if uc.len() > 0 {
        if uc[0].0 == u {
            assert((uc[0]).0 == u && conns_entry(uc, u) == Some(uc[0].1@));
        } else {
            lemma_conns_entry_is_entry(uc.drop_first(), u);
            let i = choose|i: int|
                0 <= i < uc.drop_first().len() && (#[trigger] uc.drop_first()[i]).0 == u
                    && conns_entry(uc.drop_first(), u) == Some(uc.drop_first()[i].1@);
            assert((uc[i + 1]).0 == u && conns_entry(uc, u) == Some(uc[i + 1].1@));
        }
    }
}

/// A key nowhere in the table resolves to nothing.
proof fn lemma_owner_absent(cu: Seq<(ConnectionId, UserId)>, cid: ConnectionId)
    requires
        forall|k: int| 0 <= k < cu.len() ==> (#[trigger] cu[k]).0 != cid,
    ensures
        owner_in(cu, cid) is None,
    decreases cu.len(),
{
    if cu.len() > 0 {
        assert(forall|k: int|
            0 <= k < cu.drop_first().len() ==> (#[trigger] cu.drop_first()[k]) == cu[k + 1]);
        lemma_owner_absent(cu.drop_first(), cid);
    }
}

/// First-match characterization of the connection table.
proof fn lemma_owner_first(cu: Seq<(ConnectionId, UserId)>, cid: ConnectionId, i: int)
    requires
        0 <= i <= cu.len(),
        forall|k: int| 0 <= k < i ==> (#[trigger] cu[k]).0 != cid,
        i == cu.len() || cu[i].0 == cid,
    ensures
        owner_in(cu, cid) == (if i == cu.len() {
            None::<UserId>
        } else {
            Some(cu[i].1)
        }),
    decreases i,
{
    if cu.len() == 0 {
    } else if i == 0 {
    } else {
        lemma_owner_first(cu.drop_first(), cid, i - 1);
    }
}

/// Removing the entry of a connection key: that key resolves to nothing,
/// every other key as before.
proof fn lemma_owner_remove(cu: Seq<(ConnectionId, UserId)>, i: int)
    requires
        0 <= i < cu.len(),
        forall|k1: int, k2: int| 0 <= k1 < k2 < cu.len() ==> cu[k1].0 != cu[k2].0,
    ensures
        owner_in(cu.remove(i), cu[i].0) is None,
        forall|c: ConnectionId|
            c != cu[i].0 ==> #[trigger] owner_in(cu.remove(i), c) == owner_in(cu, c),
    decreases i,
{
    let rem = cu.remove(i);
    if i == 0 {
        assert(rem =~= cu.drop_first());
        assert(forall|k: int|
            0 <= k < cu.drop_first().len() ==> (#[trigger] cu.drop_first()[k]) == cu[k + 1]);
        lemma_owner_absent(cu.drop_first(), cu[0].0);
    } else {
        assert(rem[0] == cu[0]);
        assert(rem.drop_first() =~= cu.drop_first().remove(i - 1));
        assert(forall|k: int|
            0 <= k < cu.drop_first().len() ==> (#[trigger] cu.drop_first()[k]) == cu[k + 1]);
        lemma_owner_remove(cu.drop_first(), i - 1);
        assert forall|c: ConnectionId| c != cu[i].0 implies #[trigger] owner_in(rem, c)
            == owner_in(cu, c) by {
            if cu[0].0 != c {
                assert(owner_in(rem.drop_first(), c) == owner_in(cu.drop_first(), c));
            }
        }
        assert(owner_in(rem, cu[i].0) is None) by {
            assert(cu[0].0 != cu[i].0);
            assert(owner_in(rem.drop_first(), cu.drop_first()[i - 1].0) is None);
        }
    }
}

/// A key nowhere in the fan-out table resolves to nothing.
proof fn lemma_conns_absent(uc: Seq<(UserId, Vec<ConnectionId>)>, u: UserId)
    requires
        forall|k: int| 0 <= k < uc.len() ==> (#[trigger] uc[k]).0 != u,
    ensures
        conns_entry(uc, u) is None,
    decreases uc.len(),
{
    if uc.len() > 0 {
        assert(forall|k: int|
            0 <= k < uc.drop_first().len() ==> (#[trigger] uc.drop_first()[k]) == uc[k + 1]);
        lemma_conns_absent(uc.drop_first(), u);
    }
}

/// A key nowhere in the token table resolves to nothing.
proof fn lemma_token_absent(toks: Seq<(LoginToken, UserId)>, tk: Seq<char>)
    requires
        forall|k: int| 0 <= k < toks.len() ==> (#[trigger] toks[k]).0.tk@ != tk,
    ensures
        token_user(toks, tk) is None,
    decreases toks.len(),
{
    if toks.len() > 0 {
        assert(forall|k: int|
            0 <= k < toks.drop_first().len() ==> (#[trigger] toks.drop_first()[k]) == toks[k + 1]);
        lemma_token_absent(toks.drop_first(), tk);
    }
}

/// Removing a user's entry from the fan-out table: the user resolves to
/// nothing, every other user as before.
proof fn lemma_conns_remove(uc: Seq<(UserId, Vec<ConnectionId>)>, i: int)
    requires
        0 <= i < uc.len(),
        forall|k1: int, k2: int| 0 <= k1 < k2 < uc.len() ==> uc[k1].0 != uc[k2].0,
    ensures
        conns_entry(uc.remove(i), uc[i].0) is None,
        forall|w: UserId|
            w != uc[i].0 ==> #[trigger] conns_entry(uc.remove(i), w) == conns_entry(uc, w),
    decreases i,
{
    let rem = uc.remove(i);
    if i == 0 {
        assert(rem =~= uc.drop_first());
        assert(forall|k: int|
            0 <= k < uc.drop_first().len() ==> (#[trigger] uc.drop_first()[k]) == uc[k + 1]);
        lemma_conns_absent(uc.drop_first(), uc[0].0);
    } else {
        assert(rem[0] == uc[0]);
        assert(rem.drop_first() =~= uc.drop_first().remove(i - 1));
        assert(forall|k: int|
            0 <= k < uc.drop_first().len() ==> (#[trigger] uc.drop_first()[k]) == uc[k + 1]);
        lemma_conns_remove(uc.drop_first(), i - 1);
        assert forall|w: UserId| w != uc[i].0 implies #[trigger] conns_entry(rem, w)
            == conns_entry(uc, w) by {
            if uc[0].0 != w {
                assert(conns_entry(rem.drop_first(), w) == conns_entry(uc.drop_first(), w));
            }
        }
        assert(conns_entry(rem, uc[i].0) is None) by {
            assert(uc[0].0 != uc[i].0);
            assert(conns_entry(rem.drop_first(), uc.drop_first()[i - 1].0) is None);
        }
    }
}

/// Taking a user's connections out of the connection table: connections the
/// user owned resolve to nothing, all others as before; keys stay unique and
/// every surviving entry was already there.
proof fn lemma_cu_without_user(cu: Seq<(ConnectionId, UserId)>, u: UserId)
    requires
        forall|k1: int, k2: int| 0 <= k1 < k2 < cu.len() ==> cu[k1].0 != cu[k2].0,
    ensures
        forall|c: ConnectionId|
            #[trigger] owner_in(cu_without_user(cu, u), c) == (match owner_in(cu, c) {
                Some(w) => if w == u {
                    None::<UserId>
                } else {
                    Some(w)
                },
                None => None::<UserId>,
            }),
        forall|k: int|
            0 <= k < cu_without_user(cu, u).len() ==> cu.contains(
                #[trigger] cu_without_user(cu, u)[k],
            ),
        forall|k1: int, k2: int|
            0 <= k1 < k2 < cu_without_user(cu, u).len() ==> cu_without_user(cu, u)[k1].0
                != cu_without_user(cu, u)[k2].0,
    decreases cu.len(),
{
    let w = cu_without_user(cu, u);
    if cu.len() == 0 {
    } else {
        assert(forall|k: int|
            0 <= k < cu.drop_first().len() ==> (#[trigger] cu.drop_first()[k]) == cu[k + 1]);
        lemma_cu_without_user(cu.drop_first(), u);
        let wr = cu_without_user(cu.drop_first(), u);
        // membership first
        assert forall|k: int| 0 <= k < w.len() implies cu.contains(#[trigger] w[k]) by {
            if cu[0].1 == u {
                assert(w == wr);
                assert(cu.drop_first().contains(wr[k]));
                let k2 = choose|k2: int|
                    0 <= k2 < cu.drop_first().len() && cu.drop_first()[k2] == wr[k];
                assert(cu[k2 + 1] == w[k]);
            } else {
                assert(w == seq![cu[0]] + wr);
                if k == 0 {
                } else {
                    assert(w[k] == wr[k - 1]);
                    assert(cu.drop_first().contains(wr[k - 1]));
                    let k2 = choose|k2: int|
                        0 <= k2 < cu.drop_first().len() && cu.drop_first()[k2] == wr[k - 1];
                    assert(cu[k2 + 1] == w[k]);
                }
            }
        }
        // keys of the result stay unique
        assert forall|k1: int, k2: int| 0 <= k1 < k2 < w.len() implies w[k1].0 != w[k2].0 by {
            if cu[0].1 == u {
                assert(w == wr);
            } else {
                assert(w == seq![cu[0]] + wr);
                if k1 == 0 {
                    assert(w[k2] == wr[k2 - 1]);
                    assert(cu.drop_first().contains(wr[k2 - 1]));
                    let k3 = choose|k3: int|
                        0 <= k3 < cu.drop_first().len() && cu.drop_first()[k3] == wr[k2 - 1];
                    assert(cu[k3 + 1] == wr[k2 - 1]);
                    assert(cu[0].0 != cu[k3 + 1].0);
                } else {
                    assert(w[k1] == wr[k1 - 1] && w[k2] == wr[k2 - 1]);
                }
            }
        }
        // the lookup answer
        assert forall|c: ConnectionId|
            #[trigger] owner_in(w, c) == (match owner_in(cu, c) {
                Some(ww) => if ww == u {
                    None::<UserId>
                } else {
                    Some(ww)
                },
                None => None::<UserId>,
            }) by {
            if cu[0].0 == c {
                if cu[0].1 == u {
                    assert(w == wr);
                    assert(owner_in(cu, c) == Some(u));
                    assert forall|k: int| 0 <= k < wr.len() implies (#[trigger] wr[k]).0 != c by {
                        assert(cu.drop_first().contains(wr[k]));
                        let k2 = choose|k2: int|
                            0 <= k2 < cu.drop_first().len() && cu.drop_first()[k2] == wr[k];
                        assert(cu[k2 + 1] == wr[k]);
                        assert(cu[0].0 != cu[k2 + 1].0);
                    }
                    lemma_owner_absent(wr, c);
                } else {
                    assert(w == seq![cu[0]] + wr);
                    assert(w[0] == cu[0]);
                    assert(owner_in(w, c) == Some(cu[0].1));
                    assert(owner_in(cu, c) == Some(cu[0].1));
                }
            } else {
                assert(owner_in(cu, c) == owner_in(cu.drop_first(), c));
                if cu[0].1 == u {
                    assert(w == wr);
                } else {
                    assert(w == seq![cu[0]] + wr);
                    assert(w[0] == cu[0]);
                    assert(w.drop_first() =~= wr);
                    assert(owner_in(w, c) == owner_in(wr, c));
                }
            }
        }
    }
}

/// Taking a user's connections out distributes over concatenation.
proof fn lemma_cu_without_user_append(
    a: Seq<(ConnectionId, UserId)>,
    b: Seq<(ConnectionId, UserId)>,
    u: UserId,
)
    ensures
        cu_without_user(a + b, u) == cu_without_user(a, u) + cu_without_user(b, u),
    decreases a.len(),
{
    if a.len() == 0 {
        assert(a + b =~= b);
        assert(cu_without_user(a, u) =~= Seq::<(ConnectionId, UserId)>::empty());
        assert(cu_without_user(a, u) + cu_without_user(b, u) =~= cu_without_user(b, u));
    } else {
        assert((a + b).drop_first() =~= a.drop_first() + b);
        lemma_cu_without_user_append(a.drop_first(), b, u);
        if a[0].1 == u {
        } else {
            assert(seq![a[0]] + (cu_without_user(a.drop_first(), u) + cu_without_user(b, u)) =~= (
            seq![a[0]] + cu_without_user(a.drop_first(), u)) + cu_without_user(b, u));
        }
    }
}

/// Taking a user's tokens out of the token table: tokens of that user
/// resolve to nothing, all others as before; keys stay unique.
proof fn lemma_tokens_without_user(toks: Seq<(LoginToken, UserId)>, u: UserId)
    requires
        forall|k1: int, k2: int| 0 <= k1 < k2 < toks.len() ==> toks[k1].0.tk@ != toks[k2].0.tk@,
    ensures
        forall|t: Seq<char>|
            #[trigger] token_user(tokens_without_user(toks, u), t) == (match token_user(toks, t) {
                Some(w) => if w == u {
                    None::<UserId>
                } else {
                    Some(w)
                },
                None => None::<UserId>,
            }),
        forall|k1: int, k2: int|
            0 <= k1 < k2 < tokens_without_user(toks, u).len() ==> tokens_without_user(
                toks,
                u,
            )[k1].0.tk@ != tokens_without_user(toks, u)[k2].0.tk@,
        forall|k: int|
            0 <= k < tokens_without_user(toks, u).len() ==> toks.contains(
                #[trigger] tokens_without_user(toks, u)[k],
            ),
    decreases toks.len(),
{
    let w = tokens_without_user(toks, u);
    if toks.len() == 0 {
    } else {
        assert(forall|k: int|
            0 <= k < toks.drop_first().len() ==> (#[trigger] toks.drop_first()[k]) == toks[k + 1]);
        lemma_tokens_without_user(toks.drop_first(), u);
        let wr = tokens_without_user(toks.drop_first(), u);
        assert forall|k: int| 0 <= k < w.len() implies toks.contains(#[trigger] w[k]) by {
            if toks[0].1 == u {
                assert(w == wr);
                assert(toks.drop_first().contains(wr[k]));
                let k2 = choose|k2: int|
                    0 <= k2 < toks.drop_first().len() && toks.drop_first()[k2] == wr[k];
                assert(toks[k2 + 1] == w[k]);
            } else {
                assert(w == seq![toks[0]] + wr);
                if k == 0 {
                } else {
                    assert(w[k] == wr[k - 1]);
                    assert(toks.drop_first().contains(wr[k - 1]));
                    let k2 = choose|k2: int|
                        0 <= k2 < toks.drop_first().len() && toks.drop_first()[k2] == wr[k - 1];
                    assert(toks[k2 + 1] == w[k]);
                }
            }
        }
        assert forall|k1: int, k2: int| 0 <= k1 < k2 < w.len() implies w[k1].0.tk@
            != w[k2].0.tk@ by {
            if toks[0].1 == u {
                assert(w == wr);
            } else {
                assert(w == seq![toks[0]] + wr);
                if k1 == 0 {
                    assert(w[k2] == wr[k2 - 1]);
                    assert(toks.drop_first().contains(wr[k2 - 1]));
                    let k3 = choose|k3: int|
                        0 <= k3 < toks.drop_first().len() && toks.drop_first()[k3] == wr[k2 - 1];
                    assert(toks[k3 + 1] == wr[k2 - 1]);
                    assert(toks[0].0.tk@ != toks[k3 + 1].0.tk@);
                } else {
                    assert(w[k1] == wr[k1 - 1] && w[k2] == wr[k2 - 1]);
                }
            }
        }
        assert forall|t: Seq<char>|
            #[trigger] token_user(w, t) == (match token_user(toks, t) {
                Some(ww) => if ww == u {
                    None::<UserId>
                } else {
                    Some(ww)
                },
                None => None::<UserId>,
            }) by {
            if toks[0].0.tk@ == t {
                if toks[0].1 == u {
                    assert(w == wr);
                    assert(token_user(toks, t) == Some(u));
                    assert forall|k: int| 0 <= k < wr.len() implies (#[trigger] wr[k]).0.tk@
                        != t by {
                        assert(toks.drop_first().contains(wr[k]));
                        let k2 = choose|k2: int|
                            0 <= k2 < toks.drop_first().len() && toks.drop_first()[k2] == wr[k];
                        assert(toks[k2 + 1] == wr[k]);
                        assert(toks[0].0.tk@ != toks[k2 + 1].0.tk@);
                    }
                    lemma_token_absent(wr, t);
                } else {
                    assert(w == seq![toks[0]] + wr);
                    assert(w[0] == toks[0]);
                    assert(token_user(w, t) == Some(toks[0].1));
                    assert(token_user(toks, t) == Some(toks[0].1));
                }
            } else {
                assert(token_user(toks, t) == token_user(toks.drop_first(), t));
                if toks[0].1 == u {
                    assert(w == wr);
                } else {
                    assert(w == seq![toks[0]] + wr);
                    assert(w[0] == toks[0]);
                    assert(w.drop_first() =~= wr);
                    assert(token_user(w, t) == token_user(wr, t));
                }
            }
        }
    }
}

/// Taking a user's tokens out distributes over concatenation.
proof fn lemma_tokens_without_user_append(
    a: Seq<(LoginToken, UserId)>,
    b: Seq<(LoginToken, UserId)>,
    u: UserId,
)
    ensures
        tokens_without_user(a + b, u) == tokens_without_user(a, u) + tokens_without_user(b, u),
    decreases a.len(),
{
    if a.len() == 0 {
        assert(a + b =~= b);
        assert(tokens_without_user(a, u) =~= Seq::<(LoginToken, UserId)>::empty());
        assert(tokens_without_user(a, u) + tokens_without_user(b, u) =~= tokens_without_user(
            b,
            u,
        ));
    } else {
        assert((a + b).drop_first() =~= a.drop_first() + b);
        lemma_tokens_without_user_append(a.drop_first(), b, u);
        if a[0].1 == u {
        } else {
            assert(seq![a[0]] + (tokens_without_user(a.drop_first(), u) + tokens_without_user(
                b,
                u,
            )) =~= (seq![a[0]] + tokens_without_user(a.drop_first(), u)) + tokens_without_user(
                b,
                u,
            ));
        }
    }
}

/// Replacing the entry of a token key: that key resolves to the new user,
/// every other key as before.
proof fn lemma_token_update(toks: Seq<(LoginToken, UserId)>, i: int, pair: (LoginToken, UserId))
    requires
        0 <= i < toks.len(),
        toks[i].0.tk@ == pair.0.tk@,
        forall|k: int| 0 <= k < i ==> (#[trigger] toks[k]).0.tk@ != pair.0.tk@,
    ensures
        token_user(toks.update(i, pair), pair.0.tk@) == Some(pair.1),
        forall|t: Seq<char>|
            t != pair.0.tk@ ==> #[trigger] token_user(toks.update(i, pair), t) == token_user(
                toks,
                t,
            ),
    decreases i,
{
    let upd = toks.update(i, pair);
    if i == 0 {
        assert(upd[0] == pair);
        assert(upd.drop_first() =~= toks.drop_first());
    } else {
        assert(upd[0] == toks[0]);
        assert(upd.drop_first() =~= toks.drop_first().update(i - 1, pair));
        assert(forall|k: int|
            0 <= k < toks.drop_first().len() ==> #[trigger] toks.drop_first()[k] == toks[k + 1]);
        lemma_token_update(toks.drop_first(), i - 1, pair);
        assert forall|t: Seq<char>| t != pair.0.tk@ implies #[trigger] token_user(upd, t)
            == token_user(toks, t) by {
            if toks[0].0.tk@ != t {
                assert(token_user(upd.drop_first(), t) == token_user(toks.drop_first(), t));
            }
        }
    }
}

/// Appending a pair with a fresh token key: the new key resolves to the new
/// user, every other key as before.
proof fn lemma_token_push(toks: Seq<(LoginToken, UserId)>, pair: (LoginToken, UserId))
    requires
        forall|k: int| 0 <= k < toks.len() ==> (#[trigger] toks[k]).0.tk@ != pair.0.tk@,
    ensures
        token_user(toks.push(pair), pair.0.tk@) == Some(pair.1),
        forall|t: Seq<char>|
            t != pair.0.tk@ ==> #[trigger] token_user(toks.push(pair), t) == token_user(toks, t),
    decreases toks.len(),
{
    if toks.len() == 0 {
        assert(toks.push(pair)[0] == pair);
        assert(toks.push(pair).drop_first() =~= Seq::<(LoginToken, UserId)>::empty());
        assert forall|t: Seq<char>| t != pair.0.tk@ implies #[trigger] token_user(
            toks.push(pair),
            t,
        ) == token_user(toks, t) by {
            assert(token_user(toks.push(pair).drop_first(), t) is None);
            assert(token_user(toks, t) is None);
        }
    } else {
        assert(toks.push(pair)[0] == toks[0]);
        assert(toks.push(pair).drop_first() =~= toks.drop_first().push(pair));
        assert(forall|k: int|
            0 <= k < toks.drop_first().len() ==> #[trigger] toks.drop_first()[k] == toks[k + 1]);
        lemma_token_push(toks.drop_first(), pair);
        assert forall|t: Seq<char>| t != pair.0.tk@ implies #[trigger] token_user(
            toks.push(pair),
            t,
        ) == token_user(toks, t) by {
            if toks[0].0.tk@ != t {
                assert(token_user(toks.drop_first().push(pair), t) == token_user(
                    toks.drop_first(),
                    t,
                ));
            }
        }
    }
}

/// Well-formedness carries over between hub states whose connection tables
/// and identifier counter agree, once the token keys are known unique.
proof fn lemma_wf_same_conn_tables(pre: Hub, post: Hub)
    requires
        pre.wf(),
        forall|i: int, j: int|
            0 <= i < j < post.tokens_view().len() ==> post.tokens_view()[i].0.tk@
                != post.tokens_view()[j].0.tk@,
        post.conn_user_view() == pre.conn_user_view(),
        post.user_conns_view() == pre.user_conns_view(),
        post.next_cid() == pre.next_cid(),
    ensures
        post.wf(),
{
    assert forall|cid: ConnectionId, u: UserId|
        ((#[trigger] post.owner_of(cid)) == Some(u) <==> #[trigger] post.conns_of(u).contains(
            cid,
        )) by {
        assert(post.owner_of(cid) == pre.owner_of(cid));
        assert(post.conns_of(u) == pre.conns_of(u));
        assert(pre.owner_of(cid) == Some(u) <==> pre.conns_of(u).contains(cid));
    }
}

/// The connection hub's identifier tables and its identifier allocator.
pub struct Hub {
    tokens: Vec<(LoginToken, UserId)>,
    conn_user: Vec<(ConnectionId, UserId)>,
    user_conns: Vec<(UserId, Vec<ConnectionId>)>,
    cia: ConnectionIdAllocator,
}

impl Hub {
    /// The token table.
    pub closed spec fn tokens_view(&self) -> Seq<(LoginToken, UserId)> {
        self.tokens@
    }

    /// The connection-to-user table.
    pub closed spec fn conn_user_view(&self) -> Seq<(ConnectionId, UserId)> {
        self.conn_user@
    }

    /// The user-to-connections table.
    pub closed spec fn user_conns_view(&self) -> Seq<(UserId, Vec<ConnectionId>)> {
        self.user_conns@
    }

    /// The identifier the next admitted connection will receive.
    pub closed spec fn next_cid(&self) -> u64 {
        self.cia.next()
    }

    /// The user a token stands for.
    pub open spec fn user_of_token(&self, tk: Seq<char>) -> Option<UserId> {
        token_user(self.tokens_view(), tk)
    }

    /// The user a live connection belongs to.
    pub open spec fn owner_of(&self, cid: ConnectionId) -> Option<UserId> {
        owner_in(self.conn_user_view(), cid)
    }

    /// The fan-out set of a user: its live connections, in admission order.
    pub open spec fn conns_of(&self, u: UserId) -> Seq<ConnectionId> {
        match conns_entry(self.user_conns_view(), u) {
            Some(s) => s,
            None => Seq::<ConnectionId>::empty(),
        }
    }

    /// Well-formedness of the identifier tables.
    pub open spec fn wf(&self) -> bool {
        // each table keys at most once
        &&& forall|i: int, j: int|
            0 <= i < j < self.tokens_view().len() ==> self.tokens_view()[i].0.tk@
                != self.tokens_view()[j].0.tk@
        &&& forall|i: int, j: int|
            0 <= i < j < self.conn_user_view().len() ==> self.conn_user_view()[i].0
                != self.conn_user_view()[j].0
        &&& forall|i: int, j: int|
            0 <= i < j < self.user_conns_view().len() ==> self.user_conns_view()[i].0
                != self.user_conns_view()[j].0
        // identifiers are never reused: everything on record is below the counter
        &&& forall|i: int|
            0 <= i < self.conn_user_view().len() ==> (#[trigger] self.conn_user_view()[i]).0.0
                < self.next_cid()
        &&& forall|i: int, k: int|
            0 <= i < self.user_conns_view().len() && 0 <= k
                < self.user_conns_view()[i].1@.len() ==> (
            #[trigger] self.user_conns_view()[i].1@[k]).0 < self.next_cid()
        // a user's fan-out list holds no duplicates
        &&& forall|i: int, k1: int, k2: int|
            0 <= i < self.user_conns_view().len() && 0 <= k1 < k2
                < self.user_conns_view()[i].1@.len() ==> (
            #[trigger] self.user_conns_view()[i].1@[k1]) != (
            #[trigger] self.user_conns_view()[i].1@[k2])
        // the two connection tables agree
        &&& forall|cid: ConnectionId, u: UserId|
            (#[trigger] self.owner_of(cid)) == Some(u) <==> #[trigger] self.conns_of(u).contains(
                cid,
            )
    }

    /// A fresh hub: no tokens, no connections, the identifier counter at
    /// zero.
    pub fn new() -> (r: Hub)
        ensures
            r.wf(),
            r.tokens_view() == Seq::<(LoginToken, UserId)>::empty(),
            r.conn_user_view() == Seq::<(ConnectionId, UserId)>::empty(),
            r.user_conns_view() == Seq::<(UserId, Vec<ConnectionId>)>::empty(),
            r.next_cid() == 0,
    {
        let r = Hub {
            tokens: Vec::new(),
            conn_user: Vec::new(),
            user_conns: Vec::new(),
            cia: ConnectionIdAllocator::new(),
        };
        proof {
            assert(r.tokens_view() =~= Seq::<(LoginToken, UserId)>::empty());
            assert(r.conn_user_view() =~= Seq::<(ConnectionId, UserId)>::empty());
            assert(r.user_conns_view() =~= Seq::<(UserId, Vec<ConnectionId>)>::empty());
            assert forall|cid: ConnectionId, u: UserId| !((#[trigger] r.owner_of(cid)) == Some(
                u,
            )) && !(#[trigger] r.conns_of(u).contains(cid)) by {
                assert(owner_in(r.conn_user_view(), cid) is None);
                assert(conns_entry(r.user_conns_view(), u) is None);
            }
        }
        r
    }

    /// Expect `token` for user `u`: later upgrades presenting it resolve to
    /// `u`. Tokens for other strings are untouched; the connection tables and
    /// the identifier counter are untouched.
    pub fn register_token(&mut self, u: UserId, token: LoginToken)
        requires
            old(self).wf(),
        ensures
            final(self).wf(),
            final(self).user_of_token(token.tk@) == Some(u),
            forall|t: Seq<char>|
                t != token.tk@ ==> #[trigger] final(self).user_of_token(t) == old(self).user_of_token(t),
            final(self).conn_user_view() == old(self).conn_user_view(),
            final(self).user_conns_view() == old(self).user_conns_view(),
            final(self).next_cid() == old(self).next_cid(),
    {
        let ghost tk0 = token.tk@;
        let ghost toks0 = self.tokens_view();
        let found = self.find_token_entry(token.tk.as_str());
        match found {
            Some(idx) => {
                proof {
                    assert(toks0[idx as int].0.tk@ == tk0);
                }
                let ghost pair = (token, u);
                self.tokens.set(idx, (token, u));
                proof {
                    assert(self.tokens_view() == toks0.update(idx as int, pair));
                    lemma_token_update(toks0, idx as int, pair);
                    assert(self.user_of_token(tk0) == Some(u));
                    assert forall|i2: int, j2: int|
                        0 <= i2 < j2 < self.tokens_view().len() implies self.tokens_view()[i2].0.tk@
                        != self.tokens_view()[j2].0.tk@ by {
                        assert(self.tokens_view()[i2].0.tk@ == toks0[i2].0.tk@);
                        assert(self.tokens_view()[j2].0.tk@ == toks0[j2].0.tk@);
                    }
                }
            },
            None => {
                let ghost pair = (token, u);
                self.tokens.push((token, u));
                proof {
                    assert(self.tokens_view() == toks0.push(pair));
                    lemma_token_push(toks0, pair);
                    assert(self.user_of_token(tk0) == Some(u));
                    assert forall|i2: int, j2: int|
                        0 <= i2 < j2 < self.tokens_view().len() implies self.tokens_view()[i2].0.tk@
                        != self.tokens_view()[j2].0.tk@ by {
                        assert(self.tokens_view()[i2].0.tk@ == toks0[i2].0.tk@);
                        if j2 < self.tokens_view().len() - 1 {
                            assert(self.tokens_view()[j2].0.tk@ == toks0[j2].0.tk@);
                        }
                    }
                }
            },
        }
        proof {
            assert(self.conn_user_view() == old(self).conn_user_view());
            assert(self.user_conns_view() == old(self).user_conns_view());
            lemma_wf_same_conn_tables(*old(self), *self);
        }
    }

    /// The position of a token's entry in the token table, if any.
    fn find_token_entry(&self, tk: &str) -> (r: Option<usize>)
        ensures
            r matches Some(i) ==> i < self.tokens_view().len()
                && self.tokens_view()[i as int].0.tk@ == tk@ && (forall|k: int|
                0 <= k < i ==> (#[trigger] self.tokens_view()[k]).0.tk@ != tk@),
            r is None ==> (forall|k: int|
                0 <= k < self.tokens_view().len() ==> (#[trigger] self.tokens_view()[k]).0.tk@
                    != tk@),
    {
        let mut i: usize = 0;
        while i < self.tokens.len()
            invariant
                0 <= i <= self.tokens_view().len(),
                forall|k: int| 0 <= k < i ==> (#[trigger] self.tokens_view()[k]).0.tk@ != tk@,
            decreases self.tokens_view().len() - i,
        {
            if str_eq(self.tokens[i].0.tk.as_str(), tk) {
                return Some(i);
            }
            i = i + 1;
        }
        None
    }

    /// Resolve a presented token string against the token table.
    pub fn lookup_token(&self, s: &str) -> (r: Option<UserId>)
        ensures
            r == self.user_of_token(s@),
    {
        let mut i: usize = 0;
        while i < self.tokens.len()
            invariant
                0 <= i <= self.tokens_view().len(),
                forall|k: int| 0 <= k < i ==> (#[trigger] self.tokens_view()[k]).0.tk@ != s@,
            decreases self.tokens_view().len() - i,
        {
            if str_eq(self.tokens[i].0.tk.as_str(), s) {
                proof {
                    lemma_token_user_at(self.tokens_view(), s@, i as int);
                }
                return Some(self.tokens[i].1);
            }
            i = i + 1;
        }
        proof {
            lemma_token_user_at(self.tokens_view(), s@, self.tokens_view().len() as int);
        }
        None
    }

    /// The position of a user's entry in the fan-out table, if any.
    fn find_user_entry(&self, u: UserId) -> (r: Option<usize>)
        ensures
            r matches Some(i) ==> i < self.user_conns_view().len()
                && self.user_conns_view()[i as int].0 == u && (forall|k: int|
                0 <= k < i ==> (#[trigger] self.user_conns_view()[k]).0 != u) && conns_entry(
                self.user_conns_view(),
                u,
            ) == Some(self.user_conns_view()[i as int].1@),
            r is None ==> (forall|k: int|
                0 <= k < self.user_conns_view().len() ==> (#[trigger] self.user_conns_view()[k]).0
                    != u) && conns_entry(self.user_conns_view(), u) is None,
    {
        let mut i: usize = 0;
        while i < self.user_conns.len()
            invariant
                0 <= i <= self.user_conns_view().len(),
                forall|k: int| 0 <= k < i ==> (#[trigger] self.user_conns_view()[k]).0 != u,
            decreases self.user_conns_view().len() - i,
        {
            if self.user_conns[i].0.0 == u.0 {
                proof {
                    lemma_conns_entry_first(self.user_conns_view(), u, i as int);
                }
                return Some(i);
            }
            i = i + 1;
        }
        proof {
            lemma_conns_entry_first(self.user_conns_view(), u, self.user_conns_view().len() as int);
        }
        None
    }

    /// Admit a resolved user: allocate the next connection identifier and
    /// enter the connection into both connection tables.
    fn enroll(&mut self, u: UserId) -> (cid: ConnectionId)
        requires
            old(self).wf(),
            old(self).next_cid() < u64::MAX,
        ensures
            final(self).wf(),
            cid.0 == old(self).next_cid(),
            final(self).next_cid() == old(self).next_cid() + 1,
            final(self).tokens_view() == old(self).tokens_view(),
            final(self).owner_of(cid) == Some(u),
            forall|c: ConnectionId|
                c != cid ==> #[trigger] final(self).owner_of(c) == old(self).owner_of(c),
            final(self).conns_of(u) == old(self).conns_of(u).push(cid),
            forall|w: UserId|
                w != u ==> #[trigger] final(self).conns_of(w) == old(self).conns_of(w),
    {
        let cid = self.cia.get();
        self.conn_user.push((cid, u));
        proof {
            lemma_owner_push(old(self).conn_user_view(), cid, u);
        }
        match self.find_user_entry(u) {
            Some(i) => {
                let ghost uc0 = self.user_conns_view();
                let mut l: Vec<ConnectionId> = Vec::new();
                let entry_len = self.user_conns[i].1.len();
                let mut k: usize = 0;
                while k < entry_len
                    invariant
                        0 <= k <= entry_len,
                        i < uc0.len(),
                        entry_len == uc0[i as int].1@.len(),
                        self.user_conns_view() == uc0,
                        l@ == uc0[i as int].1@.subrange(0, k as int),
                    decreases entry_len - k,
                {
                    l.push(self.user_conns[i].1[k]);
                    k = k + 1;
                    assert(l@ == uc0[i as int].1@.subrange(0, k as int));
                }
                proof {
                    assert(uc0[i as int].1@.subrange(0, entry_len as int) =~= uc0[i as int].1@);
                }
                l.push(cid);
                proof {
                    assert(l@ == uc0[i as int].1@.push(cid));
                }
                let ghost lval = l;
                self.user_conns.set(i, (u, l));
                proof {
                    assert(self.user_conns_view() == uc0.update(i as int, (u, lval)));
                    lemma_conns_update(uc0, i as int, u, lval);
                    self.lemma_enroll_wf(*old(self), u, cid);
                }
                cid
            },
            None => {
                let mut l: Vec<ConnectionId> = Vec::new();
                l.push(cid);
                let ghost lval = l;
                let ghost uc0 = self.user_conns_view();
                self.user_conns.push((u, l));
                proof {
                    assert(lval@ =~= Seq::<ConnectionId>::empty().push(cid));
                    assert(self.user_conns_view() == uc0.push((u, lval)));
                    lemma_conns_push(uc0, u, lval);
                    assert(old(self).conns_of(u) =~= Seq::<ConnectionId>::empty());
                    self.lemma_enroll_wf(*old(self), u, cid);
                }
                cid
            },
        }
    }

    /// After an admission step, the tables are well formed again and the
    /// lookups answer as the admission contract says.
    proof fn lemma_enroll_wf(&self, pre: Hub, u: UserId, cid: ConnectionId)
        requires
            pre.wf(),
            self.tokens_view() == pre.tokens_view(),
            pre.next_cid() < u64::MAX,
            cid.0 == pre.next_cid(),
            self.next_cid() == pre.next_cid() + 1,
            self.conn_user_view() == pre.conn_user_view().push((cid, u)),
            self.owner_of(cid) == Some(u),
            forall|c: ConnectionId| c != cid ==> #[trigger] self.owner_of(c) == pre.owner_of(c),
            self.conns_of(u) == pre.conns_of(u).push(cid),
            forall|w: UserId| w != u ==> #[trigger] self.conns_of(w) == pre.conns_of(w),
            forall|i: int, j: int|
                0 <= i < j < self.user_conns_view().len() ==> self.user_conns_view()[i].0
                    != self.user_conns_view()[j].0,
            forall|i: int, k: int|
                0 <= i < self.user_conns_view().len() && 0 <= k
                    < self.user_conns_view()[i].1@.len() ==> ({
                    ||| (#[trigger] self.user_conns_view()[i].1@[k]).0 < pre.next_cid()
                    ||| self.user_conns_view()[i].1@[k] == cid
                }),
            forall|i: int, k1: int, k2: int|
                0 <= i < self.user_conns_view().len() && 0 <= k1 < k2
                    < self.user_conns_view()[i].1@.len() ==> (
                #[trigger] self.user_conns_view()[i].1@[k1]) != (
                #[trigger] self.user_conns_view()[i].1@[k2]),
        ensures
            self.wf(),
    {
        // connection keys stay unique and below the counter
        assert forall|i: int, j: int|
            0 <= i < j < self.conn_user_view().len() implies self.conn_user_view()[i].0
            != self.conn_user_view()[j].0 by {
            if j < self.conn_user_view().len() - 1 {
                assert(self.conn_user_view()[i] == pre.conn_user_view()[i]);
                assert(self.conn_user_view()[j] == pre.conn_user_view()[j]);
            } else {
                assert(self.conn_user_view()[i] == pre.conn_user_view()[i]);
                assert(pre.conn_user_view()[i].0.0 < pre.next_cid());
            }
        }
        assert forall|i: int| 0 <= i < self.conn_user_view().len() implies (
        #[trigger] self.conn_user_view()[i]).0.0 < self.next_cid() by {
            if i < self.conn_user_view().len() - 1 {
                assert(self.conn_user_view()[i] == pre.conn_user_view()[i]);
                assert(pre.conn_user_view()[i].0.0 < pre.next_cid());
            }
        }
        // the two connection tables agree
        assert forall|c: ConnectionId, w: UserId|
            ((#[trigger] self.owner_of(c)) == Some(w) <==> #[trigger] self.conns_of(w).contains(
                c,
            )) by {
            if c == cid {
                assert(self.owner_of(cid) == Some(u));
                assert(self.conns_of(u).contains(cid)) by {
                    assert(self.conns_of(u)[self.conns_of(u).len() - 1] == cid);
                }
                if w != u {
                    assert(self.conns_of(w) == pre.conns_of(w));
                    assert(!pre.conns_of(w).contains(cid)) by {
                        if pre.conns_of(w).contains(cid) {
                            assert(pre.owner_of(cid) == Some(w));
                            lemma_owner_some_exists(pre.conn_user_view(), cid);
                            let k2 = choose|k: int|
                                0 <= k < pre.conn_user_view().len() && (
                                #[trigger] pre.conn_user_view()[k]).0 == cid;
                            assert(pre.conn_user_view()[k2].0.0 < pre.next_cid());
                            assert(false);
                        }
                    }
                }
            } else {
                assert(self.owner_of(c) == pre.owner_of(c));
                if w == u {
                    assert(self.conns_of(u).contains(c) <==> pre.conns_of(u).push(cid).contains(
                        c,
                    ));
                    assert(pre.conns_of(u).push(cid).contains(c) <==> pre.conns_of(u).contains(c))
                        by {
                        if pre.conns_of(u).contains(c) {
                            let k = choose|k: int|
                                0 <= k < pre.conns_of(u).len() && pre.conns_of(u)[k] == c;
                            assert(pre.conns_of(u).push(cid)[k] == c);
                        }
                        if pre.conns_of(u).push(cid).contains(c) {
                            let k = choose|k: int|
                                0 <= k < pre.conns_of(u).push(cid).len() && pre.conns_of(u).push(
                                    cid,
                                )[k] == c;
                            assert(k < pre.conns_of(u).len());
                            assert(pre.conns_of(u)[k] == c);
                        }
                    }
                } else {
                    assert(self.conns_of(w) == pre.conns_of(w));
                }
                assert(pre.owner_of(c) == Some(w) <==> pre.conns_of(w).contains(c));
            }
        }
    }

    /// The position of a connection's entry in the connection table, if any.
    fn find_conn_entry(&self, cid: ConnectionId) -> (r: Option<usize>)
        ensures
            r matches Some(i) ==> i < self.conn_user_view().len()
                && self.conn_user_view()[i as int].0 == cid && self.owner_of(cid) == Some(
                self.conn_user_view()[i as int].1,
            ),
            r is None ==> self.owner_of(cid) is None,
    {
        let mut i: usize = 0;
        while i < self.conn_user.len()
            invariant
                0 <= i <= self.conn_user_view().len(),
                forall|k: int| 0 <= k < i ==> (#[trigger] self.conn_user_view()[k]).0 != cid,
            decreases self.conn_user_view().len() - i,
        {
            if self.conn_user[i].0.0 == cid.0 {
                proof {
                    lemma_owner_first(self.conn_user_view(), cid, i as int);
                }
                return Some(i);
            }
            i = i + 1;
        }
        proof {
            lemma_owner_first(self.conn_user_view(), cid, self.conn_user_view().len() as int);
        }
        None
    }

    /// Drop a connection from both connection tables: the set-difference on
    /// the owner's fan-out list, leaving other devices untouched. Unknown
    /// connections are a no-op.
    fn disconnect(&mut self, cid: ConnectionId)
        requires
            old(self).wf(),
        ensures
            final(self).wf(),
            final(self).tokens_view() == old(self).tokens_view(),
            final(self).next_cid() == old(self).next_cid(),
            old(self).owner_of(cid) is None ==> hub_unchanged(*old(self), *final(self)),
            old(self).owner_of(cid) matches Some(u) ==> ({
                &&& final(self).owner_of(cid) is None
                &&& (forall|c: ConnectionId|
                    c != cid ==> #[trigger] final(self).owner_of(c) == old(self).owner_of(c))
                &&& final(self).conns_of(u) == without_cid(old(self).conns_of(u), cid)
                &&& (forall|w: UserId|
                    w != u ==> #[trigger] final(self).conns_of(w) == old(self).conns_of(w))
            }),
    {
        let found = self.find_conn_entry(cid);
        match found {
            None => {},
            Some(i) => {
                let u = self.conn_user[i].1;
                self.conn_user.remove(i);
                proof {
                    lemma_owner_remove(old(self).conn_user_view(), i as int);
                }
                let entry = self.find_user_entry(u);
                match entry {
                    None => {
                        proof {
                            // the tables agreed before: the owner's entry must exist
                            assert(old(self).conns_of(u).contains(cid));
                            assert(old(self).conns_of(u) =~= Seq::<ConnectionId>::empty());
                            assert(false);
                        }
                    },
                    Some(j) => {
                        let ghost uc0 = self.user_conns_view();
                        let ghost l0 = uc0[j as int].1@;
                        let entry_len = self.user_conns[j].1.len();
                        let mut l: Vec<ConnectionId> = Vec::new();
                        let mut k: usize = 0;
                        proof {
                            assert(l0.take(0) =~= Seq::<ConnectionId>::empty());
                        }
                        while k < entry_len
                            invariant
                                0 <= k <= entry_len,
                                j < uc0.len(),
                                entry_len == l0.len(),
                                self.user_conns_view() == uc0,
                                l0 == uc0[j as int].1@,
                                l@ == without_cid(l0.take(k as int), cid),
                            decreases entry_len - k,
                        {
                            let c = self.user_conns[j].1[k];
                            proof {
                                assert(l0.take(k + 1) =~= l0.take(k as int) + seq![l0[k as int]]);
                                lemma_without_cid_append(l0.take(k as int), seq![l0[k as int]], cid);
                                assert(seq![l0[k as int]].drop_first() =~= Seq::<
                                    ConnectionId,
                                >::empty());
                                assert(without_cid(Seq::<ConnectionId>::empty(), cid) =~= Seq::<
                                    ConnectionId,
                                >::empty());
                                if l0[k as int] == cid {
                                    assert(without_cid(seq![l0[k as int]], cid) == without_cid(
                                        Seq::<ConnectionId>::empty(),
                                        cid,
                                    ));
                                } else {
                                    assert(without_cid(seq![l0[k as int]], cid) == seq![l0[k as int]]
                                        + without_cid(Seq::<ConnectionId>::empty(), cid));
                                    assert(seq![l0[k as int]] + Seq::<ConnectionId>::empty()
                                        =~= seq![l0[k as int]]);
                                }
                            }
                            if c.0 != cid.0 {
                                l.push(c);
                            }
                            k = k + 1;
                            proof {
                                assert(l@ =~= without_cid(l0.take(k as int), cid));
                            }
                        }
                        proof {
                            assert(l0.take(entry_len as int) =~= l0);
                        }
                        let ghost lval = l;
                        self.user_conns.set(j, (u, l));
                        proof {
                            assert(self.user_conns_view() == uc0.update(j as int, (u, lval)));
                            lemma_conns_update(uc0, j as int, u, lval);
                            lemma_without_cid_props(l0, cid);
                            self.lemma_disconnect_wf(*old(self), u, cid);
                        }
                    },
                }
            },
        }
    }

    /// After a disconnect step, the tables are well formed again.
    proof fn lemma_disconnect_wf(&self, pre: Hub, u: UserId, cid: ConnectionId)
        requires
            pre.wf(),
            self.tokens_view() == pre.tokens_view(),
            self.next_cid() == pre.next_cid(),
            pre.owner_of(cid) == Some(u),
            self.owner_of(cid) is None,
            forall|c: ConnectionId| c != cid ==> #[trigger] self.owner_of(c) == pre.owner_of(c),
            self.conns_of(u) == without_cid(pre.conns_of(u), cid),
            forall|w: UserId| w != u ==> #[trigger] self.conns_of(w) == pre.conns_of(w),
            forall|i: int, j: int|
                0 <= i < j < self.conn_user_view().len() ==> self.conn_user_view()[i].0
                    != self.conn_user_view()[j].0,
            forall|i: int, j: int|
                0 <= i < j < self.user_conns_view().len() ==> self.user_conns_view()[i].0
                    != self.user_conns_view()[j].0,
            forall|i: int|
                0 <= i < self.conn_user_view().len() ==> (#[trigger] self.conn_user_view()[i]).0.0
                    < self.next_cid(),
            forall|i: int, k: int|
                0 <= i < self.user_conns_view().len() && 0 <= k
                    < self.user_conns_view()[i].1@.len() ==> (
                #[trigger] self.user_conns_view()[i].1@[k]).0 < self.next_cid(),
            forall|i: int, k1: int, k2: int|
                0 <= i < self.user_conns_view().len() && 0 <= k1 < k2
                    < self.user_conns_view()[i].1@.len() ==> (
                #[trigger] self.user_conns_view()[i].1@[k1]) != (
                #[trigger] self.user_conns_view()[i].1@[k2]),
        ensures
            self.wf(),
    {
        assert(pre.conns_of(u).contains(cid));
        assert(conns_entry(pre.user_conns_view(), u) is Some) by {
            if conns_entry(pre.user_conns_view(), u) is None {
                assert(pre.conns_of(u) =~= Seq::<ConnectionId>::empty());
            }
        }
        lemma_conns_entry_is_entry(pre.user_conns_view(), u);
        assert(forall|k1: int, k2: int|
            0 <= k1 < k2 < pre.conns_of(u).len() ==> pre.conns_of(u)[k1] != pre.conns_of(u)[k2]);
        lemma_without_cid_props(pre.conns_of(u), cid);
        assert forall|c: ConnectionId, w: UserId|
            ((#[trigger] self.owner_of(c)) == Some(w) <==> #[trigger] self.conns_of(w).contains(
                c,
            )) by {
            if c == cid {
                assert(self.owner_of(cid) is None);
                if w == u {
                    assert(!self.conns_of(u).contains(cid));
                } else {
                    assert(self.conns_of(w) == pre.conns_of(w));
                    assert(pre.owner_of(cid) == Some(u));
                    if pre.conns_of(w).contains(cid) {
                        assert(pre.owner_of(cid) == Some(w));
                        assert(false);
                    }
                }
            } else {
                assert(self.owner_of(c) == pre.owner_of(c));
                if w == u {
                    assert(self.conns_of(u).contains(c) <==> pre.conns_of(u).contains(c));
                } else {
                    assert(self.conns_of(w) == pre.conns_of(w));
                }
                assert(pre.owner_of(c) == Some(w) <==> pre.conns_of(w).contains(c));
            }
        }
    }

    /// Copy one user's fan-out entries for a transmission: one `(connection,
    /// instruction)` pair per live connection of `dest`, in admission order,
    /// each carrying a value-equal copy of the payload.
    fn push_fanout(
        &self,
        dest: UserId,
        tx: &crate::msg::WsClientboundTx,
        out: &mut Vec<(ConnectionId, WsToWorker)>,
    )
        ensures
            final(out)@.len() == old(out)@.len() + self.conns_of(dest).len(),
            forall|k: int|
                0 <= k < old(out)@.len() ==> #[trigger] final(out)@[k] == old(out)@[k],
            forall|k: int|
                old(out)@.len() <= k < final(out)@.len() ==> (#[trigger] final(out)@[k]).0
                    == self.conns_of(dest)[k - old(out)@.len()] && (final(out)@[k].1 matches WsToWorker::Tx(t) && payload_eq(t.payload(), tx.payload())),
    {
        match self.find_user_entry(dest) {
            None => {
                proof {
                    assert(self.conns_of(dest) =~= Seq::<ConnectionId>::empty());
                }
            },
            Some(i) => {
                let n = self.user_conns[i].1.len();
                let mut k: usize = 0;
                while k < n
                    invariant
                        0 <= k <= n,
                        i < self.user_conns_view().len(),
                        n == self.conns_of(dest).len(),
                        self.conns_of(dest) == self.user_conns_view()[i as int].1@,
                        out@.len() == old(out)@.len() + k,
                        forall|j: int|
                            0 <= j < old(out)@.len() ==> #[trigger] out@[j] == old(out)@[j],
                        forall|j: int|
                            old(out)@.len() <= j < out@.len() ==> (#[trigger] out@[j]).0
                                == self.conns_of(dest)[j - old(out)@.len()] && (
                            out@[j].1 matches WsToWorker::Tx(t) && payload_eq(
                                t.payload(),
                                tx.payload(),
                            )),
                    decreases n - k,
                {
                    let c = self.user_conns[i].1[k];
                    out.push((c, WsToWorker::Tx(tx.duplicate())));
                    k = k + 1;
                }
            },
        }
    }

    /// Resolve an outbound envelope into deliveries: one entry per live
    /// connection of the destination user (or users), each carrying the
    /// payload. A destination with no live connections contributes nothing.
    pub fn route_outbound(&self, m: &CoreToWs) -> (r: Vec<(ConnectionId, WsToWorker)>)
        ensures
            m matches CoreToWs::SendDirect { dest, tx } ==> ({
                let conns = self.conns_of(*dest);
                &&& r@.len() == conns.len()
                &&& (forall|k: int|
                    0 <= k < r@.len() ==> (#[trigger] r@[k]).0 == conns[k] && (
                    r@[k].1 matches WsToWorker::Tx(t) && payload_eq(t.payload(), tx.payload())))
            }),
            m matches CoreToWs::SendMultiple { dest, tx } ==> ({
                let conns = multi_conns(*self, dest@);
                &&& r@.len() == conns.len()
                &&& (forall|k: int|
                    0 <= k < r@.len() ==> (#[trigger] r@[k]).0 == conns[k] && (
                    r@[k].1 matches WsToWorker::Tx(t) && payload_eq(t.payload(), tx.payload())))
            }),
    {
        let mut out: Vec<(ConnectionId, WsToWorker)> = Vec::new();
        match m {
            CoreToWs::SendDirect { dest, tx } => {
                self.push_fanout(*dest, tx, &mut out);
                out
            },
            CoreToWs::SendMultiple { dest, tx } => {
                let mut j: usize = 0;
                proof {
                    assert(dest@.take(0) =~= Seq::<UserId>::empty());
                }
                while j < dest.len()
                    invariant
                        0 <= j <= dest@.len(),
                        out@.len() == multi_conns(*self, dest@.take(j as int)).len(),
                        forall|k: int|
                            0 <= k < out@.len() ==> (#[trigger] out@[k]).0 == multi_conns(
                                *self,
                                dest@.take(j as int),
                            )[k] && (out@[k].1 matches WsToWorker::Tx(t) && payload_eq(
                                t.payload(),
                                tx.payload(),
                            )),
                    decreases dest@.len() - j,
                {
                    self.push_fanout(dest[j], tx, &mut out);
                    proof {
                        assert(dest@.take(j + 1).drop_last() =~= dest@.take(j as int));
                        assert(dest@.take(j + 1).last() == dest@[j as int]);
                    }
                    j = j + 1;
                }
                proof {
                    assert(dest@.take(dest@.len() as int) =~= dest@);
                }
                out
            },
        }
    }

    /// Drop a user's whole session: every live connection gets a disconnect
    /// instruction, the user leaves both connection tables, and every token
    /// bound to the user is withdrawn — one logically atomic step.
    pub fn clear_session(&mut self, u: UserId) -> (r: Vec<(ConnectionId, WsToWorker)>)
        requires
            old(self).wf(),
        ensures
            final(self).wf(),
            final(self).next_cid() == old(self).next_cid(),
            r@.len() == old(self).conns_of(u).len(),
            forall|k: int|
                0 <= k < r@.len() ==> #[trigger] r@[k] == (
                    old(self).conns_of(u)[k],
                    WsToWorker::Disconnect,
                ),
            final(self).conns_of(u) == Seq::<ConnectionId>::empty(),
            forall|w: UserId|
                w != u ==> #[trigger] final(self).conns_of(w) == old(self).conns_of(w),
            forall|c: ConnectionId|
                #[trigger] final(self).owner_of(c) == (match old(self).owner_of(c) {
                    Some(w) => if w == u {
                        None::<UserId>
                    } else {
                        Some(w)
                    },
                    None => None::<UserId>,
                }),
            forall|t: Seq<char>|
                #[trigger] final(self).user_of_token(t) == (match old(self).user_of_token(t) {
                    Some(w) => if w == u {
                        None::<UserId>
                    } else {
                        Some(w)
                    },
                    None => None::<UserId>,
                }),
    {
        // disconnect instructions, then the fan-out entry
        let mut out: Vec<(ConnectionId, WsToWorker)> = Vec::new();
        match self.find_user_entry(u) {
            None => {
                proof {
                    assert(old(self).conns_of(u) =~= Seq::<ConnectionId>::empty());
                }
            },
            Some(i) => {
                let n = self.user_conns[i].1.len();
                let mut k: usize = 0;
                while k < n
                    invariant
                        0 <= k <= n,
                        i < self.user_conns_view().len(),
                        self.user_conns_view() == old(self).user_conns_view(),
                        n == self.conns_of(u).len(),
                        self.conns_of(u) == self.user_conns_view()[i as int].1@,
                        out@.len() == k,
                        forall|j: int|
                            0 <= j < k ==> #[trigger] out@[j] == (
                                self.conns_of(u)[j],
                                WsToWorker::Disconnect,
                            ),
                    decreases n - k,
                {
                    let c = self.user_conns[i].1[k];
                    out.push((c, WsToWorker::Disconnect));
                    k = k + 1;
                }
                let ghost uc0 = self.user_conns_view();
                self.user_conns.remove(i);
                proof {
                    lemma_conns_remove(uc0, i as int);
                    assert(conns_entry(self.user_conns_view(), u) is None);
                }
            },
        }
        proof {
            assert(conns_entry(self.user_conns_view(), u) is None || old(self).conns_of(u)
                =~= Seq::<ConnectionId>::empty());
        }
        // the connection table loses every connection of the user
        let ghost cu0 = self.conn_user@;
        let mut new_cu: Vec<(ConnectionId, UserId)> = Vec::new();
        let mut k: usize = 0;
        proof {
            assert(cu0.take(0) =~= Seq::<(ConnectionId, UserId)>::empty());
        }
        while k < self.conn_user.len()
            invariant
                0 <= k <= self.conn_user@.len(),
                self.conn_user@ == cu0,
                new_cu@ == cu_without_user(cu0.take(k as int), u),
            decreases self.conn_user@.len() - k,
        {
            let pair = self.conn_user[k];
            proof {
                assert(cu0.take(k + 1) =~= cu0.take(k as int) + seq![cu0[k as int]]);
                lemma_cu_without_user_append(cu0.take(k as int), seq![cu0[k as int]], u);
                assert(seq![cu0[k as int]].drop_first() =~= Seq::<(ConnectionId, UserId)>::empty());
                assert(cu_without_user(Seq::<(ConnectionId, UserId)>::empty(), u) =~= Seq::<
                    (ConnectionId, UserId),
                >::empty());
                if cu0[k as int].1 == u {
                    assert(cu_without_user(seq![cu0[k as int]], u) == cu_without_user(
                        Seq::<(ConnectionId, UserId)>::empty(),
                        u,
                    ));
                } else {
                    assert(cu_without_user(seq![cu0[k as int]], u) == seq![cu0[k as int]]
                        + cu_without_user(Seq::<(ConnectionId, UserId)>::empty(), u));
                    assert(seq![cu0[k as int]] + Seq::<(ConnectionId, UserId)>::empty()
                        =~= seq![cu0[k as int]]);
                }
            }
            if pair.1.0 != u.0 {
                new_cu.push(pair);
            }
            k = k + 1;
            proof {
                assert(new_cu@ =~= cu_without_user(cu0.take(k as int), u));
            }
        }
        proof {
            assert(cu0.take(cu0.len() as int) =~= cu0);
        }
        self.conn_user = new_cu;
        // every token bound to the user is withdrawn
        let ghost toks0 = self.tokens@;
        let mut new_toks: Vec<(LoginToken, UserId)> = Vec::new();
        let mut k2: usize = 0;
        proof {
            assert(toks0.take(0) =~= Seq::<(LoginToken, UserId)>::empty());
        }
        while k2 < self.tokens.len()
            invariant
                0 <= k2 <= self.tokens@.len(),
                self.tokens@ == toks0,
                new_toks@ == tokens_without_user(toks0.take(k2 as int), u),
            decreases self.tokens@.len() - k2,
        {
            proof {
                assert(toks0.take(k2 + 1) =~= toks0.take(k2 as int) + seq![toks0[k2 as int]]);
                lemma_tokens_without_user_append(toks0.take(k2 as int), seq![toks0[k2 as int]], u);
                assert(seq![toks0[k2 as int]].drop_first() =~= Seq::<(LoginToken, UserId)>::empty());
                assert(tokens_without_user(Seq::<(LoginToken, UserId)>::empty(), u) =~= Seq::<
                    (LoginToken, UserId),
                >::empty());
                if toks0[k2 as int].1 == u {
                    assert(tokens_without_user(seq![toks0[k2 as int]], u) == tokens_without_user(
                        Seq::<(LoginToken, UserId)>::empty(),
                        u,
                    ));
                } else {
                    assert(tokens_without_user(seq![toks0[k2 as int]], u) == seq![toks0[k2 as int]]
                        + tokens_without_user(Seq::<(LoginToken, UserId)>::empty(), u));
                    assert(seq![toks0[k2 as int]] + Seq::<(LoginToken, UserId)>::empty()
                        =~= seq![toks0[k2 as int]]);
                }
            }
            if self.tokens[k2].1.0 != u.0 {
                let t = self.tokens[k2].0.clone();
                let w = self.tokens[k2].1;
                new_toks.push((t, w));
                proof {
                    assert((t, w) == toks0[k2 as int]);
                }
            }
            k2 = k2 + 1;
            proof {
                assert(new_toks@ =~= tokens_without_user(toks0.take(k2 as int), u));
            }
        }
        proof {
            assert(toks0.take(toks0.len() as int) =~= toks0);
        }
        self.tokens = new_toks;
        proof {
            self.lemma_clear_wf(*old(self), u);
        }
        out
    }

    /// After a session clear, the tables are well formed again and the
    /// lookups answer as the clearing contract says.
    proof fn lemma_clear_wf(&self, pre: Hub, u: UserId)
        requires
            pre.wf(),
            self.next_cid() == pre.next_cid(),
            self.conn_user_view() == cu_without_user(pre.conn_user_view(), u),
            self.tokens_view() == tokens_without_user(pre.tokens_view(), u),
            conns_entry(self.user_conns_view(), u) is None,
            forall|w: UserId|
                w != u ==> #[trigger] conns_entry(self.user_conns_view(), w) == conns_entry(
                    pre.user_conns_view(),
                    w,
                ),
            forall|i: int, j: int|
                0 <= i < j < self.user_conns_view().len() ==> self.user_conns_view()[i].0
                    != self.user_conns_view()[j].0,
            forall|i: int, k: int|
                0 <= i < self.user_conns_view().len() && 0 <= k
                    < self.user_conns_view()[i].1@.len() ==> (
                #[trigger] self.user_conns_view()[i].1@[k]).0 < self.next_cid(),
            forall|i: int, k1: int, k2: int|
                0 <= i < self.user_conns_view().len() && 0 <= k1 < k2
                    < self.user_conns_view()[i].1@.len() ==> (
                #[trigger] self.user_conns_view()[i].1@[k1]) != (
                #[trigger] self.user_conns_view()[i].1@[k2]),
        ensures
            self.wf(),
            self.conns_of(u) == Seq::<ConnectionId>::empty(),
            forall|w: UserId| w != u ==> #[trigger] self.conns_of(w) == pre.conns_of(w),
            forall|c: ConnectionId|
                #[trigger] self.owner_of(c) == (match pre.owner_of(c) {
                    Some(w) => if w == u {
                        None::<UserId>
                    } else {
                        Some(w)
                    },
                    None => None::<UserId>,
                }),
            forall|t: Seq<char>|
                #[trigger] self.user_of_token(t) == (match pre.user_of_token(t) {
                    Some(w) => if w == u {
                        None::<UserId>
                    } else {
                        Some(w)
                    },
                    None => None::<UserId>,
                }),
    {
        lemma_cu_without_user(pre.conn_user_view(), u);
        lemma_tokens_without_user(pre.tokens_view(), u);
        assert forall|w: UserId| w != u implies #[trigger] self.conns_of(w) == pre.conns_of(w) by {
            assert(conns_entry(self.user_conns_view(), w) == conns_entry(
                pre.user_conns_view(),
                w,
            ));
        }
        // connection keys stay unique and below the counter
        assert forall|i: int, j: int|
            0 <= i < j < self.conn_user_view().len() implies self.conn_user_view()[i].0
            != self.conn_user_view()[j].0 by {}
        assert forall|i: int| 0 <= i < self.conn_user_view().len() implies (
        #[trigger] self.conn_user_view()[i]).0.0 < self.next_cid() by {
            assert(pre.conn_user_view().contains(self.conn_user_view()[i]));
            let k = choose|k: int|
                0 <= k < pre.conn_user_view().len() && pre.conn_user_view()[k]
                    == self.conn_user_view()[i];
            assert(pre.conn_user_view()[k].0.0 < pre.next_cid());
        }
        // the two connection tables agree
        assert forall|c: ConnectionId, w: UserId|
            ((#[trigger] self.owner_of(c)) == Some(w) <==> #[trigger] self.conns_of(w).contains(
                c,
            )) by {
            if w == u {
                assert(self.conns_of(u) =~= Seq::<ConnectionId>::empty());
                assert(self.owner_of(c) != Some(u));
            } else {
                assert(self.conns_of(w) == pre.conns_of(w));
                assert(self.owner_of(c) == Some(w) <==> pre.owner_of(c) == Some(w));
                assert(pre.owner_of(c) == Some(w) <==> pre.conns_of(w).contains(c));
            }
        }
    }

    /// React to an instruction from the HTTP surface: expect a freshly
    /// minted token, or clear a user's whole session, handing back the
    /// disconnect instructions for its live connections.
    pub fn handle_web(&mut self, m: WebToWs) -> (r: Vec<(ConnectionId, WsToWorker)>)
        requires
            old(self).wf(),
        ensures
            final(self).wf(),
            final(self).next_cid() == old(self).next_cid(),
            m matches WebToWs::AddToken(u, lt) ==> ({
                &&& r@.len() == 0
                &&& final(self).conn_user_view() == old(self).conn_user_view()
                &&& final(self).user_conns_view() == old(self).user_conns_view()
                &&& final(self).user_of_token(lt.tk@) == Some(u)
                &&& (forall|t: Seq<char>|
                    t != lt.tk@ ==> #[trigger] final(self).user_of_token(t) == old(self).user_of_token(t))
            }),
            m matches WebToWs::ClearTokens(u) ==> ({
                &&& r@.len() == old(self).conns_of(u).len()
                &&& (forall|k: int|
                    0 <= k < r@.len() ==> #[trigger] r@[k] == (
                        old(self).conns_of(u)[k],
                        WsToWorker::Disconnect,
                    ))
                &&& final(self).conns_of(u) == Seq::<ConnectionId>::empty()
                &&& (forall|w: UserId|
                    w != u ==> #[trigger] final(self).conns_of(w) == old(self).conns_of(w))
                &&& (forall|c: ConnectionId|
                    #[trigger] final(self).owner_of(c) == (match old(self).owner_of(c) {
                        Some(w) => if w == u {
                            None::<UserId>
                        } else {
                            Some(w)
                        },
                        None => None::<UserId>,
                    }))
                &&& (forall|t: Seq<char>|
                    #[trigger] final(self).user_of_token(t) == (match old(self).user_of_token(t) {
                        Some(w) => if w == u {
                            None::<UserId>
                        } else {
                            Some(w)
                        },
                        None => None::<UserId>,
                    }))
            }),
    {
        match m {
            WebToWs::AddToken(u, lt) => {
                self.register_token(u, lt);
                Vec::new()
            },
            WebToWs::ClearTokens(u) => self.clear_session(u),
        }
    }

    /// React to a worker report: forward a parsed client message or a
    /// delivery confirmation to the core actor, and drop a disconnected
    /// connection from the tables.
    pub fn handle_worker(&mut self, ev: WorkerToWs) -> (r: Option<WsToCore>)
        requires
            old(self).wf(),
        ensures
            final(self).wf(),
            final(self).tokens_view() == old(self).tokens_view(),
            final(self).next_cid() == old(self).next_cid(),
            ev matches WorkerToWs::ForwardToCore(cid, text) ==> hub_unchanged(
                *old(self),
                *final(self),
            ) && ({
                match old(self).owner_of(cid) {
                    None => r is None,
                    Some(u) => ({
                        match codec::sb_parse(text@) {
                            None => r is None,
                            Some(q) => r matches Some(WsToCore::Tx(tx)) && tx.sender_spec() == u
                                && (tx.inner_spec() matches WsServerboundPayload::NewUserMessage {
                                to,
                                content,
                            } && to.0 == q.0 && content.0@ == q.1),
                        }
                    }),
                }
            }),
            ev matches WorkerToWs::Disconnected(cid) ==> r is None && ({
                match old(self).owner_of(cid) {
                    None => hub_unchanged(*old(self), *final(self)),
                    Some(u) => ({
                        &&& final(self).owner_of(cid) is None
                        &&& (forall|c: ConnectionId|
                            c != cid ==> #[trigger] final(self).owner_of(c) == old(self).owner_of(
                                c,
                            ))
                        &&& final(self).conns_of(u) == without_cid(old(self).conns_of(u), cid)
                        &&& (forall|w: UserId|
                            w != u ==> #[trigger] final(self).conns_of(w) == old(self).conns_of(
                                w,
                            ))
                    }),
                }
            }),
            ev matches WorkerToWs::ConfirmTransmittedUserMsg(cid, umid) ==> hub_unchanged(
                *old(self),
                *final(self),
            ) && ({
                match old(self).owner_of(cid) {
                    None => r is None,
                    Some(u) => r == Some(WsToCore::ReadAck { from: u, umid }),
                }
            }),
    {
        match ev {
            WorkerToWs::ForwardToCore(cid, text) => {
                let owner = self.find_conn_entry(cid);
                match owner {
                    None => None,
                    Some(i) => {
                        let u = self.conn_user[i].1;
                        match WsServerboundTx::new(u, text.as_str()) {
                            Some(tx) => Some(WsToCore::Tx(tx)),
                            None => None,
                        }
                    },
                }
            },
            WorkerToWs::Disconnected(cid) => {
                self.disconnect(cid);
                None
            },
            WorkerToWs::ConfirmTransmittedUserMsg(cid, umid) => {
                let owner = self.find_conn_entry(cid);
                match owner {
                    None => None,
                    Some(i) => {
                        let u = self.conn_user[i].1;
                        Some(WsToCore::ReadAck { from: u, umid })
                    },
                }
            },
        }
    }

    /// Whether another connection can still be admitted: the identifier
    /// space is not exhausted. Callers of [`Hub::try_admit`] check this
    /// first.
    pub fn can_admit(&self) -> (r: bool)
        ensures
            r == (self.next_cid() < u64::MAX),
    {
        self.cia.has_next()
    }

    /// The stream-upgrade handshake: read the credential header, resolve the
    /// token, and admit the connection. An absent or unreadable header is
    /// malformed; an unknown token is unauthorized; in both cases nothing is
    /// allocated and no table moves.
    pub fn try_admit(&mut self, header: Option<Option<&str>>) -> (r: AdmitOutcome)
        requires
            old(self).wf(),
            old(self).next_cid() < u64::MAX,
        ensures
            final(self).wf(),
            final(self).tokens_view() == old(self).tokens_view(),
            header is None || (header matches Some(None)) ==> r == AdmitOutcome::RejectedMalformed
                && hub_unchanged(*old(self), *final(self)),
            header matches Some(Some(s)) ==> ({
                match old(self).user_of_token(s@) {
                    None => r == AdmitOutcome::RejectedUnauthorized && hub_unchanged(
                        *old(self),
                        *final(self),
                    ),
                    Some(u) => ({
                        let cid = ConnectionId(old(self).next_cid());
                        &&& r == AdmitOutcome::Admitted(u, cid)
                        &&& final(self).next_cid() == old(self).next_cid() + 1
                        &&& final(self).owner_of(cid) == Some(u)
                        &&& (forall|c: ConnectionId|
                            c != cid ==> #[trigger] final(self).owner_of(c) == old(self).owner_of(
                                c,
                            ))
                        &&& final(self).conns_of(u) == old(self).conns_of(u).push(cid)
                        &&& (forall|w: UserId|
                            w != u ==> #[trigger] final(self).conns_of(w) == old(self).conns_of(
                                w,
                            ))
                    }),
                }
            }),
    {
        match header {
            None => AdmitOutcome::RejectedMalformed,
            Some(None) => AdmitOutcome::RejectedMalformed,
            Some(Some(s)) => {
                match self.lookup_token(s) {
                    None => AdmitOutcome::RejectedUnauthorized,
                    Some(u) => {
                        let cid = self.enroll(u);
                        AdmitOutcome::Admitted(u, cid)
                    },
                }
            },
        }
    }
}

/// The connections of a list of destination users, user by user in order.
pub open spec fn multi_conns(h: Hub, dest: Seq<UserId>) -> Seq<ConnectionId>
    decreases dest.len(),
{
    if dest.len() == 0 {
        Seq::<ConnectionId>::empty()
    } else {
        multi_conns(h, dest.drop_last()) + h.conns_of(dest.last())
    }
}

/// One connection event at the hub, as its tables see it: an admission,
/// carrying the user and the identifier the connection received, or a
/// disconnect.
pub enum ConnEvent {
    Admitted(UserId, ConnectionId),
    Disconnected(ConnectionId),
}

/// The identifier an admission hands out, if the event is one.
pub open spec fn cid_of(e: ConnEvent) -> Option<ConnectionId> {
    match e {
        ConnEvent::Admitted(_, c) => Some(c),
        ConnEvent::Disconnected(_) => None,
    }
}

/// Identifiers are never reused: two admissions never hand out the same
/// identifier. The allocator's contract guarantees this of every run.
pub open spec fn events_wf(events: Seq<ConnEvent>) -> bool {
    forall|i: int, j: int|
        0 <= i < j < events.len() ==> !((#[trigger] cid_of(events[i])) is Some && cid_of(
            events[i],
        ) == #[trigger] cid_of(events[j]))
}

/// A user's fan-out list after replaying a run of events by the hub's own
/// update rules: an admission for the user appends the new identifier (the
/// `conns_of` clause of `try_admit`), a disconnect takes the identifier out
/// (the `conns_of` clause of `handle_worker` on a disconnect report).
pub open spec fn conns_replay(events: Seq<ConnEvent>, u: UserId) -> Seq<ConnectionId>
    decreases events.len(),
{
    if events.len() == 0 {
        Seq::<ConnectionId>::empty()
    } else {
        let pre = conns_replay(events.drop_last(), u);
        match events.last() {
            ConnEvent::Admitted(w, cid) => if w == u {
                pre.push(cid)
            } else {
                pre
            },
            ConnEvent::Disconnected(cid) => without_cid(pre, cid),
        }
    }
}

/// The connections currently admitted for a user and not yet disconnected,
/// read off the event run itself.
pub open spec fn live_set(events: Seq<ConnEvent>, u: UserId) -> Set<ConnectionId>
    decreases events.len(),
{
    if events.len() == 0 {
        Set::<ConnectionId>::empty()
    } else {
        let pre = live_set(events.drop_last(), u);
        match events.last() {
            ConnEvent::Admitted(w, cid) => if w == u {
                pre.insert(cid)
            } else {
                pre
            },
            ConnEvent::Disconnected(cid) => pre.remove(cid),
        }
    }
}

/// After every run of admissions and disconnects, a user's fan-out list
/// holds exactly the connections admitted for the user and not yet
/// disconnected, each at most once.
pub proof fn lemma_connections_track_events(events: Seq<ConnEvent>, u: UserId)
    requires
        events_wf(events),
    ensures
        conns_replay(events, u).to_set() == live_set(events, u),
        forall|k1: int, k2: int|
            0 <= k1 < k2 < conns_replay(events, u).len() ==> conns_replay(events, u)[k1]
                != conns_replay(events, u)[k2],
        forall|k: int|
            0 <= k < conns_replay(events, u).len() ==> exists|i: int|
                0 <= i < events.len() && cid_of(#[trigger] events[i]) == Some(
                    #[trigger] conns_replay(events, u)[k],
                ),
    decreases events.len(),
{
    let cr = conns_replay(events, u);
    if events.len() == 0 {
        assert(cr.to_set() =~= live_set(events, u));
    } else {
        let prefix = events.drop_last();
        assert(events_wf(prefix)) by {
            assert(forall|k: int| 0 <= k < prefix.len() ==> prefix[k] == events[k]);
        }
        lemma_connections_track_events(prefix, u);
        let pre = conns_replay(prefix, u);
        let pre_live = live_set(prefix, u);
        assert(forall|k: int| 0 <= k < prefix.len() ==> prefix[k] == events[k]);
        match events.last() {
            ConnEvent::Admitted(w, cid) => {
                if w == u {
                    assert(cr == pre.push(cid));
                    // the fresh identifier is not already on the list
                    assert(!pre.contains(cid)) by {
                        if pre.contains(cid) {
                            let k = choose|k: int| 0 <= k < pre.len() && pre[k] == cid;
                            let i = choose|i: int|
                                0 <= i < prefix.len() && cid_of(#[trigger] prefix[i]) == Some(
                                    pre[k],
                                );
                            assert(cid_of(events[i]) == Some(cid));
                            assert(cid_of(events[events.len() - 1]) == Some(cid));
                            assert(false);
                        }
                    }
                    assert(cr.to_set() =~= pre_live.insert(cid)) by {
                        assert forall|c: ConnectionId| cr.contains(c) <==> (pre_live.insert(
                            cid,
                        )).contains(c) by {
                            if cr.contains(c) {
                                let k = choose|k: int| 0 <= k < cr.len() && cr[k] == c;
                                if k < pre.len() {
                                    assert(pre.contains(c));
                                }
                            }
                            if c == cid {
                                assert(cr[cr.len() - 1] == cid);
                            } else if pre_live.contains(c) {
                                assert(pre.to_set().contains(c));
                                let k = choose|k: int| 0 <= k < pre.len() && pre[k] == c;
                                assert(cr[k] == c);
                            }
                        }
                    }
                    assert forall|k1: int, k2: int| 0 <= k1 < k2 < cr.len() implies cr[k1]
                        != cr[k2] by {
                        if k2 == cr.len() - 1 {
                            assert(pre.contains(pre[k1]));
                        }
                    }
                    assert forall|k: int| 0 <= k < cr.len() implies exists|i: int|
                        0 <= i < events.len() && cid_of(#[trigger] events[i]) == Some(
                            #[trigger] cr[k],
                        ) by {
                        if k < pre.len() {
                            let i = choose|i: int|
                                0 <= i < prefix.len() && cid_of(#[trigger] prefix[i]) == Some(
                                    pre[k],
                                );
                            assert(cid_of(events[i]) == Some(cr[k]));
                        } else {
                            assert(cid_of(events[events.len() - 1]) == Some(cr[k]));
                        }
                    }
                } else {
                    assert(cr == pre);
                    assert(cr.to_set() == pre_live);
                    assert forall|k: int| 0 <= k < cr.len() implies exists|i: int|
                        0 <= i < events.len() && cid_of(#[trigger] events[i]) == Some(
                            #[trigger] cr[k],
                        ) by {
                        let i = choose|i: int|
                            0 <= i < prefix.len() && cid_of(#[trigger] prefix[i]) == Some(pre[k]);
                        assert(cid_of(events[i]) == Some(cr[k]));
                    }
                }
            },
            ConnEvent::Disconnected(cid) => {
                assert(cr == without_cid(pre, cid));
                lemma_without_cid_props(pre, cid);
                assert(cr.to_set() =~= pre_live.remove(cid)) by {
                    assert forall|c: ConnectionId| cr.contains(c) <==> (pre_live.remove(
                        cid,
                    )).contains(c) by {
                        if c != cid {
                            assert(cr.contains(c) <==> pre.contains(c));
                            assert(pre.to_set().contains(c) <==> pre.contains(c));
                        } else {
                            assert(!cr.contains(cid));
                        }
                    }
                }
                assert forall|k: int| 0 <= k < cr.len() implies exists|i: int|
                    0 <= i < events.len() && cid_of(#[trigger] events[i]) == Some(
                        #[trigger] cr[k],
                    ) by {
                    assert(pre.contains(cr[k]));
                    let k2 = choose|k2: int| 0 <= k2 < pre.len() && pre[k2] == cr[k];
                    let i = choose|i: int|
                        0 <= i < prefix.len() && cid_of(#[trigger] prefix[i]) == Some(pre[k2]);
                    assert(cid_of(events[i]) == Some(cr[k]));
                }
            },
        }
    }
}

/// A resolved owner means the connection stands in the table.
proof fn lemma_owner_some_exists(cu: Seq<(ConnectionId, UserId)>, cid: ConnectionId)
    requires
        owner_in(cu, cid) is Some,
    ensures
        exists|k: int| 0 <= k < cu.len() && (#[trigger] cu[k]).0 == cid,
    decreases cu.len(),
{
    if cu.len() > 0 {
        if cu[0].0 == cid {
            assert((cu[0]).0 == cid);
        } else {
            lemma_owner_some_exists(cu.drop_first(), cid);
            let k = choose|k: int|
                0 <= k < cu.drop_first().len() && (#[trigger] cu.drop_first()[k]).0 == cid;
            assert(cu[k + 1].0 == cid);
        }
    }
}

} // verus!
