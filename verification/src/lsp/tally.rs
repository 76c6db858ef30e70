//! Every group knows how many of its requests wait.
use vstd::prelude::*;
use crate::lsp::coordinator::{group_at, groups_without, wait_at, waits_without, with_sent, Board, GroupView, WaitView};
use crate::lsp::group::{outcome_of, AccumView, LspRequestKind, OutcomeView, Reply};

verus! {

/// How many of the first `k` requests are of a group.
pub open spec fn waiting(s: Seq<WaitView>, group: u64, k: int) -> int
    decreases k,
{
    if k <= 0 {
        0
    } else {
        waiting(s, group, k - 1) + if s[k - 1].group == group {
            1int
        } else {
            0int
        }
    }
}

/// How many of the first `k` requests to a client are of a group.
pub open spec fn waiting_for(s: Seq<WaitView>, client: Seq<char>, group: u64, k: int) -> int
    decreases k,
{
    if k <= 0 {
        0
    } else {
        waiting_for(s, client, group, k - 1) + if s[k - 1].group == group && s[k - 1].client == client {
            1int
        } else {
            0int
        }
    }
}

pub open spec fn distinct(s: Seq<GroupView>) -> bool {
    forall|i: int, j: int| 0 <= i < j < s.len() ==> (#[trigger] s[i]).id != (#[trigger] s[j]).id
}

impl Board {
    /// No two groups have one number, and each group counts the requests of
    /// it that wait, of which there is one at least.
    pub open spec fn tallied(self) -> bool {
        &&& distinct(self.groups)
        &&& forall|i: int|
            0 <= i < self.groups.len() ==> (#[trigger] self.groups[i]).remaining == waiting(
                self.pending,
                self.groups[i].id,
                self.pending.len() as int,
            ) && self.groups[i].remaining >= 1
    }

    pub open spec fn holds_group(self, id: u64) -> bool {
        group_at(self.groups, id, self.groups.len() as int) is Some
    }

    /// Whether a number of a group is free, and requests are new.
    pub open spec fn fresh(self, sent: Seq<(Seq<char>, u64)>) -> bool {
        &&& !self.holds_group(self.next)
        &&& waiting(self.pending, self.next, self.pending.len() as int) == 0
        &&& forall|i: int|
            0 <= i < sent.len() ==> wait_at(
                self.pending,
                (#[trigger] sent[i]).0,
                sent[i].1,
                self.pending.len() as int,
            ) is None
        &&& forall|i: int, j: int| 0 <= i < j < sent.len() ==> (#[trigger] sent[i]) != (#[trigger] sent[j])
    }
}

proof fn lemma_group_at(s: Seq<GroupView>, id: u64, k: int)
    requires
        0 <= k <= s.len(),
    ensures
        match group_at(s, id, k) {
            Some(p) => 0 <= p < k && s[p].id == id,
            None => forall|i: int| 0 <= i < k ==> (#[trigger] s[i]).id != id,
        },
    decreases k,
{
    if k > 0 {
        lemma_group_at(s, id, k - 1);
    }
}

proof fn lemma_wait_at(s: Seq<WaitView>, client: Seq<char>, id: u64, k: int)
    requires
        0 <= k <= s.len(),
    ensures
        match wait_at(s, client, id, k) {
            Some(p) => 0 <= p < k && s[p].client == client && s[p].id == id,
            None => forall|i: int| 0 <= i < k ==> (#[trigger] s[i]).client != client || s[i].id != id,
        },
    decreases k,
{
    if k > 0 {
        lemma_wait_at(s, client, id, k - 1);
    }
}

proof fn lemma_waiting_same(s: Seq<WaitView>, t: Seq<WaitView>, group: u64, k: int)
    requires
        0 <= k <= s.len(),
        k <= t.len(),
        forall|i: int| 0 <= i < k ==> s[i] == t[i],
    ensures
        waiting(s, group, k) == waiting(t, group, k),
    decreases k,
{
    if k > 0 {
        lemma_waiting_same(s, t, group, k - 1);
    }
}

proof fn lemma_waiting_push(s: Seq<WaitView>, w: WaitView, group: u64)
    ensures
        waiting(s.push(w), group, s.len() as int + 1) == waiting(s, group, s.len() as int) + if w.group == group {
            1int
        } else {
            0int
        },
{
    lemma_waiting_same(s, s.push(w), group, s.len() as int);
}

proof fn lemma_waiting_remove(s: Seq<WaitView>, p: int, group: u64, k: int)
    requires
        0 <= p < k <= s.len(),
    ensures
        waiting(s.remove(p), group, k - 1) == waiting(s, group, k) - if s[p].group == group {
            1int
        } else {
            0int
        },
    decreases k,
{
    if p == k - 1 {
        lemma_waiting_same(s, s.remove(p), group, k - 1);
    } else {
        lemma_waiting_remove(s, p, group, k - 1);
        assert(s.remove(p)[k - 2] == s[k - 1]);
    }
}

proof fn lemma_waiting_in(s: Seq<WaitView>, group: u64, k: int, p: int)
    requires
        0 <= p < k <= s.len(),
        s[p].group == group,
    ensures
        waiting(s, group, k) >= 1,
    decreases k,
{
    lemma_waiting_some(s, group, k - 1);
    if p < k - 1 {
        lemma_waiting_in(s, group, k - 1, p);
    }
}

proof fn lemma_waiting_some(s: Seq<WaitView>, group: u64, k: int)
    ensures
        waiting(s, group, k) >= 0,
    decreases k,
{
    if k > 0 {
        lemma_waiting_some(s, group, k - 1);
    }
}

/// An answer keeps the tally. The group that it was for is gone exactly when
/// no request of it waits any more, and the outcome comes then and not before.
pub proof fn law_answers_tally(
    b: Board,
    client: Seq<char>,
    id: u64,
    reply: Option<Reply>,
    after: Board,
    outcome: OutcomeView,
)
    requires
        b.tallied(),
        b.answered(client, id, reply, after, outcome),
    ensures
        after.tallied(),
        wait_at(b.pending, client, id, b.pending.len() as int) matches Some(p) ==> b.holds_group(
            b.pending[p].group,
        ) ==> {
            let g = b.pending[p].group;
            let left = waiting(after.pending, g, after.pending.len() as int);
            &&& after.holds_group(g) == (left > 0)
            &&& left > 0 ==> outcome == OutcomeView::Nothing
            &&& left == 0 ==> exists|a: AccumView| outcome == #[trigger] outcome_of(a)
        },
{
    let n = b.pending.len() as int;
    lemma_wait_at(b.pending, client, id, n);
    if let Some(p) = wait_at(b.pending, client, id, n) {
        let w = b.pending[p];
        let m = b.groups.len() as int;
        lemma_group_at(b.groups, w.group, m);
        assert forall|g: u64| waiting(b.pending.remove(p), g, n - 1) == #[trigger] waiting(b.pending, g, n) - if w.group
            == g {
            1int
        } else {
            0int
        } by {
            lemma_waiting_remove(b.pending, p, g, n);
        }
        if let Some(q) = group_at(b.groups, w.group, m) {
            let g = b.groups[q];
            let rest = b.groups.remove(q);
            assert forall|i: int| 0 <= i < rest.len() implies (#[trigger] rest[i]).id != g.id by {
                if i < q {
                    assert(rest[i] == b.groups[i]);
                } else {
                    assert(rest[i] == b.groups[i + 1]);
                }
            }
            assert forall|i: int| 0 <= i < rest.len() implies (#[trigger] rest[i]).remaining == waiting(
                after.pending,
                rest[i].id,
                n - 1,
            ) && rest[i].remaining >= 1 by {
                let k = if i < q {
                    i
                } else {
                    i + 1
                };
                assert(rest[i] == b.groups[k]);
            }
            assert(distinct(rest)) by {
                assert forall|i: int, j: int| 0 <= i < j < rest.len() implies (#[trigger] rest[i]).id != (
                #[trigger] rest[j]).id by {
                    let x = if i < q {
                        i
                    } else {
                        i + 1
                    };
                    let y = if j < q {
                        j
                    } else {
                        j + 1
                    };
                    assert(rest[i] == b.groups[x] && rest[j] == b.groups[y]);
                }
            }
            lemma_group_at(after.groups, w.group, after.groups.len() as int);
            if g.remaining > 1 {
                assert(after.groups[after.groups.len() - 1].id == w.group);
            }
        } else {
            assert forall|i: int| 0 <= i < m implies (#[trigger] b.groups[i]).remaining == waiting(
                after.pending,
                b.groups[i].id,
                n - 1,
            ) by {
                assert(b.groups[i].id != w.group);
            }
        }
    }
}

proof fn lemma_sent(
    b: Board,
    sent: Seq<(Seq<char>, u64)>,
    group: u64,
    kind: LspRequestKind,
    k: int,
)
    requires
        0 <= k <= sent.len(),
        forall|i: int|
            0 <= i < sent.len() ==> wait_at(
                b.pending,
                (#[trigger] sent[i]).0,
                sent[i].1,
                b.pending.len() as int,
            ) is None,
        forall|i: int, j: int| 0 <= i < j < sent.len() ==> (#[trigger] sent[i]) != (#[trigger] sent[j]),
    ensures
        with_sent(b.pending, sent, group, kind, k).len() == b.pending.len() + k,
        forall|i: int|
            0 <= i < b.pending.len() ==> (#[trigger] with_sent(b.pending, sent, group, kind, k)[i]) == b.pending[i],
        forall|i: int|
            0 <= i < k ==> (#[trigger] with_sent(b.pending, sent, group, kind, k)[b.pending.len() + i]) == (
            crate::lsp::coordinator::Wait { client: sent[i].0, id: sent[i].1, group, kind }),
        forall|g: u64| #[trigger]
            waiting(with_sent(b.pending, sent, group, kind, k), g, b.pending.len() + k) == waiting(
                b.pending,
                g,
                b.pending.len() as int,
            ) + if g == group {
                k
            } else {
                0
            },
    decreases k,
{
    if k > 0 {
        lemma_sent(b, sent, group, kind, k - 1);
        let s = with_sent(b.pending, sent, group, kind, k - 1);
        let w = crate::lsp::coordinator::Wait { client: sent[k - 1].0, id: sent[k - 1].1, group, kind };
        lemma_wait_at(s, w.client, w.id, s.len() as int);
        lemma_wait_at(b.pending, w.client, w.id, b.pending.len() as int);
        if let Some(p) = wait_at(s, w.client, w.id, s.len() as int) {
            if p < b.pending.len() {
                assert(s[p] == b.pending[p]);
            } else {
                let i = p - b.pending.len();
                assert(s[b.pending.len() + i] == s[p]);
                assert(sent[i] != sent[k - 1]);
            }
            assert(false);
        }
        assert(with_sent(b.pending, sent, group, kind, k) == s.push(w));
        assert forall|g: u64| #[trigger]
            waiting(s.push(w), g, b.pending.len() + k) == waiting(b.pending, g, b.pending.len() as int) + if g == group {
                k
            } else {
                0
            } by {
            lemma_waiting_push(s, w, g);
            assert(waiting(s, g, b.pending.len() + (k - 1)) == waiting(s, g, s.len() as int));
        }
    }
}

/// A new request keeps the tally.
pub proof fn law_requests_tally(b: Board, sent: Seq<(Seq<char>, u64)>, kind: LspRequestKind, accum: AccumView)
    requires
        b.tallied(),
        b.fresh(sent),
        sent.len() <= usize::MAX,
    ensures
        b.asked(sent, kind, accum).tallied(),
{
    if sent.len() > 0 {
        let after = b.asked(sent, kind, accum);
        let k = sent.len() as int;
        lemma_sent(b, sent, b.next, kind, k);
        lemma_group_at(b.groups, b.next, b.groups.len() as int);
        assert(after.pending.len() == b.pending.len() + k);
        assert forall|i: int| 0 <= i < after.groups.len() implies (#[trigger] after.groups[i]).remaining == waiting(
            after.pending,
            after.groups[i].id,
            after.pending.len() as int,
        ) && after.groups[i].remaining >= 1 by {
            assert(waiting(after.pending, after.groups[i].id, b.pending.len() + k) == waiting(
                after.pending,
                after.groups[i].id,
                after.pending.len() as int,
            ));
            if i < b.groups.len() {
                assert(after.groups[i] == b.groups[i]);
                assert(b.groups[i].id != b.next);
            }
        }
    }
}

proof fn lemma_waits_without(s: Seq<WaitView>, client: Seq<char>, group: u64, k: int)
    requires
        0 <= k <= s.len(),
    ensures
        waiting(waits_without(s, client, k), group, waits_without(s, client, k).len() as int) == waiting(s, group, k)
            - waiting_for(s, client, group, k),
    decreases k,
{
    if k > 0 {
        lemma_waits_without(s, client, group, k - 1);
        lemma_waiting_push(waits_without(s, client, k - 1), s[k - 1], group);
    }
}

proof fn lemma_groups_without(b: Board, client: Seq<char>, k: int)
    requires
        b.tallied(),
        0 <= k <= b.pending.len(),
    ensures
        ({
            let n = b.pending.len() as int;
            let gs = groups_without(b.groups, b.pending, client, k);
            &&& distinct(gs)
            &&& forall|i: int|
                0 <= i < gs.len() ==> (#[trigger] gs[i]).remaining == waiting(b.pending, gs[i].id, n) - waiting_for(
                    b.pending,
                    client,
                    gs[i].id,
                    k,
                ) && gs[i].remaining >= 1
        }),
    decreases k,
{
    if k > 0 {
        lemma_groups_without(b, client, k - 1);
        let gs = groups_without(b.groups, b.pending, client, k - 1);
        let w = b.pending[k - 1];
        let out = groups_without(b.groups, b.pending, client, k);
        if w.client == client {
            lemma_group_at(gs, w.group, gs.len() as int);
            match group_at(gs, w.group, gs.len() as int) {
                None => {
                    assert forall|i: int| 0 <= i < out.len() implies waiting_for(
                        b.pending,
                        client,
                        (#[trigger] out[i]).id,
                        k,
                    ) == waiting_for(b.pending, client, out[i].id, k - 1) by {
                        assert(gs[i].id != w.group);
                    }
                },
                Some(q) => {
                    assert forall|i: int| 0 <= i < gs.len() && i != q implies (#[trigger] gs[i]).id != w.group by {
                        if i < q {
                            assert(gs[i].id != gs[q].id);
                        } else {
                            assert(gs[q].id != gs[i].id);
                        }
                    }
                    if gs[q].remaining <= 1 {
                        assert(out == gs.remove(q));
                        assert forall|i: int, j: int| 0 <= i < j < out.len() implies (#[trigger] out[i]).id != (
                        #[trigger] out[j]).id by {
                            let x = if i < q {
                                i
                            } else {
                                i + 1
                            };
                            let y = if j < q {
                                j
                            } else {
                                j + 1
                            };
                            assert(out[i] == gs[x] && out[j] == gs[y]);
                        }
                        assert forall|i: int| 0 <= i < out.len() implies (#[trigger] out[i]).remaining == waiting(
                            b.pending,
                            out[i].id,
                            b.pending.len() as int,
                        ) - waiting_for(b.pending, client, out[i].id, k) && out[i].remaining >= 1 by {
                            let x = if i < q {
                                i
                            } else {
                                i + 1
                            };
                            assert(out[i] == gs[x]);
                        }
                    } else {
                        assert forall|i: int, j: int| 0 <= i < j < out.len() implies (#[trigger] out[i]).id != (
                        #[trigger] out[j]).id by {
                            assert(out[i].id == gs[i].id && out[j].id == gs[j].id);
                        }
                        assert forall|i: int| 0 <= i < out.len() implies (#[trigger] out[i]).remaining == waiting(
                            b.pending,
                            out[i].id,
                            b.pending.len() as int,
                        ) - waiting_for(b.pending, client, out[i].id, k) && out[i].remaining >= 1 by {
                            if i != q {
                                assert(out[i] == gs[i]);
                            } else {
                                assert(out[i].id == gs[i].id);
                            }
                        }
                    }
                },
            }
        } else {
            assert forall|i: int| 0 <= i < out.len() implies waiting_for(
                b.pending,
                client,
                (#[trigger] out[i]).id,
                k,
            ) == waiting_for(b.pending, client, out[i].id, k - 1) by {
            }
        }
    }
}

/// A client that is gone leaves the tally right.
pub proof fn law_dropping_tally(b: Board, client: Seq<char>)
    requires
        b.tallied(),
    ensures
        b.without_client(client).tallied(),
{
    let n = b.pending.len() as int;
    let after = b.without_client(client);
    lemma_groups_without(b, client, n);
    assert forall|i: int| 0 <= i < after.groups.len() implies (#[trigger] after.groups[i]).remaining == waiting(
        after.pending,
        after.groups[i].id,
        after.pending.len() as int,
    ) by {
        lemma_waits_without(b.pending, client, after.groups[i].id, n);
    }
}

} // verus!
