//! One election round, and the deterministic choice of its winner.
//!
//! A round increments the term, snapshots this node's load, collects the
//! peers' answers into a result list seeded with this node, and picks the
//! winner: the lowest reported load, ties broken by the lexicographically
//! smaller address. The choice depends only on which answers arrived, not
//! on their order, so independently running nodes with the same answers
//! converge on the same leader.

use vstd::prelude::*;

use crate::config::ElectionConfig;
use crate::message::{Message, MessageView, opt_msg_view};
use crate::state::{NodeState, NodeStateV, State, leader_consistent};
use rand::Rng;
use vstd::string::StrSliceExecFns;

verus! {

// ---------------------------------------------------------------------------
// Order on candidates.
// ---------------------------------------------------------------------------

/// Strict lexicographic order on character sequences by code point — the
/// order Rust's `str` comparison gives, since UTF-8 byte order agrees with
/// code-point order.
pub open spec fn lex_lt(a: Seq<char>, b: Seq<char>) -> bool
    decreases a.len(),
{
    if b.len() == 0 {
        false
    } else if a.len() == 0 {
        true
    } else if (a[0] as u32) < (b[0] as u32) {
        true
    } else if a[0] == b[0] {
        lex_lt(a.subrange(1, a.len() as int), b.subrange(1, b.len() as int))
    } else {
        false
    }
}

/// The election order on candidates `(address, load)`: the lower load wins,
/// a tie goes to the lexicographically smaller address.
pub open spec fn key_lt(a: (Seq<char>, u32), b: (Seq<char>, u32)) -> bool {
    a.1 < b.1 || (a.1 == b.1 && lex_lt(a.0, b.0))
}

/// Two sequences are never each lexicographically below the other.
proof fn lemma_lex_lt_asymmetric(a: Seq<char>, b: Seq<char>)
    ensures
        !(lex_lt(a, b) && lex_lt(b, a)),
    decreases a.len(),
{
    if a.len() > 0 && b.len() > 0 && a[0] == b[0] {
        lemma_lex_lt_asymmetric(
            a.subrange(1, a.len() as int),
            b.subrange(1, b.len() as int),
        );
    }
}

/// Of two distinct sequences, one is lexicographically below the other.
proof fn lemma_lex_lt_trichotomy(a: Seq<char>, b: Seq<char>)
    ensures
        lex_lt(a, b) || lex_lt(b, a) || a == b,
    decreases a.len(),
{
    if a.len() == 0 && b.len() == 0 {
        assert(a =~= b);
    } else if a.len() > 0 && b.len() > 0 {
        if a[0] == b[0] {
            let at = a.subrange(1, a.len() as int);
            let bt = b.subrange(1, b.len() as int);
            lemma_lex_lt_trichotomy(at, bt);
            if at == bt {
                assert forall|i: int| 0 <= i < a.len() implies a[i] == b[i] by {
                    if i > 0 {
                        assert(at[i - 1] == bt[i - 1]);
                    }
                }
                assert(a =~= b);
            }
        } else {
            assert((a[0] as u32) != (b[0] as u32)) by {
                vstd::utf8::char_u32_cast(a[0], a[0] as u32);
                vstd::utf8::char_u32_cast(b[0], b[0] as u32);
            }
        }
    }
}

/// Lexicographic order is transitive.
proof fn lemma_lex_lt_transitive(a: Seq<char>, b: Seq<char>, c: Seq<char>)
    requires
        lex_lt(a, b),
        lex_lt(b, c),
    ensures
        lex_lt(a, c),
    decreases a.len(),
{
    if a.len() > 0 && b.len() > 0 && c.len() > 0 && a[0] == b[0] && b[0] == c[0] {
        lemma_lex_lt_transitive(
            a.subrange(1, a.len() as int),
            b.subrange(1, b.len() as int),
            c.subrange(1, c.len() as int),
        );
    }
}

/// The election order is transitive.
proof fn lemma_key_lt_transitive(a: (Seq<char>, u32), b: (Seq<char>, u32), c: (Seq<char>, u32))
    requires
        key_lt(a, b),
        key_lt(b, c),
    ensures
        key_lt(a, c),
{
    if a.1 == b.1 && b.1 == c.1 {
        lemma_lex_lt_transitive(a.0, b.0, c.0);
    }
}

/// Of two distinct candidates, one is below the other in the election
/// order: the order is total, which is what makes the winner unique.
proof fn lemma_key_lt_trichotomy(a: (Seq<char>, u32), b: (Seq<char>, u32))
    ensures
        key_lt(a, b) || key_lt(b, a) || a == b,
{
    if a.1 == b.1 {
        lemma_lex_lt_trichotomy(a.0, b.0);
    }
}

// ---------------------------------------------------------------------------
// The winner of a result list.
// ---------------------------------------------------------------------------

/// The result list at spec level: each entry as `(address, load)`.
pub open spec fn view_pairs(rs: Seq<(String, u32)>) -> Seq<(Seq<char>, u32)> {
    rs.map(|i: int, p: (String, u32)| (p.0@, p.1))
}

/// The winner of a result list: the least entry in the election order,
/// scanning front to back as the coordinator does.
pub open spec fn spec_winner(s: Seq<(Seq<char>, u32)>) -> Option<(Seq<char>, u32)>
    decreases s.len(),
{
    if s.len() == 0 {
        Option::None
    } else if s.len() == 1 {
        Option::Some(s[0])
    } else {
        match spec_winner(s.drop_last()) {
            Option::Some(w) => if key_lt(s.last(), w) {
                Option::Some(s.last())
            } else {
                Option::Some(w)
            },
            Option::None => Option::Some(s.last()),
        }
    }
}

/// The winner of a non-empty result list is one of its entries, and no
/// other entry is below it in the election order.
pub proof fn lemma_winner_is_min(s: Seq<(Seq<char>, u32)>)
    requires
        s.len() > 0,
    ensures
        spec_winner(s) matches Option::Some(w) && s.contains(w) && forall|x: (Seq<char>, u32)|
            s.contains(x) ==> x == w || key_lt(w, x),
    decreases s.len(),
{
    if s.len() == 1 {
        assert(s.contains(s[0]));
        assert forall|x: (Seq<char>, u32)| s.contains(x) implies x == s[0] || key_lt(s[0], x) by {
            let i = choose|i: int| 0 <= i < s.len() && s[i] == x;
            assert(i == 0);
        }
    } else {
        let d = s.drop_last();
        lemma_winner_is_min(d);
        let w = spec_winner(d)->Some_0;
        let l = s.last();
        let i = choose|i: int| 0 <= i < d.len() && d[i] == w;
        assert(s[i] == w);
        assert(s.contains(w));
        assert(s[s.len() - 1] == l);
        assert(s.contains(l));
        let nw = spec_winner(s)->Some_0;
        assert forall|x: (Seq<char>, u32)| s.contains(x) implies x == nw || key_lt(nw, x) by {
            let j = choose|j: int| 0 <= j < s.len() && s[j] == x;
            if j < s.len() - 1 {
                assert(d[j] == x);
                assert(d.contains(x));
                assert(x == w || key_lt(w, x));
                if key_lt(l, w) {
                    if x != w && x != l {
                        lemma_key_lt_transitive(l, w, x);
                    }
                    if x == w {
                        assert(key_lt(nw, x));
                    }
                }
            } else {
                if key_lt(l, w) {
                } else {
                    lemma_key_lt_trichotomy(w, l);
                }
            }
        }
    }
}

/// Law: the winner depends only on which results were collected, not on
/// the order they arrived in. Two nodes holding the same set of answers —
/// whichever of them ran the round — name the same leader.
pub proof fn lemma_winner_depends_on_set(s1: Seq<(Seq<char>, u32)>, s2: Seq<(Seq<char>, u32)>)
    requires
        forall|x: (Seq<char>, u32)| s1.contains(x) <==> s2.contains(x),
    ensures
        spec_winner(s1) == spec_winner(s2),
{
    if s1.len() == 0 {
        if s2.len() > 0 {
            assert(s2.contains(s2[0]));
            assert(s1.contains(s2[0]));
        }
    } else if s2.len() == 0 {
        assert(s1.contains(s1[0]));
        assert(s2.contains(s1[0]));
    } else {
        lemma_winner_is_min(s1);
        lemma_winner_is_min(s2);
        let w1 = spec_winner(s1)->Some_0;
        let w2 = spec_winner(s2)->Some_0;
        assert(s2.contains(w1));
        assert(s1.contains(w2));
        lemma_lex_lt_asymmetric(w1.0, w2.0);
    }
}

// ---------------------------------------------------------------------------
// Executable pieces of one round.
// ---------------------------------------------------------------------------

/// Compares two addresses in the order the election uses.
fn str_lt(a: &str, b: &str) -> (r: bool)
    ensures
        r == lex_lt(a@, b@),
    decreases a@.len(),
{
    let an: usize = a.unicode_len();
    let bn: usize = b.unicode_len();
    if bn == 0 {
        false
    } else if an == 0 {
        true
    } else {
        let ca: char = a.get_char(0);
        let cb: char = b.get_char(0);
        if (ca as u32) < (cb as u32) {
            true
        } else if (ca as u32) == (cb as u32) {
            proof {
                assert(ca == cb);
            }
            str_lt(a.substring_char(1, an), b.substring_char(1, bn))
        } else {
            false
        }
    }
}

/// Picks the winner of a result list: lowest load, ties to the smaller
/// address; `None` only on an empty list.
pub fn elect_winner(results: &Vec<(String, u32)>) -> (r: Option<(String, u32)>)
    ensures
        match r {
            Option::Some(w) => spec_winner(view_pairs(results@)) == Option::Some((w.0@, w.1)),
            Option::None => results@.len() == 0,
        },
{
    if results.len() == 0 {
        return Option::None;
    }
    let mut best_addr: String = results[0].0.clone();
    let mut best_cpu: u32 = results[0].1;
    let mut i: usize = 1;
    proof {
        assert(view_pairs(results@).subrange(0, 1)[0] == (results@[0].0@, results@[0].1));
    }
    while i < results.len()
        invariant
            1 <= i <= results@.len(),
            spec_winner(view_pairs(results@).subrange(0, i as int)) == Option::Some(
                (best_addr@, best_cpu),
            ),
        decreases results@.len() - i,
    {
        let cand_cpu: u32 = results[i].1;
        let better: bool = if cand_cpu < best_cpu {
            true
        } else if cand_cpu == best_cpu {
            str_lt(results[i].0.as_str(), best_addr.as_str())
        } else {
            false
        };
        proof {
            let vp = view_pairs(results@);
            assert(vp.subrange(0, i + 1).drop_last() =~= vp.subrange(0, i as int));
            assert(vp.subrange(0, i + 1).last() == vp[i as int]);
            assert(vp[i as int] == (results@[i as int].0@, results@[i as int].1));
            assert(better == key_lt(vp[i as int], (best_addr@, best_cpu)));
        }
        if better {
            best_addr = results[i].0.clone();
            best_cpu = cand_cpu;
        }
        i += 1;
    }
    proof {
        assert(view_pairs(results@).subrange(0, results@.len() as int) =~= view_pairs(results@));
    }
    Option::Some((best_addr, best_cpu))
}

/// The state at the opening of an election round: the term one higher, the
/// live load snapshotted for the round. (A node whose term counter is
/// exhausted cannot open a round.)
pub open spec fn spec_begin(ns: NodeStateV, live_cpu: u32) -> NodeStateV {
    if ns.current_term < u64::MAX {
        NodeStateV {
            current_term: (ns.current_term + 1) as u64,
            cpu_snapshot: live_cpu,
            ..ns
        }
    } else {
        ns
    }
}

/// Opens an election round: the term rises by one — unconditionally, with
/// no pre-vote; stale rounds are resolved afterwards by term comparison —
/// and the live load becomes this term's snapshot. Returns the round's term
/// and the snapshot to seed the result list with.
pub fn begin_election(ns: &mut NodeState, live_cpu: u32) -> (r: (u64, u32))
    requires
        old(ns)@.current_term < u64::MAX,
    ensures
        final(ns)@ == spec_begin(old(ns)@, live_cpu),
        r.0 == final(ns)@.current_term,
        r.1 == live_cpu,
{
    ns.current_term = ns.current_term + 1;
    ns.cpu_snapshot = live_cpu;
    (ns.current_term, ns.cpu_snapshot)
}

/// The state after the round's outcome is applied: the winner leads — this
/// node itself as Leader, a peer as Follower — with a fresh lease; an empty
/// result list (which cannot arise, the list is seeded with this node)
/// changes nothing.
pub open spec fn spec_conclude(
    ns: NodeStateV,
    self_addr: Seq<char>,
    results: Seq<(Seq<char>, u32)>,
    now: u64,
    leader_term_ms: u64,
) -> NodeStateV
    recommends
        now + leader_term_ms <= u64::MAX,
{
    match spec_winner(results) {
        Option::None => ns,
        Option::Some(w) => NodeStateV {
            state: if w.0 == self_addr {
                State::Leader
            } else {
                State::Follower
            },
            leader: Option::Some(w.0),
            term_end: Option::Some((now + leader_term_ms) as u64),
            last_heartbeat: Option::Some(now),
            ..ns
        },
    }
}

/// The announcement the round broadcasts on the winner's behalf.
pub open spec fn spec_announcement(
    ns: NodeStateV,
    results: Seq<(Seq<char>, u32)>,
    now: u64,
    leader_term_ms: u64,
) -> Option<MessageView> {
    match spec_winner(results) {
        Option::None => Option::None,
        Option::Some(w) => Option::Some(
            MessageView::LeaderAnnounce {
                leader: w.0,
                term_end_unix: (now + leader_term_ms) as u64,
                term: ns.current_term,
            },
        ),
    }
}

/// Closes an election round over the collected results: applies the
/// outcome to the node state and returns the `LeaderAnnounce` to broadcast
/// to every peer — also on a winning peer's behalf, as redundant gossip.
pub fn conclude_election(
    ns: &mut NodeState,
    self_addr: &String,
    results: &Vec<(String, u32)>,
    now: u64,
    leader_term_ms: u64,
) -> (ann: Option<Message>)
    requires
        now + leader_term_ms <= u64::MAX,
    ensures
        final(ns)@ == spec_conclude(
            old(ns)@,
            self_addr@,
            view_pairs(results@),
            now,
            leader_term_ms,
        ),
        opt_msg_view(ann) == spec_announcement(
            old(ns)@,
            view_pairs(results@),
            now,
            leader_term_ms,
        ),
{
    match elect_winner(results) {
        Option::None => Option::None,
        Option::Some((winner_addr, _winner_cpu)) => {
            let deadline: u64 = now + leader_term_ms;
            if winner_addr == *self_addr {
                ns.state = State::Leader;
            } else {
                ns.state = State::Follower;
            }
            ns.leader = Option::Some(winner_addr.clone());
            ns.term_end = Option::Some(deadline);
            ns.last_heartbeat = Option::Some(now);
            Option::Some(
                Message::LeaderAnnounce {
                    leader: winner_addr,
                    term_end_unix: deadline,
                    term: ns.current_term,
                },
            )
        },
    }
}

/// Relies on rand::Rng::gen_range over the inclusive range `lo..=hi`:
/// a uniformly drawn value within the bounds; `lo <= hi` keeps the range
/// non-empty, on which gen_range would panic.
#[verifier::external_body]
fn rand_range_inclusive(lo: u64, hi: u64) -> (r: u64)
    requires
        lo <= hi,
    ensures
        lo <= r <= hi,
{
    rand::thread_rng().gen_range(lo..=hi)
}

/// Draws a fresh randomized election timeout from the configured interval:
/// jitter against cluster-wide synchronized elections. Re-drawn after every
/// election attempt and whenever the node becomes Leader.
pub fn random_election_timeout(cfg: &ElectionConfig) -> (t: u64)
    requires
        cfg.wf(),
    ensures
        cfg.election_timeout_min_ms <= t <= cfg.election_timeout_max_ms,
{
    rand_range_inclusive(cfg.election_timeout_min_ms, cfg.election_timeout_max_ms)
}

// ---------------------------------------------------------------------------
// Laws of the round.
// ---------------------------------------------------------------------------

/// Law: with an empty peer list the result list holds only this node, and
/// the round makes this node Leader, pointing at itself.
pub proof fn lemma_sole_candidate_becomes_leader(
    ns: NodeStateV,
    self_addr: Seq<char>,
    cpu: u32,
    now: u64,
    leader_term_ms: u64,
)
    ensures
        spec_conclude(ns, self_addr, seq![(self_addr, cpu)], now, leader_term_ms).state
            is Leader,
        spec_conclude(ns, self_addr, seq![(self_addr, cpu)], now, leader_term_ms).leader
            == Option::Some(self_addr),
{
    assert(spec_winner(seq![(self_addr, cpu)]) == Option::Some((self_addr, cpu)));
}

/// Law: two nodes that collected the same set of answers — whichever of
/// them initiated the round, and in whatever order the answers came —
/// record the same leader address when their rounds close.
pub proof fn lemma_same_results_same_leader(
    ns1: NodeStateV,
    ns2: NodeStateV,
    addr1: Seq<char>,
    addr2: Seq<char>,
    r1: Seq<(Seq<char>, u32)>,
    r2: Seq<(Seq<char>, u32)>,
    now1: u64,
    now2: u64,
    leader_term_ms: u64,
)
    requires
        r1.len() > 0,
        forall|x: (Seq<char>, u32)| r1.contains(x) <==> r2.contains(x),
    ensures
        spec_conclude(ns1, addr1, r1, now1, leader_term_ms).leader == spec_conclude(
            ns2,
            addr2,
            r2,
            now2,
            leader_term_ms,
        ).leader,
{
    lemma_winner_depends_on_set(r1, r2);
    lemma_winner_is_min(r1);
}

/// Law: applying a round's outcome preserves leader consistency — when the
/// round names this node, it also records this node as leader.
pub proof fn lemma_conclude_leader_consistent(
    ns: NodeStateV,
    self_addr: Seq<char>,
    results: Seq<(Seq<char>, u32)>,
    now: u64,
    leader_term_ms: u64,
)
    requires
        leader_consistent(ns, self_addr),
    ensures
        leader_consistent(
            spec_conclude(ns, self_addr, results, now, leader_term_ms),
            self_addr,
        ),
{
}

} // verus!
