//! Wire codec: each message becomes one newline-terminated, JSON-shaped
//! text record, and `decode` reads exactly the records `encode` writes.
//!
//! The encoding is canonical: fields in a fixed order, numbers in decimal
//! without leading zeros, addresses verbatim between quotes (well-formed
//! addresses contain no quote, backslash or newline, so no escaping is
//! needed). `decode` accepts precisely the canonical form and rejects
//! everything else, which makes `decode` a total inverse of `encode` on
//! well-formed messages.

use vstd::prelude::*;

use crate::message::{Message, MessageView, wf_view, wire_addr_ok};
use vstd::string::StrSliceExecFns;
use vstd::string::StringExecFns;

verus! {

// ---------------------------------------------------------------------------
// The fixed text pieces of the five records.
// ---------------------------------------------------------------------------

/// Opening of a Heartbeat record, up to the leader address.
pub open spec fn pre_heartbeat() -> Seq<char> {
    "{\"type\":\"Heartbeat\",\"leader\":\""@
}

/// Opening of a GetCpu record, up to the term number.
pub open spec fn pre_getcpu() -> Seq<char> {
    "{\"type\":\"GetCpu\",\"term\":"@
}

/// Opening of a CpuResp record, up to the load number.
pub open spec fn pre_cpuresp() -> Seq<char> {
    "{\"type\":\"CpuResp\",\"cpu_percent\":"@
}

/// Opening of a LeaderAnnounce record, up to the leader address.
pub open spec fn pre_announce() -> Seq<char> {
    "{\"type\":\"LeaderAnnounce\",\"leader\":\""@
}

/// The whole Ping record.
pub open spec fn ping_line() -> Seq<char> {
    "{\"type\":\"Ping\"}\n"@
}

/// Between an address and the deadline number.
pub open spec fn mid_term_end() -> Seq<char> {
    "\",\"term_end_unix\":"@
}

/// Between a number and the term number.
pub open spec fn mid_term() -> Seq<char> {
    ",\"term\":"@
}

/// Between an address and the term number.
pub open spec fn mid_quote_term() -> Seq<char> {
    "\",\"term\":"@
}

/// Between the term number and the initiator address.
pub open spec fn mid_init_addr() -> Seq<char> {
    ",\"initiator_addr\":\""@
}

/// Between the initiator address and the initiator load.
pub open spec fn mid_init_cpu() -> Seq<char> {
    "\",\"initiator_cpu\":"@
}

/// Between the load number and the responder address.
pub open spec fn mid_addr() -> Seq<char> {
    ",\"addr\":\""@
}

/// Closing brace and the terminating newline.
pub open spec fn end_obj() -> Seq<char> {
    "}\n"@
}

// ---------------------------------------------------------------------------
// Decimal numbers.
// ---------------------------------------------------------------------------

/// The decimal digit character for a value below ten.
pub open spec fn digit_char(d: nat) -> char {
    if d == 0 {
        '0'
    } else if d == 1 {
        '1'
    } else if d == 2 {
        '2'
    } else if d == 3 {
        '3'
    } else if d == 4 {
        '4'
    } else if d == 5 {
        '5'
    } else if d == 6 {
        '6'
    } else if d == 7 {
        '7'
    } else if d == 8 {
        '8'
    } else {
        '9'
    }
}

/// The canonical decimal digits of a number: no leading zeros, and the
/// single digit `0` for zero itself.
pub open spec fn dec_chars(n: nat) -> Seq<char>
    decreases n,
{
    if n < 10 {
        seq![digit_char(n)]
    } else {
        dec_chars(n / 10).push(digit_char(n % 10))
    }
}

/// Whether a character is a decimal digit.
pub open spec fn is_digit(c: char) -> bool {
    48 <= c as u32 <= 57
}

/// The value of a digit character.
pub open spec fn digit_val(c: char) -> nat
    recommends
        is_digit(c),
{
    (c as u32 - 48) as nat
}

// ---------------------------------------------------------------------------
// The encoding itself.
// ---------------------------------------------------------------------------

/// The one line that a message becomes on the wire.
pub open spec fn spec_encode(m: MessageView) -> Seq<char> {
    match m {
        MessageView::Heartbeat { leader, term_end_unix, term } => pre_heartbeat() + leader
            + mid_term_end() + dec_chars(term_end_unix as nat) + mid_term() + dec_chars(
            term as nat,
        ) + end_obj(),
        MessageView::GetCpu { term, initiator_addr, initiator_cpu } => pre_getcpu() + dec_chars(
            term as nat,
        ) + mid_init_addr() + initiator_addr + mid_init_cpu() + dec_chars(initiator_cpu as nat)
            + end_obj(),
        MessageView::CpuResp { cpu_percent, addr, term } => pre_cpuresp() + dec_chars(
            cpu_percent as nat,
        ) + mid_addr() + addr + mid_quote_term() + dec_chars(term as nat) + end_obj(),
        MessageView::LeaderAnnounce { leader, term_end_unix, term } => pre_announce() + leader
            + mid_term_end() + dec_chars(term_end_unix as nat) + mid_term() + dec_chars(
            term as nat,
        ) + end_obj(),
        MessageView::Ping => ping_line(),
    }
}

/// Appends the canonical decimal digits of `n`.
fn push_u64(out: &mut String, n: u64)
    ensures
        final(out)@ == old(out)@ + dec_chars(n as nat),
    decreases n,
{
    if n >= 10 {
        push_u64(out, n / 10);
    }
    let d: u64 = n % 10;
    if d == 0 {
        out.append("0");
    } else if d == 1 {
        out.append("1");
    } else if d == 2 {
        out.append("2");
    } else if d == 3 {
        out.append("3");
    } else if d == 4 {
        out.append("4");
    } else if d == 5 {
        out.append("5");
    } else if d == 6 {
        out.append("6");
    } else if d == 7 {
        out.append("7");
    } else if d == 8 {
        out.append("8");
    } else {
        out.append("9");
    }
    proof {
        reveal_strlit("0");
        reveal_strlit("1");
        reveal_strlit("2");
        reveal_strlit("3");
        reveal_strlit("4");
        reveal_strlit("5");
        reveal_strlit("6");
        reveal_strlit("7");
        reveal_strlit("8");
        reveal_strlit("9");
        assert(final(out)@ =~= old(out)@ + dec_chars(n as nat));
    }
}

// ---------------------------------------------------------------------------
// Parsing, spec side.
// ---------------------------------------------------------------------------

/// `s` begins with `p`.
pub open spec fn starts_with(s: Seq<char>, p: Seq<char>) -> bool {
    p.len() <= s.len() && s.subrange(0, p.len() as int) == p
}

/// `s` without its first `n` characters.
pub open spec fn skip(s: Seq<char>, n: int) -> Seq<char>
    recommends
        0 <= n <= s.len(),
{
    s.subrange(n, s.len() as int)
}

/// Index of the first quote in `s`, or `s.len()` when there is none.
pub open spec fn scan_to_quote(s: Seq<char>) -> nat
    decreases s.len(),
{
    if s.len() == 0 {
        0
    } else if s[0] == '"' {
        0
    } else {
        1 + scan_to_quote(s.subrange(1, s.len() as int))
    }
}

/// Length of the leading run of decimal digits in `s`.
pub open spec fn digit_run(s: Seq<char>) -> nat
    decreases s.len(),
{
    if s.len() == 0 || !is_digit(s[0]) {
        0
    } else {
        1 + digit_run(s.subrange(1, s.len() as int))
    }
}

/// Value of a digit string, most significant digit first.
pub open spec fn digits_val(s: Seq<char>) -> nat
    decreases s.len(),
{
    if s.len() == 0 {
        0
    } else {
        digits_val(s.drop_last()) * 10 + digit_val(s.last())
    }
}

/// Ten to the `k`.
pub open spec fn pow10(k: nat) -> nat
    decreases k,
{
    if k == 0 {
        1
    } else {
        10 * pow10((k - 1) as nat)
    }
}

/// Reads the leading decimal number: fails on an empty digit run, on a
/// leading zero (except the single digit `0`), and on a value beyond `u64`.
pub open spec fn spec_parse_u64(s: Seq<char>) -> Option<(u64, int)> {
    let k = digit_run(s) as int;
    if k == 0 {
        Option::None
    } else if k > 1 && s[0] == '0' {
        Option::None
    } else {
        let v = digits_val(s.subrange(0, k));
        if v > u64::MAX {
            Option::None
        } else {
            Option::Some((v as u64, k))
        }
    }
}

/// Reads an address: everything up to the next quote; fails when no quote
/// follows.
pub open spec fn spec_parse_addr(s: Seq<char>) -> Option<(Seq<char>, int)> {
    let k = scan_to_quote(s) as int;
    if k == s.len() {
        Option::None
    } else {
        Option::Some((s.subrange(0, k), k))
    }
}

/// Reads `addr m1 number m2 number` followed by exactly the record closing.
pub open spec fn spec_parse_addr_num_num(s: Seq<char>, m1: Seq<char>, m2: Seq<char>) -> Option<
    (Seq<char>, u64, u64),
> {
    match spec_parse_addr(s) {
        Option::None => Option::None,
        Option::Some((a, i)) => {
            let r1 = skip(s, i);
            if !starts_with(r1, m1) {
                Option::None
            } else {
                let r2 = skip(r1, m1.len() as int);
                match spec_parse_u64(r2) {
                    Option::None => Option::None,
                    Option::Some((n1, j)) => {
                        let r3 = skip(r2, j);
                        if !starts_with(r3, m2) {
                            Option::None
                        } else {
                            let r4 = skip(r3, m2.len() as int);
                            match spec_parse_u64(r4) {
                                Option::None => Option::None,
                                Option::Some((n2, k)) => if skip(r4, k) == end_obj() {
                                    Option::Some((a, n1, n2))
                                } else {
                                    Option::None
                                },
                            }
                        }
                    },
                }
            }
        },
    }
}

/// Reads `number m1 addr m2 number` followed by exactly the record closing.
pub open spec fn spec_parse_num_addr_num(s: Seq<char>, m1: Seq<char>, m2: Seq<char>) -> Option<
    (u64, Seq<char>, u64),
> {
    match spec_parse_u64(s) {
        Option::None => Option::None,
        Option::Some((n1, i)) => {
            let r1 = skip(s, i);
            if !starts_with(r1, m1) {
                Option::None
            } else {
                let r2 = skip(r1, m1.len() as int);
                match spec_parse_addr(r2) {
                    Option::None => Option::None,
                    Option::Some((a, j)) => {
                        let r3 = skip(r2, j);
                        if !starts_with(r3, m2) {
                            Option::None
                        } else {
                            let r4 = skip(r3, m2.len() as int);
                            match spec_parse_u64(r4) {
                                Option::None => Option::None,
                                Option::Some((n2, k)) => if skip(r4, k) == end_obj() {
                                    Option::Some((n1, a, n2))
                                } else {
                                    Option::None
                                },
                            }
                        }
                    },
                }
            }
        },
    }
}

/// Reads one wire line back into a message; `None` on anything that is not
/// a canonical record.
pub open spec fn spec_decode(s: Seq<char>) -> Option<MessageView> {
    if s == ping_line() {
        Option::Some(MessageView::Ping)
    } else if starts_with(s, pre_heartbeat()) {
        match spec_parse_addr_num_num(
            skip(s, pre_heartbeat().len() as int),
            mid_term_end(),
            mid_term(),
        ) {
            Option::Some((a, n1, n2)) => Option::Some(
                MessageView::Heartbeat { leader: a, term_end_unix: n1, term: n2 },
            ),
            Option::None => Option::None,
        }
    } else if starts_with(s, pre_getcpu()) {
        match spec_parse_num_addr_num(
            skip(s, pre_getcpu().len() as int),
            mid_init_addr(),
            mid_init_cpu(),
        ) {
            Option::Some((n1, a, n2)) => if n2 <= u32::MAX {
                Option::Some(
                    MessageView::GetCpu { term: n1, initiator_addr: a, initiator_cpu: n2 as u32 },
                )
            } else {
                Option::None
            },
            Option::None => Option::None,
        }
    } else if starts_with(s, pre_cpuresp()) {
        match spec_parse_num_addr_num(
            skip(s, pre_cpuresp().len() as int),
            mid_addr(),
            mid_quote_term(),
        ) {
            Option::Some((n1, a, n2)) => if n1 <= u32::MAX {
                Option::Some(MessageView::CpuResp { cpu_percent: n1 as u32, addr: a, term: n2 })
            } else {
                Option::None
            },
            Option::None => Option::None,
        }
    } else if starts_with(s, pre_announce()) {
        match spec_parse_addr_num_num(
            skip(s, pre_announce().len() as int),
            mid_term_end(),
            mid_term(),
        ) {
            Option::Some((a, n1, n2)) => Option::Some(
                MessageView::LeaderAnnounce { leader: a, term_end_unix: n1, term: n2 },
            ),
            Option::None => Option::None,
        }
    } else {
        Option::None
    }
}

/// Writes a message as its one wire line.
pub fn encode(m: &Message) -> (r: String)
    ensures
        r@ == spec_encode(m@),
{
    let mut s = String::new();
    match m {
        Message::Heartbeat { leader, term_end_unix, term } => {
            s.append("{\"type\":\"Heartbeat\",\"leader\":\"");
            s.append(leader.as_str());
            s.append("\",\"term_end_unix\":");
            push_u64(&mut s, *term_end_unix);
            s.append(",\"term\":");
            push_u64(&mut s, *term);
            s.append("}\n");
            proof {
                assert(s@ =~= spec_encode(m@));
            }
        },
        Message::GetCpu { term, initiator_addr, initiator_cpu } => {
            s.append("{\"type\":\"GetCpu\",\"term\":");
            push_u64(&mut s, *term);
            s.append(",\"initiator_addr\":\"");
            s.append(initiator_addr.as_str());
            s.append("\",\"initiator_cpu\":");
            push_u64(&mut s, *initiator_cpu as u64);
            s.append("}\n");
            proof {
                assert(s@ =~= spec_encode(m@));
            }
        },
        Message::CpuResp { cpu_percent, addr, term } => {
            s.append("{\"type\":\"CpuResp\",\"cpu_percent\":");
            push_u64(&mut s, *cpu_percent as u64);
            s.append(",\"addr\":\"");
            s.append(addr.as_str());
            s.append("\",\"term\":");
            push_u64(&mut s, *term);
            s.append("}\n");
            proof {
                assert(s@ =~= spec_encode(m@));
            }
        },
        Message::LeaderAnnounce { leader, term_end_unix, term } => {
            s.append("{\"type\":\"LeaderAnnounce\",\"leader\":\"");
            s.append(leader.as_str());
            s.append("\",\"term_end_unix\":");
            push_u64(&mut s, *term_end_unix);
            s.append(",\"term\":");
            push_u64(&mut s, *term);
            s.append("}\n");
            proof {
                assert(s@ =~= spec_encode(m@));
            }
        },
        Message::Ping => {
            s.append("{\"type\":\"Ping\"}\n");
            proof {
                assert(s@ =~= spec_encode(m@));
            }
        },
    }
    s
}

// ---------------------------------------------------------------------------
// Parsing, executable side.
// ---------------------------------------------------------------------------

/// Skipping twice is skipping once by the sum.
proof fn lemma_skip_skip(s: Seq<char>, i: int, j: int)
    requires
        0 <= i,
        0 <= j,
        i + j <= s.len(),
    ensures
        skip(skip(s, i), j) == skip(s, i + j),
{
    assert(skip(skip(s, i), j) =~= skip(s, i + j));
}

/// True when the text at position `i` begins with `lit`.
fn lit_at(s: &str, i: usize, lit: &str) -> (b: bool)
    requires
        i <= s@.len(),
    ensures
        b == starts_with(skip(s@, i as int), lit@),
{
    let n: usize = s.unicode_len();
    let ln: usize = lit.unicode_len();
    if n - i < ln {
        return false;
    }
    let mut j: usize = 0;
    while j < ln
        invariant
            0 <= j <= ln,
            i + ln <= n,
            n == s@.len(),
            ln == lit@.len(),
            forall|t: int| 0 <= t < j ==> s@[i + t] == lit@[t],
        decreases ln - j,
    {
        if s.get_char(i + j) != lit.get_char(j) {
            proof {
                assert(!starts_with(skip(s@, i as int), lit@)) by {
                    if starts_with(skip(s@, i as int), lit@) {
                        assert(skip(s@, i as int).subrange(0, ln as int)[j as int] == lit@[
                            j as int
                        ]);
                        assert(skip(s@, i as int)[j as int] == s@[i + j]);
                    }
                }
            }
            return false;
        }
        j += 1;
    }
    proof {
        assert(skip(s@, i as int).subrange(0, ln as int) =~= lit@);
    }
    true
}

/// Position of the first quote at or after `i`, or the end of the text.
fn scan_quote_from(s: &str, i: usize) -> (k: usize)
    requires
        i <= s@.len(),
    ensures
        i <= k <= s@.len(),
        k - i == scan_to_quote(skip(s@, i as int)),
{
    let n: usize = s.unicode_len();
    let mut j: usize = i;
    while j < n
        invariant
            i <= j <= n,
            n == s@.len(),
            forall|t: int| i <= t < j ==> s@[t] != '"',
        decreases n - j,
    {
        if s.get_char(j) == '"' {
            proof {
                let t = skip(s@, i as int);
                assert forall|x: int| 0 <= x < j - i implies t[x] != '"' by {
                    assert(t[x] == s@[i + x]);
                }
                assert(t[(j - i) as int] == s@[j as int]);
                lemma_scan_to_quote_unique(t, j - i);
            }
            return j;
        }
        j += 1;
    }
    proof {
        let t = skip(s@, i as int);
        assert forall|x: int| 0 <= x < n - i implies t[x] != '"' by {
            assert(t[x] == s@[i + x]);
        }
        lemma_scan_to_quote_unique(t, n - i);
    }
    j
}

/// Position just past the run of digits that starts at `i`.
fn scan_digits_from(s: &str, i: usize) -> (k: usize)
    requires
        i <= s@.len(),
    ensures
        i <= k <= s@.len(),
        k - i == digit_run(skip(s@, i as int)),
{
    let n: usize = s.unicode_len();
    let mut j: usize = i;
    while j < n
        invariant
            i <= j <= n,
            n == s@.len(),
            forall|t: int| i <= t < j ==> is_digit(s@[t]),
        decreases n - j,
    {
        let c: char = s.get_char(j);
        let cu: u32 = c as u32;
        if !(48 <= cu && cu <= 57) {
            proof {
                let t = skip(s@, i as int);
                assert forall|x: int| 0 <= x < j - i implies is_digit(t[x]) by {
                    assert(t[x] == s@[i + x]);
                }
                assert(t[(j - i) as int] == s@[j as int]);
                lemma_digit_run_unique(t, j - i);
            }
            return j;
        }
        j += 1;
    }
    proof {
        let t = skip(s@, i as int);
        assert forall|x: int| 0 <= x < n - i implies is_digit(t[x]) by {
            assert(t[x] == s@[i + x]);
        }
        lemma_digit_run_unique(t, n - i);
    }
    j
}

/// Reads the decimal number at position `i`, exactly as the spec parser
/// does: `None` on no digits, a superfluous leading zero, or overflow.
fn parse_num_at(s: &str, i: usize) -> (r: Option<(u64, usize)>)
    requires
        i <= s@.len(),
    ensures
        match r {
            Option::Some(p) => i <= p.1 <= s@.len() && spec_parse_u64(skip(s@, i as int))
                == Option::Some((p.0, p.1 - i as int)),
            Option::None => spec_parse_u64(skip(s@, i as int)) is None,
        },
{
    let ghost t = skip(s@, i as int);
    let k: usize = scan_digits_from(s, i);
    proof {
        lemma_digit_run(t);
    }
    if k == i {
        return Option::None;
    }
    let c0: char = s.get_char(i);
    proof {
        assert(t[0] == s@[i as int]);
    }
    if k - i > 1 && c0 == '0' {
        return Option::None;
    }
    let ghost run = t.subrange(0, (k - i) as int);
    let mut v: u64 = 0;
    let mut p: usize = i;
    while p < k
        invariant
            i <= p <= k <= s@.len(),
            t == skip(s@, i as int),
            run == t.subrange(0, (k - i) as int),
            k - i == digit_run(t),
            forall|x: int| 0 <= x < k - i ==> is_digit(t[x]),
            v as nat == digits_val(run.subrange(0, p - i as int)),
        decreases k - p,
    {
        let c: char = s.get_char(p);
        proof {
            assert(t[(p - i) as int] == s@[p as int]);
            assert(run[(p - i) as int] == t[(p - i) as int]);
            assert(is_digit(c));
        }
        let cu: u32 = c as u32;
        let d: u64 = (cu - 48) as u64;
        proof {
            vstd::arithmetic::div_mod::lemma_fundamental_div_mod((u64::MAX - d) as int, 10);
        }
        if v > (u64::MAX - d) / 10 {
            proof {
                assert(v * 10 + d > u64::MAX);
                let pre = run.subrange(0, (p - i + 1) as int);
                assert(pre.drop_last() =~= run.subrange(0, (p - i) as int));
                assert(pre.last() == run[(p - i) as int]);
                assert(digit_val(run[(p - i) as int]) == d);
                assert(digits_val(pre) == v * 10 + d);
                lemma_digits_val_prefix(run, p - i + 1);
                assert(digits_val(run) > u64::MAX);
            }
            return Option::None;
        }
        proof {
            assert(v * 10 + d <= u64::MAX);
            let pre = run.subrange(0, (p - i + 1) as int);
            assert(pre.drop_last() =~= run.subrange(0, (p - i) as int));
            assert(pre.last() == run[(p - i) as int]);
            assert(digit_val(run[(p - i) as int]) == d);
            assert(digits_val(pre) == v * 10 + d);
        }
        v = v * 10 + d;
        p += 1;
    }
    proof {
        assert(run.subrange(0, (k - i) as int) =~= run);
        assert(v as nat == digits_val(run));
    }
    Option::Some((v, k))
}

/// Copies the characters between `i` and `j` into an owned string.
fn sub_string(s: &str, i: usize, j: usize) -> (r: String)
    requires
        i <= j <= s@.len(),
    ensures
        r@ == s@.subrange(i as int, j as int),
{
    let t: &str = s.substring_char(i, j);
    String::from_str(t)
}

/// Reads `addr m1 number m2 number` and the record closing, as the spec
/// parser does on the text from position `i`.
fn parse_ann_at(s: &str, i: usize, m1: &str, m2: &str) -> (r: Option<(String, u64, u64)>)
    requires
        i <= s@.len(),
    ensures
        match r {
            Option::Some(p) => spec_parse_addr_num_num(skip(s@, i as int), m1@, m2@)
                == Option::Some((p.0@, p.1, p.2)),
            Option::None => spec_parse_addr_num_num(skip(s@, i as int), m1@, m2@) is None,
        },
{
    let ghost s0 = skip(s@, i as int);
    let n: usize = s.unicode_len();
    let q: usize = scan_quote_from(s, i);
    if q == n {
        return Option::None;
    }
    let a: String = sub_string(s, i, q);
    proof {
        assert(a@ =~= s0.subrange(0, (q - i) as int));
        lemma_skip_skip(s@, i as int, (q - i) as int);
    }
    if !lit_at(s, q, m1) {
        return Option::None;
    }
    let p1: usize = q + m1.unicode_len();
    proof {
        lemma_skip_skip(s@, q as int, (p1 - q) as int);
    }
    match parse_num_at(s, p1) {
        Option::None => Option::None,
        Option::Some((n1, p2)) => {
            proof {
                lemma_skip_skip(s@, p1 as int, (p2 - p1) as int);
            }
            if !lit_at(s, p2, m2) {
                return Option::None;
            }
            let p3: usize = p2 + m2.unicode_len();
            proof {
                lemma_skip_skip(s@, p2 as int, (p3 - p2) as int);
            }
            match parse_num_at(s, p3) {
                Option::None => Option::None,
                Option::Some((n2, p4)) => {
                    proof {
                        lemma_skip_skip(s@, p3 as int, (p4 - p3) as int);
                        reveal_strlit("}\n");
                    }
                    if n - p4 == 2 && lit_at(s, p4, "}\n") {
                        proof {
                            assert(skip(s@, p4 as int) =~= end_obj());
                        }
                        Option::Some((a, n1, n2))
                    } else {
                        proof {
                            assert(skip(s@, p4 as int) != end_obj()) by {
                                if skip(s@, p4 as int) == end_obj() {
                                    assert(skip(s@, p4 as int).subrange(0, 2) =~= end_obj());
                                }
                            }
                        }
                        Option::None
                    }
                },
            }
        },
    }
}

/// Reads `number m1 addr m2 number` and the record closing, as the spec
/// parser does on the text from position `i`.
fn parse_nan_at(s: &str, i: usize, m1: &str, m2: &str) -> (r: Option<(u64, String, u64)>)
    requires
        i <= s@.len(),
    ensures
        match r {
            Option::Some(p) => spec_parse_num_addr_num(skip(s@, i as int), m1@, m2@)
                == Option::Some((p.0, p.1@, p.2)),
            Option::None => spec_parse_num_addr_num(skip(s@, i as int), m1@, m2@) is None,
        },
{
    let ghost s0 = skip(s@, i as int);
    let n: usize = s.unicode_len();
    match parse_num_at(s, i) {
        Option::None => Option::None,
        Option::Some((n1, p1)) => {
            proof {
                lemma_skip_skip(s@, i as int, (p1 - i) as int);
            }
            if !lit_at(s, p1, m1) {
                return Option::None;
            }
            let p2: usize = p1 + m1.unicode_len();
            proof {
                lemma_skip_skip(s@, p1 as int, (p2 - p1) as int);
            }
            let q: usize = scan_quote_from(s, p2);
            if q == n {
                return Option::None;
            }
            let a: String = sub_string(s, p2, q);
            proof {
                assert(a@ =~= skip(s@, p2 as int).subrange(0, (q - p2) as int));
                lemma_skip_skip(s@, p2 as int, (q - p2) as int);
            }
            if !lit_at(s, q, m2) {
                return Option::None;
            }
            let p3: usize = q + m2.unicode_len();
            proof {
                lemma_skip_skip(s@, q as int, (p3 - q) as int);
            }
            match parse_num_at(s, p3) {
                Option::None => Option::None,
                Option::Some((n2, p4)) => {
                    proof {
                        lemma_skip_skip(s@, p3 as int, (p4 - p3) as int);
                        reveal_strlit("}\n");
                    }
                    if n - p4 == 2 && lit_at(s, p4, "}\n") {
                        proof {
                            assert(skip(s@, p4 as int) =~= end_obj());
                        }
                        Option::Some((n1, a, n2))
                    } else {
                        proof {
                            assert(skip(s@, p4 as int) != end_obj()) by {
                                if skip(s@, p4 as int) == end_obj() {
                                    assert(skip(s@, p4 as int).subrange(0, 2) =~= end_obj());
                                }
                            }
                        }
                        Option::None
                    }
                },
            }
        },
    }
}

/// Reads one wire line back into a message: exactly the inverse of
/// [`encode`] on well-formed messages, `None` on any other input.
pub fn decode(s: &str) -> (r: Option<Message>)
    ensures
        match r {
            Option::Some(m) => spec_decode(s@) == Option::Some(m@),
            Option::None => spec_decode(s@) is None,
        },
{
    let n: usize = s.unicode_len();
    proof {
        assert(skip(s@, 0) =~= s@);
        reveal_strlit("{\"type\":\"Ping\"}\n");
    }
    let is_ping: bool = if n == 16 {
        lit_at(s, 0, "{\"type\":\"Ping\"}\n")
    } else {
        false
    };
    if is_ping {
        proof {
            assert(s@ =~= ping_line());
        }
        return Option::Some(Message::Ping);
    }
    proof {
        assert(s@ != ping_line()) by {
            if s@ == ping_line() {
                assert(s@.subrange(0, 16) =~= ping_line());
            }
        }
    }
    if lit_at(s, 0, "{\"type\":\"Heartbeat\",\"leader\":\"") {
        let p: usize = "{\"type\":\"Heartbeat\",\"leader\":\"".unicode_len();
        match parse_ann_at(s, p, "\",\"term_end_unix\":", ",\"term\":") {
            Option::Some((a, n1, n2)) => Option::Some(
                Message::Heartbeat { leader: a, term_end_unix: n1, term: n2 },
            ),
            Option::None => Option::None,
        }
    } else if lit_at(s, 0, "{\"type\":\"GetCpu\",\"term\":") {
        let p: usize = "{\"type\":\"GetCpu\",\"term\":".unicode_len();
        match parse_nan_at(s, p, ",\"initiator_addr\":\"", "\",\"initiator_cpu\":") {
            Option::Some((n1, a, n2)) => {
                if n2 <= 0xffff_ffff {
                    Option::Some(
                        Message::GetCpu { term: n1, initiator_addr: a, initiator_cpu: n2 as u32 },
                    )
                } else {
                    Option::None
                }
            },
            Option::None => Option::None,
        }
    } else if lit_at(s, 0, "{\"type\":\"CpuResp\",\"cpu_percent\":") {
        let p: usize = "{\"type\":\"CpuResp\",\"cpu_percent\":".unicode_len();
        match parse_nan_at(s, p, ",\"addr\":\"", "\",\"term\":") {
            Option::Some((n1, a, n2)) => {
                if n1 <= 0xffff_ffff {
                    Option::Some(
                        Message::CpuResp { cpu_percent: n1 as u32, addr: a, term: n2 },
                    )
                } else {
                    Option::None
                }
            },
            Option::None => Option::None,
        }
    } else if lit_at(s, 0, "{\"type\":\"LeaderAnnounce\",\"leader\":\"") {
        let p: usize = "{\"type\":\"LeaderAnnounce\",\"leader\":\"".unicode_len();
        match parse_ann_at(s, p, "\",\"term_end_unix\":", ",\"term\":") {
            Option::Some((a, n1, n2)) => Option::Some(
                Message::LeaderAnnounce { leader: a, term_end_unix: n1, term: n2 },
            ),
            Option::None => Option::None,
        }
    } else {
        Option::None
    }
}

// ---------------------------------------------------------------------------
// Facts about the parsing functions.
// ---------------------------------------------------------------------------

/// What `scan_to_quote` returns: the characters before it are not quotes,
/// and it stops on a quote unless it ran off the end.
proof fn lemma_scan_to_quote(s: Seq<char>)
    ensures
        scan_to_quote(s) <= s.len(),
        forall|i: int| 0 <= i < scan_to_quote(s) ==> s[i] != '"',
        scan_to_quote(s) < s.len() ==> s[scan_to_quote(s) as int] == '"',
    decreases s.len(),
{
    if s.len() == 0 || s[0] == '"' {
    } else {
        let t = s.subrange(1, s.len() as int);
        lemma_scan_to_quote(t);
        assert forall|i: int| 0 <= i < scan_to_quote(s) implies s[i] != '"' by {
            if i >= 1 {
                assert(t[i - 1] == s[i]);
            }
        }
        if scan_to_quote(s) < s.len() {
            assert(s[scan_to_quote(s) as int] == t[scan_to_quote(t) as int]);
        }
    }
}

/// Any index with the properties of `lemma_scan_to_quote` is its value.
proof fn lemma_scan_to_quote_unique(s: Seq<char>, k: int)
    requires
        0 <= k <= s.len(),
        forall|i: int| 0 <= i < k ==> s[i] != '"',
        k < s.len() ==> s[k] == '"',
    ensures
        scan_to_quote(s) == k,
{
    lemma_scan_to_quote(s);
    let m = scan_to_quote(s) as int;
    if k < m {
        assert(s[k] != '"');
    } else if m < k {
        assert(s[m] != '"');
    }
}

/// What `digit_run` returns, in the same style.
proof fn lemma_digit_run(s: Seq<char>)
    ensures
        digit_run(s) <= s.len(),
        forall|i: int| 0 <= i < digit_run(s) ==> is_digit(s[i]),
        digit_run(s) < s.len() ==> !is_digit(s[digit_run(s) as int]),
    decreases s.len(),
{
    if s.len() == 0 || !is_digit(s[0]) {
    } else {
        let t = s.subrange(1, s.len() as int);
        lemma_digit_run(t);
        assert forall|i: int| 0 <= i < digit_run(s) implies is_digit(s[i]) by {
            if i >= 1 {
                assert(t[i - 1] == s[i]);
            }
        }
        if digit_run(s) < s.len() {
            assert(s[digit_run(s) as int] == t[digit_run(t) as int]);
        }
    }
}

/// Any index with the properties of `lemma_digit_run` is its value.
proof fn lemma_digit_run_unique(s: Seq<char>, k: int)
    requires
        0 <= k <= s.len(),
        forall|i: int| 0 <= i < k ==> is_digit(s[i]),
        k < s.len() ==> !is_digit(s[k]),
    ensures
        digit_run(s) == k,
{
    lemma_digit_run(s);
    let m = digit_run(s) as int;
    if k < m {
        assert(is_digit(s[k]));
    } else if m < k {
        assert(is_digit(s[m]));
    }
}

/// Splitting a concatenation at the seam.
proof fn lemma_split_concat(p: Seq<char>, rest: Seq<char>)
    ensures
        starts_with(p + rest, p),
        skip(p + rest, p.len() as int) == rest,
{
    assert((p + rest).subrange(0, p.len() as int) =~= p);
    assert(skip(p + rest, p.len() as int) =~= rest);
}

/// Ten to the anything is at least one.
proof fn lemma_pow10_pos(k: nat)
    ensures
        pow10(k) >= 1,
    decreases k,
{
    if k > 0 {
        lemma_pow10_pos((k - 1) as nat);
    }
}

/// The value of a concatenated digit string.
proof fn lemma_digits_val_concat(a: Seq<char>, b: Seq<char>)
    ensures
        digits_val(a + b) == digits_val(a) * pow10(b.len()) + digits_val(b),
    decreases b.len(),
{
    if b.len() == 0 {
        assert(a + b =~= a);
        assert(pow10(0) == 1);
    } else {
        let ab = a + b;
        assert(ab.len() == a.len() + b.len());
        assert(ab.drop_last() =~= a + b.drop_last());
        assert(ab.last() == b.last());
        lemma_digits_val_concat(a, b.drop_last());
        let x = digits_val(a);
        let y = digits_val(b.drop_last());
        let p = pow10(b.drop_last().len());
        let c = digit_val(b.last());
        assert(digits_val(ab) == digits_val(ab.drop_last()) * 10 + digit_val(ab.last()));
        assert(digits_val(ab.drop_last()) == x * p + y);
        assert(digits_val(ab) == (x * p + y) * 10 + c);
        assert(b.drop_last().len() == b.len() - 1);
        assert(pow10(b.len()) == 10 * p);
        assert((x * p + y) * 10 == x * (10 * p) + y * 10) by (nonlinear_arith);
        assert(digits_val(b) == digits_val(b.drop_last()) * 10 + digit_val(b.last()));
        assert(digits_val(b) == y * 10 + c);
        assert(digits_val(ab) == x * pow10(b.len()) + digits_val(b));
    }
}

/// A prefix of a digit string is worth no more than the whole.
proof fn lemma_digits_val_prefix(s: Seq<char>, j: int)
    requires
        0 <= j <= s.len(),
    ensures
        digits_val(s.subrange(0, j)) <= digits_val(s),
{
    let a = s.subrange(0, j);
    let b = s.subrange(j, s.len() as int);
    assert(s =~= a + b);
    lemma_digits_val_concat(a, b);
    lemma_pow10_pos(b.len());
    assert(digits_val(a) * pow10(b.len()) >= digits_val(a) * 1) by (nonlinear_arith)
        requires
            pow10(b.len()) >= 1,
    ;
}

/// The digit characters carry their values.
proof fn lemma_digit_char_val(d: nat)
    requires
        d < 10,
    ensures
        is_digit(digit_char(d)),
        digit_val(digit_char(d)) == d,
{
    assert('0' as u32 == 48);
    assert('1' as u32 == 49);
    assert('2' as u32 == 50);
    assert('3' as u32 == 51);
    assert('4' as u32 == 52);
    assert('5' as u32 == 53);
    assert('6' as u32 == 54);
    assert('7' as u32 == 55);
    assert('8' as u32 == 56);
    assert('9' as u32 == 57);
}

/// The canonical digits of a number: all digits, worth the number, at least
/// one character, no leading zero unless the number is zero itself.
proof fn lemma_dec_chars(n: nat)
    ensures
        dec_chars(n).len() >= 1,
        forall|i: int| 0 <= i < dec_chars(n).len() ==> is_digit(#[trigger] dec_chars(n)[i]),
        digits_val(dec_chars(n)) == n,
        n > 0 ==> dec_chars(n)[0] != '0',
        n < 10 ==> dec_chars(n).len() == 1,
    decreases n,
{
    if n < 10 {
        lemma_digit_char_val(n);
        assert(dec_chars(n) == seq![digit_char(n)]);
        assert(dec_chars(n).len() == 1);
        assert(dec_chars(n).drop_last() =~= Seq::<char>::empty());
        assert(dec_chars(n).last() == digit_char(n));
        assert(digits_val(Seq::<char>::empty()) == 0);
        assert(digits_val(dec_chars(n)) == digits_val(dec_chars(n).drop_last()) * 10 + digit_val(
            dec_chars(n).last(),
        ));
    } else {
        lemma_dec_chars(n / 10);
        lemma_digit_char_val(n % 10);
        let d = dec_chars(n / 10);
        let c = digit_char(n % 10);
        assert(dec_chars(n) == d.push(c));
        assert(d.push(c).drop_last() =~= d);
        assert(d.push(c).last() == c);
        assert forall|i: int| 0 <= i < dec_chars(n).len() implies is_digit(
            #[trigger] dec_chars(n)[i],
        ) by {
            if i < d.len() {
                assert(dec_chars(n)[i] == d[i]);
            }
        }
        assert(digits_val(dec_chars(n)) == (n / 10) * 10 + (n % 10));
        assert((n / 10) * 10 + (n % 10) == n) by (nonlinear_arith);
        assert(dec_chars(n)[0] == d[0]);
    }
}

/// A digit string followed by a non-digit scans as exactly that string.
proof fn lemma_digit_run_concat(d: Seq<char>, rest: Seq<char>)
    requires
        forall|i: int| 0 <= i < d.len() ==> is_digit(d[i]),
        rest.len() > 0,
        !is_digit(rest[0]),
    ensures
        digit_run(d + rest) == d.len(),
{
    let s = d + rest;
    assert forall|i: int| 0 <= i < d.len() implies is_digit(s[i]) by {
        assert(s[i] == d[i]);
    }
    assert(s[d.len() as int] == rest[0]);
    lemma_digit_run_unique(s, d.len() as int);
}

/// A quote-free string followed by a quote scans as exactly that string.
proof fn lemma_scan_concat(a: Seq<char>, rest: Seq<char>)
    requires
        forall|i: int| 0 <= i < a.len() ==> a[i] != '"',
        rest.len() > 0,
        rest[0] == '"',
    ensures
        scan_to_quote(a + rest) == a.len(),
{
    let s = a + rest;
    assert forall|i: int| 0 <= i < a.len() implies s[i] != '"' by {
        assert(s[i] == a[i]);
    }
    assert(s[a.len() as int] == rest[0]);
    lemma_scan_to_quote_unique(s, a.len() as int);
}

/// Parsing the canonical digits of `n` with anything non-digit after them
/// yields `n` and consumes exactly the digits.
proof fn lemma_parse_u64_encoded(n: u64, rest: Seq<char>)
    requires
        rest.len() > 0,
        !is_digit(rest[0]),
    ensures
        spec_parse_u64(dec_chars(n as nat) + rest) == Option::Some(
            (n, dec_chars(n as nat).len() as int),
        ),
{
    let d = dec_chars(n as nat);
    let s = d + rest;
    lemma_dec_chars(n as nat);
    lemma_digit_run_concat(d, rest);
    assert(s.subrange(0, d.len() as int) =~= d);
    assert(s[0] == d[0]);
    if d.len() > 1 {
        assert(n >= 10);
    }
}

/// Parsing an address of a well-formed message with its closing quote after
/// it yields the address and consumes exactly its characters.
proof fn lemma_parse_addr_encoded(a: Seq<char>, rest: Seq<char>)
    requires
        wire_addr_ok(a),
        rest.len() > 0,
        rest[0] == '"',
    ensures
        spec_parse_addr(a + rest) == Option::Some((a, a.len() as int)),
{
    let s = a + rest;
    lemma_scan_concat(a, rest);
    assert(s.subrange(0, a.len() as int) =~= a);
}

/// Round trip of the `addr number number` record body.
#[verifier::rlimit(100)]
#[verifier::spinoff_prover]
proof fn lemma_parse_ann_encoded(a: Seq<char>, m1: Seq<char>, m2: Seq<char>, n1: u64, n2: u64)
    requires
        wire_addr_ok(a),
        m1.len() > 0,
        m1[0] == '"',
        m2.len() > 0,
        !is_digit(m2[0]),
        end_obj().len() > 0,
        !is_digit(end_obj()[0]),
    ensures
        spec_parse_addr_num_num(
            a + m1 + dec_chars(n1 as nat) + m2 + dec_chars(n2 as nat) + end_obj(),
            m1,
            m2,
        ) == Option::Some((a, n1, n2)),
{
    let d1 = dec_chars(n1 as nat);
    let d2 = dec_chars(n2 as nat);
    let s = a + m1 + d1 + m2 + d2 + end_obj();
    let t1 = m1 + (d1 + (m2 + (d2 + end_obj())));
    assert(s =~= a + t1);
    assert(t1[0] == m1[0]);
    lemma_parse_addr_encoded(a, t1);
    assert(spec_parse_addr(s) == Option::Some((a, a.len() as int)));
    lemma_split_concat(a, t1);
    assert(skip(s, a.len() as int) == t1);
    let t2 = d1 + (m2 + (d2 + end_obj()));
    lemma_split_concat(m1, t2);
    assert(skip(t1, m1.len() as int) == t2);
    let t3 = m2 + (d2 + end_obj());
    assert(t3[0] == m2[0]);
    lemma_parse_u64_encoded(n1, t3);
    assert(spec_parse_u64(t2) == Option::Some((n1, d1.len() as int)));
    assert(t2 =~= d1 + t3);
    lemma_split_concat(d1, t3);
    assert(skip(t2, d1.len() as int) == t3);
    let t4 = d2 + end_obj();
    lemma_split_concat(m2, t4);
    assert(skip(t3, m2.len() as int) == t4);
    lemma_parse_u64_encoded(n2, end_obj());
    assert(spec_parse_u64(t4) == Option::Some((n2, d2.len() as int)));
    lemma_split_concat(d2, end_obj());
    assert(skip(t4, d2.len() as int) == end_obj());
}

/// Round trip of the `number addr number` record body.
#[verifier::rlimit(100)]
#[verifier::spinoff_prover]
proof fn lemma_parse_nan_encoded(a: Seq<char>, m1: Seq<char>, m2: Seq<char>, n1: u64, n2: u64)
    requires
        wire_addr_ok(a),
        m1.len() > 0,
        !is_digit(m1[0]),
        m1.last() == '"',
        m2.len() > 0,
        m2[0] == '"',
        !is_digit(m2[0]),
        end_obj().len() > 0,
        !is_digit(end_obj()[0]),
    ensures
        spec_parse_num_addr_num(
            dec_chars(n1 as nat) + m1 + a + m2 + dec_chars(n2 as nat) + end_obj(),
            m1,
            m2,
        ) == Option::Some((n1, a, n2)),
{
    let d1 = dec_chars(n1 as nat);
    let d2 = dec_chars(n2 as nat);
    let s = d1 + m1 + a + m2 + d2 + end_obj();
    let t1 = m1 + (a + (m2 + (d2 + end_obj())));
    assert(s =~= d1 + t1);
    assert(t1[0] == m1[0]);
    lemma_parse_u64_encoded(n1, t1);
    assert(spec_parse_u64(s) == Option::Some((n1, d1.len() as int)));
    lemma_split_concat(d1, t1);
    assert(skip(s, d1.len() as int) == t1);
    let t2 = a + (m2 + (d2 + end_obj()));
    lemma_split_concat(m1, t2);
    assert(skip(t1, m1.len() as int) == t2);
    let t3 = m2 + (d2 + end_obj());
    assert(t3[0] == m2[0]);
    lemma_parse_addr_encoded(a, t3);
    assert(spec_parse_addr(t2) == Option::Some((a, a.len() as int)));
    lemma_split_concat(a, t3);
    assert(skip(t2, a.len() as int) == t3);
    let t4 = d2 + end_obj();
    lemma_split_concat(m2, t4);
    assert(skip(t3, m2.len() as int) == t4);
    lemma_parse_u64_encoded(n2, end_obj());
    assert(spec_parse_u64(t4) == Option::Some((n2, d2.len() as int)));
    lemma_split_concat(d2, end_obj());
    assert(skip(t4, d2.len() as int) == end_obj());
}

/// A digit character is the digit of its own value.
proof fn lemma_digit_char_of_val(c: char)
    requires
        is_digit(c),
    ensures
        digit_val(c) < 10,
        digit_char(digit_val(c)) == c,
{
    vstd::utf8::char_u32_cast(c, c as u32);
    vstd::utf8::char_u32_cast('0', '0' as u32);
    vstd::utf8::char_u32_cast('1', '1' as u32);
    vstd::utf8::char_u32_cast('2', '2' as u32);
    vstd::utf8::char_u32_cast('3', '3' as u32);
    vstd::utf8::char_u32_cast('4', '4' as u32);
    vstd::utf8::char_u32_cast('5', '5' as u32);
    vstd::utf8::char_u32_cast('6', '6' as u32);
    vstd::utf8::char_u32_cast('7', '7' as u32);
    vstd::utf8::char_u32_cast('8', '8' as u32);
    vstd::utf8::char_u32_cast('9', '9' as u32);
}

/// A digit string that does not start with `0` is worth at least one.
proof fn lemma_canonical_positive(d: Seq<char>)
    requires
        d.len() >= 1,
        forall|i: int| 0 <= i < d.len() ==> is_digit(d[i]),
        d[0] != '0',
    ensures
        digits_val(d) >= 1,
    decreases d.len(),
{
    if d.len() == 1 {
        assert(d.drop_last() =~= Seq::<char>::empty());
        lemma_digit_char_of_val(d[0]);
        assert(digit_val(d[0]) != 0);
    } else {
        let dp = d.drop_last();
        assert(dp[0] == d[0]);
        lemma_canonical_positive(dp);
    }
}

/// The canonical digits of the value of a canonical digit string are that
/// string itself: values and canonical digit strings pair up one to one.
proof fn lemma_dec_chars_of_val(d: Seq<char>)
    requires
        d.len() >= 1,
        forall|i: int| 0 <= i < d.len() ==> is_digit(d[i]),
        d.len() > 1 ==> d[0] != '0',
    ensures
        dec_chars(digits_val(d)) == d,
    decreases d.len(),
{
    if d.len() == 1 {
        assert(d.drop_last() =~= Seq::<char>::empty());
        lemma_digit_char_of_val(d[0]);
        assert(d.last() == d[0]);
        assert(digits_val(Seq::<char>::empty()) == 0);
        assert(digits_val(d) == digits_val(d.drop_last()) * 10 + digit_val(d.last()));
        assert(digits_val(d) == digit_val(d[0]));
        assert(seq![digit_char(digits_val(d))] =~= d);
    } else {
        let dp = d.drop_last();
        let x = digit_val(d.last());
        assert(dp[0] == d[0]);
        lemma_digit_char_of_val(d.last());
        lemma_dec_chars_of_val(dp);
        lemma_canonical_positive(dp);
        let v = digits_val(d);
        assert(v == digits_val(dp) * 10 + x);
        assert(v >= 10);
        vstd::arithmetic::div_mod::lemma_fundamental_div_mod_converse(
            v as int,
            10,
            digits_val(dp) as int,
            x as int,
        );
        assert(v / 10 == digits_val(dp));
        assert(v % 10 == x);
        assert(dec_chars(v) == dec_chars(digits_val(dp)).push(digit_char(x)));
        assert(dp.push(d.last()) =~= d);
    }
}

/// A string splits at any position into its prefix and what `skip` leaves.
proof fn lemma_split_at(s: Seq<char>, i: int)
    requires
        0 <= i <= s.len(),
    ensures
        s == s.subrange(0, i) + skip(s, i),
{
    assert(s =~= s.subrange(0, i) + skip(s, i));
}

/// What an accepted number is made of: exactly the canonical digits of its
/// value, followed by the rest.
proof fn lemma_parse_u64_sound(s: Seq<char>)
    requires
        spec_parse_u64(s) is Some,
    ensures
        ({
            let (v, k) = spec_parse_u64(s)->Some_0;
            &&& 0 < k <= s.len()
            &&& s.subrange(0, k) == dec_chars(v as nat)
        }),
{
    let (v, k) = spec_parse_u64(s)->Some_0;
    lemma_digit_run(s);
    let run = s.subrange(0, k);
    assert forall|i: int| 0 <= i < run.len() implies is_digit(run[i]) by {
        assert(run[i] == s[i]);
    }
    if run.len() > 1 {
        assert(run[0] == s[0]);
    }
    lemma_dec_chars_of_val(run);
}

/// A right-leaning concatenation of six pieces equals the left-leaning one.
proof fn lemma_assoc6(
    a: Seq<char>,
    b: Seq<char>,
    c: Seq<char>,
    d: Seq<char>,
    e: Seq<char>,
    f: Seq<char>,
)
    ensures
        a + (b + (c + (d + (e + f)))) == a + b + c + d + e + f,
{
    assert(a + (b + (c + (d + (e + f)))) =~= a + b + c + d + e + f);
}

/// What an accepted `addr number number` body is made of.
#[verifier::rlimit(100)]
#[verifier::spinoff_prover]
proof fn lemma_parse_ann_sound(s: Seq<char>, m1: Seq<char>, m2: Seq<char>)
    requires
        spec_parse_addr_num_num(s, m1, m2) is Some,
    ensures
        ({
            let (a, n1, n2) = spec_parse_addr_num_num(s, m1, m2)->Some_0;
            s == a + m1 + dec_chars(n1 as nat) + m2 + dec_chars(n2 as nat) + end_obj()
        }),
{
    let (a, n1, n2) = spec_parse_addr_num_num(s, m1, m2)->Some_0;
    let d1 = dec_chars(n1 as nat);
    let d2 = dec_chars(n2 as nat);
    let k0 = scan_to_quote(s) as int;
    let r1 = skip(s, k0);
    let r2 = skip(r1, m1.len() as int);
    let j = spec_parse_u64(r2)->Some_0.1;
    let r3 = skip(r2, j);
    let r4 = skip(r3, m2.len() as int);
    let k = spec_parse_u64(r4)->Some_0.1;
    let r5 = skip(r4, k);
    assert(s == a + r1) by {
        lemma_scan_to_quote(s);
        lemma_split_at(s, k0);
    }
    assert(r1 == m1 + r2) by {
        lemma_split_at(r1, m1.len() as int);
    }
    assert(r2 == d1 + r3) by {
        lemma_parse_u64_sound(r2);
        lemma_split_at(r2, j);
    }
    assert(r3 == m2 + r4) by {
        lemma_split_at(r3, m2.len() as int);
    }
    assert(r4 == d2 + r5) by {
        lemma_parse_u64_sound(r4);
        lemma_split_at(r4, k);
    }
    assert(r5 == end_obj());
    lemma_assoc6(a, m1, d1, m2, d2, end_obj());
}

/// What an accepted `number addr number` body is made of.
#[verifier::rlimit(100)]
#[verifier::spinoff_prover]
proof fn lemma_parse_nan_sound(s: Seq<char>, m1: Seq<char>, m2: Seq<char>)
    requires
        spec_parse_num_addr_num(s, m1, m2) is Some,
    ensures
        ({
            let (n1, a, n2) = spec_parse_num_addr_num(s, m1, m2)->Some_0;
            s == dec_chars(n1 as nat) + m1 + a + m2 + dec_chars(n2 as nat) + end_obj()
        }),
{
    let (n1, a, n2) = spec_parse_num_addr_num(s, m1, m2)->Some_0;
    let d1 = dec_chars(n1 as nat);
    let d2 = dec_chars(n2 as nat);
    let i = spec_parse_u64(s)->Some_0.1;
    let r1 = skip(s, i);
    let r2 = skip(r1, m1.len() as int);
    let k0 = scan_to_quote(r2) as int;
    let r3 = skip(r2, k0);
    let r4 = skip(r3, m2.len() as int);
    let k = spec_parse_u64(r4)->Some_0.1;
    let r5 = skip(r4, k);
    assert(s == d1 + r1) by {
        lemma_parse_u64_sound(s);
        lemma_split_at(s, i);
    }
    assert(r1 == m1 + r2) by {
        lemma_split_at(r1, m1.len() as int);
    }
    assert(r2 == a + r3) by {
        lemma_scan_to_quote(r2);
        lemma_split_at(r2, k0);
    }
    assert(r3 == m2 + r4) by {
        lemma_split_at(r3, m2.len() as int);
    }
    assert(r4 == d2 + r5) by {
        lemma_parse_u64_sound(r4);
        lemma_split_at(r4, k);
    }
    assert(r5 == end_obj());
    lemma_assoc6(d1, m1, a, m2, d2, end_obj());
}

/// A prefix before a left-leaning concatenation of six pieces folds into
/// one left-leaning concatenation.
proof fn lemma_assoc_prefix(
    p: Seq<char>,
    a: Seq<char>,
    b: Seq<char>,
    c: Seq<char>,
    d: Seq<char>,
    e: Seq<char>,
    f: Seq<char>,
)
    ensures
        p + (a + b + c + d + e + f) == p + a + b + c + d + e + f,
{
    assert(p + (a + b + c + d + e + f) =~= p + a + b + c + d + e + f);
}

/// Law: whatever `decode` accepts is exactly the encoding of the message it
/// returns — the decoder accepts the canonical records and nothing else.
/// Together with the round trip below, encoding and decoding pair messages
/// and wire lines up one to one.
#[verifier::rlimit(100)]
#[verifier::spinoff_prover]
pub proof fn lemma_decode_sound(s: Seq<char>, m: MessageView)
    requires
        spec_decode(s) == Option::Some(m),
    ensures
        s == spec_encode(m),
{
    if s == ping_line() {
    } else if starts_with(s, pre_heartbeat()) {
        let body = skip(s, pre_heartbeat().len() as int);
        let (a, n1, n2) = spec_parse_addr_num_num(body, mid_term_end(), mid_term())->Some_0;
        assert(s == pre_heartbeat() + body) by {
            lemma_split_at(s, pre_heartbeat().len() as int);
        }
        lemma_parse_ann_sound(body, mid_term_end(), mid_term());
        lemma_assoc_prefix(
            pre_heartbeat(),
            a,
            mid_term_end(),
            dec_chars(n1 as nat),
            mid_term(),
            dec_chars(n2 as nat),
            end_obj(),
        );
    } else if starts_with(s, pre_getcpu()) {
        let body = skip(s, pre_getcpu().len() as int);
        let (n1, a, n2) = spec_parse_num_addr_num(body, mid_init_addr(), mid_init_cpu())->Some_0;
        assert(s == pre_getcpu() + body) by {
            lemma_split_at(s, pre_getcpu().len() as int);
        }
        lemma_parse_nan_sound(body, mid_init_addr(), mid_init_cpu());
        assert((n2 as u32) as nat == n2 as nat);
        lemma_assoc_prefix(
            pre_getcpu(),
            dec_chars(n1 as nat),
            mid_init_addr(),
            a,
            mid_init_cpu(),
            dec_chars(n2 as nat),
            end_obj(),
        );
    } else if starts_with(s, pre_cpuresp()) {
        let body = skip(s, pre_cpuresp().len() as int);
        let (n1, a, n2) = spec_parse_num_addr_num(body, mid_addr(), mid_quote_term())->Some_0;
        assert(s == pre_cpuresp() + body) by {
            lemma_split_at(s, pre_cpuresp().len() as int);
        }
        lemma_parse_nan_sound(body, mid_addr(), mid_quote_term());
        assert((n1 as u32) as nat == n1 as nat);
        lemma_assoc_prefix(
            pre_cpuresp(),
            dec_chars(n1 as nat),
            mid_addr(),
            a,
            mid_quote_term(),
            dec_chars(n2 as nat),
            end_obj(),
        );
    } else {
        let body = skip(s, pre_announce().len() as int);
        let (a, n1, n2) = spec_parse_addr_num_num(body, mid_term_end(), mid_term())->Some_0;
        assert(s == pre_announce() + body) by {
            lemma_split_at(s, pre_announce().len() as int);
        }
        lemma_parse_ann_sound(body, mid_term_end(), mid_term());
        lemma_assoc_prefix(
            pre_announce(),
            a,
            mid_term_end(),
            dec_chars(n1 as nat),
            mid_term(),
            dec_chars(n2 as nat),
            end_obj(),
        );
    }
}

/// Law: decoding an encoded message gives the message back, for every
/// well-formed message of every variant.
pub proof fn lemma_decode_encode(m: MessageView)
    requires
        wf_view(m),
    ensures
        spec_decode(spec_encode(m)) == Option::Some(m),
{
    reveal_strlit("{\"type\":\"Heartbeat\",\"leader\":\"");
    reveal_strlit("{\"type\":\"GetCpu\",\"term\":");
    reveal_strlit("{\"type\":\"CpuResp\",\"cpu_percent\":");
    reveal_strlit("{\"type\":\"LeaderAnnounce\",\"leader\":\"");
    reveal_strlit("{\"type\":\"Ping\"}\n");
    reveal_strlit("\",\"term_end_unix\":");
    reveal_strlit(",\"term\":");
    reveal_strlit("\",\"term\":");
    reveal_strlit(",\"initiator_addr\":\"");
    reveal_strlit("\",\"initiator_cpu\":");
    reveal_strlit(",\"addr\":\"");
    reveal_strlit("}\n");
    let s = spec_encode(m);
    match m {
        MessageView::Heartbeat { leader, term_end_unix, term } => {
            let body = leader + mid_term_end() + dec_chars(term_end_unix as nat) + mid_term()
                + dec_chars(term as nat) + end_obj();
            assert(s =~= pre_heartbeat() + body);
            lemma_split_concat(pre_heartbeat(), body);
            assert(s[9] == pre_heartbeat()[9]);
            assert(s != ping_line());
            lemma_parse_ann_encoded(leader, mid_term_end(), mid_term(), term_end_unix, term);
            assert(skip(s, pre_heartbeat().len() as int) =~= leader + mid_term_end() + dec_chars(
                term_end_unix as nat,
            ) + mid_term() + dec_chars(term as nat) + end_obj());
        },
        MessageView::GetCpu { term, initiator_addr, initiator_cpu } => {
            let body = dec_chars(term as nat) + mid_init_addr() + initiator_addr + mid_init_cpu()
                + dec_chars(initiator_cpu as nat) + end_obj();
            assert(s =~= pre_getcpu() + body);
            lemma_split_concat(pre_getcpu(), body);
            assert(s[9] == pre_getcpu()[9]);
            assert(s != ping_line());
            assert(!starts_with(s, pre_heartbeat()));
            lemma_parse_nan_encoded(
                initiator_addr,
                mid_init_addr(),
                mid_init_cpu(),
                term,
                initiator_cpu as u64,
            );
            assert(skip(s, pre_getcpu().len() as int) =~= dec_chars(term as nat) + mid_init_addr()
                + initiator_addr + mid_init_cpu() + dec_chars(initiator_cpu as nat) + end_obj());
        },
        MessageView::CpuResp { cpu_percent, addr, term } => {
            let body = dec_chars(cpu_percent as nat) + mid_addr() + addr + mid_quote_term()
                + dec_chars(term as nat) + end_obj();
            assert(s =~= pre_cpuresp() + body);
            lemma_split_concat(pre_cpuresp(), body);
            assert(s[9] == pre_cpuresp()[9]);
            assert(s != ping_line());
            assert(!starts_with(s, pre_heartbeat()));
            assert(!starts_with(s, pre_getcpu()));
            lemma_parse_nan_encoded(addr, mid_addr(), mid_quote_term(), cpu_percent as u64, term);
            assert(skip(s, pre_cpuresp().len() as int) =~= dec_chars(cpu_percent as nat)
                + mid_addr() + addr + mid_quote_term() + dec_chars(term as nat) + end_obj());
        },
        MessageView::LeaderAnnounce { leader, term_end_unix, term } => {
            let body = leader + mid_term_end() + dec_chars(term_end_unix as nat) + mid_term()
                + dec_chars(term as nat) + end_obj();
            assert(s =~= pre_announce() + body);
            lemma_split_concat(pre_announce(), body);
            assert(s[9] == pre_announce()[9]);
            assert(s != ping_line());
            assert(!starts_with(s, pre_heartbeat()));
            assert(!starts_with(s, pre_getcpu()));
            assert(!starts_with(s, pre_cpuresp()));
            lemma_parse_ann_encoded(leader, mid_term_end(), mid_term(), term_end_unix, term);
            assert(skip(s, pre_announce().len() as int) =~= leader + mid_term_end() + dec_chars(
                term_end_unix as nat,
            ) + mid_term() + dec_chars(term as nat) + end_obj());
        },
        MessageView::Ping => {
        },
    }
}

} // verus!
