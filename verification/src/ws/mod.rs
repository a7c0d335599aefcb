//! The WebSocket protocol: the client messages, the subscribe handshake and
//! the diagnostics of the health heartbeat.
use vstd::prelude::*;

use crate::json::strings_view;
use crate::parser::roadmap::{lemma_lex_asym, lemma_lex_total_any, lemma_lex_trans, lex_less, lex_lt};
use crate::text::{
    chars_of, first_token, first_token_of, has_at, is_whitespace, lemma_skip_ws_bounds,
    parse_unsigned, parse_unsigned_spec, skip_whitespace, skip_ws, slice_range,
    split_from, starts_with, ws_pos, char_pos, find_char, lemma_char_pos,
};

verus! {

/// Messages sent from WebSocket clients to server.
#[derive(Debug, Clone)]
pub enum ClientMessage {
    /// Subscribe to receive updates for specific projects
    Subscribe { projects: Vec<String> },
    /// Unsubscribe from projects
    Unsubscribe { projects: Vec<String> },
}

/// Status of a file watcher for a specific project.
#[derive(Debug, Clone)]
pub struct ProjectWatcherStatus {
    pub active: bool,
    pub watched_paths: u32,
    pub last_event_at: Option<String>,
    pub error_count: u32,
}

pub open spec fn empty_subscribe_text() -> Seq<char> {
    "Subscribe message must include at least one project"@
}

pub open spec fn not_subscribe_text() -> Seq<char> {
    "First message must be a subscribe command"@
}

/// The projects a client subscribes to with its first message: a subscribe
/// message must name at least one project; any other message is refused.
pub fn subscribe_projects(msg: ClientMessage) -> (r: Result<Vec<String>, String>)
    ensures
        match msg {
            ClientMessage::Subscribe { projects } => if projects@.len() > 0 {
                r matches Ok(p) && strings_view(p@) == strings_view(projects@)
            } else {
                r matches Err(m) && m@ == empty_subscribe_text()
            },
            ClientMessage::Unsubscribe { .. } => r matches Err(m) && m@ == not_subscribe_text(),
        },
{
    proof {
        reveal_strlit("Subscribe message must include at least one project");
        reveal_strlit("First message must be a subscribe command");
    }
    match msg {
        ClientMessage::Subscribe { projects } => {
            if projects.len() == 0 {
                Err(String::from_str("Subscribe message must include at least one project"))
            } else {
                Ok(projects)
            }
        },
        ClientMessage::Unsubscribe { .. } => Err(
            String::from_str("First message must be a subscribe command"),
        ),
    }
}

/// The second whitespace-separated token of a line.
pub open spec fn second_token(line: Seq<char>) -> Option<Seq<char>> {
    first_token(line.skip(ws_pos(line, skip_ws(line, 0))))
}

/// The resident set size in bytes that a `VmRSS:  N kB` line gives: the
/// second token read as a `u64` number of kB, times 1024 (wrapping).
pub open spec fn rss_line_value(line: Seq<char>) -> Option<u64> {
    if starts_with(line, "VmRSS:"@) {
        match second_token(line) {
            Some(t) => match parse_unsigned_spec(t, 0xFFFF_FFFF_FFFF_FFFF) {
                Some(kb) => Some(((kb * 1024) % 0x1_0000_0000_0000_0000nat) as u64),
                None => None,
            },
            None => None,
        }
    } else {
        None
    }
}

/// The value of the first `VmRSS:` line from `lines[i]` on that reads, or 0.
pub open spec fn rss_from(lines: Seq<Seq<char>>, i: int) -> u64
    decreases lines.len() - i,
{
    if i < 0 || i >= lines.len() {
        0
    } else {
        match rss_line_value(lines[i]) {
            Some(v) => v,
            None => rss_from(lines, i + 1),
        }
    }
}

/// The memory usage that the text of `/proc/self/status` gives.
pub open spec fn memory_spec(status: Seq<char>) -> u64 {
    rss_from(split_from(status, '\n', 0), 0)
}

fn rss_line_exec(line: &[char]) -> (r: Option<u64>)
    ensures
        r == rss_line_value(line@),
{
    let label = chars_of("VmRSS:");
    if !has_at(line, 0, &label) {
        return None;
    }
    let a = skip_whitespace(line, 0);
    proof {
        lemma_skip_ws_bounds(line@, 0);
    }
    let mut e = a;
    while e < line.len() && !is_whitespace(line[e])
        invariant
            a <= e <= line@.len(),
            ws_pos(line@, e as int) == ws_pos(line@, a as int),
        decreases line@.len() - e,
    {
        e = e + 1;
    }
    let rest = slice_range(line, e, line.len());
    proof {
        assert(rest@ == line@.skip(e as int));
    }
    match first_token_of(&rest) {
        Some(t) => match parse_unsigned(&t, 0xFFFF_FFFF_FFFF_FFFF) {
            Some(kb) => Some(kb.wrapping_mul(1024)),
            None => None,
        },
        None => None,
    }
}

/// Read memory usage from the text of `/proc/self/status`: the `VmRSS:`
/// line's value in bytes, or 0.
pub fn memory_from_status(status: &str) -> (r: u64)
    ensures
        r == memory_spec(status@),
{
    let s = chars_of(status);
    let mut i: usize = 0;
    loop
        invariant
            i <= s@.len(),
            s@ == status@,
            rss_from(split_from(s@, '\n', i as int), 0) == memory_spec(s@),
        decreases s@.len() - i,
    {
        let j = find_char(&s, '\n', i);
        proof {
            lemma_char_pos(s@, '\n', i as int);
            lemma_split_head(s@, i as int);
            lemma_rss_shift(split_from(s@, '\n', i as int), 0);
        }
        let line = slice_range(&s, i, j);
        match rss_line_exec(&line) {
            Some(v) => {
                return v;
            },
            None => {},
        }
        if j >= s.len() {
            return 0;
        }
        i = j + 1;
    }
}

proof fn lemma_rss_shift(p: Seq<Seq<char>>, k: int)
    requires
        p.len() >= 1,
        0 <= k,
    ensures
        rss_from(p, k + 1) == rss_from(p.drop_first(), k),
    decreases p.len() - k,
{
    if k + 1 < p.len() {
        assert(p.drop_first()[k] == p[k + 1]);
        lemma_rss_shift(p, k + 1);
    }
}

proof fn lemma_split_head(s: Seq<char>, i: int)
    requires
        0 <= i <= s.len(),
    ensures
        ({
            let j = char_pos(s, '\n', i);
            let p = split_from(s, '\n', i);
            &&& p.len() >= 1
            &&& p[0] == s.subrange(i, j)
            &&& j < s.len() ==> p.drop_first() == split_from(s, '\n', j + 1)
            &&& j >= s.len() ==> p.len() == 1
        }),
{
    lemma_char_pos(s, '\n', i);
    let j = char_pos(s, '\n', i);
    if j < s.len() {
        assert((seq![s.subrange(i, j)] + split_from(s, '\n', j + 1)).drop_first() =~= split_from(
            s,
            '\n',
            j + 1,
        ));
    }
}

/// `order` lists each index of `keys` once, newest (greatest) key first,
/// and keeps the input order among equal keys (a stable sort on the key,
/// descending).
pub open spec fn newest_first(keys: Seq<Seq<char>>, order: Seq<int>) -> bool {
    &&& order.len() == keys.len()
    &&& forall|i: int| 0 <= i < order.len() ==> 0 <= #[trigger] order[i] < keys.len()
    &&& forall|i: int, j: int| 0 <= i < j < order.len() ==> #[trigger] order[i] != #[trigger] order[j]
    &&& forall|i: int, j: int|
        0 <= i < j < order.len() ==> !lex_lt(keys[#[trigger] order[i]], keys[#[trigger] order[j]])
    &&& forall|i: int, j: int|
        0 <= i < j < order.len() && order[i] > order[j] ==> lex_lt(
            keys[#[trigger] order[j]],
            keys[#[trigger] order[i]],
        )
}

/// The most recent runs shown in a snapshot.
pub open spec fn recent_run_limit() -> int {
    50
}

/// The order in which a snapshot lists runs: by creation time, newest
/// first (runs created at the same time in the order they were read), at
/// most 50. Each run is given by the text of its creation time.
pub fn recent_run_order(created_at: &Vec<String>) -> (r: Vec<usize>)
    ensures
        exists|order: Seq<int>|
            newest_first(strings_view(created_at@), order) && r@.len() == (if order.len()
                < recent_run_limit() {
                order.len() as int
            } else {
                recent_run_limit()
            }) && forall|i: int| 0 <= i < r@.len() ==> r@[i] as int == order[i],
{
    let ghost keys = strings_view(created_at@);
    let n = created_at.len();
    let mut key_chars: Vec<Vec<char>> = Vec::new();
    let mut k: usize = 0;
    while k < n
        invariant
            n == created_at@.len(),
            keys == strings_view(created_at@),
            k <= n,
            key_chars@.len() == k,
            forall|m: int| 0 <= m < k ==> (#[trigger] key_chars@[m])@ == keys[m],
        decreases n - k,
    {
        key_chars.push(chars_of(created_at[k].as_str()));
        k = k + 1;
    }
    let mut res: Vec<usize> = Vec::new();
    let mut k: usize = 0;
    while k < n
        invariant
            n == created_at@.len(),
            keys == strings_view(created_at@),
            key_chars@.len() == n,
            forall|m: int| 0 <= m < n ==> (#[trigger] key_chars@[m])@ == keys[m],
            k <= n,
            res@.len() == k,
            forall|i: int| 0 <= i < k ==> (#[trigger] res@[i]) < k,
            newest_first(keys.take(k as int), res@.map_values(|x: usize| x as int)),
        decreases n - k,
    {
        let ghost old_res = res@.map_values(|x: usize| x as int);
        let ghost kk = keys.take(k as int);
        let ghost kk1 = keys.take(k + 1);
        let mut p: usize = 0;
        while p < res.len() && !lex_less(key_chars[res[p]].as_slice(), key_chars[k].as_slice())
            invariant
                key_chars@.len() == n,
                forall|m: int| 0 <= m < n ==> (#[trigger] key_chars@[m])@ == keys[m],
                k < n,
                res@.len() == k,
                forall|i: int| 0 <= i < k ==> (#[trigger] res@[i]) < k,
                p <= res@.len(),
                forall|i: int| 0 <= i < p ==> !lex_lt(keys[#[trigger] res@[i] as int], keys[k as int]),
            decreases res@.len() - p,
        {
            p = p + 1;
        }
        res.insert(p, k);
        proof {
            let o = res@.map_values(|x: usize| x as int);
            assert(o == old_res.insert(p as int, k as int));
            assert forall|m: int| 0 <= m < k implies kk1[m] == kk[m] by {}
            assert(kk1[k as int] == keys[k as int]);
            if p < k {
                assert(lex_lt(keys[old_res[p as int]], keys[k as int]));
            }
            assert forall|i: int, j: int| 0 <= i < j < o.len() implies !lex_lt(
                kk1[#[trigger] o[i]],
                kk1[#[trigger] o[j]],
            ) by {
                if j < p {
                    assert(o[i] == old_res[i] && o[j] == old_res[j]);
                } else if j == p {
                    assert(o[i] == old_res[i]);
                } else if i < p {
                    assert(o[i] == old_res[i] && o[j] == old_res[j - 1]);
                } else if i == p {
                    assert(o[j] == old_res[j - 1]);
                    let a = keys[old_res[p as int]];
                    let b = keys[old_res[j - 1]];
                    let c = keys[k as int];
                    if j - 1 > p {
                        assert(!lex_lt(kk[old_res[p as int]], kk[old_res[j - 1]]));
                    }
                    lemma_lex_total_any(a, b);
                    if lex_lt(b, a) {
                        lemma_lex_trans(b, a, c);
                    }
                    lemma_lex_asym(b, c);
                } else {
                    assert(o[i] == old_res[i - 1] && o[j] == old_res[j - 1]);
                }
            }
            assert forall|i: int, j: int| 0 <= i < j < o.len() && o[i] > o[j] implies lex_lt(
                kk1[#[trigger] o[j]],
                kk1[#[trigger] o[i]],
            ) by {
                if j < p {
                    assert(o[i] == old_res[i] && o[j] == old_res[j]);
                } else if j == p {
                    assert(o[i] == old_res[i]);
                } else if i < p {
                    assert(o[i] == old_res[i] && o[j] == old_res[j - 1]);
                } else if i == p {
                    assert(o[j] == old_res[j - 1]);
                    let a = keys[old_res[p as int]];
                    let b = keys[old_res[j - 1]];
                    let c = keys[k as int];
                    if j - 1 > p {
                        assert(!lex_lt(kk[old_res[p as int]], kk[old_res[j - 1]]));
                    }
                    lemma_lex_total_any(a, b);
                    if lex_lt(b, a) {
                        lemma_lex_trans(b, a, c);
                    }
                } else {
                    assert(o[i] == old_res[i - 1] && o[j] == old_res[j - 1]);
                }
            }
            assert forall|i: int, j: int| 0 <= i < j < o.len() implies #[trigger] o[i]
                != #[trigger] o[j] by {
                if j < p {
                    assert(o[i] == old_res[i] && o[j] == old_res[j]);
                } else if j == p {
                    assert(o[i] == old_res[i]);
                } else if i < p {
                    assert(o[i] == old_res[i] && o[j] == old_res[j - 1]);
                } else if i == p {
                    assert(o[j] == old_res[j - 1]);
                } else {
                    assert(o[i] == old_res[i - 1] && o[j] == old_res[j - 1]);
                }
            }
            assert forall|i: int| 0 <= i < k + 1 implies (#[trigger] res@[i]) < k + 1 by {
                if i < p {
                    assert(res@[i] == old_res[i]);
                } else if i > p {
                    assert(res@[i] == old_res[i - 1]);
                }
            }
            assert(newest_first(kk1, o));
        }
        k = k + 1;
    }
    proof {
        assert(keys.take(n as int) =~= keys);
    }
    let ghost order = res@.map_values(|x: usize| x as int);
    if res.len() > 50 {
        res.truncate(50);
    }
    res
}

} // verus!
