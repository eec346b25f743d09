//! Choosing the RPC node: the built-in node list, the extra nodes read from
//! a node file, the list offered for a manual choice and the fastest node
//! among measured ones.

use vstd::prelude::*;
use crate::text::{seq_starts_with, starts_with_text, str_chars, string_from_chars};

verus! {

/// Whether `c` has the Unicode `White_Space` property (`char::is_whitespace`).
pub uninterp spec fn unicode_white_space(c: char) -> bool;

/// `char::is_whitespace`: whether `c` has the Unicode `White_Space`
/// property; the result is named, not spelled out.
#[verifier::external_body]
fn is_white_space(c: char) -> (ws: bool)
    ensures
        ws == unicode_white_space(c),
{
    c.is_whitespace()
}

/// `s` without its leading whitespace.
pub open spec fn trim_front(s: Seq<char>) -> Seq<char>
    decreases s.len(),
{
    if s.len() > 0 && unicode_white_space(s[0]) {
        trim_front(s.drop_first())
    } else {
        s
    }
}

/// `s` without its trailing whitespace.
pub open spec fn trim_back(s: Seq<char>) -> Seq<char>
    decreases s.len(),
{
    if s.len() > 0 && unicode_white_space(s.last()) {
        trim_back(s.drop_last())
    } else {
        s
    }
}

/// `s` without leading and trailing whitespace (`str::trim`).
pub open spec fn trimmed(s: Seq<char>) -> Seq<char> {
    trim_back(trim_front(s))
}

/// Whether a trimmed line of the node file names a node: it is not empty
/// and starts with `http`.
pub open spec fn is_node_line(t: Seq<char>) -> bool {
    t.len() > 0 && seq_starts_with(t, "http"@)
}

/// The nodes named by the lines of a node file, trimmed, in order.
pub open spec fn node_lines(lines: Seq<Seq<char>>) -> Seq<Seq<char>>
    decreases lines.len(),
{
    if lines.len() == 0 {
        Seq::empty()
    } else {
        let earlier = node_lines(lines.drop_last());
        let t = trimmed(lines.last());
        if is_node_line(t) {
            earlier.push(t)
        } else {
            earlier
        }
    }
}

/// The texts of a list of strings.
pub open spec fn texts(v: Seq<String>) -> Seq<Seq<char>> {
    v.map_values(|s: String| s@)
}

/// `trim_front(s.subrange(i, len))` is `s.subrange(j, len)` for the first
/// position `j >= i` that holds no whitespace.
proof fn lemma_trim_front_from(s: Seq<char>, i: int, j: int)
    requires
        0 <= i <= j <= s.len(),
        forall|k: int| i <= k < j ==> unicode_white_space(#[trigger] s[k]),
        j == s.len() || !unicode_white_space(s[j]),
    ensures
        trim_front(s.subrange(i, s.len() as int)) == s.subrange(j, s.len() as int),
    decreases j - i,
{
    if i < j {
        assert(s.subrange(i, s.len() as int).drop_first() =~= s.subrange(i + 1, s.len() as int));
        lemma_trim_front_from(s, i + 1, j);
    } else {
        if j < s.len() {
            assert(s.subrange(i, s.len() as int)[0] == s[j]);
        }
    }
}

/// `trim_back(s.subrange(a, e))` is `s.subrange(a, f)` for the last
/// position `f <= e` after which only whitespace follows.
proof fn lemma_trim_back_to(s: Seq<char>, a: int, e: int, f: int)
    requires
        0 <= a <= f <= e <= s.len(),
        forall|k: int| f <= k < e ==> unicode_white_space(#[trigger] s[k]),
        f == a || !unicode_white_space(s[f - 1]),
    ensures
        trim_back(s.subrange(a, e)) == s.subrange(a, f),
    decreases e - f,
{
    if f < e {
        assert(s.subrange(a, e).drop_last() =~= s.subrange(a, e - 1));
        lemma_trim_back_to(s, a, e - 1, f);
    } else {
        if f > a {
            assert(s.subrange(a, e).last() == s[f - 1]);
        }
    }
}

/// The text of `s` without leading and trailing whitespace.
pub fn trim_text(s: &str) -> (t: String)
    ensures
        t@ == trimmed(s@),
{
    let chars = str_chars(s);
    let n = chars.len();
    let mut start: usize = 0;
    while start < n && is_white_space(chars[start])
        invariant
            n == chars@.len(),
            start <= n,
            forall|k: int| 0 <= k < start ==> unicode_white_space(#[trigger] chars@[k]),
        decreases n - start,
    {
        start += 1;
    }
    let mut end: usize = n;
    while end > start && is_white_space(chars[end - 1])
        invariant
            n == chars@.len(),
            start <= end <= n,
            forall|k: int| end <= k < n ==> unicode_white_space(#[trigger] chars@[k]),
        decreases end - start,
    {
        end -= 1;
    }
    proof {
        lemma_trim_front_from(chars@, 0, start as int);
        assert(chars@.subrange(0, n as int) =~= chars@);
        lemma_trim_back_to(chars@, start as int, n as int, end as int);
    }
    let mut kept: Vec<char> = Vec::new();
    for k in start..end
        invariant
            n == chars@.len(),
            start <= end <= n,
            kept@ == chars@.subrange(start as int, k as int),
    {
        kept.push(chars[k]);
        assert(chars@.subrange(start as int, k + 1) =~= chars@.subrange(start as int, k as int).push(chars@[k as int]));
    }
    string_from_chars(kept.as_slice())
}

/// The nodes named by the lines of a node file: each line trimmed, kept
/// when it is not empty and starts with `http`.
pub fn node_urls_from_lines(lines: &Vec<String>) -> (nodes: Vec<String>)
    ensures
        texts(nodes@) == node_lines(texts(lines@)),
{
    let mut nodes: Vec<String> = Vec::new();
    let n = lines.len();
    for k in 0..n
        invariant
            n == lines@.len(),
            texts(nodes@) == node_lines(texts(lines@.take(k as int))),
    {
        let t = trim_text(lines[k].as_str());
        let keep = !t.as_str().is_empty() && starts_with_text(t.as_str(), "http");
        proof {
            assert(texts(lines@.take(k + 1)).drop_last() =~= texts(lines@.take(k as int)));
            assert(texts(lines@.take(k + 1)).last() == lines@[k as int]@);
        }
        let ghost before = nodes@;
        if keep {
            nodes.push(t);
            assert(texts(nodes@) =~= texts(before).push(nodes@.last()@));
        }
    }
    assert(lines@.take(n as int) =~= lines@);
    nodes
}

/// The built-in RPC nodes, in order.
pub open spec fn builtin_nodes() -> Seq<Seq<char>> {
    seq![
        "https://node1.magnetchain.xyz"@,
        "https://node2.magnetchain.xyz"@,
        "https://node3.magnetchain.xyz"@,
        "https://node4.magnetchain.xyz"@,
    ]
}

/// The built-in RPC nodes.
pub fn default_rpc_nodes() -> (nodes: Vec<String>)
    ensures
        texts(nodes@) == builtin_nodes(),
{
    let mut nodes: Vec<String> = Vec::new();
    nodes.push(String::from_str("https://node1.magnetchain.xyz"));
    nodes.push(String::from_str("https://node2.magnetchain.xyz"));
    nodes.push(String::from_str("https://node3.magnetchain.xyz"));
    nodes.push(String::from_str("https://node4.magnetchain.xyz"));
    assert(texts(nodes@) =~= builtin_nodes());
    nodes
}

/// The nodes offered for a choice: the built-in ones, then the extra ones,
/// and in front of all a custom node that is not among them.
pub open spec fn candidate_list(defaults: Seq<Seq<char>>, extra: Seq<Seq<char>>, custom: Option<Seq<char>>) -> Seq<Seq<char>> {
    let all = defaults + extra;
    match custom {
        Some(c) => if all.contains(c) { all } else { seq![c] + all },
        None => all,
    }
}

/// Whether the text `u` is among `v`.
fn contains_text_of(v: &Vec<String>, u: &str) -> (found: bool)
    ensures
        found == texts(v@).contains(u@),
{
    let n = v.len();
    for i in 0..n
        invariant
            n == v@.len(),
            forall|j: int| 0 <= j < i ==> v@[j]@ != u@,
    {
        if crate::text::text_eq(v[i].as_str(), u) {
            assert(texts(v@)[i as int] == u@);
            return true;
        }
    }
    proof {
        if texts(v@).contains(u@) {
            let j = choose|j: int| 0 <= j < texts(v@).len() && texts(v@)[j] == u@;
            assert(v@[j]@ == u@);
        }
    }
    false
}

/// The nodes offered for a choice (see `candidate_list`).
pub fn candidate_nodes(defaults: Vec<String>, extra: Vec<String>, custom: Option<String>) -> (nodes: Vec<String>)
    ensures
        texts(nodes@) == candidate_list(
            texts(defaults@),
            texts(extra@),
            match custom { Some(c) => Some(c@), None => None },
        ),
{
    let mut all = defaults;
    let mut rest = extra;
    let ghost d = all@;
    let ghost e = rest@;
    all.append(&mut rest);
    assert(texts(all@) =~= texts(d) + texts(e));
    match custom {
        Some(c) => {
            if !contains_text_of(&all, c.as_str()) {
                let ghost before = all@;
                all.insert(0, c);
                assert(texts(all@) =~= seq![all@[0]@] + texts(before));
            }
            all
        },
        None => all,
    }
}

/// Whether measurement `i` is the fastest of `times`, and faster than every
/// one before it.
pub open spec fn is_fastest_measurement(times: Seq<(String, u64)>, i: int) -> bool {
    &&& 0 <= i < times.len()
    &&& forall|j: int| 0 <= j < times.len() ==> times[i].1 <= #[trigger] times[j].1
    &&& forall|j: int| 0 <= j < i ==> times[i].1 < #[trigger] times[j].1
}

/// The position of the fastest measured node, the first such; `None` when
/// nothing was measured.
pub fn fastest_measured(times: &Vec<(String, u64)>) -> (fastest: Option<usize>)
    ensures
        match fastest {
            Some(i) => is_fastest_measurement(times@, i as int),
            None => times@.len() == 0,
        },
{
    let n = times.len();
    if n == 0 {
        return None;
    }
    let mut best: usize = 0;
    for i in 1..n
        invariant
            n == times@.len(),
            best < i <= n,
            forall|j: int| 0 <= j < i ==> times@[best as int].1 <= #[trigger] times@[j].1,
            forall|j: int| 0 <= j < best ==> times@[best as int].1 < #[trigger] times@[j].1,
    {
        if times[i].1 < times[best].1 {
            best = i;
        }
    }
    Some(best)
}

/// A trimmed text that is not empty starts with a character that is no
/// whitespace.
proof fn lemma_trim_front_first(s: Seq<char>)
    ensures
        trim_front(s).len() > 0 ==> !unicode_white_space(trim_front(s)[0]),
    decreases s.len(),
{
    if s.len() > 0 && unicode_white_space(s[0]) {
        lemma_trim_front_first(s.drop_first());
    }
}

/// Trimming the end of `s` keeps a prefix of it, which ends in a character
/// that is no whitespace unless it is empty.
proof fn lemma_trim_back_prefix(s: Seq<char>) -> (k: int)
    ensures
        0 <= k <= s.len(),
        trim_back(s) == s.subrange(0, k),
        k > 0 ==> !unicode_white_space(s[k - 1]),
    decreases s.len(),
{
    if s.len() > 0 && unicode_white_space(s.last()) {
        let k = lemma_trim_back_prefix(s.drop_last());
        assert(s.drop_last().subrange(0, k) =~= s.subrange(0, k));
        k
    } else {
        assert(s.subrange(0, s.len() as int) =~= s);
        s.len() as int
    }
}

/// Trimming twice is trimming once.
pub proof fn law_trim_idempotent(s: Seq<char>)
    ensures
        trimmed(trimmed(s)) == trimmed(s),
{
    let u = trim_front(s);
    lemma_trim_front_first(s);
    let k = lemma_trim_back_prefix(u);
    let t = trim_back(u);
    if t.len() > 0 {
        assert(t[0] == u[0]);
        assert(trim_front(t) == t);
        assert(t.last() == u[k - 1]);
    } else {
        assert(trim_front(t) == t);
    }
}

/// Every node read from a node file is a trimmed line that is not empty and
/// starts with `http`.
pub proof fn law_node_lines_are_urls(lines: Seq<Seq<char>>)
    ensures
        forall|k: int| 0 <= k < node_lines(lines).len() ==> {
            &&& is_node_line(#[trigger] node_lines(lines)[k])
            &&& trimmed(node_lines(lines)[k]) == node_lines(lines)[k]
        },
    decreases lines.len(),
{
    if lines.len() > 0 {
        let earlier = node_lines(lines.drop_last());
        law_node_lines_are_urls(lines.drop_last());
        law_trim_idempotent(lines.last());
        let t = trimmed(lines.last());
        if is_node_line(t) {
            assert forall|k: int| 0 <= k < earlier.push(t).len() implies {
                &&& is_node_line(#[trigger] earlier.push(t)[k])
                &&& trimmed(earlier.push(t)[k]) == earlier.push(t)[k]
            } by {
                if k < earlier.len() {
                    assert(earlier.push(t)[k] == earlier[k]);
                }
            }
        }
    }
}

/// The list offered for a choice holds the custom node, first when it was
/// not already listed, and every built-in and extra node.
pub proof fn law_candidates_hold_custom(defaults: Seq<Seq<char>>, extra: Seq<Seq<char>>, custom: Seq<char>)
    ensures
        candidate_list(defaults, extra, Some(custom)).contains(custom),
        !(defaults + extra).contains(custom) ==> candidate_list(defaults, extra, Some(custom))[0] == custom,
        forall|u: Seq<char>| (defaults + extra).contains(u) ==> candidate_list(defaults, extra, Some(custom)).contains(u),
{
    let all = defaults + extra;
    let c = candidate_list(defaults, extra, Some(custom));
    if !all.contains(custom) {
        assert(c[0] == custom);
        assert forall|u: Seq<char>| all.contains(u) implies c.contains(u) by {
            let i = choose|i: int| 0 <= i < all.len() && all[i] == u;
            assert(c[i + 1] == u);
        }
    }
}

/// The node file keeps exactly its lines that start with `http` once
/// trimmed: appending a line appends its trimmed text when that starts
/// with `http`, and otherwise changes nothing; every kept node starts with
/// `http`.
pub proof fn law_node_lines_keep_http_lines(lines: Seq<Seq<char>>, line: Seq<char>)
    ensures
        seq_starts_with(trimmed(line), "http"@)
            ==> node_lines(lines.push(line)) == node_lines(lines).push(trimmed(line)),
        !seq_starts_with(trimmed(line), "http"@) ==> node_lines(lines.push(line)) == node_lines(lines),
        forall|k: int| 0 <= k < node_lines(lines).len() ==> seq_starts_with(#[trigger] node_lines(lines)[k], "http"@),
{
    reveal_strlit("http");
    assert(lines.push(line).drop_last() =~= lines);
    law_node_lines_are_urls(lines);
}

} // verus!
