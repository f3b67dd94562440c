use vstd::prelude::*;
use vstd::seq_lib::seq_to_set_is_finite;
use vstd::set_lib::lemma_len_subset;
use crate::store::{AddrMap, assoc_get, has_key, key_index, distinct_keys, lemma_key_index_unique};

verus! {

// ---------------------------------------------------------------------
// The "following" relation: every address has at most one outgoing edge
// to its upline, edges are created once and never removed, and the
// relation stays acyclic.  The relation is kept as an association list
// from follower to target.
// ---------------------------------------------------------------------

/// The upline of `a`: the target of its outgoing edge, if it has one.
pub open spec fn next_of(s: Seq<(String, String)>, a: Seq<char>) -> Option<Seq<char>> {
    match assoc_get(s, a) {
        Some(t) => Some(t@),
        None => None,
    }
}

/// The `n`-th ancestor of `a` along following edges, if the chain is that
/// long.
pub open spec fn ancestor(s: Seq<(String, String)>, a: Seq<char>, n: nat) -> Option<Seq<char>>
    decreases n,
{
    if n == 0 {
        Some(a)
    } else {
        match ancestor(s, a, (n - 1) as nat) {
            Some(b) => next_of(s, b),
            None => None,
        }
    }
}

/// No chain of following edges ever returns to its start.
pub open spec fn acyclic(s: Seq<(String, String)>) -> bool {
    forall|a: Seq<char>, n: nat| 1 <= n ==> ancestor(s, a, n) != Some(a)
}

/// Whether walking up from `a` ever arrives at `b`.
pub open spec fn reaches(s: Seq<(String, String)>, a: Seq<char>, b: Seq<char>) -> bool {
    exists|n: nat| 1 <= n && ancestor(s, a, n) == Some(b)
}

/// A single walk step follows a single edge.
pub proof fn lemma_ancestor_step(s: Seq<(String, String)>, a: Seq<char>)
    ensures
        ancestor(s, a, 1) == next_of(s, a),
        ancestor(s, a, 0) == Some(a),
{
    reveal_with_fuel(ancestor, 2);
}

/// Once a chain has ended it stays ended.
pub proof fn lemma_ancestor_none_propagates(s: Seq<(String, String)>, a: Seq<char>, m: nat, n: nat)
    requires
        m <= n,
        ancestor(s, a, m) is None,
    ensures
        ancestor(s, a, n) is None,
    decreases n,
{
    if n > m {
        lemma_ancestor_none_propagates(s, a, m, (n - 1) as nat);
    }
}

/// Walking `m + n` steps is walking `m` steps and then `n` more.
pub proof fn lemma_ancestor_add(s: Seq<(String, String)>, a: Seq<char>, m: nat, n: nat)
    ensures
        ancestor(s, a, m + n) == match ancestor(s, a, m) {
            Some(b) => ancestor(s, b, n),
            None => None,
        },
    decreases n,
{
    if n == 0 {
    } else {
        lemma_ancestor_add(s, a, m, (n - 1) as nat);
        match ancestor(s, a, m) {
            Some(b) => {
                assert(ancestor(s, a, (m + n - 1) as nat) == ancestor(s, b, (n - 1) as nat));
                assert(ancestor(s, a, m + n) == match ancestor(s, a, (m + n - 1) as nat) {
                    Some(c) => next_of(s, c),
                    None => None,
                });
            },
            None => {
                lemma_ancestor_none_propagates(s, a, m, (m + n) as nat);
            },
        }
    }
}

/// Appending a fresh follower leaves every other binding of the
/// association list unchanged.
pub proof fn lemma_assoc_push(s: Seq<(String, String)>, f: String, t: String)
    requires
        distinct_keys(s),
        !has_key(s, f@),
    ensures
        distinct_keys(s.push((f, t))),
        assoc_get(s.push((f, t)), f@) == Some(t),
        forall|k: Seq<char>| k != f@ ==> assoc_get(s.push((f, t)), k) == assoc_get(s, k),
{
    let news = s.push((f, t));
    assert forall|i: int, j: int| 0 <= i < j < news.len() implies news[i].0@ != news[j].0@ by {
        if j == news.len() - 1 {
            assert(news[i] == s[i]);
        }
    }
    lemma_key_index_unique(news, f@, news.len() - 1);
    assert forall|k: Seq<char>| k != f@ implies assoc_get(news, k) == assoc_get(s, k) by {
        if has_key(s, k) {
            let i = key_index(s, k);
            lemma_key_index_unique(s, k, i);
            lemma_key_index_unique(news, k, i);
        } else {
            if has_key(news, k) {
                let i = key_index(news, k);
                assert(i < s.len() ==> s[i].0@ == k);
            }
        }
    }
}

/// A path in the extended graph that starts anywhere but `f` and ends at
/// `f` yields a path to `f` in the old graph.
proof fn lemma_path_transfer(s: Seq<(String, String)>, f: String, t: String, x: Seq<char>, m: nat)
    requires
        distinct_keys(s),
        !has_key(s, f@),
        x != f@,
        ancestor(s.push((f, t)), x, m) == Some(f@),
    ensures
        exists|k: nat| 1 <= k <= m && ancestor(s, x, k) == Some(f@),
    decreases m,
{
    let news = s.push((f, t));
    lemma_assoc_push(s, f, t);
    lemma_ancestor_step(news, x);
    lemma_ancestor_step(s, x);
    if m == 0 {
        assert(ancestor(news, x, 0) == Some(x));
        assert(false);
    }
    assert(ancestor(news, x, 1) == next_of(news, x));
    assert(next_of(news, x) == next_of(s, x));
    match next_of(s, x) {
        Some(y) => {
            assert(ancestor(news, x, 1) == Some(y));
            lemma_ancestor_add(news, x, 1, (m - 1) as nat);
            assert(ancestor(news, y, (m - 1) as nat) == Some(f@));
            if y == f@ {
                assert(ancestor(s, x, 1) == Some(f@));
                assert(1 <= 1 <= m && ancestor(s, x, 1) == Some(f@));
            } else {
                lemma_path_transfer(s, f, t, y, (m - 1) as nat);
                let k = choose|k: nat| 1 <= k <= m - 1 && ancestor(s, y, k) == Some(f@);
                lemma_ancestor_add(s, x, 1, k);
                assert(ancestor(s, x, 1 + k) == Some(f@));
                assert(1 <= 1 + k <= m);
            }
        },
        None => {
            lemma_ancestor_none_propagates(news, x, 1, m);
        },
    }
}

/// A step-by-step walk in the extended graph either avoids `f` entirely
/// and is a walk of the old graph, or visits `f` on the way.
proof fn lemma_walk_transfer(s: Seq<(String, String)>, f: String, t: String, x: Seq<char>, n: nat)
    requires
        distinct_keys(s),
        !has_key(s, f@),
        ancestor(s.push((f, t)), x, n) is Some,
    ensures
        ancestor(s, x, n) == ancestor(s.push((f, t)), x, n)
            || exists|j: nat| j < n && ancestor(s.push((f, t)), x, j) == Some(f@),
    decreases n,
{
    let news = s.push((f, t));
    lemma_assoc_push(s, f, t);
    if n > 0 {
        let prev = ancestor(news, x, (n - 1) as nat);
        assert(prev is Some);
        lemma_walk_transfer(s, f, t, x, (n - 1) as nat);
        if ancestor(s, x, (n - 1) as nat) == prev {
            let w = prev->Some_0;
            if w == f@ {
                assert(ancestor(news, x, (n - 1) as nat) == Some(f@));
                assert(((n - 1) as nat) < n);
            } else {
                assert(next_of(news, w) == next_of(s, w));
            }
        } else {
            let j = choose|j: nat| j < (n - 1) as nat && ancestor(news, x, j) == Some(f@);
            assert(j < n && ancestor(news, x, j) == Some(f@));
        }
    }
}

/// Adding the edge `f -> t` keeps the graph acyclic, provided `f` has no
/// edge yet, is not `t`, and is not reachable from `t`.
pub proof fn lemma_insert_acyclic(s: Seq<(String, String)>, f: String, t: String)
    requires
        distinct_keys(s),
        acyclic(s),
        !has_key(s, f@),
        f@ != t@,
        !reaches(s, t@, f@),
    ensures
        acyclic(s.push((f, t))),
{
    let news = s.push((f, t));
    lemma_assoc_push(s, f, t);
    assert forall|a: Seq<char>, n: nat| 1 <= n implies ancestor(news, a, n) != Some(a) by {
        if ancestor(news, a, n) == Some(a) {
            lemma_walk_transfer(s, f, t, a, n);
            if ancestor(s, a, n) == ancestor(news, a, n) {
                assert(ancestor(s, a, n) == Some(a));
            } else {
                let j = choose|j: nat| j < n && ancestor(news, a, j) == Some(f@);
                // rotate the cycle so that it starts at f
                lemma_ancestor_add(news, a, n, j);
                assert(ancestor(news, a, n + j) == ancestor(news, a, j));
                lemma_ancestor_add(news, a, j, n);
                assert(ancestor(news, f@, n) == Some(f@));
                // the first step from f goes to t
                lemma_ancestor_step(news, f@);
                assert(ancestor(news, f@, 1) == Some(t@));
                lemma_ancestor_add(news, f@, 1, (n - 1) as nat);
                assert(ancestor(news, t@, (n - 1) as nat) == Some(f@));
                if n == 1 {
                    assert(t@ == f@);
                } else {
                    lemma_path_transfer(s, f, t, t@, (n - 1) as nat);
                    let k = choose|k: nat| 1 <= k <= n - 1 && ancestor(s, t@, k) == Some(f@);
                    assert(reaches(s, t@, f@));
                }
            }
        }
    }
}

/// Whether the upline chain starting at `start` passes through `needle`.
/// This is the cycle check run before a new following edge is created;
/// the walk costs one step per existing chain link.
pub fn walk_reaches(following: &AddrMap<String>, start: &String, needle: &String) -> (r: bool)
    requires
        following.wf(),
        acyclic(following.entries@),
    ensures
        r == reaches(following.entries@, start@, needle@),
{
    let ghost s = following.entries@;
    let mut cur: String = start.clone();
    let ghost mut steps: nat = 0nat;
    let ghost mut visited: Seq<Seq<char>> = seq![start@];
    loop
        invariant
            following.wf(),
            acyclic(s),
            s == following.entries@,
            ancestor(s, start@, steps) == Some(cur@),
            forall|j: nat| 1 <= j <= steps ==> ancestor(s, start@, j) != Some(needle@),
            visited.len() == steps + 1,
            forall|j: int| 0 <= j <= steps ==> Some(visited[j]) == ancestor(s, start@, j as nat),
            visited.no_duplicates(),
            forall|j: int| 0 <= j < steps ==> has_key(s, visited[j]),
            steps <= s.len(),
        decreases s.len() - steps,
    {
        match following.get(&cur) {
            None => {
                proof {
                    assert(ancestor(s, start@, (steps + 1) as nat) is None);
                    assert forall|n: nat| 1 <= n implies ancestor(s, start@, n) != Some(needle@) by {
                        if n > steps {
                            lemma_ancestor_none_propagates(s, start@, (steps + 1) as nat, n);
                        }
                    }
                }
                return false;
            },
            Some(next) => {
                let nxt = next.clone();
                proof {
                    assert(ancestor(s, start@, (steps + 1) as nat) == Some(nxt@));
                }
                if nxt == *needle {
                    proof {
                        assert(ancestor(s, start@, (steps + 1) as nat) == Some(needle@));
                    }
                    return true;
                }
                proof {
                    // the new node was never visited before, else the
                    // chain would contain a cycle
                    assert forall|j: int| 0 <= j <= steps implies visited[j] != nxt@ by {
                        if visited[j] == nxt@ {
                            lemma_ancestor_add(s, start@, j as nat, (steps + 1 - j) as nat);
                            assert(ancestor(s, nxt@, (steps + 1 - j) as nat) == Some(nxt@));
                        }
                    }
                    // the current node has an outgoing edge, so every
                    // visited node is a distinct key of the edge list:
                    // the walk cannot be longer than the list
                    assert(has_key(s, cur@));
                    visited = visited.push(nxt@);
                    steps = steps + 1;
                    broadcast use vstd::set::group_set_axioms;
                    broadcast use seq_to_set_is_finite;
                    // all visited nodes but the newest are distinct keys
                    // of the edge list, so the walk cannot be longer
                    // than the list
                    let sub = visited.take(steps as int);
                    assert(forall|j: int| 0 <= j < sub.len() ==> sub[j] == visited[j]);
                    assert(sub.no_duplicates());
                    sub.unique_seq_to_set();
                    let keys = Seq::new(s.len(), |i: int| s[i].0@);
                    assert forall|v: Seq<char>| sub.to_set().contains(v) implies keys.to_set().contains(v) by {
                        assert(sub.contains(v));
                        let j = choose|j: int| 0 <= j < sub.len() && sub[j] == v;
                        assert(has_key(s, visited[j]));
                        let i = choose|i: int| 0 <= i < s.len() && s[i].0@ == v;
                        assert(keys[i] == v);
                        assert(keys.contains(v));
                    }
                    lemma_len_subset(sub.to_set(), keys.to_set());
                    keys.lemma_cardinality_of_set();
                }
                cur = nxt;
            },
        }
    }
}

} // verus!
