//! The process-tree termination model: a snapshot of the process table
//! as pid/parent rows, the descendant-closure computation that decides
//! which processes a tree kill signals, and the parser for the parent
//! field of a process status record.
use vstd::prelude::*;
use crate::text::spec_parse_i32;
use crate::text::tokens_of;
use crate::text::split_tokens;
use crate::text::parse_i32;

verus! {

/// One row of a process-table snapshot: a process and its parent.
#[derive(Clone, Copy, Debug, PartialEq, Eq, Structural)]
pub struct ProcEntry {
    pub pid: i32,
    pub ppid: i32,
}

/// `child` is recorded with parent `parent` somewhere in the snapshot.
pub open spec fn has_link(table: Seq<ProcEntry>, child: i32, parent: i32) -> bool {
    exists|k: int| 0 <= k < table.len() && table[k].pid == child && table[k].ppid == parent
}

/// Every adjacent pair of `c` is a child-parent link of the snapshot.
pub open spec fn is_chain(table: Seq<ProcEntry>, c: Seq<i32>) -> bool {
    forall|i: int| 0 <= i < c.len() - 1 ==> has_link(table, #[trigger] c[i], c[i + 1])
}

/// `p` belongs to the tree rooted at `root`: some parent chain of the
/// snapshot leads from `p` to `root`. The root itself always belongs.
pub open spec fn in_tree(table: Seq<ProcEntry>, root: i32, p: i32) -> bool {
    exists|c: Seq<i32>|
        c.len() >= 1 && c[0] == p && c[c.len() - 1] == root && is_chain(table, c)
}

proof fn lemma_in_tree_root(table: Seq<ProcEntry>, root: i32)
    ensures
        in_tree(table, root, root),
{
    let c = seq![root];
    assert(c.len() >= 1 && c[0] == root && c[c.len() - 1] == root && is_chain(table, c));
}

proof fn lemma_in_tree_step(table: Seq<ProcEntry>, root: i32, parent: i32, child: i32)
    requires
        in_tree(table, root, parent),
        has_link(table, child, parent),
    ensures
        in_tree(table, root, child),
{
    let c = choose|c: Seq<i32>|
        c.len() >= 1 && c[0] == parent && c[c.len() - 1] == root && is_chain(table, c);
    let c2 = seq![child] + c;
    assert(c2[0] == child);
    assert(c2[c2.len() - 1] == root);
    assert forall|i: int| 0 <= i < c2.len() - 1 implies has_link(table, #[trigger] c2[i], c2[i + 1]) by {
        if i == 0 {
            assert(c2[0] == child && c2[1] == parent);
        } else {
            assert(c2[i] == c[i - 1] && c2[i + 1] == c[i]);
            assert(has_link(table, c[i - 1], c[i]));
        }
    }
    assert(c2.len() >= 1 && c2[0] == child && c2[c2.len() - 1] == root && is_chain(table, c2));
}

proof fn lemma_chain_closed(table: Seq<ProcEntry>, root: i32, kills: Seq<i32>, c: Seq<i32>)
    requires
        kills.contains(root),
        forall|k: int|
            0 <= k < table.len() && kills.contains(#[trigger] table[k].ppid) ==> kills.contains(
                table[k].pid,
            ),
        is_chain(table, c),
        c.len() >= 1,
        c[c.len() - 1] == root,
    ensures
        kills.contains(c[0]),
    decreases c.len(),
{
    if c.len() == 1 {
    } else {
        let c2 = c.drop_first();
        assert forall|i: int| 0 <= i < c2.len() - 1 implies has_link(table, #[trigger] c2[i], c2[i + 1]) by {
            assert(c2[i] == c[i + 1] && c2[i + 1] == c[i + 2]);
            assert(has_link(table, c[i + 1], c[i + 2]));
        }
        assert(c2[c2.len() - 1] == root);
        lemma_chain_closed(table, root, kills, c2);
        assert(kills.contains(c[1]));
        assert(has_link(table, c[0], c[1]));
        let k = choose|k: int|
            0 <= k < table.len() && table[k].pid == c[0] && table[k].ppid == c[1];
        assert(kills.contains(table[k].ppid));
        assert(kills.contains(c[0]));
    }
}

/// How many rows are not yet marked.
spec fn count_unseen(s: Seq<bool>) -> int
    decreases s.len(),
{
    if s.len() == 0 {
        0
    } else {
        count_unseen(s.drop_last()) + if s.last() {
            0int
        } else {
            1int
        }
    }
}

proof fn lemma_count_unseen_nonneg(s: Seq<bool>)
    ensures
        count_unseen(s) >= 0,
    decreases s.len(),
{
    if s.len() > 0 {
        lemma_count_unseen_nonneg(s.drop_last());
    }
}

proof fn lemma_count_unseen_update(s: Seq<bool>, k: int)
    requires
        0 <= k < s.len(),
        !s[k],
    ensures
        count_unseen(s.update(k, true)) == count_unseen(s) - 1,
    decreases s.len(),
{
    let s2 = s.update(k, true);
    if k == s.len() - 1 {
        assert(s2.drop_last() =~= s.drop_last());
        assert(s2.last() && !s.last());
    } else {
        assert(s2.drop_last() =~= s.drop_last().update(k, true));
        lemma_count_unseen_update(s.drop_last(), k);
        assert(s2.last() == s.last());
    }
}


broadcast proof fn lemma_at_contains(s: Seq<i32>, i: int)
    ensures
        0 <= i < s.len() ==> s.contains(#[trigger] s[i]),
{
}

broadcast proof fn lemma_push_contains(s: Seq<i32>, x: i32, y: i32)
    ensures
        #[trigger] s.push(x).contains(y) <==> (s.contains(y) || y == x),
{
    if s.contains(y) {
        let i = choose|i: int| 0 <= i < s.len() && s[i] == y;
        assert(s.push(x)[i] == y);
    }
    assert(s.push(x)[s.len() as int] == x);
    if s.push(x).contains(y) && y != x {
        let i = choose|i: int| 0 <= i < s.push(x).len() && s.push(x)[i] == y;
        assert(s[i] == y);
    }
}

broadcast proof fn lemma_drop_last_contains(s: Seq<i32>, y: i32)
    ensures
        s.len() > 0 ==> ((#[trigger] s.subrange(0, s.len() - 1).contains(y)) || s[s.len() - 1]
            == y <==> s.contains(y)),
{
    if s.len() > 0 {
        let d = s.subrange(0, s.len() - 1);
        if d.contains(y) {
            let i = choose|i: int| 0 <= i < d.len() && d[i] == y;
            assert(s[i] == y);
        }
        if s.contains(y) && s[s.len() - 1] != y {
            let i = choose|i: int| 0 <= i < s.len() && s[i] == y;
            assert(d[i] == y);
        }
    }
}

/// Computes the kill list for `root` over a process-table snapshot:
/// exactly the processes whose parent chain within the snapshot reaches
/// `root`, together with the root itself, and no process outside that
/// closure.
#[verifier::loop_isolation(false)]
pub fn kill_list(table: &Vec<ProcEntry>, root: i32) -> (r: Vec<i32>)
    ensures
        forall|p: i32| r@.contains(p) <==> in_tree(table@, root, p),
{
    broadcast use lemma_at_contains;
    broadcast use lemma_push_contains;
    broadcast use lemma_drop_last_contains;

    let mut kill: Vec<i32> = Vec::new();
    let mut frontier: Vec<i32> = Vec::new();
    let mut seen: Vec<bool> = vec![false; table.len()];
    frontier.push(root);
    proof {
        lemma_in_tree_root(table@, root);
        lemma_count_unseen_nonneg(seen@);
    }
    while frontier.len() > 0
        invariant
            seen@.len() == table@.len(),
            forall|q: i32| kill@.contains(q) ==> in_tree(table@, root, q),
            forall|q: i32| frontier@.contains(q) ==> in_tree(table@, root, q),
            forall|k: int|
                0 <= k < table@.len() && seen@[k] ==> kill@.contains(table@[k].pid)
                    || frontier@.contains(table@[k].pid),
            forall|k: int|
                0 <= k < table@.len() && kill@.contains(#[trigger] table@[k].ppid) ==> seen@[k],
            kill@.contains(root) || frontier@.contains(root),
        decreases frontier@.len() + count_unseen(seen@),
    {
        let ghost measure0 = frontier@.len() + count_unseen(seen@);
        let ghost fr0 = frontier@;
        let c = frontier.pop().unwrap();
        proof {
            assert(fr0[fr0.len() - 1] == c);
            assert(in_tree(table@, root, c));
        }
        kill.push(c);
        proof {
            lemma_count_unseen_nonneg(seen@);
        }
        let mut k: usize = 0;
        while k < table.len()
            invariant
                0 <= k <= table@.len(),
                seen@.len() == table@.len(),
                kill@.contains(c),
                in_tree(table@, root, c),
                forall|q: i32| kill@.contains(q) ==> in_tree(table@, root, q),
                forall|q: i32| frontier@.contains(q) ==> in_tree(table@, root, q),
                forall|j: int|
                    0 <= j < table@.len() && seen@[j] ==> kill@.contains(table@[j].pid)
                        || frontier@.contains(table@[j].pid),
                forall|j: int|
                    0 <= j < table@.len() && kill@.contains(#[trigger] table@[j].ppid) ==> seen@[j]
                        || (j >= k && table@[j].ppid == c),
                kill@.contains(root) || frontier@.contains(root),
                frontier@.len() + count_unseen(seen@) == measure0 - 1,
                count_unseen(seen@) >= 0,
            decreases table@.len() - k,
        {
            if table[k].ppid == c && !seen[k] {
                proof {
                    lemma_count_unseen_update(seen@, k as int);
                    assert(has_link(table@, table@[k as int].pid, c));
                    lemma_in_tree_step(table@, root, c, table@[k as int].pid);
                }
                seen[k] = true;
                frontier.push(table[k].pid);
                proof {
                    lemma_count_unseen_nonneg(seen@);
                    assert(frontier@.last() == table@[k as int].pid);
                }
            }
            k = k + 1;
        }
        proof {
            lemma_count_unseen_nonneg(seen@);
        }
    }
    proof {
        assert(kill@.contains(root));
        assert forall|p: i32| in_tree(table@, root, p) implies kill@.contains(p) by {
            let c = choose|c: Seq<i32>|
                c.len() >= 1 && c[0] == p && c[c.len() - 1] == root && is_chain(table@, c);
            lemma_chain_closed(table@, root, kill@, c);
        }
    }
    kill
}

/// The index of the last closing parenthesis of `s`, or -1 if none.
pub open spec fn last_rparen(s: Seq<char>) -> int
    decreases s.len(),
{
    if s.len() == 0 {
        -1
    } else if s.last() == ')' {
        s.len() - 1
    } else {
        last_rparen(s.drop_last())
    }
}

proof fn lemma_last_rparen_none(s: Seq<char>)
    requires
        forall|k: int| 0 <= k < s.len() ==> s[k] != ')',
    ensures
        last_rparen(s) == -1,
    decreases s.len(),
{
    if s.len() > 0 {
        assert(s.last() != ')');
        lemma_last_rparen_none(s.drop_last());
    }
}

proof fn lemma_last_rparen_at(s: Seq<char>, j: int)
    requires
        0 <= j < s.len(),
        s[j] == ')',
        forall|k: int| j < k < s.len() ==> s[k] != ')',
    ensures
        last_rparen(s) == j,
    decreases s.len(),
{
    if j < s.len() - 1 {
        assert(s.last() != ')');
        lemma_last_rparen_at(s.drop_last(), j);
    }
}

/// The parent pid read from a process status record. A record shows
/// `pid (comm) state ppid ...`, and the command field is parenthesized
/// text that may itself hold spaces and parentheses, so the fields
/// after it start at the record's last `)`: the parent pid is the
/// second whitespace-separated field after that. The record is
/// malformed when its first field is no decimal pid, it has no `)`, or
/// fewer than two fields follow it; a parent of zero means no parent.
pub open spec fn spec_stat_ppid(s: Seq<char>) -> Option<i32> {
    let toks = tokens_of(s);
    if toks.len() == 0 || spec_parse_i32(toks[0]) is None {
        None
    } else if last_rparen(s) < 0 {
        None
    } else {
        let rtoks = tokens_of(s.skip(last_rparen(s) + 1));
        if rtoks.len() < 2 {
            None
        } else {
            match spec_parse_i32(rtoks[1]) {
                None => None,
                Some(p) => if p == 0 {
                    None
                } else {
                    Some(p)
                },
            }
        }
    }
}

/// Reads the parent pid out of a process status record: the first
/// field must be a decimal pid, the command field ends at the last
/// `)` of the record (command names may hold spaces), and the parent
/// pid is the second field after it; a parent of zero means no parent.
pub fn parse_stat_ppid(contents: &str) -> (r: Option<i32>)
    ensures
        r == spec_stat_ppid(contents@),
{
    let toks = split_tokens(contents);
    if toks.len() == 0 {
        return None;
    }
    proof {
        assert(toks.deep_view()[0] == toks@[0]@);
    }
    if parse_i32(toks[0].as_str()).is_none() {
        return None;
    }
    let n = contents.unicode_len();
    let mut j: usize = 0;
    let mut found = false;
    let mut i: usize = 0;
    while i < n
        invariant
            n == contents@.len(),
            0 <= i <= n,
            found ==> j < i && contents@[j as int] == ')' && (forall|k: int|
                j < k < i ==> contents@[k] != ')'),
            !found ==> forall|k: int| 0 <= k < i ==> contents@[k] != ')',
        decreases n - i,
    {
        if contents.get_char(i) == ')' {
            found = true;
            j = i;
        }
        i = i + 1;
    }
    if !found {
        proof {
            lemma_last_rparen_none(contents@);
        }
        return None;
    }
    proof {
        lemma_last_rparen_at(contents@, j as int);
    }
    let rest = contents.substring_char(j + 1, n);
    proof {
        assert(rest@ =~= contents@.skip(j + 1));
    }
    let rtoks = split_tokens(rest);
    if rtoks.len() < 2 {
        return None;
    }
    proof {
        assert(rtoks.deep_view()[1] == rtoks@[1]@);
    }
    match parse_i32(rtoks[1].as_str()) {
        None => None,
        Some(p) => {
            if p == 0 {
                None
            } else {
                Some(p)
            }
        },
    }
}

} // verus!
