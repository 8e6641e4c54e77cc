//! Which processes belong to the measured application: the descendants of its
//! main process and every process whose lower-cased name contains one of the
//! configured patterns. The same selection decides what is counted during a
//! measurement and what is terminated after it.

use vstd::prelude::*;
use crate::text::{
    ascii_lower, chars_of, contains_chars, contains_seq, is_ascii_text, lemma_contains_empty,
    lowercase_of, same_text, texts, to_lowercase,
};

verus! {

// ───────────── name patterns ─────────────

/// The name contains at least one of the patterns. Matching is by substring
/// and case-sensitive: callers lower-case both sides.
pub open spec fn matches_any(name: Seq<char>, patterns: Seq<Seq<char>>) -> bool {
    exists|k: int| 0 <= k < patterns.len() && contains_seq(name, #[trigger] patterns[k])
}

/// A name matches exactly when one of the patterns occurs in it at some
/// position, anywhere in the name: not only at its start.
pub proof fn lemma_match_is_an_occurrence_anywhere(name: Seq<char>, patterns: Seq<Seq<char>>)
    ensures
        matches_any(name, patterns) <==> exists|k: int, i: int|
            #![trigger patterns[k], name.subrange(i, i + patterns[k].len())]
            0 <= k < patterns.len() && 0 <= i && i + patterns[k].len() <= name.len()
                && name.subrange(i, i + patterns[k].len()) == patterns[k],
{
    if matches_any(name, patterns) {
        let k = choose|k: int| 0 <= k < patterns.len() && contains_seq(name, #[trigger] patterns[k]);
        let i = choose|i: int| crate::text::occurs_at(name, patterns[k], i);
        assert(name.subrange(i, i + patterns[k].len()) == patterns[k]);
    }
    if exists|k: int, i: int|
        #![trigger patterns[k], name.subrange(i, i + patterns[k].len())]
        0 <= k < patterns.len() && 0 <= i && i + patterns[k].len() <= name.len()
            && name.subrange(i, i + patterns[k].len()) == patterns[k] {
        let (k, i) = choose|k: int, i: int|
            #![trigger patterns[k], name.subrange(i, i + patterns[k].len())]
            0 <= k < patterns.len() && 0 <= i && i + patterns[k].len() <= name.len()
                && name.subrange(i, i + patterns[k].len()) == patterns[k];
        assert(crate::text::occurs_at(name, patterns[k], i));
        assert(contains_seq(name, patterns[k]));
    }
}

/// Whether a (lower-cased) process name contains any of the patterns.
pub fn name_matches(name_lc: &str, patterns: &[String]) -> (r: bool)
    ensures
        r == matches_any(name_lc@, texts(patterns@)),
        r <==> exists|k: int, i: int|
            #![trigger texts(patterns@)[k], name_lc@.subrange(i, i + texts(patterns@)[k].len())]
            0 <= k < patterns@.len() && 0 <= i && i + texts(patterns@)[k].len() <= name_lc@.len()
                && name_lc@.subrange(i, i + texts(patterns@)[k].len()) == texts(patterns@)[k],
{
    proof {
        lemma_match_is_an_occurrence_anywhere(name_lc@, texts(patterns@));
    }
    let name = chars_of(name_lc);
    let mut k: usize = 0;
    while k < patterns.len()
        invariant
            k <= patterns@.len(),
            name@ == name_lc@,
            forall|j: int| 0 <= j < k ==> !contains_seq(name_lc@, #[trigger] texts(patterns@)[j]),
        decreases patterns@.len() - k,
    {
        let p = chars_of(patterns[k].as_str());
        if contains_chars(name.as_slice(), p.as_slice()) {
            assert(texts(patterns@)[k as int] == patterns@[k as int]@);
            return true;
        }
        k += 1;
    }
    false
}

/// No pattern, no match.
pub proof fn lemma_no_pattern_matches_nothing(name: Seq<char>)
    ensures
        !matches_any(name, Seq::<Seq<char>>::empty()),
{
}

/// An empty pattern matches every name; which is why the configuration never
/// produces one.
pub proof fn lemma_empty_pattern_matches_everything(name: Seq<char>, patterns: Seq<Seq<char>>)
    requires
        patterns.contains(Seq::<char>::empty()),
    ensures
        matches_any(name, patterns),
{
    let k = choose|k: int| 0 <= k < patterns.len() && patterns[k] == Seq::<char>::empty();
    lemma_contains_empty(name);
    assert(contains_seq(name, patterns[k]));
}

/// The patterns a measurement uses: the configured ones, plus the lower-cased
/// name of the launched executable (which catches its extra windows) unless it
/// is empty or already listed.
pub open spec fn monitored(patterns: Seq<Seq<char>>, exe_name: Seq<char>) -> Seq<Seq<char>> {
    with_pattern(patterns, lowercase_of(exe_name))
}

/// The patterns with `e` added at the end, unless it is empty or listed.
pub open spec fn with_pattern(patterns: Seq<Seq<char>>, e: Seq<char>) -> Seq<Seq<char>> {
    if e.len() > 0 && !patterns.contains(e) {
        patterns.push(e)
    } else {
        patterns
    }
}

/// Extends the configured patterns with the executable's own name.
pub fn monitored_patterns(patterns: Vec<String>, exe_name: &str) -> (r: Vec<String>)
    ensures
        texts(r@) == monitored(texts(patterns@), exe_name@),
        is_ascii_text(exe_name@) ==> texts(r@) == with_pattern(texts(patterns@), ascii_lower(exe_name@)),
{
    let exe_lc = to_lowercase(exe_name);
    if exe_lc.unicode_len() == 0 {
        return patterns;
    }
    let mut k: usize = 0;
    while k < patterns.len()
        invariant
            k <= patterns@.len(),
            exe_lc@ == lowercase_of(exe_name@),
            is_ascii_text(exe_name@) ==> exe_lc@ == ascii_lower(exe_name@),
            exe_lc@.len() > 0,
            forall|j: int| 0 <= j < k ==> texts(patterns@)[j] != exe_lc@,
        decreases patterns@.len() - k,
    {
        if same_text(patterns[k].as_str(), exe_lc.as_str()) {
            assert(texts(patterns@)[k as int] == exe_lc@);
            assert(texts(patterns@).contains(exe_lc@));
            return patterns;
        }
        k += 1;
    }
    let ghost before = texts(patterns@);
    assert(!before.contains(exe_lc@));
    let mut out = patterns;
    out.push(exe_lc);
    assert(texts(out@) =~= before.push(lowercase_of(exe_name@)));
    out
}

/// Mebibytes in a byte count, rounded down.
pub fn ram_mb(bytes: u64) -> (r: u64)
    ensures
        r == bytes / 1_048_576,
{
    bytes / 1_048_576
}

// ───────────── the process tree ─────────────

/// A process and its parent, as one snapshot of the system lists them.
#[derive(Debug, Clone, Copy, PartialEq, Eq, Structural)]
pub struct ProcessLink {
    pub pid: usize,
    pub parent: Option<usize>,
}

/// `x` is the main process, or descends from it through at most `depth`
/// parent links of the snapshot.
pub open spec fn descends_within(links: Seq<ProcessLink>, main: usize, x: usize, depth: nat) -> bool
    decreases depth,
{
    x == main || (depth > 0 && exists|i: int|
        #![trigger links[i]]
        0 <= i < links.len() && links[i].pid == x && (links[i].parent matches Some(p)
            && descends_within(links, main, p, (depth - 1) as nat)))
}

/// `x` is the main process or one of its descendants, at any depth.
pub open spec fn in_subtree(links: Seq<ProcessLink>, main: usize, x: usize) -> bool {
    exists|d: nat| descends_within(links, main, x, d)
}

/// How many entries of the snapshot are not yet in `tree`.
pub open spec fn pending_links(links: Seq<ProcessLink>, tree: Seq<usize>) -> nat
    decreases links.len(),
{
    if links.len() == 0 {
        0
    } else {
        pending_links(links.drop_last(), tree) + if tree.contains(links.last().pid) {
            0nat
        } else {
            1nat
        }
    }
}

proof fn lemma_pending_links_shrinks(links: Seq<ProcessLink>, t1: Seq<usize>, t2: Seq<usize>)
    requires
        forall|x: usize| t1.contains(x) ==> t2.contains(x),
    ensures
        pending_links(links, t2) <= pending_links(links, t1),
        (exists|i: int| 0 <= i < links.len() && !t1.contains(links[i].pid) && t2.contains(links[i].pid))
            ==> pending_links(links, t2) < pending_links(links, t1),
    decreases links.len(),
{
    if links.len() > 0 {
        let d = links.drop_last();
        lemma_pending_links_shrinks(d, t1, t2);
        if exists|i: int| 0 <= i < links.len() && !t1.contains(links[i].pid) && t2.contains(links[i].pid) {
            let i = choose|i: int| 0 <= i < links.len() && !t1.contains(links[i].pid) && t2.contains(links[i].pid);
            if i < d.len() {
                assert(d[i] == links[i]);
            }
        }
    }
}

fn has_pid(v: &[usize], x: usize) -> (r: bool)
    ensures
        r == v@.contains(x),
{
    let mut k: usize = 0;
    while k < v.len()
        invariant
            k <= v@.len(),
            forall|j: int| 0 <= j < k ==> v@[j] != x,
        decreases v@.len() - k,
    {
        if v[k] == x {
            assert(v@[k as int] == x);
            return true;
        }
        k += 1;
    }
    false
}

proof fn lemma_closed_tree_is_complete(links: Seq<ProcessLink>, main: usize, tree: Seq<usize>, x: usize, d: nat)
    requires
        tree.contains(main),
        forall|i: int|
            #![trigger links[i]]
            0 <= i < links.len() && (links[i].parent matches Some(p) && tree.contains(p))
                ==> tree.contains(links[i].pid),
        descends_within(links, main, x, d),
    ensures
        tree.contains(x),
    decreases d,
{
    if x != main {
        let i = choose|i: int|
            #![trigger links[i]]
            0 <= i < links.len() && links[i].pid == x && (links[i].parent matches Some(p)
                && descends_within(links, main, p, (d - 1) as nat));
        let p = links[i].parent->0;
        lemma_closed_tree_is_complete(links, main, tree, p, (d - 1) as nat);
    }
}

/// The main process and all its descendants at any depth, found by following
/// parent links until nothing more joins.
pub fn collect_subtree(links: &[ProcessLink], main_pid: usize) -> (r: Vec<usize>)
    ensures
        forall|x: usize| r@.contains(x) <==> in_subtree(links@, main_pid, x),
        r@.no_duplicates(),
{
    let mut tree: Vec<usize> = vec![main_pid];
    let mut changed = true;
    proof {
        assert(tree@[0] == main_pid);
        assert(descends_within(links@, main_pid, main_pid, 0));
    }
    while changed
        invariant
            tree@.contains(main_pid),
            tree@.no_duplicates(),
            forall|x: usize| tree@.contains(x) ==> in_subtree(links@, main_pid, x),
            !changed ==> forall|i: int|
                #![trigger links@[i]]
                0 <= i < links@.len() && (links@[i].parent matches Some(p) && tree@.contains(p))
                    ==> tree@.contains(links@[i].pid),
        decreases pending_links(links@, tree@) + if changed {
            1nat
        } else {
            0nat
        },
    {
        let ghost start = tree@;
        let mut added = false;
        let mut i: usize = 0;
        while i < links.len()
            invariant
                i <= links@.len(),
                tree@.contains(main_pid),
                tree@.no_duplicates(),
                forall|x: usize| tree@.contains(x) ==> in_subtree(links@, main_pid, x),
                forall|x: usize| start.contains(x) ==> tree@.contains(x),
                !added ==> tree@ == start,
                added ==> pending_links(links@, tree@) < pending_links(links@, start),
                !added ==> forall|j: int|
                    #![trigger links@[j]]
                    0 <= j < i && (links@[j].parent matches Some(p) && tree@.contains(p))
                        ==> tree@.contains(links@[j].pid),
            decreases links@.len() - i,
        {
            let link = links[i];
            if !has_pid(tree.as_slice(), link.pid) {
                match link.parent {
                    Some(p) => {
                        if has_pid(tree.as_slice(), p) {
                            let ghost before = tree@;
                            proof {
                                let d = choose|d: nat| descends_within(links@, main_pid, p, d);
                                assert(links@[i as int] == link);
                                assert(descends_within(links@, main_pid, link.pid, d + 1));
                            }
                            tree.push(link.pid);
                            proof {
                                assert forall|x: usize| tree@.contains(x) implies in_subtree(links@, main_pid, x) by {
                                    if x != link.pid {
                                        assert(before.contains(x));
                                    }
                                }
                                assert forall|x: usize| before.contains(x) implies tree@.contains(x) by {
                                    let k = choose|k: int| 0 <= k < before.len() && before[k] == x;
                                    assert(tree@[k] == x);
                                }
                                assert(tree@[tree@.len() - 1] == link.pid);
                                assert forall|x: usize| start.contains(x) implies tree@.contains(x) by {}
                                assert(!start.contains(links@[i as int].pid) && tree@.contains(links@[i as int].pid)) by {
                                    if !added {
                                        assert(before == start);
                                    } else {
                                        lemma_pending_links_shrinks(links@, start, before);
                                    }
                                }
                                lemma_pending_links_shrinks(links@, start, tree@);
                            }
                            added = true;
                        }
                    },
                    None => {},
                }
            }
            i += 1;
        }
        changed = added;
    }
    completed_tree(tree, links, main_pid)
}

fn completed_tree(tree: Vec<usize>, links: &[ProcessLink], main_pid: usize) -> (r: Vec<usize>)
    requires
        tree@.contains(main_pid),
        forall|x: usize| tree@.contains(x) ==> in_subtree(links@, main_pid, x),
        forall|i: int|
            #![trigger links@[i]]
            0 <= i < links@.len() && (links@[i].parent matches Some(p) && tree@.contains(p))
                ==> tree@.contains(links@[i].pid),
    ensures
        r@ == tree@,
        forall|x: usize| r@.contains(x) <==> in_subtree(links@, main_pid, x),
{
    proof {
        assert forall|x: usize| in_subtree(links@, main_pid, x) implies tree@.contains(x) by {
            let d = choose|d: nat| descends_within(links@, main_pid, x, d);
            lemma_closed_tree_is_complete(links@, main_pid, tree@, x, d);
        }
    }
    tree
}

// ───────────── targets of termination ─────────────

/// A process chosen for termination: its id and lower-cased name. The name
/// tells a surviving window of the application from a stranger that inherited
/// a freed process id.
#[derive(Debug, Clone, PartialEq, Eq)]
pub struct Target {
    pub pid: usize,
    pub name: String,
}

/// Targets as (id, name) pairs.
pub open spec fn target_pairs(v: Seq<Target>) -> Seq<(usize, Seq<char>)> {
    v.map_values(|t: Target| (t.pid, t.name@))
}

/// Snapshot entries as (id, name) pairs.
pub open spec fn entry_pairs(v: Seq<(usize, String)>) -> Seq<(usize, Seq<char>)> {
    v.map_values(|e: (usize, String)| (e.0, e.1@))
}

/// A process belongs to the application and may be terminated: it is not the
/// harness itself, and it descends from the main process, or its name matches
/// a pattern, or the very same process (id and name) was a target before.
pub open spec fn is_target(
    e: (usize, Seq<char>),
    subtree: Seq<usize>,
    patterns: Seq<Seq<char>>,
    self_pid: usize,
    known: Seq<(usize, Seq<char>)>,
) -> bool {
    e.0 != self_pid && (subtree.contains(e.0) || matches_any(e.1, patterns) || known.contains(e))
}

/// The targets among the snapshot's entries, in the snapshot's order.
pub open spec fn targets_among(
    snapshot: Seq<(usize, Seq<char>)>,
    subtree: Seq<usize>,
    patterns: Seq<Seq<char>>,
    self_pid: usize,
    known: Seq<(usize, Seq<char>)>,
) -> Seq<(usize, Seq<char>)>
    decreases snapshot.len(),
{
    if snapshot.len() == 0 {
        Seq::<(usize, Seq<char>)>::empty()
    } else {
        let rest = targets_among(snapshot.drop_last(), subtree, patterns, self_pid, known);
        if is_target(snapshot.last(), subtree, patterns, self_pid, known) {
            rest.push(snapshot.last())
        } else {
            rest
        }
    }
}

fn known_has(known: &[Target], pid: usize, name: &str) -> (r: bool)
    ensures
        r == target_pairs(known@).contains((pid, name@)),
{
    let mut k: usize = 0;
    while k < known.len()
        invariant
            k <= known@.len(),
            forall|j: int| 0 <= j < k ==> target_pairs(known@)[j] != (pid, name@),
        decreases known@.len() - k,
    {
        if known[k].pid == pid && same_text(known[k].name.as_str(), name) {
            assert(target_pairs(known@)[k as int] == (pid, name@));
            return true;
        }
        k += 1;
    }
    false
}

/// Chooses, from a snapshot of (id, lower-cased name) pairs, the processes of
/// the application. `subtree` is the main process's tree; `known` are the
/// targets of the previous pass, recognised again only by id and name both.
pub fn select_targets(
    snapshot: &[(usize, String)],
    subtree: &[usize],
    patterns: &[String],
    self_pid: usize,
    known: &[Target],
) -> (r: Vec<Target>)
    ensures
        target_pairs(r@) == targets_among(
            entry_pairs(snapshot@),
            subtree@,
            texts(patterns@),
            self_pid,
            target_pairs(known@),
        ),
{
    let ghost snap = entry_pairs(snapshot@);
    let mut out: Vec<Target> = Vec::new();
    let mut i: usize = 0;
    assert(snap.take(0) =~= Seq::<(usize, Seq<char>)>::empty());
    assert(target_pairs(out@) =~= Seq::<(usize, Seq<char>)>::empty());
    while i < snapshot.len()
        invariant
            i <= snapshot@.len(),
            snap == entry_pairs(snapshot@),
            target_pairs(out@) == targets_among(
                snap.take(i as int),
                subtree@,
                texts(patterns@),
                self_pid,
                target_pairs(known@),
            ),
        decreases snapshot@.len() - i,
    {
        let pid = snapshot[i].0;
        let name = &snapshot[i].1;
        assert(snap.take(i + 1).drop_last() =~= snap.take(i as int));
        assert(snap.take(i + 1).last() == (pid, name@));
        let chosen = pid != self_pid && (has_pid(subtree, pid) || name_matches(name.as_str(), patterns)
            || known_has(known, pid, name.as_str()));
        if chosen {
            let ghost before = target_pairs(out@);
            out.push(Target { pid, name: name.clone() });
            assert(target_pairs(out@) =~= before.push((pid, name@)));
        }
        i += 1;
    }
    assert(snap.take(snapshot@.len() as int) =~= snap);
    out
}

/// An entry is chosen exactly when it is in the snapshot and is a target.
pub proof fn lemma_targets_are_the_matching_entries(
    snapshot: Seq<(usize, Seq<char>)>,
    subtree: Seq<usize>,
    patterns: Seq<Seq<char>>,
    self_pid: usize,
    known: Seq<(usize, Seq<char>)>,
    e: (usize, Seq<char>),
)
    ensures
        targets_among(snapshot, subtree, patterns, self_pid, known).contains(e) <==> (
        snapshot.contains(e) && is_target(e, subtree, patterns, self_pid, known)),
    decreases snapshot.len(),
{
    if snapshot.len() > 0 {
        let d = snapshot.drop_last();
        lemma_targets_are_the_matching_entries(d, subtree, patterns, self_pid, known, e);
        let rest = targets_among(d, subtree, patterns, self_pid, known);
        let all = targets_among(snapshot, subtree, patterns, self_pid, known);
        if snapshot.contains(e) {
            let k = choose|k: int| 0 <= k < snapshot.len() && snapshot[k] == e;
            if k < d.len() {
                assert(d[k] == e);
                assert(d.contains(e));
            }
        }
        if d.contains(e) {
            let k = choose|k: int| 0 <= k < d.len() && d[k] == e;
            assert(snapshot[k] == e);
        }
        if all.contains(e) && !rest.contains(e) {
            let k = choose|k: int| 0 <= k < all.len() && all[k] == e;
            if is_target(snapshot.last(), subtree, patterns, self_pid, known) {
                if k < rest.len() {
                    assert(all[k] == rest[k]);
                }
                assert(snapshot[snapshot.len() - 1] == e);
            }
        }
        if rest.contains(e) {
            let k = choose|k: int| 0 <= k < rest.len() && rest[k] == e;
            assert(all[k] == e);
        }
        if is_target(snapshot.last(), subtree, patterns, self_pid, known) {
            assert(all[all.len() - 1] == snapshot.last());
        }
    } else {
        assert(!snapshot.contains(e));
    }
}

/// The harness never chooses itself, whatever its name, ancestry or history.
pub proof fn lemma_own_process_is_never_targeted(
    snapshot: Seq<(usize, Seq<char>)>,
    subtree: Seq<usize>,
    patterns: Seq<Seq<char>>,
    self_pid: usize,
    known: Seq<(usize, Seq<char>)>,
    name: Seq<char>,
)
    ensures
        !targets_among(snapshot, subtree, patterns, self_pid, known).contains((self_pid, name)),
{
    lemma_targets_are_the_matching_entries(snapshot, subtree, patterns, self_pid, known, (self_pid, name));
}

/// On a re-check, a previous target that is still there is chosen again even
/// when nothing else ties it to the application.
pub proof fn lemma_survivor_is_chosen_again(
    snapshot: Seq<(usize, Seq<char>)>,
    patterns: Seq<Seq<char>>,
    self_pid: usize,
    known: Seq<(usize, Seq<char>)>,
    e: (usize, Seq<char>),
)
    requires
        known.contains(e),
        snapshot.contains(e),
        e.0 != self_pid,
    ensures
        targets_among(snapshot, Seq::<usize>::empty(), patterns, self_pid, known).contains(e),
{
    lemma_targets_are_the_matching_entries(snapshot, Seq::<usize>::empty(), patterns, self_pid, known, e);
}

/// A process that merely inherited a previous target's id, under another name
/// that matches no pattern, is not chosen.
pub proof fn lemma_recycled_pid_is_not_chosen(
    snapshot: Seq<(usize, Seq<char>)>,
    patterns: Seq<Seq<char>>,
    self_pid: usize,
    known: Seq<(usize, Seq<char>)>,
    e: (usize, Seq<char>),
)
    requires
        !known.contains(e),
        !matches_any(e.1, patterns),
    ensures
        !targets_among(snapshot, Seq::<usize>::empty(), patterns, self_pid, known).contains(e),
{
    lemma_targets_are_the_matching_entries(snapshot, Seq::<usize>::empty(), patterns, self_pid, known, e);
}

// ───────────── the termination loop's decisions ─────────────

/// How many times termination is checked before survivors are reported.
pub const TERMINATE_CHECKS: usize = 5;

/// What to do after a check of who is still alive.
#[derive(Debug, Clone, Copy, PartialEq, Eq, Structural)]
pub enum AfterCheck {
    /// Nothing of the application is left.
    AllGone,
    /// Signal the survivors again and check once more.
    KillAgain,
    /// Checks are used up: report the survivors.
    Report,
}

/// The decision after check number `check` (counted from 1) found `survivors`
/// processes of the application: at the last check nobody is signalled any
/// more, since there would be no later check to see the effect.
pub fn after_check(check: usize, survivors: usize) -> (r: AfterCheck)
    ensures
        survivors == 0 ==> r == AfterCheck::AllGone,
        survivors > 0 && check < TERMINATE_CHECKS ==> r == AfterCheck::KillAgain,
        survivors > 0 && check >= TERMINATE_CHECKS ==> r == AfterCheck::Report,
{
    if survivors == 0 {
        AfterCheck::AllGone
    } else if check < TERMINATE_CHECKS {
        AfterCheck::KillAgain
    } else {
        AfterCheck::Report
    }
}

/// Remembers the outcome of the latest signal to `pid`: refused ids are kept,
/// an id whose signal was sent is forgotten.
pub fn record_kill_outcome(refused: &mut Vec<usize>, pid: usize, sent: bool)
    ensures
        forall|x: usize|
            #![trigger final(refused)@.contains(x)]
            final(refused)@.contains(x) <==> (if x == pid {
                !sent
            } else {
                old(refused)@.contains(x)
            }),
{
    if sent {
        let mut kept: Vec<usize> = Vec::new();
        let mut k: usize = 0;
        while k < refused.len()
            invariant
                k <= refused@.len(),
                forall|j: int| 0 <= j < kept@.len() ==> kept@[j] != pid && refused@.contains(kept@[j]),
                forall|j: int| 0 <= j < k && refused@[j] != pid ==> kept@.contains(refused@[j]),
            decreases refused@.len() - k,
        {
            let v = refused[k];
            let ghost before = kept@;
            if v != pid {
                kept.push(v);
                proof {
                    assert(kept@[kept@.len() - 1] == v);
                    assert forall|j: int| 0 <= j < k && refused@[j] != pid implies kept@.contains(refused@[j]) by {
                        let t = choose|t: int| 0 <= t < before.len() && before[t] == refused@[j];
                        assert(kept@[t] == refused@[j]);
                    }
                }
            }
            k += 1;
        }
        proof {
            assert forall|x: usize| kept@.contains(x) <==> (x != pid && refused@.contains(x)) by {
                if kept@.contains(x) {
                    let j = choose|j: int| 0 <= j < kept@.len() && kept@[j] == x;
                }
                if x != pid && refused@.contains(x) {
                    let j = choose|j: int| 0 <= j < refused@.len() && refused@[j] == x;
                }
            }
        }
        *refused = kept;
    } else if !has_pid(refused.as_slice(), pid) {
        let ghost before = refused@;
        refused.push(pid);
        proof {
            assert forall|x: usize| refused@.contains(x) <==> (x == pid || before.contains(x)) by {
                if before.contains(x) {
                    let j = choose|j: int| 0 <= j < before.len() && before[j] == x;
                    assert(refused@[j] == x);
                }
                if refused@.contains(x) && x != pid {
                    let j = choose|j: int| 0 <= j < refused@.len() && refused@[j] == x;
                    assert(before[j] == x);
                }
                assert(refused@[refused@.len() - 1] == pid);
            }
        }
    }
}

/// Why a survivor is still alive, as far as the harness can tell.
pub open spec fn survivor_reason_text(refused: bool) -> Seq<char> {
    if refused {
        "сигнал завершения отклонён — нет прав или процесс системный"@
    } else {
        "сигнал принят, но процесс не исчез"@
    }
}

/// The explanation shown next to a survivor.
pub fn survivor_reason(refused: &[usize], pid: usize) -> (r: &'static str)
    ensures
        r@ == survivor_reason_text(refused@.contains(pid)),
{
    if has_pid(refused, pid) {
        "сигнал завершения отклонён — нет прав или процесс системный"
    } else {
        "сигнал принят, но процесс не исчез"
    }
}

} // verus!
