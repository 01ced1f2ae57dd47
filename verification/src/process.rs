//! Which processes belong together.

use crate::fault::{agrees, general, under, Fault, FaultView};
use crate::text::{
    cut, decimal, explain_u32, last_at, lemma_last_at, parse_unsigned, parsed_unsigned, rsplit_once, show_u64,
    texts, u32_error, words, words_of,
};
use std::collections::HashMap;
use std::collections::HashSet;
use vstd::prelude::*;

verus! {

broadcast use vstd::std_specs::hash::group_hash_axioms;

/// How many ancestors of a process are looked at.
pub const MAX_ANCESTORS: usize = 256;

/// What is known of a process: its parent and its session.
#[derive(Clone, Copy, Debug, PartialEq, Eq, Structural)]
pub struct ProcessStat {
    pub ppid: u32,
    pub session: u32,
}

impl View for ProcessStat {
    type V = ProcessStat;

    open spec fn view(&self) -> ProcessStat {
        *self
    }
}

/// A number of a process line.
pub open spec fn stat_number(field: Seq<char>, what: Seq<char>) -> Result<u32, FaultView> {
    match parsed_unsigned(field, u32::MAX as nat) {
        Some(n) => Ok(n as u32),
        None => Err(
            under(
                "process stat "@ + what + " is not an unsigned integer"@,
                general(u32_error(field)),
            ),
        ),
    }
}

/// What a process line says, whose command may itself hold parentheses.
pub open spec fn stat_line(line: Seq<char>) -> Result<ProcessStat, FaultView> {
    match cut(line, last_at(line, ')')) {
        None => Err(general("process stat has no closing command parenthesis"@)),
        Some((_, rest)) => {
            let fields = words_of(rest);
            if fields.len() < 4 {
                Err(
                    general(
                        "process stat is missing state, PPid, process group, or session fields"@,
                    ),
                )
            } else {
                match stat_number(fields[1], "PPid"@) {
                    Err(e) => Err(e),
                    Ok(ppid) => match stat_number(fields[3], "session"@) {
                        Err(e) => Err(e),
                        Ok(session) => Ok(ProcessStat { ppid, session }),
                    },
                }
            }
        },
    }
}

fn parse_stat_number(field: &str, what: &str) -> (r: Result<u32, Fault>)
    ensures
        agrees(r, stat_number(field@, what@)),
{
    match parse_unsigned(field, u32::MAX as u64) {
        Some(n) => Ok(n as u32),
        None => {
            let mut heading = "process stat ".to_owned();
            heading.append(what);
            heading.append(" is not an unsigned integer");
            Err(Fault::new(explain_u32(field)).context(heading.as_str()))
        },
    }
}

/// Reads a process line.
pub fn parse_process_stat_line(line: &str) -> (r: Result<ProcessStat, Fault>)
    ensures
        agrees(r, stat_line(line@)),
{
    let rest = match rsplit_once(line, ')') {
        None => return Err(Fault::of("process stat has no closing command parenthesis")),
        Some((_, rest)) => rest,
    };
    let fields = words(rest);
    if fields.len() < 4 {
        return Err(
            Fault::of("process stat is missing state, PPid, process group, or session fields"),
        );
    }
    assert(texts(fields@)[1] == fields@[1]@ && texts(fields@)[3] == fields@[3]@);
    let ppid = match parse_stat_number(fields[1].as_str(), "PPid") {
        Ok(n) => n,
        Err(fault) => return Err(fault),
    };
    match parse_stat_number(fields[3].as_str(), "session") {
        Ok(session) => Ok(ProcessStat { ppid, session }),
        Err(fault) => Err(fault),
    }
}

/// Reads the name of a process directory.
pub fn parse_numeric_pid(value: &str) -> (r: Option<u32>)
    ensures
        match r {
            Some(n) => parsed_unsigned(value@, u32::MAX as nat) == Some(n as nat),
            None => parsed_unsigned(value@, u32::MAX as nat) is None,
        },
{
    match parse_unsigned(value, u32::MAX as u64) {
        Some(n) => Some(n as u32),
        None => None,
    }
}

/// The processes that can be looked at.
#[derive(Debug)]
pub struct ProcessTable {
    stats: HashMap<u32, ProcessStat>,
    pids: Vec<u32>,
}

impl View for ProcessTable {
    type V = Map<u32, ProcessStat>;

    closed spec fn view(&self) -> Map<u32, ProcessStat> {
        self.stats@
    }
}

impl ProcessTable {
    /// Whether all processes of the table are listed.
    pub closed spec fn wf(&self) -> bool {
        &&& forall|p: u32| #[trigger] self.stats@.contains_key(p) ==> self.pids@.contains(p)
    }

    pub fn new() -> (r: ProcessTable)
        ensures
            r.wf(),
            r@ == Map::<u32, ProcessStat>::empty(),
    {
        ProcessTable { stats: HashMap::new(), pids: Vec::new() }
    }

    /// Enters a process.
    pub fn insert(&mut self, pid: u32, stat: ProcessStat)
        requires
            old(self).wf(),
        ensures
            final(self).wf(),
            final(self)@ == old(self)@.insert(pid, stat),
    {
        self.stats.insert(pid, stat);
        self.pids.push(pid);
        assert forall|p: u32| #[trigger] self.stats@.contains_key(p) implies self.pids@.contains(
            p,
        ) by {
            if p == pid {
                assert(self.pids@[self.pids@.len() - 1] == p);
            } else {
                assert(old(self).stats@.contains_key(p));
                let i = choose|i: int| 0 <= i < old(self).pids@.len() && old(self).pids@[i] == p;
                assert(self.pids@[i] == p);
            }
        }
    }

    /// Looks a process up.
    pub fn get(&self, pid: u32) -> (r: Option<ProcessStat>)
        ensures
            r == self@.get(pid),
    {
        match self.stats.get(&pid) {
            Some(stat) => Some(*stat),
            None => None,
        }
    }
}

/// The table of processes as it is modelled.
pub type Processes = Map<u32, ProcessStat>;

/// The parents of a process, from the nearest on, as far as they are known,
/// lie in the session and do not repeat, and no more than `fuel`.
pub open spec fn lineage(
    t: Processes,
    current: u32,
    seen: Seq<u32>,
    session: u32,
    fuel: nat,
) -> Seq<u32>
    decreases fuel,
{
    if fuel == 0 || !t.contains_key(current) {
        Seq::empty()
    } else {
        let parent = t[current].ppid;
        if t[current].session != session || parent <= 1 || seen.contains(parent)
            || !t.contains_key(parent) || t[parent].session != session {
            Seq::empty()
        } else {
            seq![parent] + lineage(t, parent, seen.push(parent), session, (fuel - 1) as nat)
        }
    }
}

/// Whether a process is an ancestor of another within its session.
pub open spec fn is_ancestor(t: Processes, ancestor: u32, descendant: u32) -> bool {
    t.contains_key(descendant) && lineage(
        t,
        descendant,
        seq![descendant],
        t[descendant].session,
        MAX_ANCESTORS as nat,
    ).contains(ancestor)
}

fn listed(seen: &Vec<u32>, pid: u32) -> (r: bool)
    ensures
        r == seen@.contains(pid),
{
    let mut i: usize = 0;
    while i < seen.len()
        invariant
            i <= seen@.len(),
            forall|j: int| 0 <= j < i ==> seen@[j] != pid,
        decreases seen@.len() - i,
    {
        if seen[i] == pid {
            return true;
        }
        i += 1;
    }
    false
}

/// Tells whether a process is an ancestor of another within its session.
pub fn is_session_ancestor(table: &ProcessTable, ancestor: u32, descendant: u32) -> (r: bool)
    ensures
        r == is_ancestor(table@, ancestor, descendant),
{
    let start = match table.get(descendant) {
        Some(stat) => stat,
        None => return false,
    };
    let mut current = descendant;
    let mut seen: Vec<u32> = Vec::new();
    seen.push(descendant);
    assert(seen@ =~= seq![descendant]);
    let mut step: usize = 0;
    while step < MAX_ANCESTORS
        invariant
            step <= MAX_ANCESTORS,
            table@.contains_key(descendant),
            start == table@[descendant],
            is_ancestor(table@, ancestor, descendant) == lineage(
                table@,
                current,
                seen@,
                start.session,
                (MAX_ANCESTORS - step) as nat,
            ).contains(ancestor),
        decreases MAX_ANCESTORS - step,
    {
        let stat = match table.get(current) {
            Some(stat) => stat,
            None => return false,
        };
        if stat.session != start.session || stat.ppid <= 1 || listed(&seen, stat.ppid) {
            return false;
        }
        let parent = match table.get(stat.ppid) {
            Some(stat) => stat,
            None => return false,
        };
        if parent.session != start.session {
            return false;
        }
        let ghost rest = lineage(
            table@,
            stat.ppid,
            seen@.push(stat.ppid),
            start.session,
            (MAX_ANCESTORS - step - 1) as nat,
        );
        let ghost all = seq![stat.ppid] + rest;
        if stat.ppid == ancestor {
            assert(all[0] == ancestor);
            return true;
        }
        proof {
            if rest.contains(ancestor) {
                let i = choose|i: int| 0 <= i < rest.len() && rest[i] == ancestor;
                assert(all[i + 1] == ancestor);
            }
            if all.contains(ancestor) {
                let i = choose|i: int| 0 <= i < all.len() && all[i] == ancestor;
                assert(rest[i - 1] == ancestor);
            }
        }
        seen.push(stat.ppid);
        current = stat.ppid;
        step += 1;
    }
    false
}

/// Whether a process is one of a user, going by its number alone.
pub open spec fn is_user_pid(pid: u32) -> bool {
    pid > 1
}

/// Whether one of two processes is the other or an ancestor of it.
pub open spec fn related(t: Processes, a: u32, b: u32) -> bool {
    is_user_pid(a) && is_user_pid(b) && if a == b {
        t.contains_key(a)
    } else {
        is_ancestor(t, a, b) || is_ancestor(t, b, a)
    }
}

/// Tells whether one of two processes is the other or an ancestor of it.
pub fn processes_related(table: &ProcessTable, a: u32, b: u32) -> (r: bool)
    ensures
        r == related(table@, a, b),
{
    if a == 0 || b == 0 || a == 1 || b == 1 {
        return false;
    }
    if a == b {
        return table.get(a).is_some();
    }
    is_session_ancestor(table, a, b) || is_session_ancestor(table, b, a)
}

/// Whether a process is another or descends from it.
pub open spec fn same_or_descendant(t: Processes, ancestor: u32, candidate: u32) -> bool {
    is_user_pid(ancestor) && is_user_pid(candidate) && if ancestor == candidate {
        t.contains_key(ancestor)
    } else {
        is_ancestor(t, ancestor, candidate)
    }
}

/// Tells whether a process is another or descends from it.
pub fn process_is_same_or_descendant(table: &ProcessTable, ancestor: u32, candidate: u32) -> (r:
    bool)
    ensures
        r == same_or_descendant(table@, ancestor, candidate),
{
    if ancestor == 0 || candidate == 0 || ancestor == 1 || candidate == 1 {
        return false;
    }
    if ancestor == candidate {
        return table.get(ancestor).is_some();
    }
    is_session_ancestor(table, ancestor, candidate)
}

proof fn lemma_lineage(t: Processes, current: u32, seen: Seq<u32>, session: u32, fuel: nat)
    ensures
        lineage(t, current, seen, session, fuel).len() <= fuel,
        lineage(t, current, seen, session, fuel).no_duplicates(),
        forall|i: int|
            0 <= i < lineage(t, current, seen, session, fuel).len() ==> {
                let p = #[trigger] lineage(t, current, seen, session, fuel)[i];
                &&& t.contains_key(p)
                &&& t[p].session == session
                &&& !seen.contains(p)
                &&& is_user_pid(p)
            },
    decreases fuel,
{
    let all = lineage(t, current, seen, session, fuel);
    if all.len() > 0 {
        let parent = t[current].ppid;
        let rest = lineage(t, parent, seen.push(parent), session, (fuel - 1) as nat);
        lemma_lineage(t, parent, seen.push(parent), session, (fuel - 1) as nat);
        assert(seen.push(parent)[seen.len() as int] == parent);
        assert forall|i: int| 0 <= i < all.len() implies {
            let p = #[trigger] all[i];
            &&& t.contains_key(p)
            &&& t[p].session == session
            &&& !seen.contains(p)
            &&& is_user_pid(p)
        } by {
            if i > 0 {
                assert(all[i] == rest[i - 1]);
                if seen.contains(all[i]) {
                    let k = choose|k: int| 0 <= k < seen.len() && seen[k] == all[i];
                    assert(seen.push(parent)[k] == all[i]);
                }
            }
        }
        assert forall|i: int, j: int| 0 <= i < all.len() && 0 <= j < all.len() && i
            != j implies all[i] != all[j] by {
            if i > 0 && j > 0 {
                assert(rest[i - 1] != rest[j - 1]);
            } else if i > 0 {
                assert(all[i] == rest[i - 1]);
            } else {
                assert(all[j] == rest[j - 1]);
            }
        }
    }
}

/// An ancestor is another process of the same session, and neither is one of
/// the system.
pub proof fn law_ancestors_share_the_session(t: Processes, ancestor: u32, descendant: u32)
    requires
        is_ancestor(t, ancestor, descendant),
    ensures
        ancestor != descendant,
        is_user_pid(ancestor),
        t.contains_key(ancestor),
        t[ancestor].session == t[descendant].session,
{
    let session = t[descendant].session;
    let all = lineage(t, descendant, seq![descendant], session, MAX_ANCESTORS as nat);
    lemma_lineage(t, descendant, seq![descendant], session, MAX_ANCESTORS as nat);
    let i = choose|i: int| 0 <= i < all.len() && all[i] == ancestor;
    assert(seq![descendant][0] == descendant);
    assert(!seq![descendant].contains(all[i]));
}

/// The order in which two processes are given does not matter for whether they
/// are related, and a process is related to its ancestors and its descendants.
pub proof fn law_relation_is_symmetric(t: Processes, a: u32, b: u32)
    ensures
        related(t, a, b) == related(t, b, a),
        same_or_descendant(t, a, b) ==> related(t, a, b),
{
}

/// Whether a process descends from another in `n` steps, without passing
/// through the first processes of the system.
pub open spec fn descends_in(t: Processes, p: u32, ancestor: u32, n: nat) -> bool
    decreases n,
{
    if n == 0 {
        p == ancestor
    } else {
        p > 1 && t.contains_key(p) && descends_in(t, t[p].ppid, ancestor, (n - 1) as nat)
    }
}

/// Whether a process is another or descends from it.
pub open spec fn descends(t: Processes, p: u32, ancestor: u32) -> bool {
    exists|n: nat| descends_in(t, p, ancestor, n)
}

/// The parents of a process that lie in the session, from the nearest on, no
/// more than `fuel`; a parent that cannot be looked at is a failure.
pub open spec fn ancestry(
    t: Processes,
    current: u32,
    seen: Seq<u32>,
    session: u32,
    fuel: nat,
) -> Result<Set<u32>, FaultView>
    decreases fuel,
{
    if fuel == 0 {
        Ok(Set::empty())
    } else if !t.contains_key(current) {
        Err(general("failed to read ancestry for PID "@ + decimal(current as int)))
    } else {
        let parent = t[current].ppid;
        if parent <= 1 || seen.contains(parent) {
            Ok(Set::empty())
        } else if !t.contains_key(parent) {
            Err(general("failed to read parent PID "@ + decimal(parent as int)))
        } else if t[parent].session != session {
            Ok(Set::empty())
        } else {
            match ancestry(t, parent, seen.push(parent), session, (fuel - 1) as nat) {
                Ok(rest) => Ok(rest.insert(parent)),
                Err(e) => Err(e),
            }
        }
    }
}

/// Whether a process can have a family.
pub open spec fn family_check(pid: u32) -> Result<(), FaultView> {
    if is_user_pid(pid) {
        Ok(())
    } else {
        Err(general("PID "@ + decimal(pid as int) + " is not a user-session process"@))
    }
}

/// The family of a process: itself, its descendants, and its ancestors within
/// its session.
pub open spec fn family(t: Processes, pid: u32) -> Result<Set<u32>, FaultView> {
    match family_check(pid) {
        Err(e) => Err(e),
        Ok(()) => match ancestry(t, pid, seq![pid], t[pid].session, MAX_ANCESTORS as nat) {
            Err(e) => Err(e),
            Ok(up) => Ok(Set::new(|p: u32| descends(t, p, pid)).union(up)),
        },
    }
}

/// Refuses the processes of the system.
pub fn check_family_pid(pid: u32) -> (r: Result<(), Fault>)
    ensures
        agrees(r, family_check(pid)),
{
    if pid == 0 || pid == 1 {
        let mut message = "PID ".to_owned();
        message.append(show_u64(pid as u64).as_str());
        message.append(" is not a user-session process");
        return Err(Fault::new(message));
    }
    Ok(())
}

/// Whether all children of a process are in a set.
spec fn closed_under(t: Processes, family: Set<u32>, m: u32) -> bool {
    forall|c: u32|
        #![trigger t[c]]
        t.contains_key(c) && t[c].ppid == m && c > 1 ==> family.contains(c)
}

proof fn lemma_closed_is_complete(t: Processes, family: Set<u32>, pid: u32, p: u32, n: nat)
    requires
        family.contains(pid),
        forall|m: u32| #[trigger] family.contains(m) ==> closed_under(t, family, m),
        descends_in(t, p, pid, n),
    ensures
        family.contains(p),
    decreases n,
{
    if n > 0 {
        lemma_closed_is_complete(t, family, pid, t[p].ppid, (n - 1) as nat);
        assert(closed_under(t, family, t[p].ppid));
    }
}

/// Adds the children of a process to a family; the new members are queued.
fn add_children(
    table: &ProcessTable,
    family: &mut HashSet<u32>,
    queue: &mut Vec<u32>,
    m: u32,
    pid: u32,
)
    requires
        table.wf(),
        descends(table@, m, pid),
        old(family)@.contains(m),
        forall|p: u32| #[trigger] old(family)@.contains(p) ==> descends(table@, p, pid),
    ensures
        closed_under(table@, final(family)@, m),
        old(family)@.subset_of(final(family)@),
        forall|p: u32| #[trigger] final(family)@.contains(p) ==> descends(table@, p, pid),
        forall|p: u32| #[trigger]
            final(family)@.contains(p) && !old(family)@.contains(p) ==> final(queue)@.contains(p)
                && table.known(p),
        forall|p: u32| #[trigger] old(queue)@.contains(p) ==> final(queue)@.contains(p),
        forall|p: u32| #[trigger]
            final(queue)@.contains(p) ==> old(queue)@.contains(p) || final(family)@.contains(p),
        final(family)@ == old(family)@ ==> final(queue)@ == old(queue)@,
{
    let ghost t = table@;
    let mut i: usize = 0;
    while i < table.pids.len()
        invariant
            table.wf(),
            t == table@,
            i <= table.pids@.len(),
            descends(t, m, pid),
            old(family)@.subset_of(family@),
            forall|p: u32| #[trigger] family@.contains(p) ==> descends(t, p, pid),
            forall|p: u32| #[trigger]
                family@.contains(p) && !old(family)@.contains(p) ==> queue@.contains(p)
                    && table.known(p),
            forall|p: u32| #[trigger] old(queue)@.contains(p) ==> queue@.contains(p),
            forall|p: u32| #[trigger]
                queue@.contains(p) ==> old(queue)@.contains(p) || family@.contains(p),
            family@ == old(family)@ ==> queue@ == old(queue)@,
            forall|j: int|
                #![trigger table.pids@[j]]
                0 <= j < i && t.contains_key(table.pids@[j]) && t[table.pids@[j]].ppid == m
                    && table.pids@[j] > 1 ==> family@.contains(table.pids@[j]),
        decreases table.pids@.len() - i,
    {
        let child = table.pids[i];
        if let Some(stat) = table.get(child) {
            if stat.ppid == m && child > 1 {
                proof {
                    let n = choose|n: nat| descends_in(t, m, pid, n);
                    assert(descends_in(t, child, pid, n + 1));
                }
                let ghost before = family@;
                let ghost waiting = queue@;
                if family.insert(child) {
                    queue.push(child);
                    proof {
                        assert(queue@[waiting.len() as int] == child);
                        assert forall|p: u32| #[trigger] waiting.contains(p) implies queue@.contains(
                            p,
                        ) by {
                            let k = choose|k: int| 0 <= k < waiting.len() && waiting[k] == p;
                            assert(queue@[k] == p);
                        }
                        assert forall|p: u32| #[trigger] queue@.contains(p) implies
                            old(queue)@.contains(p) || family@.contains(p) by {
                            let k = choose|k: int| 0 <= k < queue@.len() && queue@[k] == p;
                            if k < waiting.len() {
                                assert(waiting[k] == p);
                                assert(waiting.contains(p));
                            }
                        }
                        assert(table.pids@[i as int] == child);
                        assert forall|p: u32| #[trigger]
                            family@.contains(p) && !old(family)@.contains(p) implies
                            queue@.contains(p) && table.known(p) by {
                            if p != child {
                                assert(before.contains(p));
                                assert(waiting.contains(p));
                            }
                        }
                    }
                } else {
                    assert(family@ =~= before);
                }
            }
        }
        i += 1;
    }
    assert forall|c: u32|
        #![trigger t[c]]
        t.contains_key(c) && t[c].ppid == m && c > 1 implies family@.contains(c) by {
        assert(table.stats@.contains_key(c));
        let j = choose|j: int| 0 <= j < table.pids@.len() && table.pids@[j] == c;
        assert(table.pids@[j] == c);
    }
}

impl ProcessTable {
    /// Whether a process is listed.
    spec fn known(&self, p: u32) -> bool {
        self.pids@.contains(p)
    }
}

/// Finds a process and all that descend from it.
fn descendants(table: &ProcessTable, pid: u32) -> (r: HashSet<u32>)
    requires
        table.wf(),
    ensures
        r@ == Set::new(|p: u32| descends(table@, p, pid)),
{
    let ghost t = table@;
    let ghost all = table.pids@.to_set().insert(pid);
    let mut family: HashSet<u32> = HashSet::new();
    let mut queue: Vec<u32> = Vec::new();
    family.insert(pid);
    queue.push(pid);
    proof {
        assert(descends_in(t, pid, pid, 0));
        assert(queue@[0] == pid);
        assert(family@ =~= Set::empty().insert(pid));
        table.pids@.lemma_cardinality_of_set();
    }
    while queue.len() > 0
        invariant
            table.wf(),
            t == table@,
            all == table.pids@.to_set().insert(pid),
            all.finite(),
            family@.finite(),
            family@.subset_of(all),
            family@.contains(pid),
            forall|p: u32| #[trigger] family@.contains(p) ==> descends(t, p, pid),
            forall|p: u32| #[trigger] queue@.contains(p) ==> family@.contains(p),
            forall|p: u32| #[trigger]
                family@.contains(p) && !queue@.contains(p) ==> closed_under(t, family@, p),
        decreases all.len() - family@.len(), queue@.len(),
    {
        let ghost waiting = queue@;
        let ghost before = family@;
        let m = match queue.pop() {
            Some(m) => m,
            None => return family,
        };
        assert(waiting[waiting.len() - 1] == m);
        assert(waiting.contains(m));
        let ghost rest = queue@;
        assert(rest =~= waiting.drop_last());
        assert forall|p: u32| #[trigger] rest.contains(p) implies waiting.contains(p) by {
            let k = choose|k: int| 0 <= k < rest.len() && rest[k] == p;
            assert(waiting[k] == p);
        }
        add_children(table, &mut family, &mut queue, m, pid);
        proof {
            assert forall|p: u32| #[trigger] family@.contains(p) implies all.contains(p) by {
                if !before.contains(p) {
                    assert(queue@.contains(p));
                    let k = choose|k: int| 0 <= k < table.pids@.len() && table.pids@[k] == p;
                    assert(table.pids@.to_set().contains(p));
                }
            }
            vstd::set_lib::lemma_set_subset_finite(all, family@);
            vstd::set_lib::lemma_len_subset(family@, all);
            vstd::set_lib::lemma_len_subset(before, family@);
            if family@.len() == before.len() {
                vstd::set_lib::lemma_subset_equality(before, family@);
                assert(family@ =~= before);
            }
            assert forall|p: u32| #[trigger]
                family@.contains(p) && !queue@.contains(p) implies closed_under(t, family@, p) by {
                if p != m {
                    assert(before.contains(p));
                    if waiting.contains(p) {
                        let k = choose|k: int| 0 <= k < waiting.len() && waiting[k] == p;
                        assert(rest[k] == p);
                        assert(rest.contains(p));
                    }
                    assert(closed_under(t, before, p));
                }
            }
            assert forall|p: u32| #[trigger] queue@.contains(p) implies family@.contains(p) by {
                if rest.contains(p) {
                    assert(before.contains(p));
                } else {
                }
            }
        }
    }
    proof {
        assert forall|p: u32| #[trigger] descends(t, p, pid) implies family@.contains(p) by {
            let n = choose|n: nat| descends_in(t, p, pid, n);
            assert forall|m: u32| #[trigger] family@.contains(m) implies closed_under(
                t,
                family@,
                m,
            ) by {
                assert(!queue@.contains(m));
            }
            lemma_closed_is_complete(t, family@, pid, p, n);
        }
        assert(family@ =~= Set::new(|p: u32| descends(table@, p, pid)));
    }
    family
}

/// Adds the ancestors of a process within its session to a family.
fn add_ancestors(table: &ProcessTable, family: &mut HashSet<u32>, pid: u32, session: u32) -> (r:
    Result<(), Fault>)
    ensures
        match (r, ancestry(table@, pid, seq![pid], session, MAX_ANCESTORS as nat)) {
            (Ok(()), Ok(up)) => final(family)@ == old(family)@.union(up),
            (Err(f), Err(e)) => f@ == e,
            _ => false,
        },
{
    let mut current = pid;
    let mut seen: Vec<u32> = Vec::new();
    seen.push(pid);
    assert(seen@ =~= seq![pid]);
    let ghost wanted = ancestry(table@, pid, seq![pid], session, MAX_ANCESTORS as nat);
    let mut step: usize = 0;
    while step < MAX_ANCESTORS
        invariant
            step <= MAX_ANCESTORS,
            wanted == ancestry(table@, pid, seq![pid], session, MAX_ANCESTORS as nat),
            match ancestry(table@, current, seen@, session, (MAX_ANCESTORS - step) as nat) {
                Ok(rest) => wanted is Ok && family@.union(rest) == old(family)@.union(
                    wanted->Ok_0,
                ),
                Err(e) => wanted == Err::<Set<u32>, FaultView>(e),
            },
        decreases MAX_ANCESTORS - step,
    {
        let stat = match table.get(current) {
            Some(stat) => stat,
            None => {
                let mut message = "failed to read ancestry for PID ".to_owned();
                message.append(show_u64(current as u64).as_str());
                return Err(Fault::new(message));
            },
        };
        let parent = stat.ppid;
        if parent <= 1 || listed(&seen, parent) {
            assert(family@.union(Set::empty()) =~= family@);
            return Ok(());
        }
        let parent_stat = match table.get(parent) {
            Some(stat) => stat,
            None => {
                let mut message = "failed to read parent PID ".to_owned();
                message.append(show_u64(parent as u64).as_str());
                return Err(Fault::new(message));
            },
        };
        if parent_stat.session != session {
            assert(family@.union(Set::empty()) =~= family@);
            return Ok(());
        }
        let ghost before = family@;
        family.insert(parent);
        proof {
            let further = ancestry(
                table@,
                parent,
                seen@.push(parent),
                session,
                (MAX_ANCESTORS - step - 1) as nat,
            );
            if let Ok(rest) = further {
                assert(before.union(rest.insert(parent)) =~= family@.union(rest));
            }
        }
        seen.push(parent);
        current = parent;
        step += 1;
    }
    assert(family@.union(Set::empty()) =~= family@);
    Ok(())
}

/// Finds the family of a process, of which what is known is given beside the
/// table of the others.
pub fn process_family(pid: u32, target: ProcessStat, others: ProcessTable) -> (r: Result<
    HashSet<u32>,
    Fault,
>)
    requires
        others.wf(),
    ensures
        match (r, family(others@.insert(pid, target), pid)) {
            (Ok(members), Ok(e)) => members@ == e,
            (Err(f), Err(e)) => f@ == e,
            _ => false,
        },
{
    match check_family_pid(pid) {
        Ok(()) => {},
        Err(fault) => return Err(fault),
    }
    let mut table = others;
    table.insert(pid, target);
    let mut members = descendants(&table, pid);
    match add_ancestors(&table, &mut members, pid, target.session) {
        Ok(()) => Ok(members),
        Err(fault) => Err(fault),
    }
}

/// A family holds the process itself and, with each member that descends from
/// it, that member's children.
pub proof fn law_families_hold_their_children(t: Processes, pid: u32, p: u32, child: u32)
    requires
        family(t, pid) is Ok,
    ensures
        family(t, pid)->Ok_0.contains(pid),
        descends(t, p, pid) && t.contains_key(child) && t[child].ppid == p && child > 1 ==> family(
            t,
            pid,
        )->Ok_0.contains(child),
{
    assert(descends_in(t, pid, pid, 0));
    if descends(t, p, pid) && t.contains_key(child) && t[child].ppid == p && child > 1 {
        let n = choose|n: nat| descends_in(t, p, pid, n);
        assert(descends_in(t, child, pid, n + 1));
    }
}

proof fn lemma_ancestry_is_of_users(
    t: Processes,
    current: u32,
    seen: Seq<u32>,
    session: u32,
    fuel: nat,
)
    ensures
        match ancestry(t, current, seen, session, fuel) {
            Ok(up) => forall|p: u32| #[trigger]
                up.contains(p) ==> p > 1 && t.contains_key(p) && t[p].session == session,
            Err(_) => true,
        },
    decreases fuel,
{
    if fuel > 0 && t.contains_key(current) {
        let parent = t[current].ppid;
        lemma_ancestry_is_of_users(t, parent, seen.push(parent), session, (fuel - 1) as nat);
    }
}

/// A family holds no process of the system, and each of its members descends
/// from the process or lies in its session.
pub proof fn law_families_hold_user_processes(t: Processes, pid: u32, p: u32)
    requires
        family(t, pid) is Ok,
    ensures
        pid > 1,
        family(t, pid)->Ok_0.contains(p) ==> p > 1,
        family(t, pid)->Ok_0.contains(p) ==> descends(t, p, pid) || t[p].session
            == t[pid].session,
{
    lemma_ancestry_is_of_users(t, pid, seq![pid], t[pid].session, MAX_ANCESTORS as nat);
    if descends(t, p, pid) {
        let n = choose|n: nat| descends_in(t, p, pid, n);
        assert(n == 0 ==> p == pid);
    }
}

proof fn lemma_lineage_descends(
    t: Processes,
    current: u32,
    seen: Seq<u32>,
    session: u32,
    fuel: nat,
    a: u32,
) -> (n: nat)
    requires
        current > 1,
        lineage(t, current, seen, session, fuel).contains(a),
    ensures
        n > 0,
        descends_in(t, current, a, n),
    decreases fuel,
{
    let line = lineage(t, current, seen, session, fuel);
    let parent = t[current].ppid;
    let rest = lineage(t, parent, seen.push(parent), session, (fuel - 1) as nat);
    let i = choose|i: int| 0 <= i < line.len() && line[i] == a;
    assert(fuel > 0 && t.contains_key(current) && parent > 1);
    if i == 0 {
        assert(a == parent);
        assert(descends_in(t, parent, a, 0));
        reveal_with_fuel(descends_in, 2);
        1
    } else {
        assert(rest[i - 1] == a);
        let n = lemma_lineage_descends(t, parent, seen.push(parent), session, (fuel - 1) as nat, a);
        n + 1
    }
}

/// The parent of a process is an ancestor of it, where it is known, no process
/// of the system and in the same session; and whatever is an ancestor is come
/// upon by going from parent to parent.
pub proof fn law_ancestors_are_parents_of_parents(t: Processes, p: u32, ancestor: u32)
    requires
        p > 1,
        t.contains_key(p),
    ensures
        ({
            let parent = t[p].ppid;
            parent > 1 && parent != p && t.contains_key(parent) && t[parent].session == t[p].session
                ==> is_ancestor(t, parent, p) && same_or_descendant(t, parent, p)
        }),
        is_ancestor(t, ancestor, p) ==> descends(t, p, ancestor),
        same_or_descendant(t, p, p),
{
    let parent = t[p].ppid;
    let line = lineage(t, p, seq![p], t[p].session, MAX_ANCESTORS as nat);
    if parent > 1 && parent != p && t.contains_key(parent) && t[parent].session == t[p].session {
        assert(!seq![p].contains(parent));
        assert(line[0] == parent);
    }
    if is_ancestor(t, ancestor, p) {
        let n = lemma_lineage_descends(
            t,
            p,
            seq![p],
            t[p].session,
            MAX_ANCESTORS as nat,
            ancestor,
        );
    }
}

/// A family holds the process itself, whatever descends from it, and its parent
/// where that is one of the same session.
pub proof fn law_families_hold_descendants_and_parents(t: Processes, pid: u32, q: u32)
    requires
        t.contains_key(pid),
        family(t, pid) is Ok,
    ensures
        family(t, pid)->Ok_0.contains(pid),
        descends(t, q, pid) ==> family(t, pid)->Ok_0.contains(q),
        ({
            let parent = t[pid].ppid;
            parent > 1 && parent != pid && t[parent].session == t[pid].session
                ==> t.contains_key(parent) && family(t, pid)->Ok_0.contains(parent)
        }),
        family(t, pid)->Ok_0.contains(q) ==> descends(t, q, pid) || descends(t, pid, q),
        pid > 1,
{
    assert(descends_in(t, pid, pid, 0));
    let parent = t[pid].ppid;
    assert(!(parent != pid && seq![pid].contains(parent)));
    if family(t, pid)->Ok_0.contains(q) && !descends(t, q, pid) {
        let n = lemma_ancestry_descends(
            t,
            pid,
            seq![pid],
            t[pid].session,
            MAX_ANCESTORS as nat,
            q,
        );
    }
}

proof fn lemma_ancestry_descends(
    t: Processes,
    current: u32,
    seen: Seq<u32>,
    session: u32,
    fuel: nat,
    a: u32,
) -> (n: nat)
    requires
        current > 1,
        ancestry(t, current, seen, session, fuel) is Ok,
        ancestry(t, current, seen, session, fuel)->Ok_0.contains(a),
    ensures
        descends_in(t, current, a, n),
    decreases fuel,
{
    let parent = t[current].ppid;
    assert(fuel > 0 && t.contains_key(current) && parent > 1);
    if a == parent {
        assert(descends_in(t, parent, a, 0));
        reveal_with_fuel(descends_in, 2);
        1
    } else {
        let n = lemma_ancestry_descends(t, parent, seen.push(parent), session, (fuel - 1) as nat, a);
        n + 1
    }
}

/// Of the line of a process, the second word behind the command is the number
/// of its parent and the fourth that of its session, whatever the command is
/// called.
pub proof fn law_lines_tell_parent_and_session(
    head: Seq<char>,
    rest: Seq<char>,
    ppid: u32,
    session: u32,
)
    requires
        !rest.contains(')'),
        words_of(rest).len() >= 4,
        words_of(rest)[1] == decimal(ppid as int),
        words_of(rest)[3] == decimal(session as int),
    ensures
        stat_line(head.push(')') + rest) == Ok::<ProcessStat, FaultView>(
            ProcessStat { ppid, session },
        ),
{
    let line = head.push(')') + rest;
    let k = head.len() as int;
    assert forall|j: int| k < j < line.len() implies line[j] != ')' by {
        assert(line[j] == rest[j - k - 1]);
    }
    lemma_last_at(line, ')', k);
    assert(line.subrange(k + 1, line.len() as int) =~= rest);
    crate::text::law_numbers_are_read_back(ppid as nat, 0, u32::MAX as nat);
    crate::text::law_numbers_are_read_back(session as nat, 0, u32::MAX as nat);
}

/// Whether processes are each the parent of the one before, all of one session,
/// known, none of the system, and no two the same.
pub open spec fn is_chain(t: Processes, chain: Seq<u32>) -> bool {
    &&& chain.len() > 0
    &&& chain.no_duplicates()
    &&& forall|k: int|
        0 <= k < chain.len() ==> #[trigger] chain[k] > 1 && t.contains_key(chain[k])
            && t[chain[k]].session == t[chain[0]].session
    &&& forall|k: int|
        0 <= k < chain.len() - 1 ==> t[#[trigger] chain[k]].ppid == chain[k + 1]
}

proof fn lemma_chain(
    t: Processes,
    chain: Seq<u32>,
    from: int,
    seen: Seq<u32>,
    fuel: nat,
    k: int,
)
    requires
        is_chain(t, chain),
        0 <= from < k < chain.len(),
        k - from <= fuel,
        forall|p: u32| seen.contains(p) ==> #[trigger] chain.take(from + 1).contains(p),
    ensures
        lineage(t, chain[from], seen, t[chain[0]].session, fuel).contains(chain[k]),
        ancestry(t, chain[from], seen, t[chain[0]].session, fuel) matches Ok(up) ==> up.contains(
            chain[k],
        ),
    decreases fuel,
{
    let session = t[chain[0]].session;
    let current = chain[from];
    let parent = chain[from + 1];
    assert(t[chain[from]].ppid == parent);
    assert(parent > 1 && t.contains_key(parent) && t[parent].session == session);
    assert(t.contains_key(current) && t[current].session == session);
    assert(!seen.contains(parent)) by {
        if seen.contains(parent) {
            assert(chain.take(from + 1).contains(parent));
            let head = chain.take(from + 1);
            let i = choose|i: int| 0 <= i < head.len() && head[i] == parent;
            assert(chain[i] == chain[from + 1]);
        }
    }
    let line = lineage(t, current, seen, session, fuel);
    let rest = lineage(t, parent, seen.push(parent), session, (fuel - 1) as nat);
    assert(line == seq![parent] + rest);
    if k == from + 1 {
        assert(line[0] == chain[k]);
    } else {
        assert forall|p: u32| seen.push(parent).contains(p) implies #[trigger] chain.take(
            from + 2,
        ).contains(p) by {
            let now = seen.push(parent);
            let i = choose|i: int| 0 <= i < now.len() && now[i] == p;
            if i < seen.len() {
                assert(seen[i] == p);
                assert(seen.contains(p));
                assert(chain.take(from + 1).contains(p));
                let head = chain.take(from + 1);
                let j = choose|j: int| 0 <= j < head.len() && head[j] == p;
                assert(chain.take(from + 2)[j] == p);
            } else {
                assert(chain.take(from + 2)[from + 1] == p);
            }
        }
        lemma_chain(t, chain, from + 1, seen.push(parent), (fuel - 1) as nat, k);
        let i = choose|i: int| 0 <= i < rest.len() && rest[i] == chain[k];
        assert(line[i + 1] == chain[k]);
    }
}

/// All the parents of parents of a process within its session are its
/// ancestors and of its family, up to 256 of them.
pub proof fn law_chains_of_parents_are_ancestors(t: Processes, chain: Seq<u32>, k: int)
    requires
        is_chain(t, chain),
        0 < k < chain.len(),
        k <= 256,
    ensures
        is_ancestor(t, chain[k], chain[0]),
        same_or_descendant(t, chain[k], chain[0]),
        related(t, chain[0], chain[k]),
        family(t, chain[0]) matches Ok(all) ==> all.contains(chain[k]),
{
    let seen = seq![chain[0]];
    assert forall|p: u32| seen.contains(p) implies #[trigger] chain.take(1).contains(p) by {
        assert(chain.take(1)[0] == chain[0]);
    }
    lemma_chain(t, chain, 0, seen, 256, k);
    assert(chain[k] != chain[0]);
    assert(chain[k] > 1 && chain[0] > 1);
}

} // verus!
