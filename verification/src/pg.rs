//! Process groups for pub/sub patterns: named groups of processes, the
//! equivalent of Erlang's `pg` module.
use vstd::prelude::*;
use crate::pid::Pid;
use crate::seqs::{lemma_filter_all, lemma_filter_contains_iff, lemma_filter_no_duplicates, lemma_push_no_duplicates, lemma_take_full, lemma_take_succ_filter};

verus! {

/// Error type for process group operations.
#[derive(Debug, Clone, Copy, PartialEq, Eq, Structural)]
pub enum PgError {
    /// The process is already a member of this group.
    AlreadyMember,
    /// The process is not a member of this group.
    NotMember,
}

impl PgError {
    pub open spec fn spec_text(&self) -> Seq<char> {
        match self {
            PgError::AlreadyMember => "process is already a member of this group"@,
            PgError::NotMember => "process is not a member of this group"@,
        }
    }

    /// The error message.
    pub fn to_string(&self) -> (s: String)
        ensures
            s@ == self.spec_text(),
    {
        match self {
            PgError::AlreadyMember => "process is already a member of this group".to_owned(),
            PgError::NotMember => "process is not a member of this group".to_owned(),
        }
    }
}

/// The process group registry: every (group, member) pair, each at most
/// once, in the order the members joined. A group exists exactly while it
/// has a member.
pub struct PgInner {
    memberships: Vec<(String, Pid)>,
}

/// The memberships of a registry as (group name, pid) pairs.
pub open spec fn membership_view(s: Seq<(String, Pid)>) -> Seq<(Seq<char>, Pid)> {
    s.map_values(|m: (String, Pid)| (m.0@, m.1))
}

/// The texts of a sequence of strings.
pub open spec fn names(v: Seq<String>) -> Seq<Seq<char>> {
    v.map_values(|s: String| s@)
}

/// Keep memberships other than `(group, pid)`.
pub open spec fn not_membership(group: Seq<char>, pid: Pid) -> spec_fn((Seq<char>, Pid)) -> bool {
    |m: (Seq<char>, Pid)| m != (group, pid)
}

/// Keep memberships of processes other than `pid`.
pub open spec fn not_of_pid(pid: Pid) -> spec_fn((Seq<char>, Pid)) -> bool {
    |m: (Seq<char>, Pid)| m.1 != pid
}

/// The member recorded by a membership in `group`.
pub open spec fn member_in(group: Seq<char>) -> spec_fn((Seq<char>, Pid)) -> Option<Pid> {
    |m: (Seq<char>, Pid)| if m.0 == group { Some(m.1) } else { None }
}

/// The group recorded by a membership of `pid`.
pub open spec fn group_of(pid: Pid) -> spec_fn((Seq<char>, Pid)) -> Option<Seq<char>> {
    |m: (Seq<char>, Pid)| if m.1 == pid { Some(m.0) } else { None }
}

impl PgInner {
    /// All memberships, in the order they were made.
    pub closed spec fn view(&self) -> Seq<(Seq<char>, Pid)> {
        membership_view(self.memberships@)
    }

    /// `pid` is a member of `group`.
    pub open spec fn member(&self, group: Seq<char>, pid: Pid) -> bool {
        self.view().contains((group, pid))
    }

    /// `group` has at least one member.
    pub open spec fn group_exists(&self, group: Seq<char>) -> bool {
        exists|p: Pid| #[trigger] self.member(group, p)
    }

    /// No membership is recorded twice.
    pub open spec fn wf(&self) -> bool {
        self.view().no_duplicates()
    }

    /// An empty registry.
    pub fn new() -> (r: PgInner)
        ensures
            r.wf(),
            r.view() == Seq::<(Seq<char>, Pid)>::empty(),
    {
        let r = PgInner { memberships: Vec::new() };
        assert(r.view() =~= Seq::<(Seq<char>, Pid)>::empty());
        r
    }

    /// Index of the membership `(group, pid)`, if recorded.
    fn find(&self, group: &String, pid: Pid) -> (r: Option<usize>)
        ensures
            r is None <==> !self.member(group@, pid),
            r matches Some(i) ==> i < self.memberships@.len() && self.view()[i as int] == (group@, pid),
    {
        let mut i: usize = 0;
        while i < self.memberships.len()
            invariant
                i <= self.memberships.len(),
                forall|k: int| 0 <= k < i ==> self.view()[k] != (group@, pid),
            decreases self.memberships.len() - i,
        {
            let m = &self.memberships[i];
            if m.1 == pid && m.0 == *group {
                assert(self.view()[i as int] == (group@, pid));
                return Some(i);
            }
            i = i + 1;
        }
        proof {
            if self.member(group@, pid) {
                let k = choose|k: int| 0 <= k < self.view().len() && self.view()[k] == (group@, pid);
                assert(false);
            }
        }
        None
    }

    /// The memberships kept by `pred`, in order.
    fn filtered(&self, group: &String, pid: Pid, by_pid_only: bool) -> (r: Vec<(String, Pid)>)
        ensures
            by_pid_only ==> membership_view(r@) == self.view().filter(not_of_pid(pid)),
            !by_pid_only ==> membership_view(r@) == self.view().filter(not_membership(group@, pid)),
    {
        let ghost pred = if by_pid_only { not_of_pid(pid) } else { not_membership(group@, pid) };
        let mut out: Vec<(String, Pid)> = Vec::new();
        let mut i: usize = 0;
        while i < self.memberships.len()
            invariant
                i <= self.memberships.len(),
                pred == (if by_pid_only { not_of_pid(pid) } else { not_membership(group@, pid) }),
                membership_view(out@) == self.view().take(i as int).filter(pred),
            decreases self.memberships.len() - i,
        {
            let m = &self.memberships[i];
            proof {
                lemma_take_succ_filter(self.view(), i as int, pred);
            }
            let keep = if by_pid_only { m.1 != pid } else { !(m.1 == pid && m.0 == *group) };
            if keep {
                let entry = (m.0.clone(), m.1);
                let ghost before = out@;
                out.push(entry);
                proof {
                    assert(membership_view(out@) =~= membership_view(before).push((m.0@, m.1)));
                }
            }
            i = i + 1;
        }
        proof {
            lemma_take_full(self.view());
        }
        out
    }
}


/// Join a process group. A process can be a member of several groups.
///
/// Fails with `AlreadyMember` when `pid` is already in `group`.
pub fn join(registry: &mut PgInner, group: String, pid: Pid) -> (r: Result<(), PgError>)
    requires
        old(registry).wf(),
    ensures
        final(registry).wf(),
        r is Err <==> old(registry).member(group@, pid),
        r is Err ==> r == Err::<(), PgError>(PgError::AlreadyMember) && final(registry).view() == old(registry).view(),
        r is Ok ==> final(registry).view() == old(registry).view().push((group@, pid)),
{
    if registry.find(&group, pid).is_some() {
        return Err(PgError::AlreadyMember);
    }
    let ghost before = registry.memberships@;
    let ghost g = group@;
    registry.memberships.push((group, pid));
    proof {
        assert(registry.view() =~= membership_view(before).push((g, pid)));
        lemma_push_no_duplicates(membership_view(before), (g, pid));
    }
    Ok(())
}

/// Join a process group, ignoring if already a member.
pub fn join_or_ignore(registry: &mut PgInner, group: String, pid: Pid)
    requires
        old(registry).wf(),
    ensures
        final(registry).wf(),
        final(registry).view() == (if old(registry).member(group@, pid) { old(registry).view() } else { old(
            registry,
        ).view().push((group@, pid)) }),
{
    let _ = join(registry, group, pid);
}

/// Leave a process group.
///
/// Fails with `NotMember` when `pid` is not in `group`.
pub fn leave(registry: &mut PgInner, group: &str, pid: Pid) -> (r: Result<(), PgError>)
    requires
        old(registry).wf(),
    ensures
        final(registry).wf(),
        r is Err <==> !old(registry).member(group@, pid),
        r is Err ==> r == Err::<(), PgError>(PgError::NotMember) && final(registry).view() == old(registry).view(),
        r is Ok ==> final(registry).view() == old(registry).view().filter(not_membership(group@, pid)),
        !final(registry).member(group@, pid),
{
    let name = group.to_owned();
    if registry.find(&name, pid).is_none() {
        return Err(PgError::NotMember);
    }
    let kept = registry.filtered(&name, pid, false);
    registry.memberships = kept;
    proof {
        lemma_filter_no_duplicates(old(registry).view(), not_membership(group@, pid));
        lemma_filter_contains_iff(old(registry).view(), not_membership(group@, pid), (group@, pid));
    }
    Ok(())
}

/// Leave a process group, ignoring if not a member.
pub fn leave_or_ignore(registry: &mut PgInner, group: &str, pid: Pid)
    requires
        old(registry).wf(),
    ensures
        final(registry).wf(),
        final(registry).view() == old(registry).view().filter(not_membership(group@, pid)),
{
    let r = leave(registry, group, pid);
    proof {
        if r is Err {
            let v = old(registry).view();
            let p = not_membership(group@, pid);
            assert forall|x: (Seq<char>, Pid)| v.contains(x) implies p(x) by {}
            lemma_filter_all(v, p);
        }
    }
}

/// Leave every group that `pid` belongs to.
pub fn leave_all(registry: &mut PgInner, pid: Pid)
    requires
        old(registry).wf(),
    ensures
        final(registry).wf(),
        final(registry).view() == old(registry).view().filter(not_of_pid(pid)),
        forall|g: Seq<char>| !final(registry).member(g, pid),
{
    let unused = String::new();
    let kept = registry.filtered(&unused, pid, true);
    registry.memberships = kept;
    proof {
        lemma_filter_no_duplicates(old(registry).view(), not_of_pid(pid));
        assert forall|g: Seq<char>| !registry.member(g, pid) by {
            lemma_filter_contains_iff(old(registry).view(), not_of_pid(pid), (g, pid));
        }
    }
}

/// Get all members of a group, in the order they joined (empty when the
/// group does not exist).
pub fn get_members(registry: &PgInner, group: &str) -> (r: Vec<Pid>)
    ensures
        r@ == registry.view().filter_map(member_in(group@)),
{
    let name = group.to_owned();
    let ghost f = member_in(group@);
    let mut out: Vec<Pid> = Vec::new();
    let mut i: usize = 0;
    while i < registry.memberships.len()
        invariant
            i <= registry.memberships.len(),
            name@ == group@,
            f == member_in(group@),
            out@ == registry.view().take(i as int).filter_map(f),
        decreases registry.memberships.len() - i,
    {
        proof {
            registry.view().lemma_filter_map_take_succ(f, i as int);
        }
        let m = &registry.memberships[i];
        if m.0 == name {
            out.push(m.1);
        }
        i = i + 1;
    }
    proof {
        lemma_take_full(registry.view());
    }
    out
}

/// Get all groups that `pid` belongs to, in the order it joined them.
pub fn which_groups(registry: &PgInner, pid: Pid) -> (r: Vec<String>)
    ensures
        names(r@) == registry.view().filter_map(group_of(pid)),
{
    let ghost f = group_of(pid);
    let mut out: Vec<String> = Vec::new();
    let mut i: usize = 0;
    while i < registry.memberships.len()
        invariant
            i <= registry.memberships.len(),
            f == group_of(pid),
            names(out@) == registry.view().take(i as int).filter_map(f),
        decreases registry.memberships.len() - i,
    {
        proof {
            registry.view().lemma_filter_map_take_succ(f, i as int);
        }
        let m = &registry.memberships[i];
        if m.1 == pid {
            let ghost before = out@;
            out.push(m.0.clone());
            proof {
                assert(names(out@) =~= names(before).push(m.0@));
            }
        }
        i = i + 1;
    }
    proof {
        lemma_take_full(registry.view());
    }
    out
}

/// Check if `pid` is a member of `group`.
pub fn is_member(registry: &PgInner, group: &str, pid: Pid) -> (r: bool)
    ensures
        r == registry.member(group@, pid),
{
    let name = group.to_owned();
    registry.find(&name, pid).is_some()
}

/// Number of members of `group` (0 when it does not exist).
pub fn member_count(registry: &PgInner, group: &str) -> (r: usize)
    ensures
        r == registry.view().filter_map(member_in(group@)).len(),
{
    let members = get_members(registry, group);
    members.len()
}

/// All existing group names (those with at least one member), each once,
/// in the order the groups first got a member.
pub fn all_groups(registry: &PgInner) -> (r: Vec<String>)
    ensures
        names(r@).no_duplicates(),
        forall|g: Seq<char>| names(r@).contains(g) <==> registry.group_exists(g),
{
    let mut out: Vec<String> = Vec::new();
    let mut i: usize = 0;
    while i < registry.memberships.len()
        invariant
            i <= registry.memberships.len(),
            names(out@).no_duplicates(),
            forall|g: Seq<char>| #[trigger] names(out@).contains(g) <==> exists|k: int|
                0 <= k < i && #[trigger] registry.view()[k].0 == g,
        decreases registry.memberships.len() - i,
    {
        let m = &registry.memberships[i];
        let mut seen = false;
        let mut j: usize = 0;
        while j < out.len()
            invariant
                j <= out.len(),
                seen == exists|k: int| 0 <= k < j && #[trigger] out@[k]@ == m.0@,
            decreases out.len() - j,
        {
            if out[j] == m.0 {
                seen = true;
            }
            j = j + 1;
        }
        let ghost before = names(out@);
        proof {
            assert(registry.view()[i as int].0 == m.0@);
        }
        if !seen {
            out.push(m.0.clone());
            proof {
                assert(names(out@) =~= before.push(m.0@));
                if before.contains(m.0@) {
                    let k = choose|k: int| 0 <= k < before.len() && before[k] == m.0@;
                    assert(out@[k]@ == m.0@);
                }
                lemma_push_no_duplicates(before, m.0@);
            }
        } else {
            proof {
                let k = choose|k: int| 0 <= k < j && #[trigger] out@[k]@ == m.0@;
                assert(before[k] == m.0@);
            }
        }
        proof {
            let now = names(out@);
            assert forall|g: Seq<char>| #[trigger] now.contains(g) <==> exists|k: int|
                0 <= k < i + 1 && #[trigger] registry.view()[k].0 == g by {
                if now.contains(g) {
                    if g != m.0@ {
                        let q = choose|q: int| 0 <= q < now.len() && now[q] == g;
                        assert(q < before.len());
                        assert(before[q] == g);
                        assert(before.contains(g));
                    }
                }
                if exists|k: int| 0 <= k < i + 1 && #[trigger] registry.view()[k].0 == g {
                    let k = choose|k: int| 0 <= k < i + 1 && #[trigger] registry.view()[k].0 == g;
                    if k < i {
                        assert(before.contains(g));
                        let q = choose|q: int| 0 <= q < before.len() && before[q] == g;
                        assert(now[q] == g);
                    } else if !seen {
                        assert(now[now.len() - 1] == g);
                    } else {
                        let q = choose|q: int| 0 <= q < j && #[trigger] out@[q]@ == m.0@;
                        assert(now[q] == g);
                    }
                }
            }
        }
        i = i + 1;
    }
    proof {
        let now = names(out@);
        assert forall|g: Seq<char>| now.contains(g) <==> registry.group_exists(g) by {
            if now.contains(g) {
                let k = choose|k: int| 0 <= k < registry.view().len() && #[trigger] registry.view()[k].0 == g;
                let p = registry.view()[k].1;
                assert(registry.view()[k] == (g, p));
                assert(registry.member(g, p));
            }
            if registry.group_exists(g) {
                let p = choose|p: Pid| #[trigger] registry.member(g, p);
                let k = choose|k: int| 0 <= k < registry.view().len() && registry.view()[k] == (g, p);
                assert(registry.view()[k].0 == g);
            }
        }
    }
    out
}

/// Clear all groups.
pub fn clear(registry: &mut PgInner)
    ensures
        final(registry).wf(),
        final(registry).view() == Seq::<(Seq<char>, Pid)>::empty(),
{
    registry.memberships.clear();
    assert(registry.view() =~= Seq::<(Seq<char>, Pid)>::empty());
}

/// `which_groups(pid)` lists exactly the groups `pid` is a member of.
pub proof fn law_which_groups_are_memberships(memberships: Seq<(Seq<char>, Pid)>, pid: Pid, group: Seq<char>)
    ensures
        memberships.filter_map(group_of(pid)).contains(group) <==> memberships.contains((group, pid)),
{
    crate::seqs::lemma_filter_map_contains_iff(memberships, group_of(pid), group);
    if memberships.contains((group, pid)) {
        let i = choose|i: int| 0 <= i < memberships.len() && memberships[i] == (group, pid);
        assert(group_of(pid)(memberships[i]) == Some(group));
    }
}

/// `get_members(group)` lists exactly the members of `group`.
pub proof fn law_members_are_memberships(memberships: Seq<(Seq<char>, Pid)>, group: Seq<char>, pid: Pid)
    ensures
        memberships.filter_map(member_in(group)).contains(pid) <==> memberships.contains((group, pid)),
{
    crate::seqs::lemma_filter_map_contains_iff(memberships, member_in(group), pid);
    if memberships.contains((group, pid)) {
        let i = choose|i: int| 0 <= i < memberships.len() && memberships[i] == (group, pid);
        assert(member_in(group)(memberships[i]) == Some(pid));
    }
}

/// Leaving a group ends that one membership and keeps all others.
pub proof fn law_leave_ends_one_membership(memberships: Seq<(Seq<char>, Pid)>, group: Seq<char>, pid: Pid, m: (Seq<char>, Pid))
    ensures
        memberships.filter(not_membership(group, pid)).contains(m) <==> memberships.contains(m) && m != (group, pid),
{
    crate::seqs::lemma_filter_contains_iff(memberships, not_membership(group, pid), m);
}

} // verus!
