use vstd::prelude::*;

use crate::text::{push_str, sort_strings, sorted, starts_with, str_eq, string_of_range, chars_of, views};

verus! {

/// The branch that collects the snapshots of sandbox `slug`, or the shared one.
pub open spec fn snapshot_branch(slug: Option<Seq<char>>) -> Seq<char> {
    match slug {
        Some(s) => "litterbox-snapshots-"@ + s,
        None => "litterbox-snapshots"@,
    }
}

pub fn snapshot_branch_for(slug: Option<&str>) -> (r: String)
    ensures
        r@ == snapshot_branch(match slug { Some(s) => Some(s@), None => None }),
{
    match slug {
        Some(s) => {
            let mut r = "litterbox-snapshots-".to_owned();
            push_str(&mut r, s);
            r
        },
        None => "litterbox-snapshots".to_owned(),
    }
}

/// The full name of the snapshot reference: `refs/heads/` and the snapshot branch.
pub fn snapshot_ref_name(slug: Option<&str>) -> (r: String)
    ensures
        r@ == "refs/heads/"@ + snapshot_branch(match slug { Some(s) => Some(s@), None => None }),
{
    let b = snapshot_branch_for(slug);
    let mut r = "refs/heads/".to_owned();
    push_str(&mut r, b.as_str());
    r
}

/// A commit, known by its id and the id of its tree.
#[derive(Clone, Debug, PartialEq, Eq)]
pub struct CommitRef {
    pub id: String,
    pub tree: String,
}

/// The parent of a new snapshot: the snapshot branch's tip, else the commit at `HEAD`,
/// else none (a root commit).
pub fn choose_parent(snapshot_tip: Option<CommitRef>, head: Option<CommitRef>) -> (r: Option<CommitRef>)
    ensures
        r == (if snapshot_tip is Some { snapshot_tip } else { head }),
{
    match snapshot_tip {
        Some(t) => Some(t),
        None => head,
    }
}

/// Whether a snapshot of `tree` is committed: not when it is the parent's own tree.
pub open spec fn needs_commit(parent: Option<CommitRef>, tree: Seq<char>) -> bool {
    match parent {
        Some(p) => p.tree@ != tree,
        None => true,
    }
}

pub fn snapshot_needed(parent: &Option<CommitRef>, tree: &str) -> (r: bool)
    ensures
        r == needs_commit(*parent, tree@),
{
    match parent {
        Some(p) => !str_eq(p.tree.as_str(), tree),
        None => true,
    }
}

/// A snapshot taken when the snapshot branch's tip is `tip` and `HEAD` is at `head`, of a
/// staging tree `tree`, committed as `new_id` where one is made: the new tip, and whether a
/// commit was made.
pub open spec fn snapshot_effect(tip: Option<CommitRef>, head: Option<CommitRef>, tree: Seq<char>, new_id: Seq<char>) -> (Option<(Seq<char>, Seq<char>)>, bool) {
    let parent = if tip is Some { tip } else { head };
    if needs_commit(parent, tree) {
        (Some((new_id, tree)), true)
    } else {
        (match tip {
            Some(t) => Some((t.id@, t.tree@)),
            None => None,
        }, false)
    }
}

/// Taking the same snapshot twice makes one commit: after a snapshot of `tree`, a second of
/// the same tree commits nothing and leaves the tip where the first put it.
pub proof fn lemma_snapshot_idempotent(tip: Option<CommitRef>, head: Option<CommitRef>, tree: Seq<char>, id1: Seq<char>, id2: Seq<char>, tip2: CommitRef)
    requires
        snapshot_effect(tip, head, tree, id1).1,
        tip2.id@ == id1,
        tip2.tree@ == tree,
    ensures
        snapshot_effect(tip, head, tree, id1).0 == Some((id1, tree)),
        !snapshot_effect(Some(tip2), head, tree, id2).1,
        snapshot_effect(Some(tip2), head, tree, id2).0 == Some((id1, tree)),
{
}

/// The mode of an entry in a snapshot tree: a directory, an executable file (any execute
/// bit set), or a plain file.
pub fn tree_entry_mode(is_dir: bool, permissions: u32) -> (r: u32)
    ensures
        is_dir ==> r == 0o040000,
        !is_dir && permissions & 0o111 != 0 ==> r == 0o100755,
        !is_dir && permissions & 0o111 == 0 ==> r == 0o100644,
{
    if is_dir {
        0o040000
    } else if permissions & 0o111 != 0 {
        0o100755
    } else {
        0o100644
    }
}

/// Whether an entry of the staging directory is left out of the snapshot: `.git`.
pub fn skip_staging_entry(name: &str) -> (r: bool)
    ensures
        r == (name@ == ".git"@),
{
    str_eq(name, ".git")
}

/// The mode that an archive entry gets from its tree entry's file mode: `0o644` where the
/// tree gives none.
pub fn archive_entry_mode(filemode: i32) -> (r: u32)
    ensures
        filemode == 0 ==> r == 0o644,
        filemode != 0 ==> r == filemode as u32,
{
    if filemode == 0 {
        0o644
    } else {
        filemode as u32
    }
}

/// How one attempt to move the snapshot reference went.
#[derive(Clone, Copy, Debug, PartialEq, Eq, Structural)]
pub enum RefOutcome {
    Updated,
    Locked,
    Failed,
}

/// What follows an attempt to move the snapshot reference.
#[derive(Clone, Copy, Debug, PartialEq, Eq, Structural)]
pub enum RefStep {
    Done,
    RetryAfter { delay_ms: u64 },
    Restore,
}

pub open spec fn max_ref_retries() -> u32 {
    5
}

/// After attempt `retries + 1`: done when it moved; on a lock, try again after
/// `10 * (retries + 1)` ms while fewer than five retries were made; otherwise put the
/// reference back.
pub open spec fn ref_step(retries: u32, outcome: RefOutcome) -> RefStep {
    match outcome {
        RefOutcome::Updated => RefStep::Done,
        RefOutcome::Locked => if retries < max_ref_retries() {
            RefStep::RetryAfter { delay_ms: (10 * (retries + 1)) as u64 }
        } else {
            RefStep::Restore
        },
        RefOutcome::Failed => RefStep::Restore,
    }
}

pub fn ref_update_step(retries: u32, outcome: RefOutcome) -> (r: RefStep)
    ensures
        r == ref_step(retries, outcome),
{
    match outcome {
        RefOutcome::Updated => RefStep::Done,
        RefOutcome::Locked => {
            if retries < 5 {
                RefStep::RetryAfter { delay_ms: 10 * (retries as u64 + 1) }
            } else {
                RefStep::Restore
            }
        },
        RefOutcome::Failed => RefStep::Restore,
    }
}

/// How the snapshot reference is put back: to the commit it pointed at before, or removed
/// when it did not exist.
#[derive(Clone, Debug, PartialEq, Eq)]
pub enum RefRestore {
    SetTo(String),
    Delete,
}

pub fn restore_action(backup: &Option<String>) -> (r: RefRestore)
    ensures
        match *backup {
            Some(id) => r == RefRestore::SetTo(id),
            None => r == RefRestore::Delete,
        },
{
    match backup {
        Some(id) => RefRestore::SetTo(id.clone()),
        None => RefRestore::Delete,
    }
}

pub open spec fn restored(r: RefRestore) -> Option<Seq<char>> {
    match r {
        RefRestore::SetTo(id) => Some(id@),
        RefRestore::Delete => None,
    }
}

/// The reference after the update protocol runs from attempt `retries + 1` on, with these
/// outcomes of the attempts: the new commit once an attempt moves it, the backup once the
/// protocol gives up; unchanged while outcomes remain to be seen.
pub open spec fn ref_after(current: Option<Seq<char>>, backup: Option<Seq<char>>, new_id: Seq<char>, retries: u32, outcomes: Seq<RefOutcome>) -> Option<Seq<char>>
    decreases outcomes.len(),
{
    if outcomes.len() == 0 {
        current
    } else {
        match ref_step(retries, outcomes[0]) {
            RefStep::Done => Some(new_id),
            RefStep::Restore => backup,
            RefStep::RetryAfter { .. } => ref_after(current, backup, new_id, (retries + 1) as u32, outcomes.drop_first()),
        }
    }
}

/// Whether the protocol ends in failure on these outcomes.
pub open spec fn protocol_fails(retries: u32, outcomes: Seq<RefOutcome>) -> bool
    decreases outcomes.len(),
{
    if outcomes.len() == 0 {
        false
    } else {
        match ref_step(retries, outcomes[0]) {
            RefStep::Done => false,
            RefStep::Restore => true,
            RefStep::RetryAfter { .. } => protocol_fails((retries + 1) as u32, outcomes.drop_first()),
        }
    }
}

/// A snapshot that fails after the backup was taken leaves the snapshot reference as it
/// was before, existing or not: the reference only moves on a successful update, and a
/// failure puts the backup back.
pub proof fn lemma_failed_snapshot_restores_ref(backup: Option<Seq<char>>, new_id: Seq<char>, retries: u32, outcomes: Seq<RefOutcome>)
    requires
        protocol_fails(retries, outcomes),
        retries <= max_ref_retries(),
    ensures
        ref_after(backup, backup, new_id, retries, outcomes) == backup,
    decreases outcomes.len(),
{
    if outcomes.len() > 0 {
        if let RefStep::RetryAfter { .. } = ref_step(retries, outcomes[0]) {
            lemma_failed_snapshot_restores_ref(backup, new_id, (retries + 1) as u32, outcomes.drop_first());
        }
    }
}

/// Putting the backup back restores exactly the value it recorded.
pub proof fn lemma_restore_matches_backup(backup: Option<String>, r: RefRestore)
    requires
        match backup {
            Some(id) => r == RefRestore::SetTo(id),
            None => r == RefRestore::Delete,
        },
    ensures
        restored(r) == match backup { Some(id) => Some(id@), None => None::<Seq<char>> },
{
}

/// The sandboxes that the branches name: the rest of each name after `litterbox/`,
/// sorted, each once.
pub fn sandbox_slugs(branches: &Vec<String>) -> (r: Vec<String>)
    ensures
        strictly_sorted(views(r@)),
        forall|s: Seq<char>| views(r@).contains(s) <==> exists|i: int| 0 <= i < branches@.len()
            && starts_with(#[trigger] branches@[i]@, "litterbox/"@) && s == branches@[i]@.subrange(10, branches@[i]@.len() as int),
{
    let mut slugs: Vec<String> = Vec::new();
    let mut i: usize = 0;
    proof {
        reveal_strlit("litterbox/");
    }
    while i < branches.len()
        invariant
            i <= branches@.len(),
            "litterbox/"@.len() == 10,
            forall|s: Seq<char>| views(slugs@).contains(s) <==> exists|k: int| 0 <= k < i
                && starts_with(#[trigger] branches@[k]@, "litterbox/"@) && s == branches@[k]@.subrange(10, branches@[k]@.len() as int),
        decreases branches@.len() - i,
    {
        let name = chars_of(branches[i].as_str());
        let p = chars_of("litterbox/");
        let mut ok = name.len() >= 10;
        let mut k: usize = 0;
        while ok && k < 10
            invariant
                k <= 10,
                p@ == "litterbox/"@,
                p@.len() == 10,
                ok ==> name@.len() >= 10,
                ok ==> forall|m: int| 0 <= m < k ==> name@[m] == p@[m],
                !ok ==> !starts_with(name@, p@),
            decreases 10 - k,
        {
            if name[k] != p[k] {
                assert(name@.subrange(0, 10)[k as int] != p@[k as int]);
                ok = false;
            }
            k = k + 1;
        }
        let ghost before = slugs@;
        if ok {
            assert(name@.subrange(0, 10) =~= p@);
            let slug = string_of_range(&name, 10, name.len());
            slugs.push(slug);
            assert(views(slugs@) =~= views(before).push(slug@));
        }
        proof {
            assert forall|s: Seq<char>| views(slugs@).contains(s) <==> exists|k: int| 0 <= k < i + 1
                && starts_with(#[trigger] branches@[k]@, "litterbox/"@) && s == branches@[k]@.subrange(10, branches@[k]@.len() as int) by {
                if views(slugs@).contains(s) && !views(before).contains(s) {
                    let w = choose|w: int| 0 <= w < views(slugs@).len() && views(slugs@)[w] == s;
                    assert(w == views(before).len());
                }
                if ok && s == branches@[i as int]@.subrange(10, branches@[i as int]@.len() as int) {
                    assert(views(slugs@)[views(before).len() as int] == s);
                }
                if views(before).contains(s) {
                    let w = choose|w: int| 0 <= w < views(before).len() && views(before)[w] == s;
                    assert(views(slugs@)[w] == s);
                }
            }
        }
        i = i + 1;
    }
    let sorted_slugs = sort_strings(slugs);
    proof {
        broadcast use vstd::seq_lib::group_to_multiset_ensures;
        assert forall|s: Seq<char>| views(sorted_slugs@).contains(s) <==> views(slugs@).contains(s) by {
            assert(views(sorted_slugs@).to_multiset().count(s) == views(slugs@).to_multiset().count(s));
        }
    }
    dedup_sorted(sorted_slugs)
}

/// Each string strictly before the next: in order, no repeats.
pub open spec fn strictly_sorted(s: Seq<Seq<char>>) -> bool {
    forall|a: int, b: int| 0 <= a < b < s.len() ==> crate::text::lex_lt(#[trigger] s[a], #[trigger] s[b])
}

proof fn lemma_push_contains(s: Seq<Seq<char>>, x: Seq<char>, t: Seq<Seq<char>>, y: Seq<char>)
    requires
        forall|z: Seq<char>| s.contains(z) <==> t.contains(z),
        x == y,
    ensures
        forall|z: Seq<char>| s.push(x).contains(z) <==> t.push(y).contains(z),
{
    assert forall|z: Seq<char>| s.push(x).contains(z) <==> t.push(y).contains(z) by {
        if s.push(x).contains(z) {
            let k = choose|k: int| 0 <= k < s.push(x).len() && s.push(x)[k] == z;
            if k < s.len() {
                assert(s[k] == z);
                assert(s.contains(z));
                assert(t.contains(z));
                let m = choose|m: int| 0 <= m < t.len() && t[m] == z;
                assert(t.push(y)[m] == z);
            } else {
                assert(t.push(y)[t.len() as int] == z);
            }
        }
        if t.push(y).contains(z) {
            let k = choose|k: int| 0 <= k < t.push(y).len() && t.push(y)[k] == z;
            if k < t.len() {
                assert(t[k] == z);
                assert(t.contains(z));
                assert(s.contains(z));
                let m = choose|m: int| 0 <= m < s.len() && s[m] == z;
                assert(s.push(x)[m] == z);
            } else {
                assert(s.push(x)[s.len() as int] == z);
            }
        }
    }
}

/// `v` without repeats, where equal strings stand together.
fn dedup_sorted(v: Vec<String>) -> (r: Vec<String>)
    requires
        sorted(views(v@)),
    ensures
        strictly_sorted(views(r@)),
        forall|s: Seq<char>| views(r@).contains(s) <==> views(v@).contains(s),
{
    let mut r: Vec<String> = Vec::new();
    let mut i: usize = 0;
    while i < v.len()
        invariant
            i <= v@.len(),
            sorted(views(v@)),
            strictly_sorted(views(r@)),
            forall|s: Seq<char>| views(r@).contains(s) <==> views(v@).take(i as int).contains(s),
            i > 0 ==> r@.len() > 0 && r@.last()@ == v@[i - 1]@,
            r@.len() <= i,
        decreases v@.len() - i,
    {
        let fresh = r.len() == 0 || !str_eq(r[r.len() - 1].as_str(), v[i].as_str());
        let ghost before = views(r@);
        let ghost vi = v@[i as int]@;
        assert(views(v@).take(i + 1) =~= views(v@).take(i as int).push(vi));
        if fresh {
            let x = v[i].clone();
            proof {
                if i > 0 {
                    let l = v@[i - 1]@;
                    assert(views(v@)[i - 1] == l && views(v@)[i as int] == vi);
                    crate::text::lemma_lex_total(l, vi);
                    assert(crate::text::lex_lt(l, vi));
                    assert forall|k: int| 0 <= k < before.len() implies crate::text::lex_lt(#[trigger] before[k], vi) by {
                        if k < before.len() - 1 {
                            assert(crate::text::lex_lt(before[k], before[before.len() - 1]));
                            crate::text::lemma_lex_trans(before[k], l, vi);
                        }
                    }
                }
            }
            r.push(x);
            proof {
                assert(views(r@) =~= before.push(vi));
                assert forall|a: int, b: int| 0 <= a < b < views(r@).len() implies crate::text::lex_lt(#[trigger] views(r@)[a], #[trigger] views(r@)[b]) by {
                    if b < before.len() {
                        assert(views(r@)[a] == before[a] && views(r@)[b] == before[b]);
                    } else {
                        assert(views(r@)[a] == before[a]);
                        assert(views(r@)[b] == vi);
                        assert(crate::text::lex_lt(before[a], vi));
                    }
                }
                lemma_push_contains(before, vi, views(v@).take(i as int), vi);
            }
        } else {
            proof {
                assert(before.last() == vi);
                assert forall|s: Seq<char>| views(r@).contains(s) <==> views(v@).take(i + 1).contains(s) by {
                    let t = views(v@).take(i + 1);
                    if t.contains(s) {
                        let k = choose|k: int| 0 <= k < t.len() && t[k] == s;
                        if k < i {
                            assert(views(v@).take(i as int)[k] == s);
                        } else {
                            assert(before[before.len() - 1] == s);
                        }
                    }
                    let u = views(v@).take(i as int);
                    if views(r@).contains(s) {
                        let m = choose|m: int| 0 <= m < u.len() && u[m] == s;
                        assert(t[m] == s);
                    }
                }
            }
        }
        i = i + 1;
    }
    assert(views(v@).take(v@.len() as int) =~= views(v@));
    r
}

} // verus!
