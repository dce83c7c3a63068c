//! A component's version record: a commit label, a status, and the list of
//! changes logged against it.

use vstd::prelude::*;

verus! {

#[derive(Debug, Clone, Copy, PartialEq, Eq, Structural)]
pub enum ComponentStatus {
    Stable,
    Modified,
}

#[derive(Debug, Clone)]
pub struct Change {
    pub component: String,
    pub description: String,
    pub timestamp: u64,
}

#[derive(Debug)]
pub struct VersionInfo {
    timestamp: u64,
    commit_hash: String,
    changes: Vec<Change>,
    status: ComponentStatus,
}

impl VersionInfo {
    pub closed spec fn spec_timestamp(self) -> u64 {
        self.timestamp
    }

    pub closed spec fn spec_commit_hash(self) -> Seq<char> {
        self.commit_hash@
    }

    pub closed spec fn spec_changes(self) -> Seq<Change> {
        self.changes@
    }

    pub closed spec fn spec_status(self) -> ComponentStatus {
        self.status
    }

    pub fn new(commit_hash: String, now: u64) -> (r: VersionInfo)
        ensures
            r.spec_timestamp() == now,
            r.spec_commit_hash() == commit_hash@,
            r.spec_changes() == Seq::<Change>::empty(),
            r.spec_status() == ComponentStatus::Stable,
    {
        let r = VersionInfo {
            timestamp: now,
            commit_hash,
            changes: Vec::new(),
            status: ComponentStatus::Stable,
        };
        proof {
            assert(r.spec_changes() =~= Seq::<Change>::empty());
        }
        r
    }

    pub fn changes_len(&self) -> (r: usize)
        ensures
            r == self.spec_changes().len(),
    {
        self.changes.len()
    }

    pub fn status(&self) -> (r: ComponentStatus)
        ensures
            r == self.spec_status(),
    {
        self.status
    }

    /// Log one change against the component; the record turns `Modified`.
    pub fn log_change(&mut self, component: &str, change: &str, now: u64)
        ensures
            final(self).spec_timestamp() == old(self).spec_timestamp(),
            final(self).spec_commit_hash() == old(self).spec_commit_hash(),
            final(self).spec_status() == ComponentStatus::Modified,
            final(self).spec_changes().len() == old(self).spec_changes().len() + 1,
            final(self).spec_changes().drop_last() == old(self).spec_changes(),
            ({
                let c = final(self).spec_changes().last();
                &&& c.component@ == component@
                &&& c.description@ == change@
                &&& c.timestamp == now
            }),
    {
        self.changes.push(
            Change {
                component: component.to_owned(),
                description: change.to_owned(),
                timestamp: now,
            },
        );
        self.status = ComponentStatus::Modified;
        proof {
            assert(self.spec_changes().drop_last() =~= old(self).spec_changes());
        }
    }
}

} // verus!
