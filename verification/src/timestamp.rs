//! A created/modified timestamp pair with an operation label and a status,
//! over the caller-supplied millisecond clock.

use vstd::prelude::*;
use vstd::string::StringExecFns;

verus! {

#[derive(Debug)]
pub struct TimeStamp {
    created: u64,
    modified: u64,
    operation: String,
    status: String,
}

impl TimeStamp {
    pub closed spec fn spec_created(self) -> u64 {
        self.created
    }

    pub closed spec fn spec_modified(self) -> u64 {
        self.modified
    }

    pub closed spec fn spec_operation(self) -> Seq<char> {
        self.operation@
    }

    pub closed spec fn spec_status(self) -> Seq<char> {
        self.status@
    }

    pub fn new(operation: &str, now: u64) -> (r: TimeStamp)
        ensures
            r.spec_created() == now,
            r.spec_modified() == now,
            r.spec_operation() == operation@,
            r.spec_status() == "initialized"@,
    {
        TimeStamp {
            created: now,
            modified: now,
            operation: operation.to_owned(),
            status: String::from_str("initialized"),
        }
    }

    pub fn created(&self) -> (r: u64)
        ensures
            r == self.spec_created(),
    {
        self.created
    }

    pub fn modified(&self) -> (r: u64)
        ensures
            r == self.spec_modified(),
    {
        self.modified
    }

    /// Note a status change: the modification time moves, creation stays.
    pub fn update(&mut self, status: &str, now: u64)
        ensures
            final(self).spec_created() == old(self).spec_created(),
            final(self).spec_operation() == old(self).spec_operation(),
            final(self).spec_modified() == now,
            final(self).spec_status() == status@,
    {
        self.modified = now;
        self.status = status.to_owned();
    }
}

} // verus!
