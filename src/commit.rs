//! Commits as read from the repository backend.

use vstd::prelude::*;

verus! {

/// A content-addressed commit identifier: the 160-bit object id, held as
/// three big-endian words (bytes 0..8, 8..16 and 16..20).
#[derive(Clone, Copy, Debug, PartialEq, Eq, Hash, Structural)]
pub struct CommitId {
    pub hi: u64,
    pub mid: u64,
    pub lo: u32,
}

/// One commit of the snapshot.
#[derive(Debug)]
pub struct CommitInfo {
    pub oid: CommitId,
    pub short_id: String,
    pub author_name: String,
    pub author_email: String,
    /// Author time, in seconds since the Unix epoch.
    pub timestamp: i64,
    /// First line of the message.
    pub message: String,
    pub full_message: String,
    /// Parents in order; the first one is the mainline parent of a merge.
    pub parent_oids: Vec<CommitId>,
}

impl Clone for CommitInfo {
    fn clone(&self) -> (r: Self)
        ensures
            r.oid == self.oid,
            r.short_id == self.short_id,
            r.author_name == self.author_name,
            r.author_email == self.author_email,
            r.timestamp == self.timestamp,
            r.message == self.message,
            r.full_message == self.full_message,
            r.parent_oids@ == self.parent_oids@,
    {
        let mut parents: Vec<CommitId> = Vec::new();
        let mut i: usize = 0;
        while i < self.parent_oids.len()
            invariant
                i <= self.parent_oids.len(),
                parents@ == self.parent_oids@.subrange(0, i as int),
            decreases self.parent_oids.len() - i,
        {
            parents.push(self.parent_oids[i]);
            i += 1;
        }
        assert(parents@ == self.parent_oids@);
        CommitInfo {
            oid: self.oid,
            short_id: self.short_id.clone(),
            author_name: self.author_name.clone(),
            author_email: self.author_email.clone(),
            timestamp: self.timestamp,
            message: self.message.clone(),
            full_message: self.full_message.clone(),
            parent_oids: parents,
        }
    }
}

} // verus!
