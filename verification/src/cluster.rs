use vstd::prelude::*;

verus! {

/// Why cluster formation failed or a routed batch was refused.
#[derive(Clone, Copy, Debug, PartialEq, Eq, Structural)]
pub enum ConfigError {
    /// The member list was empty: no partition target exists.
    EmptyCluster,
    /// A routed message named a target outside the member list.
    InvalidTarget,
}

/// A snapshot of cluster membership. Members carry the dense identifiers
/// `0 .. size`, fixed for the lifetime of a run.
pub struct ClusterView {
    size: u32,
}

impl ClusterView {
    /// A view is only ever formed over at least one member.
    #[verifier::type_invariant]
    pub closed spec fn wf(&self) -> bool {
        self.size >= 1
    }

    /// The number of members in this snapshot.
    pub closed spec fn spec_size(&self) -> u32 {
        self.size
    }

    /// Forming a view over an empty member list fails fast; every view
    /// that exists has at least one member.
    pub fn new(size: u32) -> (r: Result<ClusterView, ConfigError>)
        ensures
            size == 0 <==> r is Err,
            r is Err ==> r->Err_0 == ConfigError::EmptyCluster,
            r is Ok ==> r->Ok_0.spec_size() == size,
    {
        if size == 0 {
            Err(ConfigError::EmptyCluster)
        } else {
            Ok(ClusterView { size })
        }
    }

    pub fn size(&self) -> (r: u32)
        ensures
            r == self.spec_size(),
            r >= 1,
    {
        proof {
            use_type_invariant(self);
        }
        self.size
    }

    /// The member identifiers, dense and in ascending order.
    pub fn ids(&self) -> (r: Vec<u32>)
        ensures
            r@.len() == self.spec_size(),
            forall|i: int| 0 <= i < r@.len() ==> r@[i] == i,
    {
        let n = self.size();
        let mut out: Vec<u32> = Vec::new();
        let mut i: u32 = 0;
        while i < n
            invariant
                i <= n,
                out@.len() == i,
                forall|k: int| 0 <= k < i ==> out@[k] == k,
            decreases n - i,
        {
            out.push(i);
            i = i + 1;
        }
        out
    }
}

} // verus!
