//! Tracking which deploys of a block are still to be fetched. Deploys are
//! first known by hash alone; once the approvals hashes of the block are
//! learned, tracking switches to full identifiers (hash plus approvals
//! hash). Each deploy is either still vacant or its body has arrived.

use vstd::prelude::*;

verus! {

/// Hash of a deploy's body.
#[derive(Clone, Copy, PartialEq, Eq, Hash, Debug, Structural)]
pub struct DeployHash {
    pub value: u64,
}

/// Hash of a deploy's finalized approvals.
#[derive(Clone, Copy, PartialEq, Eq, Hash, Debug, Structural)]
pub struct ApprovalsHash {
    pub value: u64,
}

/// Full identifier of a deploy: its body hash and its approvals hash.
#[derive(Clone, Copy, PartialEq, Eq, Hash, Debug, Structural)]
pub struct DeployId {
    pub deploy_hash: DeployHash,
    pub approvals_hash: ApprovalsHash,
}

impl DeployId {
    /// A full identifier from its two hashes.
    pub fn new(deploy_hash: DeployHash, approvals_hash: ApprovalsHash) -> (r: DeployId)
        ensures
            r == (DeployId { deploy_hash, approvals_hash }),
    {
        DeployId { deploy_hash, approvals_hash }
    }

    /// The deploy's body hash.
    pub fn deploy_hash(&self) -> (r: DeployHash)
        ensures
            r == self.deploy_hash,
    {
        self.deploy_hash
    }
}

/// The approvals hashes of a block, one per deploy, in deploy order.
#[derive(Clone, PartialEq, Eq, Debug)]
pub struct ApprovalsHashes {
    pub approvals_hashes: Vec<ApprovalsHash>,
}

impl ApprovalsHashes {
    /// The per-deploy approvals hashes, in deploy order.
    pub fn approvals_hashes(&self) -> (r: &Vec<ApprovalsHash>)
        ensures
            r == &self.approvals_hashes,
    {
        &self.approvals_hashes
    }
}

/// Whether a tracked deploy's body has arrived.
#[derive(Clone, Copy, PartialEq, Eq, Debug, Default, Structural)]
pub enum DeployState {
    /// Still to be fetched.
    #[default]
    Vacant,
    /// The body is here.
    HaveDeployBody,
}

/// Why switching to full identifiers was refused.
#[derive(Clone, Copy, PartialEq, Eq, Debug, Structural)]
pub enum AcquisitionError {
    /// A deploy body already arrived under hash-only tracking; the switch
    /// would discard that knowledge (a peer sent duplicate approvals).
    NonVacantDeployState,
    /// Tracking already uses full identifiers.
    AlreadyById,
}

/// Some tracked deploy is still vacant.
pub open spec fn has_vacant<T>(s: Seq<(T, DeployState)>) -> bool {
    exists|i: int| 0 <= i < s.len() && s[i].1 is Vacant
}

/// Per-identifier acquisition state, ordered as the deploys appear in the
/// block.
#[derive(Clone, PartialEq, Eq, Debug)]
pub struct Acquisition<T> {
    /// Each tracked identifier with its state, in block order.
    pub inner: Vec<(T, DeployState)>,
    /// Whether execution results are wanted besides the bodies.
    pub need_execution_result: bool,
}

impl<T: Copy> Acquisition<T> {
    /// Track the given identifiers, all still vacant.
    pub fn new(deploy_identifiers: Vec<T>, need_execution_result: bool) -> (r: Acquisition<T>)
        ensures
            r.inner@.len() == deploy_identifiers@.len(),
            forall|i: int|
                0 <= i < deploy_identifiers@.len() ==> #[trigger] r.inner@[i] == (
                deploy_identifiers@[i],
                DeployState::Vacant,
            ),
            r.need_execution_result == need_execution_result,
    {
        let mut inner: Vec<(T, DeployState)> = Vec::new();
        let mut i: usize = 0;
        while i < deploy_identifiers.len()
            invariant
                0 <= i <= deploy_identifiers@.len(),
                inner@.len() == i,
                forall|k: int|
                    0 <= k < i ==> #[trigger] inner@[k] == (
                    deploy_identifiers@[k],
                    DeployState::Vacant,
                ),
            decreases deploy_identifiers@.len() - i,
        {
            inner.push((deploy_identifiers[i], DeployState::Vacant));
            i += 1;
        }
        Acquisition { inner, need_execution_result }
    }

    /// A deploy body arrived: append the identifier as fetched.
    pub fn apply_deploy(&mut self, deploy_identifier: T)
        ensures
            final(self).inner@ == old(self).inner@.push(
                (deploy_identifier, DeployState::HaveDeployBody),
            ),
            final(self).need_execution_result == old(self).need_execution_result,
    {
        self.inner.push((deploy_identifier, DeployState::HaveDeployBody));
    }

    /// The first identifier whose body is still missing, if any.
    pub fn needs_deploy(&self) -> (r: Option<T>)
        ensures
            r is Some <==> has_vacant(self.inner@),
            r matches Some(t) ==> exists|i: int|
                0 <= i < self.inner@.len() && (#[trigger] self.inner@[i]).1 is Vacant
                    && self.inner@[i].0 == t && (forall|j: int|
                    0 <= j < i ==> !((#[trigger] self.inner@[j]).1 is Vacant)),
    {
        let mut i: usize = 0;
        while i < self.inner.len()
            invariant
                0 <= i <= self.inner@.len(),
                forall|k: int| 0 <= k < i ==> !((#[trigger] self.inner@[k]).1 is Vacant),
            decreases self.inner@.len() - i,
        {
            match self.inner[i].1 {
                DeployState::Vacant => {
                    return Some(self.inner[i].0);
                },
                DeployState::HaveDeployBody => {},
            }
            i += 1;
        }
        None
    }
}

/// An identifier a deploy can still be fetched by: hash only, or the full
/// identifier.
#[derive(Clone, Copy, PartialEq, Eq, Debug, Structural)]
pub enum DeployIdentifier {
    /// Known by body hash alone.
    ByHash(DeployHash),
    /// Known by full identifier.
    ById(DeployId),
}

/// Acquisition of a block's deploys: by hash until the approvals hashes are
/// learned, by full identifier afterwards.
#[derive(Clone, PartialEq, Eq, Debug)]
pub enum DeployAcquisition {
    /// Tracking by body hash alone.
    ByHash(Acquisition<DeployHash>),
    /// Tracking by full identifier.
    ById(Acquisition<DeployId>),
}

impl DeployAcquisition {
    /// Track the given body hashes, all still vacant.
    pub fn new_by_hash(deploy_hashes: Vec<DeployHash>, need_execution_result: bool) -> (r:
        DeployAcquisition)
        ensures
            r matches DeployAcquisition::ByHash(a) && a.inner@.len() == deploy_hashes@.len() && (
            forall|i: int|
                0 <= i < deploy_hashes@.len() ==> #[trigger] a.inner@[i] == (
                deploy_hashes@[i],
                DeployState::Vacant,
            )) && a.need_execution_result == need_execution_result,
    {
        DeployAcquisition::ByHash(Acquisition::new(deploy_hashes, need_execution_result))
    }

    /// Track the given full identifiers, all still vacant.
    pub fn new_by_id(deploy_ids: Vec<DeployId>, need_execution_result: bool) -> (r:
        DeployAcquisition)
        ensures
            r matches DeployAcquisition::ById(a) && a.inner@.len() == deploy_ids@.len() && (
            forall|i: int|
                0 <= i < deploy_ids@.len() ==> #[trigger] a.inner@[i] == (
                deploy_ids@[i],
                DeployState::Vacant,
            )) && a.need_execution_result == need_execution_result,
    {
        DeployAcquisition::ById(Acquisition::new(deploy_ids, need_execution_result))
    }

    /// A deploy body arrived: append it as fetched, under the hash or the
    /// full identifier according to the current tracking.
    pub fn apply_deploy(&mut self, deploy_id: DeployId)
        ensures
            (*old(self) matches DeployAcquisition::ByHash(a) ==> *final(self) matches
                DeployAcquisition::ByHash(a2) && a2.inner@ == a.inner@.push(
                (deploy_id.deploy_hash, DeployState::HaveDeployBody),
            ) && a2.need_execution_result == a.need_execution_result),
            (*old(self) matches DeployAcquisition::ById(a) ==> *final(self) matches
                DeployAcquisition::ById(a2) && a2.inner@ == a.inner@.push(
                (deploy_id, DeployState::HaveDeployBody),
            ) && a2.need_execution_result == a.need_execution_result),
    {
        match self {
            DeployAcquisition::ByHash(acquisition) => {
                acquisition.apply_deploy(deploy_id.deploy_hash())
            },
            DeployAcquisition::ById(acquisition) => acquisition.apply_deploy(deploy_id),
        }
    }

    /// The approvals hashes arrived: switch hash-only tracking to full
    /// identifiers, pairing each hash with its approvals hash in order (the
    /// shorter of the two lists bounds the result). Refused without any
    /// change when a body already arrived under hash-only tracking, or when
    /// tracking already switched.
    pub fn apply_approvals_hashes(&mut self, approvals_hashes: &ApprovalsHashes) -> (result:
        Result<(), AcquisitionError>)
        ensures
            (*old(self) matches DeployAcquisition::ById(_) ==> result == Err::<
                (),
                AcquisitionError,
            >(AcquisitionError::AlreadyById) && *final(self) == *old(self)),
            (*old(self) matches DeployAcquisition::ByHash(a) ==> {
                let n = if a.inner@.len() <= approvals_hashes.approvals_hashes@.len() {
                    a.inner@.len() as int
                } else {
                    approvals_hashes.approvals_hashes@.len() as int
                };
                &&& ((exists|i: int| 0 <= i < n && !((#[trigger] a.inner@[i]).1 is Vacant))
                    ==> result == Err::<(), AcquisitionError>(
                    AcquisitionError::NonVacantDeployState,
                ) && *final(self) == *old(self))
                &&& ((forall|i: int| 0 <= i < n ==> (#[trigger] a.inner@[i]).1 is Vacant) ==> {
                    &&& result is Ok
                    &&& (*final(self) matches DeployAcquisition::ById(b) ==> {
                        &&& b.need_execution_result == a.need_execution_result
                        &&& b.inner@.len() == n
                        &&& (forall|i: int|
                            0 <= i < n ==> #[trigger] b.inner@[i] == (
                            DeployId {
                                deploy_hash: a.inner@[i].0,
                                approvals_hash: approvals_hashes.approvals_hashes@[i],
                            },
                            DeployState::Vacant,
                        ))
                    })
                    &&& (*final(self) matches DeployAcquisition::ById(_))
                })
            }),
    {
        let is_by_id = match &*self {
            DeployAcquisition::ByHash(_) => false,
            DeployAcquisition::ById(_) => true,
        };
        if is_by_id {
            return Err(AcquisitionError::AlreadyById);
        }
        let mut new_ids: Vec<(DeployId, DeployState)> = Vec::new();
        let need_execution_result;
        match &*self {
            DeployAcquisition::ById(_) => {
                return Err(AcquisitionError::AlreadyById);
            },
            DeployAcquisition::ByHash(acquisition) => {
                let n = if acquisition.inner.len() <= approvals_hashes.approvals_hashes.len() {
                    acquisition.inner.len()
                } else {
                    approvals_hashes.approvals_hashes.len()
                };
                let mut i: usize = 0;
                while i < n
                    invariant
                        *self == *old(self),
                        *old(self) matches DeployAcquisition::ByHash(acq0) && acq0
                            == *acquisition,
                        n as int == (if acquisition.inner@.len()
                            <= approvals_hashes.approvals_hashes@.len() {
                            acquisition.inner@.len() as int
                        } else {
                            approvals_hashes.approvals_hashes@.len() as int
                        }),
                        0 <= i <= n,
                        n <= acquisition.inner@.len(),
                        forall|k: int|
                            0 <= k < i ==> (#[trigger] acquisition.inner@[k]).1 is Vacant,
                    decreases n - i,
                {
                    match acquisition.inner[i].1 {
                        DeployState::Vacant => {},
                        DeployState::HaveDeployBody => {
                            return Err(AcquisitionError::NonVacantDeployState);
                        },
                    }
                    i += 1;
                }
                let mut i: usize = 0;
                while i < n
                    invariant
                        *self == *old(self),
                        *old(self) matches DeployAcquisition::ByHash(acq0) && acq0
                            == *acquisition,
                        n as int == (if acquisition.inner@.len()
                            <= approvals_hashes.approvals_hashes@.len() {
                            acquisition.inner@.len() as int
                        } else {
                            approvals_hashes.approvals_hashes@.len() as int
                        }),
                        0 <= i <= n,
                        n <= acquisition.inner@.len(),
                        n <= approvals_hashes.approvals_hashes@.len(),
                        new_ids@.len() == i,
                        forall|k: int|
                            0 <= k < i ==> #[trigger] new_ids@[k] == (
                            DeployId {
                                deploy_hash: acquisition.inner@[k].0,
                                approvals_hash: approvals_hashes.approvals_hashes@[k],
                            },
                            DeployState::Vacant,
                        ),
                    decreases n - i,
                {
                    new_ids.push(
                        (
                            DeployId {
                                deploy_hash: acquisition.inner[i].0,
                                approvals_hash: approvals_hashes.approvals_hashes[i],
                            },
                            DeployState::Vacant,
                        ),
                    );
                    i += 1;
                }
                need_execution_result = acquisition.need_execution_result;
            },
        }
        *self = DeployAcquisition::ById(Acquisition { inner: new_ids, need_execution_result });
        Ok(())
    }

    /// The first deploy whose body is still missing, under the identifier
    /// it can be fetched by, if any.
    pub fn needs_deploy(&self) -> (r: Option<DeployIdentifier>)
        ensures
            (self matches DeployAcquisition::ByHash(a) ==> {
                &&& (r is Some <==> has_vacant(a.inner@))
                &&& (r matches Some(d) ==> d matches DeployIdentifier::ByHash(h) && (exists|
                    i: int,
                |
                    0 <= i < a.inner@.len() && (#[trigger] a.inner@[i]).1 is Vacant
                        && a.inner@[i].0 == h && (forall|j: int|
                        0 <= j < i ==> !((#[trigger] a.inner@[j]).1 is Vacant))))
            }),
            (self matches DeployAcquisition::ById(a) ==> {
                &&& (r is Some <==> has_vacant(a.inner@))
                &&& (r matches Some(d) ==> d matches DeployIdentifier::ById(id) && (exists|
                    i: int,
                |
                    0 <= i < a.inner@.len() && (#[trigger] a.inner@[i]).1 is Vacant
                        && a.inner@[i].0 == id && (forall|j: int|
                        0 <= j < i ==> !((#[trigger] a.inner@[j]).1 is Vacant))))
            }),
    {
        match self {
            DeployAcquisition::ByHash(acquisition) => match acquisition.needs_deploy() {
                Some(h) => Some(DeployIdentifier::ByHash(h)),
                None => None,
            },
            DeployAcquisition::ById(acquisition) => match acquisition.needs_deploy() {
                Some(id) => Some(DeployIdentifier::ById(id)),
                None => None,
            },
        }
    }

    /// The body hashes of every tracked deploy, in block order.
    pub fn deploy_hashes(&self) -> (r: Vec<DeployHash>)
        ensures
            (self matches DeployAcquisition::ByHash(a) ==> r@.len() == a.inner@.len() && (
            forall|i: int|
                0 <= i < a.inner@.len() ==> #[trigger] r@[i] == a.inner@[i].0)),
            (self matches DeployAcquisition::ById(a) ==> r@.len() == a.inner@.len() && (forall|
                i: int,
            |
                0 <= i < a.inner@.len() ==> #[trigger] r@[i] == a.inner@[i].0.deploy_hash)),
    {
        let mut r: Vec<DeployHash> = Vec::new();
        match self {
            DeployAcquisition::ByHash(acquisition) => {
                let mut i: usize = 0;
                while i < acquisition.inner.len()
                    invariant
                        0 <= i <= acquisition.inner@.len(),
                        r@.len() == i,
                        forall|k: int|
                            0 <= k < i ==> #[trigger] r@[k] == acquisition.inner@[k].0,
                    decreases acquisition.inner@.len() - i,
                {
                    r.push(acquisition.inner[i].0);
                    i += 1;
                }
            },
            DeployAcquisition::ById(acquisition) => {
                let mut i: usize = 0;
                while i < acquisition.inner.len()
                    invariant
                        0 <= i <= acquisition.inner@.len(),
                        r@.len() == i,
                        forall|k: int|
                            0 <= k < i ==> #[trigger] r@[k]
                                == acquisition.inner@[k].0.deploy_hash,
                    decreases acquisition.inner@.len() - i,
                {
                    r.push(acquisition.inner[i].0.deploy_hash());
                    i += 1;
                }
            },
        }
        r
    }
}

} // verus!
