use vstd::prelude::*;

verus! {

/// An identity attestation: `issuer` vouches that `subject` passed KYC checks
/// up to `kyc_level`, as of ledger time `issued_at`. A revoked record stays
/// with `valid` false.
#[derive(Debug, PartialEq, Eq)]
pub struct IdentityRecord {
    pub subject: String,
    pub issuer: String,
    pub country: String,
    pub kyc_level: u32,
    pub issued_at: u64,
    pub valid: bool,
}

impl Clone for IdentityRecord {
    fn clone(&self) -> (r: Self)
        ensures
            r == *self,
    {
        IdentityRecord {
            subject: self.subject.clone(),
            issuer: self.issuer.clone(),
            country: self.country.clone(),
            kyc_level: self.kyc_level,
            issued_at: self.issued_at,
            valid: self.valid,
        }
    }
}

/// Why an identity update was refused.
#[derive(Clone, Copy, Debug, PartialEq, Eq, Structural)]
pub enum IdentityError {
    /// No record exists for the subject.
    NotFound,
}

/// The records by subject after issuing a record: it replaces whatever the
/// subject had.
pub open spec fn issued(
    m: Map<Seq<char>, IdentityRecord>,
    subject: String,
    issuer: String,
    country: String,
    kyc_level: u32,
    issued_at: u64,
) -> Map<Seq<char>, IdentityRecord> {
    m.insert(subject@, IdentityRecord { subject, issuer, country, kyc_level, issued_at, valid: true })
}

/// The records by subject after revoking the record of `subject`, which exists.
pub open spec fn revoked(m: Map<Seq<char>, IdentityRecord>, subject: Seq<char>) -> Map<
    Seq<char>,
    IdentityRecord,
> {
    m.insert(subject, IdentityRecord { valid: false, ..m[subject] })
}

/// `subject` has a record that is still valid and attests at least `min_kyc_level`.
pub open spec fn valid_at(m: Map<Seq<char>, IdentityRecord>, subject: Seq<char>, min_kyc_level: u32) -> bool {
    &&& m.contains_key(subject)
    &&& m[subject].valid
    &&& m[subject].kyc_level >= min_kyc_level
}

/// The record of `subject`, if there is one.
pub open spec fn lookup(m: Map<Seq<char>, IdentityRecord>, subject: Seq<char>) -> Option<IdentityRecord> {
    if m.contains_key(subject) {
        Some(m[subject])
    } else {
        None
    }
}

/// Right after a record is issued for `subject`, the subject holds a valid
/// identity at level `min_kyc_level` exactly when that level is at most the
/// issued `kyc_level`, whatever the subject held before.
pub proof fn lemma_issued_identity_valid(
    m: Map<Seq<char>, IdentityRecord>,
    subject: String,
    issuer: String,
    country: String,
    kyc_level: u32,
    issued_at: u64,
    min_kyc_level: u32,
)
    ensures
        valid_at(issued(m, subject, issuer, country, kyc_level, issued_at), subject@, min_kyc_level) == (
        min_kyc_level <= kyc_level),
{
}

/// Issuing for a subject a second time replaces the first record wholesale:
/// the registry is as if the first issue had never happened.
pub proof fn lemma_reissue_replaces(
    m: Map<Seq<char>, IdentityRecord>,
    subject: String,
    issuer1: String,
    country1: String,
    kyc_level1: u32,
    issued_at1: u64,
    issuer2: String,
    country2: String,
    kyc_level2: u32,
    issued_at2: u64,
)
    ensures
        issued(
            issued(m, subject, issuer1, country1, kyc_level1, issued_at1),
            subject,
            issuer2,
            country2,
            kyc_level2,
            issued_at2,
        ) == issued(m, subject, issuer2, country2, kyc_level2, issued_at2),
{
    assert(issued(
        issued(m, subject, issuer1, country1, kyc_level1, issued_at1),
        subject,
        issuer2,
        country2,
        kyc_level2,
        issued_at2,
    ) =~= issued(m, subject, issuer2, country2, kyc_level2, issued_at2));
}

/// After the record of a known subject is revoked, the subject holds no valid
/// identity at any level, and its record is still there, unchanged but for
/// `valid`, which is false.
pub proof fn lemma_revoked_identity_invalid(m: Map<Seq<char>, IdentityRecord>, subject: Seq<char>)
    requires
        m.contains_key(subject),
    ensures
        forall|min_kyc_level: u32| !#[trigger] valid_at(revoked(m, subject), subject, min_kyc_level),
        lookup(revoked(m, subject), subject) == Some(IdentityRecord { valid: false, ..m[subject] }),
{
}

/// The identity attestation store: at most one current record per subject.
pub struct IdentityRegistry {
    records: Vec<IdentityRecord>,
    by_subject: Ghost<Map<Seq<char>, IdentityRecord>>,
}

impl View for IdentityRegistry {
    type V = Map<Seq<char>, IdentityRecord>;

    closed spec fn view(&self) -> Map<Seq<char>, IdentityRecord> {
        self.by_subject@
    }
}

impl IdentityRegistry {
    /// Each stored record is the view's record of its subject, each subject of
    /// the view has a stored record, and no two stored records share a subject.
    pub closed spec fn wf(&self) -> bool {
        let recs = self.records@;
        let m = self.by_subject@;
        &&& forall|i: int|
            0 <= i < recs.len() ==> m.contains_key((#[trigger] recs[i]).subject@) && m[recs[i].subject@]
                == recs[i]
        &&& forall|k: Seq<char>|
            #[trigger] m.contains_key(k) ==> exists|i: int| 0 <= i < recs.len() && recs[i].subject@ == k
        &&& forall|i: int, j: int|
            0 <= i < recs.len() && 0 <= j < recs.len() && i != j ==> (#[trigger] recs[i]).subject@
                != (#[trigger] recs[j]).subject@
    }

    /// A registry with no records.
    pub fn new() -> (r: Self)
        ensures
            r.wf(),
            r@ == Map::<Seq<char>, IdentityRecord>::empty(),
    {
        IdentityRegistry { records: Vec::new(), by_subject: Ghost(Map::empty()) }
    }

    /// The position of the record of `subject`, if there is one.
    fn find(&self, subject: &String) -> (r: Option<usize>)
        requires
            self.wf(),
        ensures
            r is Some <==> self@.contains_key(subject@),
            r matches Some(i) ==> i < self.records@.len() && self.records@[i as int].subject@ == subject@
                && self@[subject@] == self.records@[i as int],
    {
        let mut i: usize = 0;
        while i < self.records.len()
            invariant
                self.wf(),
                i <= self.records@.len(),
                forall|j: int| 0 <= j < i ==> (#[trigger] self.records@[j]).subject@ != subject@,
            decreases self.records@.len() - i,
        {
            if self.records[i].subject == *subject {
                return Some(i);
            }
            i += 1;
        }
        proof {
            if self@.contains_key(subject@) {
                let j = choose|j: int| 0 <= j < self.records@.len() && self.records@[j].subject@ == subject@;
                assert(self.records@[j].subject@ != subject@);
            }
        }
        None
    }

    /// Replaces the record at position `i` by `rec`, which has the same subject.
    fn replace_at(&mut self, i: usize, rec: IdentityRecord)
        requires
            old(self).wf(),
            i < old(self).records@.len(),
            rec.subject@ == old(self).records@[i as int].subject@,
        ensures
            final(self).wf(),
            final(self)@ == old(self)@.insert(rec.subject@, rec),
    {
        let ghost pre = self.records@;
        let ghost m = self.by_subject@;
        let ghost r = rec;
        self.records[i] = rec;
        self.by_subject = Ghost(m.insert(r.subject@, r));
        proof {
            let recs = self.records@;
            let m2 = self.by_subject@;
            assert(recs == pre.update(i as int, r));
            assert forall|j: int| 0 <= j < recs.len() implies m2.contains_key((#[trigger] recs[j]).subject@)
                && m2[recs[j].subject@] == recs[j] by {
                if j != i {
                    assert(pre[j].subject@ != pre[i as int].subject@);
                }
            }
            assert forall|k: Seq<char>| #[trigger] m2.contains_key(k) implies exists|j: int|
                0 <= j < recs.len() && recs[j].subject@ == k by {
                if k == r.subject@ {
                    assert(recs[i as int].subject@ == k);
                } else {
                    let j = choose|j: int| 0 <= j < pre.len() && pre[j].subject@ == k;
                    assert(recs[j].subject@ == k);
                }
            }
            assert forall|a: int, b: int|
                0 <= a < recs.len() && 0 <= b < recs.len() && a != b implies (#[trigger] recs[a]).subject@
                != (#[trigger] recs[b]).subject@ by {
                assert(pre[a].subject@ != pre[b].subject@);
            }
        }
    }

    /// Adds `rec`, whose subject has no record yet.
    fn add_new(&mut self, rec: IdentityRecord)
        requires
            old(self).wf(),
            !old(self)@.contains_key(rec.subject@),
        ensures
            final(self).wf(),
            final(self)@ == old(self)@.insert(rec.subject@, rec),
    {
        let ghost pre = self.records@;
        let ghost m = self.by_subject@;
        let ghost r = rec;
        self.records.push(rec);
        self.by_subject = Ghost(m.insert(r.subject@, r));
        proof {
            let recs = self.records@;
            let m2 = self.by_subject@;
            let n = pre.len() as int;
            assert(recs == pre.push(r));
            assert forall|j: int| 0 <= j < recs.len() implies m2.contains_key((#[trigger] recs[j]).subject@)
                && m2[recs[j].subject@] == recs[j] by {
                if j != n {
                    assert(m.contains_key(pre[j].subject@));
                }
            }
            assert forall|k: Seq<char>| #[trigger] m2.contains_key(k) implies exists|j: int|
                0 <= j < recs.len() && recs[j].subject@ == k by {
                if k == r.subject@ {
                    assert(recs[n].subject@ == k);
                } else {
                    let j = choose|j: int| 0 <= j < pre.len() && pre[j].subject@ == k;
                    assert(recs[j].subject@ == k);
                }
            }
            assert forall|a: int, b: int|
                0 <= a < recs.len() && 0 <= b < recs.len() && a != b implies (#[trigger] recs[a]).subject@
                != (#[trigger] recs[b]).subject@ by {
                if a == n {
                    assert(m.contains_key(pre[b].subject@));
                } else if b == n {
                    assert(m.contains_key(pre[a].subject@));
                } else {
                    assert(pre[a].subject@ != pre[b].subject@);
                }
            }
        }
    }

    /// Records that `issuer` attests `subject` at `kyc_level` in `country`, as
    /// of `now` (the ledger clock, read by the caller). The new record is
    /// valid and replaces any earlier record of `subject` wholesale. Who may
    /// issue is not restricted here.
    pub fn issue_identity(&mut self, subject: String, issuer: String, country: String, kyc_level: u32, now: u64)
        requires
            old(self).wf(),
        ensures
            final(self).wf(),
            final(self)@ == issued(old(self)@, subject, issuer, country, kyc_level, now),
    {
        let found = self.find(&subject);
        let rec = IdentityRecord { subject, issuer, country, kyc_level, issued_at: now, valid: true };
        match found {
            Some(i) => self.replace_at(i, rec),
            None => self.add_new(rec),
        }
    }

    /// Marks the record of `subject` as no longer valid, keeping it otherwise
    /// as it was. Fails with `NotFound`, changing nothing, where `subject` has
    /// no record.
    pub fn revoke_identity(&mut self, subject: &String) -> (r: Result<(), IdentityError>)
        requires
            old(self).wf(),
        ensures
            final(self).wf(),
            old(self)@.contains_key(subject@) ==> r == Ok::<(), IdentityError>(()) && final(self)@
                == revoked(old(self)@, subject@),
            !old(self)@.contains_key(subject@) ==> r == Err::<(), IdentityError>(IdentityError::NotFound)
                && final(self)@ == old(self)@,
    {
        match self.find(subject) {
            Some(i) => {
                let mut rec = self.records[i].clone();
                rec.valid = false;
                self.replace_at(i, rec);
                Ok(())
            },
            None => Err(IdentityError::NotFound),
        }
    }

    /// Whether `subject` holds a valid record at `min_kyc_level` or above;
    /// false where it has no record.
    pub fn has_valid_identity(&self, subject: &String, min_kyc_level: u32) -> (r: bool)
        requires
            self.wf(),
        ensures
            r == valid_at(self@, subject@, min_kyc_level),
    {
        match self.find(subject) {
            Some(i) => self.records[i].valid && self.records[i].kyc_level >= min_kyc_level,
            None => false,
        }
    }

    /// The record of `subject`, valid or revoked, if there is one.
    pub fn get_identity(&self, subject: &String) -> (r: Option<IdentityRecord>)
        requires
            self.wf(),
        ensures
            r == lookup(self@, subject@),
    {
        match self.find(subject) {
            Some(i) => Some(self.records[i].clone()),
            None => None,
        }
    }
}

} // verus!
