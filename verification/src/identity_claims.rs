//! Identity claims: attestations that issuers make about an identity, each on
//! a numbered topic. An issuer holds at most one claim per topic on an
//! identity: adding a claim for the same issuer and topic replaces it in
//! place. A claim is named by an identifier derived from its issuer and
//! topic alone.

use crate::common::Address;
use std::string::String;
use std::vec::Vec;
use vstd::prelude::*;

verus! {

/// Errors of identity claims.
#[derive(Clone, Copy, Debug, PartialEq, Eq, Structural)]
pub enum ClaimsError {
    /// No claim has the given identifier.
    ClaimNotFound,
    /// A claim's signature is invalid.
    InvalidSignature,
}

impl ClaimsError {
    /// The numeric contract error code of this error.
    pub fn code(&self) -> (c: u32)
        ensures
            c == (match *self {
                ClaimsError::ClaimNotFound => 1u32,
                ClaimsError::InvalidSignature => 2u32,
            }),
    {
        match self {
            ClaimsError::ClaimNotFound => 1,
            ClaimsError::InvalidSignature => 2,
        }
    }
}

/// The kind of change made to a claim.
#[derive(Clone, Copy, Debug, PartialEq, Eq, Structural)]
pub enum ClaimEvent {
    Added,
    Removed,
    Changed,
}

/// A claim about an identity.
#[derive(Clone, Debug, PartialEq, Eq)]
pub struct Claim {
    /// The claim's topic.
    pub topic: u32,
    /// The signature scheme used.
    pub scheme: u32,
    /// The issuer of the claim.
    pub issuer: Address,
    /// The issuer's signature.
    pub signature: Vec<u8>,
    /// The claim's data.
    pub data: Vec<u8>,
    /// Where more about the claim can be found.
    pub uri: String,
}

/// The mathematical value of a [`Claim`].
pub struct ClaimView {
    pub topic: u32,
    pub scheme: u32,
    pub issuer: Address,
    pub signature: Seq<u8>,
    pub data: Seq<u8>,
    pub uri: Seq<char>,
}

impl View for Claim {
    type V = ClaimView;

    open spec fn view(&self) -> ClaimView {
        ClaimView {
            topic: self.topic,
            scheme: self.scheme,
            issuer: self.issuer,
            signature: self.signature@,
            data: self.data@,
            uri: self.uri@,
        }
    }
}

/// The identifier of the claim of `issuer` on `topic`: the issuer's eight
/// bytes and the topic's four, most significant first, then zeros.
pub open spec fn spec_claim_id(issuer: u64, topic: u32) -> Seq<u8> {
    seq![
        (issuer >> 56u64) as u8,
        (issuer >> 48u64) as u8,
        (issuer >> 40u64) as u8,
        (issuer >> 32u64) as u8,
        (issuer >> 24u64) as u8,
        (issuer >> 16u64) as u8,
        (issuer >> 8u64) as u8,
        issuer as u8,
        (topic >> 24u32) as u8,
        (topic >> 16u32) as u8,
        (topic >> 8u32) as u8,
        topic as u8,
    ] + Seq::new(20, |k: int| 0u8)
}

/// Two claims have the same identifier exactly when they have the same
/// issuer and topic.
pub proof fn lemma_claim_id_injective(i1: u64, t1: u32, i2: u64, t2: u32)
    ensures
        spec_claim_id(i1, t1) == spec_claim_id(i2, t2) <==> (i1 == i2 && t1 == t2),
{
    if spec_claim_id(i1, t1) == spec_claim_id(i2, t2) {
        let a = spec_claim_id(i1, t1);
        let b = spec_claim_id(i2, t2);
        assert(a[0] == b[0] && a[1] == b[1] && a[2] == b[2] && a[3] == b[3]);
        assert(a[4] == b[4] && a[5] == b[5] && a[6] == b[6] && a[7] == b[7]);
        assert(a[8] == b[8] && a[9] == b[9] && a[10] == b[10] && a[11] == b[11]);
        assert(i1 == i2) by (bit_vector)
            requires
                (i1 >> 56u64) as u8 == (i2 >> 56u64) as u8,
                (i1 >> 48u64) as u8 == (i2 >> 48u64) as u8,
                (i1 >> 40u64) as u8 == (i2 >> 40u64) as u8,
                (i1 >> 32u64) as u8 == (i2 >> 32u64) as u8,
                (i1 >> 24u64) as u8 == (i2 >> 24u64) as u8,
                (i1 >> 16u64) as u8 == (i2 >> 16u64) as u8,
                (i1 >> 8u64) as u8 == (i2 >> 8u64) as u8,
                i1 as u8 == i2 as u8,
        ;
        assert(t1 == t2) by (bit_vector)
            requires
                (t1 >> 24u32) as u8 == (t2 >> 24u32) as u8,
                (t1 >> 16u32) as u8 == (t2 >> 16u32) as u8,
                (t1 >> 8u32) as u8 == (t2 >> 8u32) as u8,
                t1 as u8 == t2 as u8,
        ;
    }
}

/// Returns the identifier of the claim of `issuer` on `topic`.
pub fn claim_id(issuer: Address, topic: u32) -> (id: [u8; 32])
    ensures
        id@ == spec_claim_id(issuer, topic),
{
    let id: [u8; 32] = [
        (issuer >> 56u64) as u8,
        (issuer >> 48u64) as u8,
        (issuer >> 40u64) as u8,
        (issuer >> 32u64) as u8,
        (issuer >> 24u64) as u8,
        (issuer >> 16u64) as u8,
        (issuer >> 8u64) as u8,
        issuer as u8,
        (topic >> 24u32) as u8,
        (topic >> 16u32) as u8,
        (topic >> 8u32) as u8,
        topic as u8,
        0,
        0,
        0,
        0,
        0,
        0,
        0,
        0,
        0,
        0,
        0,
        0,
        0,
        0,
        0,
        0,
        0,
        0,
        0,
        0,
    ];
    assert(id@ =~= spec_claim_id(issuer, topic));
    id
}

/// The claims held on an identity, in the order in which they were first
/// added.
pub struct IdentityClaimsStore {
    claims: Vec<Claim>,
}

/// The identifier of claim `c`.
pub open spec fn id_of(c: ClaimView) -> Seq<u8> {
    spec_claim_id(c.issuer, c.topic)
}

/// No two claims share an issuer and a topic.
pub open spec fn claims_distinct(cs: Seq<ClaimView>) -> bool {
    forall|i: int, j: int|
        0 <= i < j < cs.len() ==> !(#[trigger] cs[i].issuer == #[trigger] cs[j].issuer && cs[i].topic
            == cs[j].topic)
}

/// The index of the claim with identifier `id` in `cs`, or `-1`.
pub open spec fn index_of_id(cs: Seq<ClaimView>, id: Seq<u8>) -> int {
    if exists|i: int| 0 <= i < cs.len() && id_of(#[trigger] cs[i]) == id {
        choose|i: int| 0 <= i < cs.len() && id_of(#[trigger] cs[i]) == id
    } else {
        -1
    }
}

/// The identifiers of the claims of `cs` on `topic`, in order.
pub open spec fn ids_on_topic(cs: Seq<ClaimView>, topic: u32) -> Seq<Seq<u8>>
    decreases cs.len(),
{
    if cs.len() == 0 {
        Seq::empty()
    } else if cs.last().topic == topic {
        ids_on_topic(cs.drop_last(), topic).push(id_of(cs.last()))
    } else {
        ids_on_topic(cs.drop_last(), topic)
    }
}

/// In a list of distinct claims, a claim's index is the index of its
/// identifier.
proof fn lemma_index_of_id(cs: Seq<ClaimView>, i: int)
    requires
        claims_distinct(cs),
        0 <= i < cs.len(),
    ensures
        index_of_id(cs, id_of(cs[i])) == i,
{
    let k = index_of_id(cs, id_of(cs[i]));
    assert(0 <= k < cs.len() && id_of(cs[k]) == id_of(cs[i]));
    lemma_claim_id_injective(cs[k].issuer, cs[k].topic, cs[i].issuer, cs[i].topic);
    if k != i {
        if k < i {
            assert(!(cs[k].issuer == cs[i].issuer && cs[k].topic == cs[i].topic));
        } else {
            assert(!(cs[i].issuer == cs[k].issuer && cs[i].topic == cs[k].topic));
        }
    }
}

impl IdentityClaimsStore {
    /// The claims, in order.
    pub closed spec fn claims(&self) -> Seq<ClaimView> {
        self.claims@.map_values(|c: Claim| c@)
    }

    /// No two claims share an issuer and a topic.
    pub open spec fn wf(&self) -> bool {
        claims_distinct(self.claims())
    }

    /// The claim with identifier `id`, if any.
    pub open spec fn claim_with_id(&self, id: Seq<u8>) -> Option<ClaimView> {
        if index_of_id(self.claims(), id) >= 0 {
            Some(self.claims()[index_of_id(self.claims(), id)])
        } else {
            None
        }
    }

    /// No claim.
    pub fn new() -> (s: Self)
        ensures
            s.wf(),
            s.claims() == Seq::<ClaimView>::empty(),
    {
        let s = IdentityClaimsStore { claims: Vec::new() };
        assert(s.claims() =~= Seq::<ClaimView>::empty());
        s
    }
}

/// Whether two identifiers are equal.
fn same_id(a: &[u8; 32], b: &[u8; 32]) -> (r: bool)
    ensures
        r == (a@ == b@),
{
    let mut i: usize = 0;
    while i < 32
        invariant
            i <= 32,
            a@.len() == 32,
            b@.len() == 32,
            forall|j: int| 0 <= j < i ==> a@[j] == b@[j],
        decreases 32 - i,
    {
        if a[i] != b[i] {
            return false;
        }
        i = i + 1;
    }
    assert(a@ =~= b@);
    true
}

/// Copies a byte string.
fn copy_bytes(v: &Vec<u8>) -> (out: Vec<u8>)
    ensures
        out@ == v@,
{
    let mut out: Vec<u8> = Vec::new();
    let mut i: usize = 0;
    while i < v.len()
        invariant
            i <= v.len(),
            out@ == v@.take(i as int),
        decreases v.len() - i,
    {
        out.push(v[i]);
        proof {
            assert(v@.take(i + 1) =~= v@.take(i as int).push(v@[i as int]));
        }
        i = i + 1;
    }
    assert(v@.take(v@.len() as int) =~= v@);
    out
}

/// A copy of a claim.
fn copy_claim(c: &Claim) -> (out: Claim)
    ensures
        out@ == c@,
{
    Claim {
        topic: c.topic,
        scheme: c.scheme,
        issuer: c.issuer,
        signature: copy_bytes(&c.signature),
        data: copy_bytes(&c.data),
        uri: c.uri.clone(),
    }
}

/// Finds the claim with identifier `id`.
fn find_id(s: &IdentityClaimsStore, id: &[u8; 32]) -> (r: Option<usize>)
    requires
        s.wf(),
    ensures
        match r {
            Some(i) => i == index_of_id(s.claims(), id@) && i < s.claims().len(),
            None => index_of_id(s.claims(), id@) == -1,
        },
{
    let mut i: usize = 0;
    while i < s.claims.len()
        invariant
            i <= s.claims.len(),
            s.wf(),
            forall|j: int| 0 <= j < i ==> id_of(#[trigger] s.claims()[j]) != id@,
        decreases s.claims.len() - i,
    {
        let cid = claim_id(s.claims[i].issuer, s.claims[i].topic);
        proof {
            assert(s.claims()[i as int] == s.claims@[i as int]@);
        }
        if same_id(&cid, id) {
            proof {
                lemma_index_of_id(s.claims(), i as int);
            }
            return Some(i);
        }
        i = i + 1;
    }
    proof {
        assert(!exists|k: int| 0 <= k < s.claims().len() && id_of(#[trigger] s.claims()[k]) == id@);
    }
    None
}

/// Finds the claim of `issuer` on `topic`.
fn find_claim(s: &IdentityClaimsStore, issuer: Address, topic: u32) -> (r: Option<usize>)
    requires
        s.wf(),
    ensures
        match r {
            Some(i) => i == index_of_id(s.claims(), spec_claim_id(issuer, topic)) && i < s.claims().len(),
            None => index_of_id(s.claims(), spec_claim_id(issuer, topic)) == -1,
        },
{
    let id = claim_id(issuer, topic);
    find_id(s, &id)
}

/// Returns the claim with identifier `claim_id`.
///
/// # Errors
///
/// * [`ClaimsError::ClaimNotFound`] - When no claim has that identifier.
pub fn get_claim(s: &IdentityClaimsStore, claim_id: &[u8; 32]) -> (r: Result<Claim, ClaimsError>)
    requires
        s.wf(),
    ensures
        match s.claim_with_id(claim_id@) {
            Some(c) => r matches Ok(claim) && claim@ == c,
            None => r == Err::<Claim, ClaimsError>(ClaimsError::ClaimNotFound),
        },
{
    match find_id(s, claim_id) {
        Some(i) => {
            proof {
                assert(s.claims()[i as int] == s.claims@[i as int]@);
            }
            Ok(copy_claim(&s.claims[i]))
        },
        None => Err(ClaimsError::ClaimNotFound),
    }
}

/// Adds the claim of `issuer` on `topic`, or replaces it in place, and
/// returns its identifier.
pub fn add_claim(
    s: &mut IdentityClaimsStore,
    topic: u32,
    scheme: u32,
    issuer: Address,
    signature: &Vec<u8>,
    data: &Vec<u8>,
    uri: &String,
) -> (id: [u8; 32])
    requires
        old(s).wf(),
    ensures
        final(s).wf(),
        id@ == spec_claim_id(issuer, topic),
        ({
            let c = ClaimView {
                topic,
                scheme,
                issuer,
                signature: signature@,
                data: data@,
                uri: uri@,
            };
            let k = index_of_id(old(s).claims(), id@);
            if k >= 0 {
                final(s).claims() == old(s).claims().update(k, c)
            } else {
                final(s).claims() == old(s).claims().push(c)
            }
        }),
{
    let claim = Claim {
        topic,
        scheme,
        issuer,
        signature: copy_bytes(signature),
        data: copy_bytes(data),
        uri: uri.clone(),
    };
    let ghost c = claim@;
    let id = claim_id(issuer, topic);
    match find_claim(s, issuer, topic) {
        Some(i) => {
            proof {
                let k = i as int;
                assert(id_of(old(s).claims()[k]) == spec_claim_id(issuer, topic));
                lemma_claim_id_injective(old(s).claims()[k].issuer, old(s).claims()[k].topic, issuer, topic);
            }
            s.claims.set(i, claim);
            proof {
                assert(final(s).claims() =~= old(s).claims().update(i as int, c));
                assert forall|a: int, b: int| 0 <= a < b < final(s).claims().len() implies !(
                #[trigger] final(s).claims()[a].issuer == #[trigger] final(s).claims()[b].issuer
                    && final(s).claims()[a].topic == final(s).claims()[b].topic) by {
                    assert(!(old(s).claims()[a].issuer == old(s).claims()[b].issuer
                        && old(s).claims()[a].topic == old(s).claims()[b].topic));
                }
            }
        },
        None => {
            s.claims.push(claim);
            proof {
                assert(final(s).claims() =~= old(s).claims().push(c));
                assert forall|a: int, b: int| 0 <= a < b < final(s).claims().len() implies !(
                #[trigger] final(s).claims()[a].issuer == #[trigger] final(s).claims()[b].issuer
                    && final(s).claims()[a].topic == final(s).claims()[b].topic) by {
                    if b < old(s).claims().len() {
                        assert(!(old(s).claims()[a].issuer == old(s).claims()[b].issuer
                            && old(s).claims()[a].topic == old(s).claims()[b].topic));
                    } else {
                        let x = old(s).claims()[a];
                        if x.issuer == issuer && x.topic == topic {
                            assert(id_of(old(s).claims()[a]) == spec_claim_id(issuer, topic));
                        }
                    }
                }
            }
        },
    }
    id
}

/// Removes the claim with identifier `claim_id`; the others keep their
/// order.
///
/// # Errors
///
/// * [`ClaimsError::ClaimNotFound`] - When no claim has that identifier.
pub fn remove_claim(s: &mut IdentityClaimsStore, claim_id: &[u8; 32]) -> (r: Result<(), ClaimsError>)
    requires
        old(s).wf(),
    ensures
        final(s).wf(),
        index_of_id(old(s).claims(), claim_id@) < 0 ==> r == Err::<(), ClaimsError>(
            ClaimsError::ClaimNotFound,
        ) && final(s).claims() == old(s).claims(),
        index_of_id(old(s).claims(), claim_id@) >= 0 ==> r is Ok && final(s).claims() == old(
            s,
        ).claims().remove(index_of_id(old(s).claims(), claim_id@)),
{
    match find_id(s, claim_id) {
        Some(i) => {
            s.claims.remove(i);
            proof {
                assert(final(s).claims() =~= old(s).claims().remove(i as int));
                assert forall|a: int, b: int| 0 <= a < b < final(s).claims().len() implies !(
                #[trigger] final(s).claims()[a].issuer == #[trigger] final(s).claims()[b].issuer
                    && final(s).claims()[a].topic == final(s).claims()[b].topic) by {
                    let aa = if a < i { a } else { a + 1 };
                    let bb = if b < i { b } else { b + 1 };
                    assert(!(old(s).claims()[aa].issuer == old(s).claims()[bb].issuer
                        && old(s).claims()[aa].topic == old(s).claims()[bb].topic));
                }
            }
            Ok(())
        },
        None => Err(ClaimsError::ClaimNotFound),
    }
}

/// Returns the identifiers of the claims on `topic`, in order.
pub fn get_claim_ids_by_topic(s: &IdentityClaimsStore, topic: u32) -> (r: Vec<[u8; 32]>)
    ensures
        r@.map_values(|id: [u8; 32]| id@) == ids_on_topic(s.claims(), topic),
{
    let mut out: Vec<[u8; 32]> = Vec::new();
    let mut i: usize = 0;
    while i < s.claims.len()
        invariant
            i <= s.claims.len(),
            out@.map_values(|id: [u8; 32]| id@) == ids_on_topic(s.claims().take(i as int), topic),
        decreases s.claims.len() - i,
    {
        proof {
            assert(s.claims().take(i + 1).drop_last() =~= s.claims().take(i as int));
            assert(s.claims().take(i + 1).last() == s.claims@[i as int]@);
        }
        if s.claims[i].topic == topic {
            let id = claim_id(s.claims[i].issuer, topic);
            out.push(id);
            proof {
                assert(out@.map_values(|id: [u8; 32]| id@) =~= ids_on_topic(
                    s.claims().take(i as int),
                    topic,
                ).push(id@));
            }
        }
        i = i + 1;
    }
    proof {
        assert(s.claims().take(s.claims().len() as int) =~= s.claims());
    }
    out
}

/// Adding a claim and reading it back by its identifier gives what was
/// added.
pub proof fn lemma_add_then_get(
    before: &IdentityClaimsStore,
    after: &IdentityClaimsStore,
    c: ClaimView,
)
    requires
        before.wf(),
        after.wf(),
        index_of_id(before.claims(), id_of(c)) >= 0 ==> after.claims() == before.claims().update(
            index_of_id(before.claims(), id_of(c)),
            c,
        ),
        index_of_id(before.claims(), id_of(c)) < 0 ==> after.claims() == before.claims().push(c),
    ensures
        after.claim_with_id(id_of(c)) == Some(c),
{
    let k = index_of_id(before.claims(), id_of(c));
    if k >= 0 {
        lemma_index_of_id(after.claims(), k);
    } else {
        lemma_index_of_id(after.claims(), before.claims().len() as int);
    }
}

} // verus!
