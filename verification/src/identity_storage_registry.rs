//! Identity storage registry with country profiles: each registered account
//! is linked to an identity and holds an ordered list of country profiles,
//! each pairing a category with an ISO 3166-1 numeric code and an optional
//! expiry. Profiles are equal: the first one is stored like the others, and
//! deleting one shifts the later ones left. The registry does not check for
//! duplicate profiles.

use crate::common::Address;
use std::collections::HashMap;
use std::string::String;
use std::vec::Vec;
use vstd::prelude::*;

verus! {

broadcast use vstd::std_specs::hash::group_hash_axioms;

/// The most country profiles one account may hold.
pub const MAX_COUNTRY_PROFILES: u32 = 15;

/// Errors of the identity storage registry.
#[derive(Clone, Copy, Debug, PartialEq, Eq, Structural)]
pub enum IRSError {
    /// An identity already exists for the given account.
    IdentityAlreadyExists,
    /// No identity found for the given account.
    IdentityNotFound,
    /// No country profile at the given index.
    CountryProfileNotFound,
    /// The account would have (or has) no country profile.
    EmptyCountryProfiles,
    /// The account would hold more than [`MAX_COUNTRY_PROFILES`] profiles.
    MaxCountryProfilesReached,
}

impl IRSError {
    /// The numeric contract error code of this error.
    pub fn code(&self) -> (c: u32)
        ensures
            c == (match *self {
                IRSError::IdentityAlreadyExists => 320u32,
                IRSError::IdentityNotFound => 321u32,
                IRSError::CountryProfileNotFound => 322u32,
                IRSError::EmptyCountryProfiles => 323u32,
                IRSError::MaxCountryProfilesReached => 324u32,
            }),
    {
        match self {
            IRSError::IdentityAlreadyExists => 320,
            IRSError::IdentityNotFound => 321,
            IRSError::CountryProfileNotFound => 322,
            IRSError::EmptyCountryProfiles => 323,
            IRSError::MaxCountryProfilesReached => 324,
        }
    }
}

/// A category of tie to a country, with its ISO 3166-1 numeric code.
#[derive(Clone, Debug, PartialEq, Eq)]
pub enum Country {
    /// Country of residence.
    Residence(u32),
    /// Country of citizenship.
    Citizenship(u32),
    /// Country where funds originate.
    SourceOfFunds(u32),
    /// Country of registration of an entity.
    EntityJurisdiction(u32),
    /// A category named by its label.
    Custom(String, u32),
}

/// A country profile: a tie to a country and an optional expiry (for
/// instance of a visa).
#[derive(Clone, Debug, PartialEq, Eq)]
pub struct CountryProfile {
    pub country: Country,
    pub valid_until: Option<u64>,
}

/// The mathematical value of a [`Country`]: its variant (numbered in
/// declaration order), its label (empty but for custom categories) and its
/// code.
pub struct CountryView {
    pub variant: nat,
    pub label: Seq<char>,
    pub code: u32,
}

/// The mathematical value of a [`CountryProfile`].
pub struct CountryProfileView {
    pub country: CountryView,
    pub valid_until: Option<u64>,
}

impl View for Country {
    type V = CountryView;

    open spec fn view(&self) -> CountryView {
        match self {
            Country::Residence(c) => CountryView { variant: 0, label: Seq::empty(), code: *c },
            Country::Citizenship(c) => CountryView { variant: 1, label: Seq::empty(), code: *c },
            Country::SourceOfFunds(c) => CountryView { variant: 2, label: Seq::empty(), code: *c },
            Country::EntityJurisdiction(c) => CountryView {
                variant: 3,
                label: Seq::empty(),
                code: *c,
            },
            Country::Custom(s, c) => CountryView { variant: 4, label: s@, code: *c },
        }
    }
}

impl View for CountryProfile {
    type V = CountryProfileView;

    open spec fn view(&self) -> CountryProfileView {
        CountryProfileView { country: self.country@, valid_until: self.valid_until }
    }
}

/// The mathematical value of a list of profiles.
pub open spec fn profiles_view(v: Seq<CountryProfile>) -> Seq<CountryProfileView> {
    v.map_values(|p: CountryProfile| p@)
}

/// A copy of a profile.
pub fn copy_profile(p: &CountryProfile) -> (out: CountryProfile)
    ensures
        out@ == p@,
{
    let country = match &p.country {
        Country::Residence(c) => Country::Residence(*c),
        Country::Citizenship(c) => Country::Citizenship(*c),
        Country::SourceOfFunds(c) => Country::SourceOfFunds(*c),
        Country::EntityJurisdiction(c) => Country::EntityJurisdiction(*c),
        Country::Custom(s, c) => Country::Custom(s.clone(), *c),
    };
    CountryProfile { country, valid_until: p.valid_until }
}

/// A copy of a list of profiles.
pub fn copy_profiles(v: &Vec<CountryProfile>) -> (out: Vec<CountryProfile>)
    ensures
        profiles_view(out@) == profiles_view(v@),
        out@.len() == v@.len(),
{
    let mut out: Vec<CountryProfile> = Vec::new();
    let mut i: usize = 0;
    while i < v.len()
        invariant
            i <= v.len(),
            profiles_view(out@) == profiles_view(v@.take(i as int)),
            out@.len() == i,
        decreases v.len() - i,
    {
        let p = copy_profile(&v[i]);
        out.push(p);
        proof {
            assert(v@.take(i + 1) =~= v@.take(i as int).push(v@[i as int]));
            assert(profiles_view(v@.take(i + 1)) =~= profiles_view(v@.take(i as int)).push(
                v@[i as int]@,
            ));
        }
        i = i + 1;
    }
    assert(v@.take(v@.len() as int) =~= v@);
    out
}

/// The registry: account to identity links and country profiles.
pub struct IdentityStorageRegistry {
    identities: HashMap<Address, Address>,
    profiles: HashMap<Address, Vec<CountryProfile>>,
}

impl IdentityStorageRegistry {
    /// Every linked account has profiles and vice versa, between 1 and
    /// [`MAX_COUNTRY_PROFILES`] of them.
    pub closed spec fn wf(&self) -> bool {
        &&& self.identities@.dom() == self.profiles@.dom()
        &&& forall|a: Address|
            #[trigger] self.profiles@.contains_key(a) ==> 1 <= self.profiles@[a]@.len()
                <= MAX_COUNTRY_PROFILES
    }

    /// Whether `account` is linked to an identity.
    pub closed spec fn has_identity(&self, account: Address) -> bool {
        self.identities@.contains_key(account)
    }

    /// The identity linked to `account` (meaningful when it has one).
    pub closed spec fn identity_of(&self, account: Address) -> Address {
        self.identities@[account]
    }

    /// The profiles of `account` (empty when it has none).
    pub closed spec fn profiles_of(&self, account: Address) -> Seq<CountryProfileView> {
        if self.profiles@.contains_key(account) {
            profiles_view(self.profiles@[account]@)
        } else {
            Seq::empty()
        }
    }

    /// `self` and `other` agree on every account but `a`.
    pub open spec fn same_except(&self, other: &Self, a: Address) -> bool {
        forall|x: Address|
            x != a ==> {
                &&& #[trigger] self.has_identity(x) == other.has_identity(x)
                &&& self.has_identity(x) ==> self.identity_of(x) == other.identity_of(x)
                &&& self.profiles_of(x) == other.profiles_of(x)
            }
    }

    /// An empty registry.
    pub fn new() -> (s: Self)
        ensures
            s.wf(),
            forall|a: Address|
                !s.has_identity(a) && #[trigger] s.profiles_of(a) == Seq::<CountryProfileView>::empty(),
    {
        IdentityStorageRegistry { identities: HashMap::new(), profiles: HashMap::new() }
    }
}

/// A registered account has at least one profile, and an unregistered one
/// has none.
pub proof fn lemma_profiles_iff_identity(s: &IdentityStorageRegistry, account: Address)
    requires
        s.wf(),
    ensures
        s.has_identity(account) <==> s.profiles_of(account).len() > 0,
        s.profiles_of(account).len() <= MAX_COUNTRY_PROFILES,
{
    assert(s.identities@.dom().contains(account) == s.profiles@.dom().contains(account));
}

/// Returns the identity linked to `account`.
///
/// # Errors
///
/// * [`IRSError::IdentityNotFound`] - When `account` has no identity.
pub fn get_identity(s: &IdentityStorageRegistry, account: Address) -> (r: Result<Address, IRSError>)
    ensures
        s.has_identity(account) ==> r == Ok::<Address, IRSError>(s.identity_of(account)),
        !s.has_identity(account) ==> r == Err::<Address, IRSError>(IRSError::IdentityNotFound),
{
    match s.identities.get(&account) {
        Some(id) => Ok(*id),
        None => Err(IRSError::IdentityNotFound),
    }
}

/// Returns the profiles of `account`, in order.
///
/// # Errors
///
/// * [`IRSError::EmptyCountryProfiles`] - When `account` holds no profile.
pub fn get_country_profiles(s: &IdentityStorageRegistry, account: Address) -> (r: Result<
    Vec<CountryProfile>,
    IRSError,
>)
    requires
        s.wf(),
    ensures
        s.profiles_of(account).len() == 0 ==> r == Err::<Vec<CountryProfile>, IRSError>(
            IRSError::EmptyCountryProfiles,
        ),
        r matches Ok(v) ==> profiles_view(v@) == s.profiles_of(account),
        r is Ok <==> s.profiles_of(account).len() > 0,
{
    match s.profiles.get(&account) {
        Some(v) => {
            if v.len() == 0 {
                Err(IRSError::EmptyCountryProfiles)
            } else {
                Ok(copy_profiles(v))
            }
        },
        None => Err(IRSError::EmptyCountryProfiles),
    }
}

/// Returns the profile at `index` of `account`.
///
/// # Errors
///
/// * [`IRSError::EmptyCountryProfiles`] - When `account` holds no profile.
/// * [`IRSError::CountryProfileNotFound`] - When `index` is out of range.
pub fn get_country_profile(s: &IdentityStorageRegistry, account: Address, index: u32) -> (r: Result<
    CountryProfile,
    IRSError,
>)
    requires
        s.wf(),
    ensures
        s.profiles_of(account).len() == 0 ==> r == Err::<CountryProfile, IRSError>(
            IRSError::EmptyCountryProfiles,
        ),
        s.profiles_of(account).len() > 0 && index >= s.profiles_of(account).len() ==> r == Err::<
            CountryProfile,
            IRSError,
        >(IRSError::CountryProfileNotFound),
        r matches Ok(p) ==> p@ == s.profiles_of(account)[index as int],
        r is Ok <==> index < s.profiles_of(account).len(),
{
    match s.profiles.get(&account) {
        Some(v) => {
            if v.len() == 0 {
                Err(IRSError::EmptyCountryProfiles)
            } else if index as usize >= v.len() {
                Err(IRSError::CountryProfileNotFound)
            } else {
                Ok(copy_profile(&v[index as usize]))
            }
        },
        None => Err(IRSError::EmptyCountryProfiles),
    }
}

/// Links `account` to `identity` with the given initial profiles.
///
/// # Errors
///
/// * [`IRSError::EmptyCountryProfiles`] - When `initial_profiles` is empty.
/// * [`IRSError::MaxCountryProfilesReached`] - When it holds more than
///   [`MAX_COUNTRY_PROFILES`] profiles.
/// * [`IRSError::IdentityAlreadyExists`] - When `account` already has an
///   identity.
pub fn add_identity(
    s: &mut IdentityStorageRegistry,
    account: Address,
    identity: Address,
    initial_profiles: &Vec<CountryProfile>,
) -> (r: Result<(), IRSError>)
    requires
        old(s).wf(),
    ensures
        final(s).wf(),
        initial_profiles@.len() == 0 ==> r == Err::<(), IRSError>(IRSError::EmptyCountryProfiles),
        initial_profiles@.len() > MAX_COUNTRY_PROFILES ==> r == Err::<(), IRSError>(
            IRSError::MaxCountryProfilesReached,
        ),
        1 <= initial_profiles@.len() <= MAX_COUNTRY_PROFILES && old(s).has_identity(account) ==> r
            == Err::<(), IRSError>(IRSError::IdentityAlreadyExists),
        r is Ok <==> (1 <= initial_profiles@.len() <= MAX_COUNTRY_PROFILES && !old(s).has_identity(
            account,
        )),
        r is Err ==> *final(s) == *old(s),
        r is Ok ==> {
            &&& final(s).has_identity(account)
            &&& final(s).identity_of(account) == identity
            &&& final(s).profiles_of(account) == profiles_view(initial_profiles@)
            &&& final(s).same_except(old(s), account)
        },
{
    if initial_profiles.len() == 0 {
        return Err(IRSError::EmptyCountryProfiles);
    }
    if initial_profiles.len() > MAX_COUNTRY_PROFILES as usize {
        return Err(IRSError::MaxCountryProfilesReached);
    }
    if s.identities.contains_key(&account) {
        return Err(IRSError::IdentityAlreadyExists);
    }
    let profiles = copy_profiles(initial_profiles);
    s.identities.insert(account, identity);
    s.profiles.insert(account, profiles);
    proof {
        assert(final(s).identities@.dom() =~= final(s).profiles@.dom());
    }
    Ok(())
}

/// Changes the identity linked to `account` to `new_identity`.
///
/// # Errors
///
/// * [`IRSError::IdentityNotFound`] - When `account` has no identity.
pub fn modify_identity(s: &mut IdentityStorageRegistry, account: Address, new_identity: Address) -> (r:
    Result<(), IRSError>)
    requires
        old(s).wf(),
    ensures
        final(s).wf(),
        r is Ok <==> old(s).has_identity(account),
        r is Err ==> r == Err::<(), IRSError>(IRSError::IdentityNotFound) && *final(s) == *old(s),
        r is Ok ==> {
            &&& final(s).has_identity(account)
            &&& final(s).identity_of(account) == new_identity
            &&& final(s).profiles_of(account) == old(s).profiles_of(account)
            &&& final(s).same_except(old(s), account)
        },
{
    if !s.identities.contains_key(&account) {
        return Err(IRSError::IdentityNotFound);
    }
    s.identities.insert(account, new_identity);
    proof {
        assert(final(s).identities@.dom() =~= final(s).profiles@.dom());
    }
    Ok(())
}

/// Removes `account`'s identity link and all its profiles.
///
/// # Errors
///
/// * [`IRSError::IdentityNotFound`] - When `account` has no identity.
pub fn remove_identity(s: &mut IdentityStorageRegistry, account: Address) -> (r: Result<(), IRSError>)
    requires
        old(s).wf(),
    ensures
        final(s).wf(),
        r is Ok <==> old(s).has_identity(account),
        r is Err ==> r == Err::<(), IRSError>(IRSError::IdentityNotFound) && *final(s) == *old(s),
        r is Ok ==> {
            &&& !final(s).has_identity(account)
            &&& final(s).profiles_of(account) == Seq::<CountryProfileView>::empty()
            &&& final(s).same_except(old(s), account)
        },
{
    if !s.identities.contains_key(&account) {
        return Err(IRSError::IdentityNotFound);
    }
    s.identities.remove(&account);
    s.profiles.remove(&account);
    proof {
        assert(final(s).identities@.dom() =~= final(s).profiles@.dom());
    }
    Ok(())
}

/// Appends `profiles` to the profiles of the registered `account`.
///
/// # Errors
///
/// * [`IRSError::EmptyCountryProfiles`] - When `profiles` is empty.
/// * [`IRSError::MaxCountryProfilesReached`] - When the account would hold
///   more than [`MAX_COUNTRY_PROFILES`] profiles.
pub fn add_country_profiles(s: &mut IdentityStorageRegistry, account: Address, profiles: &Vec<CountryProfile>) -> (r:
    Result<(), IRSError>)
    requires
        old(s).wf(),
        profiles@.len() == 0 || old(s).has_identity(account),
    ensures
        final(s).wf(),
        profiles@.len() == 0 ==> r == Err::<(), IRSError>(IRSError::EmptyCountryProfiles),
        profiles@.len() > 0 && old(s).profiles_of(account).len() + profiles@.len()
            > MAX_COUNTRY_PROFILES ==> r == Err::<(), IRSError>(IRSError::MaxCountryProfilesReached),
        r is Ok <==> profiles@.len() > 0 && old(s).profiles_of(account).len() + profiles@.len()
            <= MAX_COUNTRY_PROFILES,
        r is Err ==> *final(s) == *old(s),
        r is Ok ==> {
            &&& final(s).profiles_of(account) == old(s).profiles_of(account) + profiles_view(
                profiles@,
            )
            &&& final(s).has_identity(account)
            &&& final(s).identity_of(account) == old(s).identity_of(account)
            &&& final(s).same_except(old(s), account)
        },
{
    if profiles.len() == 0 {
        return Err(IRSError::EmptyCountryProfiles);
    }
    let current_len = match s.profiles.get(&account) {
        Some(v) => v.len(),
        None => {
            proof {
                assert(old(s).profiles@.contains_key(account));
            }
            return Err(IRSError::IdentityNotFound);
        },
    };
    if current_len > MAX_COUNTRY_PROFILES as usize || profiles.len() > MAX_COUNTRY_PROFILES as usize
        - current_len {
        return Err(IRSError::MaxCountryProfilesReached);
    }
    let mut list = match s.profiles.remove(&account) {
        Some(v) => v,
        None => {
            return Err(IRSError::IdentityNotFound);
        },
    };
    let ghost before = list@;
    let mut added = copy_profiles(profiles);
    list.append(&mut added);
    proof {
        assert(profiles_view(list@) =~= profiles_view(before) + profiles_view(profiles@));
    }
    s.profiles.insert(account, list);
    proof {
        assert(final(s).identities@.dom() =~= final(s).profiles@.dom());
    }
    Ok(())
}

/// Replaces the profile at `index` of `account`.
///
/// # Errors
///
/// * [`IRSError::EmptyCountryProfiles`] - When `account` holds no profile.
/// * [`IRSError::CountryProfileNotFound`] - When `index` is out of range.
pub fn modify_country_profile(
    s: &mut IdentityStorageRegistry,
    account: Address,
    index: u32,
    profile: &CountryProfile,
) -> (r: Result<(), IRSError>)
    requires
        old(s).wf(),
    ensures
        final(s).wf(),
        old(s).profiles_of(account).len() == 0 ==> r == Err::<(), IRSError>(
            IRSError::EmptyCountryProfiles,
        ),
        old(s).profiles_of(account).len() > 0 && index >= old(s).profiles_of(account).len() ==> r
            == Err::<(), IRSError>(IRSError::CountryProfileNotFound),
        r is Ok <==> index < old(s).profiles_of(account).len(),
        r is Err ==> *final(s) == *old(s),
        r is Ok ==> {
            &&& final(s).profiles_of(account) == old(s).profiles_of(account).update(
                index as int,
                profile@,
            )
            &&& final(s).has_identity(account)
            &&& final(s).identity_of(account) == old(s).identity_of(account)
            &&& final(s).same_except(old(s), account)
        },
{
    let len = match s.profiles.get(&account) {
        Some(v) => v.len(),
        None => {
            return Err(IRSError::EmptyCountryProfiles);
        },
    };
    if len == 0 {
        return Err(IRSError::EmptyCountryProfiles);
    }
    if index as usize >= len {
        return Err(IRSError::CountryProfileNotFound);
    }
    let mut list = match s.profiles.remove(&account) {
        Some(v) => v,
        None => {
            return Err(IRSError::EmptyCountryProfiles);
        },
    };
    let ghost before = list@;
    let p = copy_profile(profile);
    list.set(index as usize, p);
    proof {
        assert(profiles_view(list@) =~= profiles_view(before).update(index as int, profile@));
    }
    s.profiles.insert(account, list);
    proof {
        assert(final(s).identities@.dom() =~= final(s).profiles@.dom());
    }
    Ok(())
}

/// Deletes the profile at `index` of `account`, shifting the later ones
/// left; the last profile of an account cannot be deleted.
///
/// # Errors
///
/// * [`IRSError::EmptyCountryProfiles`] - When `account` holds no profile or
///   only one.
/// * [`IRSError::CountryProfileNotFound`] - When `index` is out of range.
pub fn delete_country_profile(s: &mut IdentityStorageRegistry, account: Address, index: u32) -> (r:
    Result<(), IRSError>)
    requires
        old(s).wf(),
    ensures
        final(s).wf(),
        old(s).profiles_of(account).len() <= 1 ==> r == Err::<(), IRSError>(
            IRSError::EmptyCountryProfiles,
        ),
        old(s).profiles_of(account).len() > 1 && index >= old(s).profiles_of(account).len() ==> r
            == Err::<(), IRSError>(IRSError::CountryProfileNotFound),
        r is Ok <==> old(s).profiles_of(account).len() > 1 && index < old(s).profiles_of(
            account,
        ).len(),
        r is Err ==> *final(s) == *old(s),
        r is Ok ==> {
            &&& final(s).profiles_of(account) == old(s).profiles_of(account).remove(index as int)
            &&& final(s).has_identity(account)
            &&& final(s).identity_of(account) == old(s).identity_of(account)
            &&& final(s).same_except(old(s), account)
        },
{
    let len = match s.profiles.get(&account) {
        Some(v) => v.len(),
        None => {
            return Err(IRSError::EmptyCountryProfiles);
        },
    };
    if len <= 1 {
        return Err(IRSError::EmptyCountryProfiles);
    }
    if index as usize >= len {
        return Err(IRSError::CountryProfileNotFound);
    }
    let mut list = match s.profiles.remove(&account) {
        Some(v) => v,
        None => {
            return Err(IRSError::EmptyCountryProfiles);
        },
    };
    let ghost before = list@;
    list.remove(index as usize);
    proof {
        assert(profiles_view(list@) =~= profiles_view(before).remove(index as int));
    }
    s.profiles.insert(account, list);
    proof {
        assert(final(s).identities@.dom() =~= final(s).profiles@.dom());
    }
    Ok(())
}

} // verus!
