//! Identity Registry Storage: links each account to an on-chain identity and
//! keeps, per account, an identity profile made of an identity type and a
//! list of country data entries (between 1 and [`MAX_COUNTRY_ENTRIES`]).
//!
//! Individual and organization identities may freely mix individual and
//! organization country relations (KYB data on an organization's key people).
//! An account whose identity was recovered onto a new account keeps a record
//! of where it went ([`get_recovered_to`]).

use crate::common::Address;
use std::collections::HashMap;
use std::string::String;
use std::vec::Vec;
use vstd::prelude::*;

verus! {

broadcast use vstd::std_specs::hash::group_hash_axioms;

/// ISO 3166-1 numeric country code.
pub type CountryCode = u32;

/// The maximum number of country data entries per identity.
pub const MAX_COUNTRY_ENTRIES: u32 = 15;

/// TTL extension amount for identity entries (30 days).
pub const IDENTITY_EXTEND_AMOUNT: u32 = 518400;

/// TTL threshold below which identity entries are extended (29 days).
pub const IDENTITY_TTL_THRESHOLD: u32 = 501120;

/// Errors of the identity registry storage.
#[derive(Clone, Copy, Debug, PartialEq, Eq, Structural)]
pub enum IRSError {
    /// An identity already exists for the given account.
    IdentityOverwrite,
    /// No identity found for the given account.
    IdentityNotFound,
    /// Country data not found at the specified index.
    CountryDataNotFound,
    /// Identity can't be with empty country data list.
    EmptyCountryList,
    /// The maximum number of country entries has been reached.
    MaxCountryEntriesReached,
    /// Account has been recovered and cannot be used.
    AccountRecovered,
    /// A country relation does not fit the identity type: an individual
    /// identity holds an organization relation.
    CountryRelationMismatch,
}

impl IRSError {
    /// The numeric contract error code of this error.
    pub fn code(&self) -> (c: u32)
        ensures
            c == (match *self {
                IRSError::IdentityOverwrite => 320u32,
                IRSError::IdentityNotFound => 321u32,
                IRSError::CountryDataNotFound => 322u32,
                IRSError::EmptyCountryList => 323u32,
                IRSError::MaxCountryEntriesReached => 324u32,
                IRSError::AccountRecovered => 325u32,
                IRSError::CountryRelationMismatch => 326u32,
            }),
    {
        match self {
            IRSError::IdentityOverwrite => 320,
            IRSError::IdentityNotFound => 321,
            IRSError::CountryDataNotFound => 322,
            IRSError::EmptyCountryList => 323,
            IRSError::MaxCountryEntriesReached => 324,
            IRSError::AccountRecovered => 325,
            IRSError::CountryRelationMismatch => 326,
        }
    }
}

/// The kind of change made to an account's country data.
#[derive(Clone, Copy, Debug, PartialEq, Eq, Structural)]
pub enum CountryDataEvent {
    Added,
    Removed,
    Modified,
}

/// Whether an identity is a natural person or a legal entity.
#[derive(Clone, Copy, Debug, PartialEq, Eq, Structural)]
pub enum IdentityType {
    Individual,
    Organization,
}

/// A natural person's tie to a country.
#[derive(Clone, Debug, PartialEq, Eq)]
pub enum IndividualCountryRelation {
    Residence(CountryCode),
    Citizenship(CountryCode),
    SourceOfFunds(CountryCode),
    TaxResidency(CountryCode),
    Custom(String, CountryCode),
}

/// A legal entity's tie to a country.
#[derive(Clone, Debug, PartialEq, Eq)]
pub enum OrganizationCountryRelation {
    Incorporation(CountryCode),
    OperatingJurisdiction(CountryCode),
    TaxJurisdiction(CountryCode),
    SourceOfFunds(CountryCode),
    Custom(String, CountryCode),
}

/// A country relation of either kind.
#[derive(Clone, Debug, PartialEq, Eq)]
pub enum CountryRelation {
    Individual(IndividualCountryRelation),
    Organization(OrganizationCountryRelation),
}

/// One country data entry: a relation and optional metadata (key/value
/// pairs, for instance the validity period of a visa or the role of a key
/// person).
#[derive(Clone, Debug, PartialEq, Eq)]
pub struct CountryData {
    pub country: CountryRelation,
    pub metadata: Option<Vec<(String, String)>>,
}

/// An identity's type and country data entries.
#[derive(Clone, Debug, PartialEq, Eq)]
pub struct IdentityProfile {
    pub identity_type: IdentityType,
    pub countries: Vec<CountryData>,
}

/// The mathematical value of a country relation: whether it is an
/// organization relation, which variant it is (numbered in declaration
/// order), the custom label (empty for the fixed variants) and the code.
pub struct RelationView {
    pub organization: bool,
    pub variant: nat,
    pub label: Seq<char>,
    pub code: CountryCode,
}

/// The mathematical value of a country data entry.
pub struct CountryDataView {
    pub relation: RelationView,
    pub metadata: Option<Seq<(Seq<char>, Seq<char>)>>,
}

impl View for CountryRelation {
    type V = RelationView;

    open spec fn view(&self) -> RelationView {
        match self {
            CountryRelation::Individual(r) => match r {
                IndividualCountryRelation::Residence(c) => RelationView {
                    organization: false,
                    variant: 0,
                    label: Seq::empty(),
                    code: *c,
                },
                IndividualCountryRelation::Citizenship(c) => RelationView {
                    organization: false,
                    variant: 1,
                    label: Seq::empty(),
                    code: *c,
                },
                IndividualCountryRelation::SourceOfFunds(c) => RelationView {
                    organization: false,
                    variant: 2,
                    label: Seq::empty(),
                    code: *c,
                },
                IndividualCountryRelation::TaxResidency(c) => RelationView {
                    organization: false,
                    variant: 3,
                    label: Seq::empty(),
                    code: *c,
                },
                IndividualCountryRelation::Custom(s, c) => RelationView {
                    organization: false,
                    variant: 4,
                    label: s@,
                    code: *c,
                },
            },
            CountryRelation::Organization(r) => match r {
                OrganizationCountryRelation::Incorporation(c) => RelationView {
                    organization: true,
                    variant: 0,
                    label: Seq::empty(),
                    code: *c,
                },
                OrganizationCountryRelation::OperatingJurisdiction(c) => RelationView {
                    organization: true,
                    variant: 1,
                    label: Seq::empty(),
                    code: *c,
                },
                OrganizationCountryRelation::TaxJurisdiction(c) => RelationView {
                    organization: true,
                    variant: 2,
                    label: Seq::empty(),
                    code: *c,
                },
                OrganizationCountryRelation::SourceOfFunds(c) => RelationView {
                    organization: true,
                    variant: 3,
                    label: Seq::empty(),
                    code: *c,
                },
                OrganizationCountryRelation::Custom(s, c) => RelationView {
                    organization: true,
                    variant: 4,
                    label: s@,
                    code: *c,
                },
            },
        }
    }
}

/// The mathematical value of a metadata list.
pub open spec fn metadata_view(m: Seq<(String, String)>) -> Seq<(Seq<char>, Seq<char>)> {
    m.map_values(|p: (String, String)| (p.0@, p.1@))
}

impl View for CountryData {
    type V = CountryDataView;

    open spec fn view(&self) -> CountryDataView {
        CountryDataView {
            relation: self.country@,
            metadata: match self.metadata {
                Some(m) => Some(metadata_view(m@)),
                None => None,
            },
        }
    }
}

/// The mathematical value of a list of country data entries.
pub open spec fn entries_view(v: Seq<CountryData>) -> Seq<CountryDataView> {
    v.map_values(|d: CountryData| d@)
}

/// Whether an entry fits an identity of type `identity_type`: an
/// organization may hold relations of either kind (a legal entity's key
/// persons have individual ties), an individual only individual ones.
pub open spec fn relation_fits(identity_type: IdentityType, d: CountryDataView) -> bool {
    identity_type == IdentityType::Organization || !d.relation.organization
}

/// Whether every entry of `entries` fits an identity of type
/// `identity_type`.
pub open spec fn relations_fit(identity_type: IdentityType, entries: Seq<CountryDataView>) -> bool {
    forall|i: int| 0 <= i < entries.len() ==> #[trigger] relation_fits(identity_type, entries[i])
}

/// Returns whether every entry of `list` fits an identity of type
/// `identity_type`.
pub fn validate_country_relations(identity_type: IdentityType, list: &Vec<CountryData>) -> (r: bool)
    ensures
        r == relations_fit(identity_type, entries_view(list@)),
{
    let mut i: usize = 0;
    while i < list.len()
        invariant
            i <= list.len(),
            forall|j: int| 0 <= j < i ==> #[trigger] relation_fits(identity_type, entries_view(list@)[j]),
        decreases list.len() - i,
    {
        let organization = match &list[i].country {
            CountryRelation::Individual(_) => false,
            CountryRelation::Organization(_) => true,
        };
        if identity_type == IdentityType::Individual && organization {
            assert(!relation_fits(identity_type, entries_view(list@)[i as int]));
            return false;
        }
        assert(relation_fits(identity_type, entries_view(list@)[i as int]));
        i = i + 1;
    }
    true
}

/// The country code carried by a relation, whatever its variant.
pub open spec fn spec_country_code(r: CountryRelation) -> CountryCode {
    r@.code
}

/// Returns the ISO 3166-1 numeric country code carried by `relation`,
/// regardless of which individual- or organization-side variant it is.
pub fn country_code(relation: &CountryRelation) -> (c: u32)
    ensures
        c == spec_country_code(*relation),
{
    match relation {
        CountryRelation::Individual(rel) => match rel {
            IndividualCountryRelation::Residence(c) => *c,
            IndividualCountryRelation::Citizenship(c) => *c,
            IndividualCountryRelation::SourceOfFunds(c) => *c,
            IndividualCountryRelation::TaxResidency(c) => *c,
            IndividualCountryRelation::Custom(_, c) => *c,
        },
        CountryRelation::Organization(rel) => match rel {
            OrganizationCountryRelation::Incorporation(c) => *c,
            OrganizationCountryRelation::OperatingJurisdiction(c) => *c,
            OrganizationCountryRelation::TaxJurisdiction(c) => *c,
            OrganizationCountryRelation::SourceOfFunds(c) => *c,
            OrganizationCountryRelation::Custom(_, c) => *c,
        },
    }
}

fn copy_relation(r: &CountryRelation) -> (out: CountryRelation)
    ensures
        out@ == r@,
{
    match r {
        CountryRelation::Individual(rel) => CountryRelation::Individual(
            match rel {
                IndividualCountryRelation::Residence(c) => IndividualCountryRelation::Residence(*c),
                IndividualCountryRelation::Citizenship(c) => IndividualCountryRelation::Citizenship(
                    *c,
                ),
                IndividualCountryRelation::SourceOfFunds(c) => {
                    IndividualCountryRelation::SourceOfFunds(*c)
                },
                IndividualCountryRelation::TaxResidency(c) => IndividualCountryRelation::TaxResidency(
                    *c,
                ),
                IndividualCountryRelation::Custom(s, c) => IndividualCountryRelation::Custom(
                    s.clone(),
                    *c,
                ),
            },
        ),
        CountryRelation::Organization(rel) => CountryRelation::Organization(
            match rel {
                OrganizationCountryRelation::Incorporation(c) => {
                    OrganizationCountryRelation::Incorporation(*c)
                },
                OrganizationCountryRelation::OperatingJurisdiction(c) => {
                    OrganizationCountryRelation::OperatingJurisdiction(*c)
                },
                OrganizationCountryRelation::TaxJurisdiction(c) => {
                    OrganizationCountryRelation::TaxJurisdiction(*c)
                },
                OrganizationCountryRelation::SourceOfFunds(c) => {
                    OrganizationCountryRelation::SourceOfFunds(*c)
                },
                OrganizationCountryRelation::Custom(s, c) => OrganizationCountryRelation::Custom(
                    s.clone(),
                    *c,
                ),
            },
        ),
    }
}

fn copy_metadata(m: &Vec<(String, String)>) -> (out: Vec<(String, String)>)
    ensures
        metadata_view(out@) == metadata_view(m@),
{
    let mut out: Vec<(String, String)> = Vec::new();
    let mut i: usize = 0;
    while i < m.len()
        invariant
            i <= m.len(),
            metadata_view(out@) == metadata_view(m@.take(i as int)),
        decreases m.len() - i,
    {
        let k = m[i].0.clone();
        let v = m[i].1.clone();
        out.push((k, v));
        proof {
            assert(m@.take(i + 1) =~= m@.take(i as int).push(m@[i as int]));
            assert(metadata_view(m@.take(i + 1)) =~= metadata_view(m@.take(i as int)).push(
                (m@[i as int].0@, m@[i as int].1@),
            ));
        }
        i = i + 1;
    }
    assert(m@.take(m@.len() as int) =~= m@);
    out
}

/// A copy of a country data entry.
pub fn copy_country_data(d: &CountryData) -> (out: CountryData)
    ensures
        out@ == d@,
{
    let country = copy_relation(&d.country);
    let metadata = match &d.metadata {
        Some(m) => Some(copy_metadata(m)),
        None => None,
    };
    CountryData { country, metadata }
}

/// A copy of a list of country data entries.
pub fn copy_entries(v: &Vec<CountryData>) -> (out: Vec<CountryData>)
    ensures
        entries_view(out@) == entries_view(v@),
        out@.len() == v@.len(),
{
    let mut out: Vec<CountryData> = Vec::new();
    let mut i: usize = 0;
    while i < v.len()
        invariant
            i <= v.len(),
            entries_view(out@) == entries_view(v@.take(i as int)),
            out@.len() == i,
        decreases v.len() - i,
    {
        let d = copy_country_data(&v[i]);
        out.push(d);
        proof {
            assert(v@.take(i + 1) =~= v@.take(i as int).push(v@[i as int]));
            assert(entries_view(v@.take(i + 1)) =~= entries_view(v@.take(i as int)).push(
                v@[i as int]@,
            ));
        }
        i = i + 1;
    }
    assert(v@.take(v@.len() as int) =~= v@);
    out
}

/// The identity registry: account to identity links, identity profiles and
/// the record of recovered accounts.
pub struct IdentityRegistryStorage {
    address: Address,
    identities: HashMap<Address, Address>,
    profiles: HashMap<Address, IdentityProfile>,
    recovered: HashMap<Address, Address>,
}

impl IdentityRegistryStorage {
    /// Every linked account has a profile and vice versa, and every profile
    /// has between 1 and [`MAX_COUNTRY_ENTRIES`] entries.
    pub closed spec fn wf(&self) -> bool {
        &&& self.identities@.dom() == self.profiles@.dom()
        &&& forall|a: Address|
            #[trigger] self.profiles@.contains_key(a) ==> 1 <= self.profiles@[a].countries@.len()
                <= MAX_COUNTRY_ENTRIES
    }

    /// Whether `account` is linked to an identity.
    pub closed spec fn has_identity(&self, account: Address) -> bool {
        self.identities@.contains_key(account)
    }

    /// The identity linked to `account` (meaningful when it has one).
    pub closed spec fn identity_of(&self, account: Address) -> Address {
        self.identities@[account]
    }

    /// The identity type of `account`'s profile (meaningful when it has one).
    pub closed spec fn type_of(&self, account: Address) -> IdentityType {
        self.profiles@[account].identity_type
    }

    /// The country data entries of `account` (empty when it has none).
    pub closed spec fn entries_of(&self, account: Address) -> Seq<CountryDataView> {
        if self.profiles@.contains_key(account) {
            entries_view(self.profiles@[account].countries@)
        } else {
            Seq::empty()
        }
    }

    /// Where `account`'s identity was recovered to, if it was.
    pub closed spec fn recovered_to(&self, account: Address) -> Option<Address> {
        if self.recovered@.contains_key(account) {
            Some(self.recovered@[account])
        } else {
            None
        }
    }

    /// `self` and `other` agree on every account but `a` and `b`, and
    /// recovery records are the same.
    pub open spec fn same_except(&self, other: &Self, a: Address, b: Address) -> bool {
        &&& self.address_of() == other.address_of()
        &&& forall|x: Address|
            x != a && x != b ==> {
                &&& #[trigger] self.has_identity(x) == other.has_identity(x)
                &&& self.has_identity(x) ==> self.identity_of(x) == other.identity_of(x)
                    && self.type_of(x) == other.type_of(x)
                &&& self.entries_of(x) == other.entries_of(x)
            }
    }

    /// The address of the registry contract.
    pub closed spec fn address_of(&self) -> Address {
        self.address
    }

    /// An empty registry at address 0.
    pub fn new() -> (s: Self)
        ensures
            s.wf(),
            s.address_of() == 0,
            forall|a: Address|
                !s.has_identity(a) && #[trigger] s.entries_of(a) == Seq::<CountryDataView>::empty()
                    && s.recovered_to(a) is None,
    {
        IdentityRegistryStorage {
            address: 0,
            identities: HashMap::new(),
            profiles: HashMap::new(),
            recovered: HashMap::new(),
        }
    }

    /// An empty registry at `address`.
    pub fn at(address: Address) -> (s: Self)
        ensures
            s.wf(),
            s.address_of() == address,
            forall|a: Address|
                !s.has_identity(a) && #[trigger] s.entries_of(a) == Seq::<CountryDataView>::empty()
                    && s.recovered_to(a) is None,
    {
        IdentityRegistryStorage {
            address,
            identities: HashMap::new(),
            profiles: HashMap::new(),
            recovered: HashMap::new(),
        }
    }

    /// Returns the address of the registry contract.
    pub fn address(&self) -> (r: Address)
        ensures
            r == self.address_of(),
    {
        self.address
    }
}

/// Returns the identity linked to `account`.
///
/// # Errors
///
/// * [`IRSError::IdentityNotFound`] - When `account` has no identity.
pub fn stored_identity(s: &IdentityRegistryStorage, account: Address) -> (r: Result<
    Address,
    IRSError,
>)
    ensures
        s.has_identity(account) ==> r == Ok::<Address, IRSError>(s.identity_of(account)),
        !s.has_identity(account) ==> r == Err::<Address, IRSError>(IRSError::IdentityNotFound),
{
    match s.identities.get(&account) {
        Some(id) => Ok(*id),
        None => Err(IRSError::IdentityNotFound),
    }
}

/// Returns the identity linked to `account` (same as [`stored_identity`]).
///
/// # Errors
///
/// * [`IRSError::IdentityNotFound`] - When `account` has no identity.
pub fn get_identity(s: &IdentityRegistryStorage, account: Address) -> (r: Result<
    Address,
    IRSError,
>)
    ensures
        s.has_identity(account) ==> r == Ok::<Address, IRSError>(s.identity_of(account)),
        !s.has_identity(account) ==> r == Err::<Address, IRSError>(IRSError::IdentityNotFound),
{
    stored_identity(s, account)
}

/// Returns the account that `old_account`'s identity was recovered to, if
/// any.
pub fn get_recovered_to(s: &IdentityRegistryStorage, old_account: Address) -> (r: Option<Address>)
    ensures
        r == s.recovered_to(old_account),
{
    match s.recovered.get(&old_account) {
        Some(a) => Some(*a),
        None => None,
    }
}

/// Returns a copy of `account`'s identity profile.
///
/// # Errors
///
/// * [`IRSError::IdentityNotFound`] - When `account` has no identity.
pub fn get_identity_profile(s: &IdentityRegistryStorage, account: Address) -> (r: Result<
    IdentityProfile,
    IRSError,
>)
    requires
        s.wf(),
    ensures
        s.has_identity(account) <==> r is Ok,
        !s.has_identity(account) ==> r == Err::<IdentityProfile, IRSError>(
            IRSError::IdentityNotFound,
        ),
        r matches Ok(p) ==> p.identity_type == s.type_of(account) && entries_view(p.countries@)
            == s.entries_of(account),
{
    match s.profiles.get(&account) {
        Some(p) => Ok(IdentityProfile { identity_type: p.identity_type, countries: copy_entries(&p.countries) }),
        None => Err(IRSError::IdentityNotFound),
    }
}

/// Returns a copy of the country data entry at `index` of `account`.
///
/// # Errors
///
/// * [`IRSError::IdentityNotFound`] - When `account` has no identity.
/// * [`IRSError::CountryDataNotFound`] - When `index` is out of range.
pub fn get_country_data(s: &IdentityRegistryStorage, account: Address, index: u32) -> (r: Result<
    CountryData,
    IRSError,
>)
    requires
        s.wf(),
    ensures
        !s.has_identity(account) ==> r == Err::<CountryData, IRSError>(IRSError::IdentityNotFound),
        s.has_identity(account) && index >= s.entries_of(account).len() ==> r == Err::<
            CountryData,
            IRSError,
        >(IRSError::CountryDataNotFound),
        s.has_identity(account) && index < s.entries_of(account).len() ==> r is Ok,
        r matches Ok(d) ==> d@ == s.entries_of(account)[index as int],
{
    match s.profiles.get(&account) {
        Some(p) => {
            if (index as usize) < p.countries.len() {
                Ok(copy_country_data(&p.countries[index as usize]))
            } else {
                Err(IRSError::CountryDataNotFound)
            }
        },
        None => Err(IRSError::IdentityNotFound),
    }
}

/// Returns a copy of all country data entries of `account`; empty when the
/// account has no identity.
pub fn get_country_data_entries(s: &IdentityRegistryStorage, account: Address) -> (r: Vec<
    CountryData,
>)
    ensures
        entries_view(r@) == s.entries_of(account),
{
    match s.profiles.get(&account) {
        Some(p) => copy_entries(&p.countries),
        None => Vec::new(),
    }
}

/// Links `account` to `identity` with a profile of `identity_type` and the
/// given initial country data entries.
///
/// # Errors
///
/// * [`IRSError::EmptyCountryList`] - When `initial_countries` is empty.
/// * [`IRSError::MaxCountryEntriesReached`] - When it holds more than
///   [`MAX_COUNTRY_ENTRIES`] entries.
/// * [`IRSError::CountryRelationMismatch`] - When an entry does not fit
///   `identity_type`.
/// * [`IRSError::IdentityOverwrite`] - When `account` already has an identity.
pub fn add_identity(
    s: &mut IdentityRegistryStorage,
    account: Address,
    identity: Address,
    identity_type: IdentityType,
    initial_countries: &Vec<CountryData>,
) -> (r: Result<(), IRSError>)
    requires
        old(s).wf(),
    ensures
        final(s).wf(),
        initial_countries@.len() == 0 ==> r == Err::<(), IRSError>(IRSError::EmptyCountryList),
        initial_countries@.len() > MAX_COUNTRY_ENTRIES ==> r == Err::<(), IRSError>(
            IRSError::MaxCountryEntriesReached,
        ),
        1 <= initial_countries@.len() <= MAX_COUNTRY_ENTRIES && !relations_fit(
            identity_type,
            entries_view(initial_countries@),
        ) ==> r == Err::<(), IRSError>(IRSError::CountryRelationMismatch),
        1 <= initial_countries@.len() <= MAX_COUNTRY_ENTRIES && relations_fit(
            identity_type,
            entries_view(initial_countries@),
        ) && old(s).has_identity(account) ==> r == Err::<(), IRSError>(IRSError::IdentityOverwrite),
        r is Err ==> *final(s) == *old(s),
        r is Ok <==> (1 <= initial_countries@.len() <= MAX_COUNTRY_ENTRIES && relations_fit(
            identity_type,
            entries_view(initial_countries@),
        ) && !old(s).has_identity(account)),
        r is Ok ==> {
            &&& final(s).has_identity(account)
            &&& final(s).identity_of(account) == identity
            &&& final(s).type_of(account) == identity_type
            &&& final(s).entries_of(account) == entries_view(initial_countries@)
            &&& final(s).same_except(old(s), account, account)
            &&& forall|a: Address| #[trigger] final(s).recovered_to(a) == old(s).recovered_to(a)
        },
{
    if initial_countries.len() == 0 {
        return Err(IRSError::EmptyCountryList);
    }
    if initial_countries.len() > MAX_COUNTRY_ENTRIES as usize {
        return Err(IRSError::MaxCountryEntriesReached);
    }
    if !validate_country_relations(identity_type, initial_countries) {
        return Err(IRSError::CountryRelationMismatch);
    }
    if s.identities.contains_key(&account) {
        return Err(IRSError::IdentityOverwrite);
    }
    let countries = copy_entries(initial_countries);
    s.identities.insert(account, identity);
    s.profiles.insert(account, IdentityProfile { identity_type, countries });
    proof {
        assert(final(s).identities@.dom() =~= final(s).profiles@.dom());
    }
    Ok(())
}

/// Changes the identity linked to `account` to `new_identity`.
///
/// # Errors
///
/// * [`IRSError::IdentityNotFound`] - When `account` has no identity.
pub fn modify_identity(s: &mut IdentityRegistryStorage, account: Address, new_identity: Address) -> (r:
    Result<(), IRSError>)
    requires
        old(s).wf(),
    ensures
        final(s).wf(),
        r is Ok <==> old(s).has_identity(account),
        r is Err ==> r == Err::<(), IRSError>(IRSError::IdentityNotFound) && *final(s) == *old(s),
        r is Ok ==> {
            &&& final(s).has_identity(account)
            &&& final(s).identity_of(account) == new_identity
            &&& final(s).type_of(account) == old(s).type_of(account)
            &&& final(s).entries_of(account) == old(s).entries_of(account)
            &&& final(s).same_except(old(s), account, account)
            &&& forall|a: Address| #[trigger] final(s).recovered_to(a) == old(s).recovered_to(a)
        },
{
    if !s.identities.contains_key(&account) {
        return Err(IRSError::IdentityNotFound);
    }
    s.identities.insert(account, new_identity);
    proof {
        assert(final(s).identities@.dom() =~= final(s).profiles@.dom());
    }
    Ok(())
}

/// Removes `account`'s identity link and profile.
///
/// # Errors
///
/// * [`IRSError::IdentityNotFound`] - When `account` has no identity.
pub fn remove_identity(s: &mut IdentityRegistryStorage, account: Address) -> (r: Result<(), IRSError>)
    requires
        old(s).wf(),
    ensures
        final(s).wf(),
        r is Ok <==> old(s).has_identity(account),
        r is Err ==> r == Err::<(), IRSError>(IRSError::IdentityNotFound) && *final(s) == *old(s),
        r is Ok ==> {
            &&& !final(s).has_identity(account)
            &&& final(s).entries_of(account) == Seq::<CountryDataView>::empty()
            &&& final(s).same_except(old(s), account, account)
            &&& forall|a: Address| #[trigger] final(s).recovered_to(a) == old(s).recovered_to(a)
        },
{
    if !s.identities.contains_key(&account) {
        return Err(IRSError::IdentityNotFound);
    }
    s.identities.remove(&account);
    s.profiles.remove(&account);
    proof {
        assert(final(s).identities@.dom() =~= final(s).profiles@.dom());
    }
    Ok(())
}

/// Moves the identity and profile of `old_account` onto `new_account`, and
/// records that `old_account` was recovered to `new_account`.
///
/// # Errors
///
/// * [`IRSError::IdentityNotFound`] - When `old_account` has no identity.
/// * [`IRSError::IdentityOverwrite`] - When `new_account` already has one.
pub fn recover_identity(
    s: &mut IdentityRegistryStorage,
    old_account: Address,
    new_account: Address,
) -> (r: Result<(), IRSError>)
    requires
        old(s).wf(),
    ensures
        final(s).wf(),
        !old(s).has_identity(old_account) ==> r == Err::<(), IRSError>(IRSError::IdentityNotFound),
        old(s).has_identity(old_account) && old(s).has_identity(new_account) ==> r == Err::<
            (),
            IRSError,
        >(IRSError::IdentityOverwrite),
        r is Ok <==> old(s).has_identity(old_account) && !old(s).has_identity(new_account),
        r is Err ==> *final(s) == *old(s),
        r is Ok ==> {
            &&& !final(s).has_identity(old_account)
            &&& final(s).entries_of(old_account) == Seq::<CountryDataView>::empty()
            &&& final(s).has_identity(new_account)
            &&& final(s).identity_of(new_account) == old(s).identity_of(old_account)
            &&& final(s).type_of(new_account) == old(s).type_of(old_account)
            &&& final(s).entries_of(new_account) == old(s).entries_of(old_account)
            &&& final(s).recovered_to(old_account) == Some(new_account)
            &&& final(s).same_except(old(s), old_account, new_account)
            &&& forall|a: Address|
                a != old_account ==> #[trigger] final(s).recovered_to(a) == old(s).recovered_to(a)
        },
{
    let identity = match s.identities.get(&old_account) {
        Some(id) => *id,
        None => {
            return Err(IRSError::IdentityNotFound);
        },
    };
    if s.identities.contains_key(&new_account) {
        return Err(IRSError::IdentityOverwrite);
    }
    let profile = match s.profiles.remove(&old_account) {
        Some(p) => p,
        None => {
            proof {
                assert(old(s).profiles@.contains_key(old_account));
            }
            return Err(IRSError::IdentityNotFound);
        },
    };
    s.identities.remove(&old_account);
    s.identities.insert(new_account, identity);
    s.profiles.insert(new_account, profile);
    s.recovered.insert(old_account, new_account);
    proof {
        assert(final(s).identities@.dom() =~= final(s).profiles@.dom());
    }
    Ok(())
}

/// Appends country data entries to `account`'s profile.
///
/// # Errors
///
/// * [`IRSError::EmptyCountryList`] - When `country_data_list` is empty.
/// * [`IRSError::IdentityNotFound`] - When `account` has no identity.
/// * [`IRSError::CountryRelationMismatch`] - When an entry does not fit the
///   identity's type.
/// * [`IRSError::MaxCountryEntriesReached`] - When the profile would hold
///   more than [`MAX_COUNTRY_ENTRIES`] entries.
pub fn add_country_data_entries(
    s: &mut IdentityRegistryStorage,
    account: Address,
    country_data_list: &Vec<CountryData>,
) -> (r: Result<(), IRSError>)
    requires
        old(s).wf(),
    ensures
        final(s).wf(),
        country_data_list@.len() == 0 ==> r == Err::<(), IRSError>(IRSError::EmptyCountryList),
        country_data_list@.len() > 0 && !old(s).has_identity(account) ==> r == Err::<(), IRSError>(
            IRSError::IdentityNotFound,
        ),
        country_data_list@.len() > 0 && old(s).has_identity(account) && !relations_fit(
            old(s).type_of(account),
            entries_view(country_data_list@),
        ) ==> r == Err::<(), IRSError>(IRSError::CountryRelationMismatch),
        country_data_list@.len() > 0 && old(s).has_identity(account) && relations_fit(
            old(s).type_of(account),
            entries_view(country_data_list@),
        ) && old(s).entries_of(account).len() + country_data_list@.len() > MAX_COUNTRY_ENTRIES
            ==> r == Err::<(), IRSError>(IRSError::MaxCountryEntriesReached),
        r is Ok <==> country_data_list@.len() > 0 && old(s).has_identity(account) && relations_fit(
            old(s).type_of(account),
            entries_view(country_data_list@),
        ) && old(s).entries_of(account).len() + country_data_list@.len() <= MAX_COUNTRY_ENTRIES,
        r is Err ==> *final(s) == *old(s),
        r is Ok ==> {
            &&& final(s).entries_of(account) == old(s).entries_of(account) + entries_view(
                country_data_list@,
            )
            &&& final(s).has_identity(account)
            &&& final(s).identity_of(account) == old(s).identity_of(account)
            &&& final(s).type_of(account) == old(s).type_of(account)
            &&& final(s).same_except(old(s), account, account)
            &&& forall|a: Address| #[trigger] final(s).recovered_to(a) == old(s).recovered_to(a)
        },
{
    if country_data_list.len() == 0 {
        return Err(IRSError::EmptyCountryList);
    }
    let (current_len, identity_type) = match s.profiles.get(&account) {
        Some(p) => (p.countries.len(), p.identity_type),
        None => {
            return Err(IRSError::IdentityNotFound);
        },
    };
    if !validate_country_relations(identity_type, country_data_list) {
        return Err(IRSError::CountryRelationMismatch);
    }
    if current_len > MAX_COUNTRY_ENTRIES as usize || country_data_list.len()
        > MAX_COUNTRY_ENTRIES as usize - current_len {
        return Err(IRSError::MaxCountryEntriesReached);
    }
    let mut profile = match s.profiles.remove(&account) {
        Some(p) => p,
        None => {
            return Err(IRSError::IdentityNotFound);
        },
    };
    let ghost before = profile.countries@;
    let mut added = copy_entries(country_data_list);
    profile.countries.append(&mut added);
    proof {
        assert(entries_view(profile.countries@) =~= entries_view(before) + entries_view(
            country_data_list@,
        ));
    }
    s.profiles.insert(account, profile);
    proof {
        assert(final(s).identities@.dom() =~= final(s).profiles@.dom());
    }
    Ok(())
}

/// Replaces the country data entry at `index` of `account`.
///
/// # Errors
///
/// * [`IRSError::IdentityNotFound`] - When `account` has no identity.
/// * [`IRSError::CountryDataNotFound`] - When `index` is out of range.
/// * [`IRSError::CountryRelationMismatch`] - When `country_data` does not fit
///   the identity's type.
pub fn modify_country_data(
    s: &mut IdentityRegistryStorage,
    account: Address,
    index: u32,
    country_data: &CountryData,
) -> (r: Result<(), IRSError>)
    requires
        old(s).wf(),
    ensures
        final(s).wf(),
        !old(s).has_identity(account) ==> r == Err::<(), IRSError>(IRSError::IdentityNotFound),
        old(s).has_identity(account) && index >= old(s).entries_of(account).len() ==> r == Err::<
            (),
            IRSError,
        >(IRSError::CountryDataNotFound),
        old(s).has_identity(account) && index < old(s).entries_of(account).len() && !relation_fits(
            old(s).type_of(account),
            country_data@,
        ) ==> r == Err::<(), IRSError>(IRSError::CountryRelationMismatch),
        r is Ok <==> old(s).has_identity(account) && index < old(s).entries_of(account).len()
            && relation_fits(old(s).type_of(account), country_data@),
        r is Err ==> *final(s) == *old(s),
        r is Ok ==> {
            &&& final(s).entries_of(account) == old(s).entries_of(account).update(
                index as int,
                country_data@,
            )
            &&& final(s).has_identity(account)
            &&& final(s).identity_of(account) == old(s).identity_of(account)
            &&& final(s).type_of(account) == old(s).type_of(account)
            &&& final(s).same_except(old(s), account, account)
            &&& forall|a: Address| #[trigger] final(s).recovered_to(a) == old(s).recovered_to(a)
        },
{
    let (len, identity_type) = match s.profiles.get(&account) {
        Some(p) => (p.countries.len(), p.identity_type),
        None => {
            return Err(IRSError::IdentityNotFound);
        },
    };
    if index as usize >= len {
        return Err(IRSError::CountryDataNotFound);
    }
    let organization = match &country_data.country {
        CountryRelation::Individual(_) => false,
        CountryRelation::Organization(_) => true,
    };
    if identity_type == IdentityType::Individual && organization {
        return Err(IRSError::CountryRelationMismatch);
    }
    let mut profile = match s.profiles.remove(&account) {
        Some(p) => p,
        None => {
            return Err(IRSError::IdentityNotFound);
        },
    };
    let ghost before = profile.countries@;
    let d = copy_country_data(country_data);
    profile.countries.set(index as usize, d);
    proof {
        assert(entries_view(profile.countries@) =~= entries_view(before).update(
            index as int,
            country_data@,
        ));
    }
    s.profiles.insert(account, profile);
    proof {
        assert(final(s).identities@.dom() =~= final(s).profiles@.dom());
    }
    Ok(())
}

/// Deletes the country data entry at `index` of `account`; the last entry
/// of a profile cannot be deleted.
///
/// # Errors
///
/// * [`IRSError::IdentityNotFound`] - When `account` has no identity.
/// * [`IRSError::EmptyCountryList`] - When the profile holds one entry only.
/// * [`IRSError::CountryDataNotFound`] - When `index` is out of range.
pub fn delete_country_data(s: &mut IdentityRegistryStorage, account: Address, index: u32) -> (r:
    Result<(), IRSError>)
    requires
        old(s).wf(),
    ensures
        final(s).wf(),
        !old(s).has_identity(account) ==> r == Err::<(), IRSError>(IRSError::IdentityNotFound),
        old(s).has_identity(account) && old(s).entries_of(account).len() == 1 ==> r == Err::<
            (),
            IRSError,
        >(IRSError::EmptyCountryList),
        old(s).has_identity(account) && old(s).entries_of(account).len() != 1 && index >= old(
            s,
        ).entries_of(account).len() ==> r == Err::<(), IRSError>(IRSError::CountryDataNotFound),
        r is Ok <==> old(s).has_identity(account) && old(s).entries_of(account).len() != 1 && index
            < old(s).entries_of(account).len(),
        r is Err ==> *final(s) == *old(s),
        r is Ok ==> {
            &&& final(s).entries_of(account) == old(s).entries_of(account).remove(index as int)
            &&& final(s).has_identity(account)
            &&& final(s).identity_of(account) == old(s).identity_of(account)
            &&& final(s).type_of(account) == old(s).type_of(account)
            &&& final(s).same_except(old(s), account, account)
            &&& forall|a: Address| #[trigger] final(s).recovered_to(a) == old(s).recovered_to(a)
        },
{
    let len = match s.profiles.get(&account) {
        Some(p) => p.countries.len(),
        None => {
            return Err(IRSError::IdentityNotFound);
        },
    };
    if len == 1 {
        return Err(IRSError::EmptyCountryList);
    }
    if index as usize >= len {
        return Err(IRSError::CountryDataNotFound);
    }
    let mut profile = match s.profiles.remove(&account) {
        Some(p) => p,
        None => {
            return Err(IRSError::IdentityNotFound);
        },
    };
    let ghost before = profile.countries@;
    profile.countries.remove(index as usize);
    proof {
        assert(entries_view(profile.countries@) =~= entries_view(before).remove(index as int));
    }
    s.profiles.insert(account, profile);
    proof {
        assert(final(s).identities@.dom() =~= final(s).profiles@.dom());
    }
    Ok(())
}

} // verus!
