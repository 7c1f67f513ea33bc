//! The multiplier table: four ordered tier lists over a fixed-point scale,
//! their lookup rules and their sorted insertion.

use vstd::prelude::*;
use crate::address::Address;
use crate::error::HplNectarStakingError;

verus! {

/// What a multiplier tier applies to, with its threshold or identity.
#[derive(Clone, Copy, Debug, PartialEq, Eq)]
pub enum MultiplierType {
    /// Applies according to the seconds elapsed since the last accrual.
    StakeDuration { min_duration: u64 },
    /// Applies according to the number of assets the staker has staked.
    NFTCount { min_count: u64 },
    /// Applies to assets classified under this creator.
    Creator { creator: Address },
    /// Applies to assets classified under this collection.
    Collection { collection: Address },
}

/// One tier: a fixed-point multiplier value and what it applies to.
#[derive(Clone, Copy, Debug, PartialEq, Eq)]
pub struct Multiplier {
    pub value: u64,
    pub multiplier_type: MultiplierType,
}

/// The four classification axes of the multiplier table.
#[derive(Clone, Copy, Debug, PartialEq, Eq, Structural)]
pub enum MultiplierAxis {
    Duration,
    Count,
    Creator,
    Collection,
}

/// The axis a tier belongs on.
pub open spec fn axis_of(t: MultiplierType) -> MultiplierAxis {
    match t {
        MultiplierType::StakeDuration { .. } => MultiplierAxis::Duration,
        MultiplierType::NFTCount { .. } => MultiplierAxis::Count,
        MultiplierType::Creator { .. } => MultiplierAxis::Creator,
        MultiplierType::Collection { .. } => MultiplierAxis::Collection,
    }
}

/// The threshold of a duration or count tier (0 for the identity axes).
pub open spec fn threshold(m: Multiplier) -> u64 {
    match m.multiplier_type {
        MultiplierType::StakeDuration { min_duration } => min_duration,
        MultiplierType::NFTCount { min_count } => min_count,
        _ => 0,
    }
}

/// Each axis is kept ascending by this key: the threshold for duration and
/// count, the value for creator, and the negated value for collection (that
/// is, collection tiers are kept descending by value).
pub open spec fn sort_key(axis: MultiplierAxis, m: Multiplier) -> int {
    match axis {
        MultiplierAxis::Duration => threshold(m) as int,
        MultiplierAxis::Count => threshold(m) as int,
        MultiplierAxis::Creator => m.value as int,
        MultiplierAxis::Collection => -(m.value as int),
    }
}

pub open spec fn sorted_by_axis(s: Seq<Multiplier>, axis: MultiplierAxis) -> bool {
    forall|i: int, j: int| 0 <= i < j < s.len() ==> sort_key(axis, s[i]) <= sort_key(axis, s[j])
}

/// The length of the longest prefix of `s` whose tiers all satisfy `p`.
pub open spec fn prefix_len(s: Seq<Multiplier>, p: spec_fn(Multiplier) -> bool) -> nat
    decreases s.len(),
{
    if s.len() == 0 || !p(s[0]) {
        0
    } else {
        1 + prefix_len(s.drop_first(), p)
    }
}

/// The value of the last tier of the longest prefix satisfying `p`, or
/// `neutral` when that prefix is empty.
pub open spec fn last_of_prefix(s: Seq<Multiplier>, p: spec_fn(Multiplier) -> bool, neutral: u64) -> u64 {
    let k = prefix_len(s, p);
    if k == 0 {
        neutral
    } else {
        s[k - 1].value
    }
}

/// The value of the first tier satisfying `p`, or `neutral` when none does.
pub open spec fn first_match(s: Seq<Multiplier>, p: spec_fn(Multiplier) -> bool, neutral: u64) -> u64 {
    let k = prefix_len(s, |m: Multiplier| !p(m));
    if k == s.len() {
        neutral
    } else {
        s[k as int].value
    }
}

/// The longest prefix satisfying `p` ends at the first index whose tier fails it.
pub proof fn lemma_prefix_len(s: Seq<Multiplier>, p: spec_fn(Multiplier) -> bool, i: int)
    requires
        0 <= i <= s.len(),
        forall|j: int| 0 <= j < i ==> p(s[j]),
        i == s.len() || !p(s[i]),
    ensures
        prefix_len(s, p) == i,
    decreases s.len(),
{
    if s.len() > 0 && p(s[0]) {
        assert forall|j: int| 0 <= j < i - 1 implies p(s.drop_first()[j]) by {
            assert(s.drop_first()[j] == s[j + 1]);
        }
        lemma_prefix_len(s.drop_first(), p, i - 1);
    }
}

/// The longest prefix satisfying `p` is no longer than `s`, all of its tiers
/// satisfy `p`, and the tier right after it does not.
pub proof fn lemma_prefix_len_bound(s: Seq<Multiplier>, p: spec_fn(Multiplier) -> bool)
    ensures
        prefix_len(s, p) <= s.len(),
        forall|j: int| 0 <= j < prefix_len(s, p) ==> p(#[trigger] s[j]),
        prefix_len(s, p) < s.len() ==> !p(s[prefix_len(s, p) as int]),
    decreases s.len(),
{
    if s.len() > 0 && p(s[0]) {
        lemma_prefix_len_bound(s.drop_first(), p);
        assert forall|j: int| 0 <= j < prefix_len(s, p) implies p(#[trigger] s[j]) by {
            if j > 0 {
                assert(s[j] == s.drop_first()[j - 1]);
            }
        }
    }
}

/// Where `m` goes in the sorted list `s`: after every tier whose key does
/// not exceed its own.
pub open spec fn insertion_point(s: Seq<Multiplier>, axis: MultiplierAxis, m: Multiplier) -> nat {
    prefix_len(s, |x: Multiplier| sort_key(axis, x) <= sort_key(axis, m))
}

/// `s` with `m` inserted at its insertion point.
pub open spec fn sorted_insert(s: Seq<Multiplier>, axis: MultiplierAxis, m: Multiplier) -> Seq<Multiplier> {
    s.insert(insertion_point(s, axis, m) as int, m)
}

/// 10 to the power `n`.
pub open spec fn pow10(n: nat) -> nat
    decreases n,
{
    if n == 0 {
        1
    } else {
        10 * pow10((n - 1) as nat)
    }
}

pub proof fn lemma_pow10_bound(n: nat)
    requires
        n <= 19,
    ensures
        1 <= pow10(n) <= pow10(19),
    decreases n,
{
    if n > 0 {
        lemma_pow10_bound((n - 1) as nat);
    }
    lemma_pow10_grows(n);
}

proof fn lemma_pow10_grows(n: nat)
    requires
        n <= 19,
    ensures
        pow10(n) <= pow10(19),
    decreases 19 - n,
{
    if n < 19 {
        lemma_pow10_grows(n + 1);
        assert(pow10(n + 1) == 10 * pow10(n));
    }
}

/// A duration tier applies while the elapsed time is below its threshold.
pub open spec fn duration_applies(elapsed: u64) -> spec_fn(Multiplier) -> bool {
    |m: Multiplier| m.multiplier_type is StakeDuration && elapsed < threshold(m)
}

/// A count tier applies once the staked count reaches its threshold.
pub open spec fn count_applies(count: u64) -> spec_fn(Multiplier) -> bool {
    |m: Multiplier| m.multiplier_type is NFTCount && threshold(m) <= count
}

/// An identity tier matches when it names exactly this creator or collection.
pub open spec fn is_tier_for(t: MultiplierType) -> spec_fn(Multiplier) -> bool {
    |m: Multiplier| m.multiplier_type == t
}

/// The mathematical content of a multiplier table.
pub struct MultipliersView {
    pub decimals: u8,
    pub scale: u64,
    pub by_duration: Seq<Multiplier>,
    pub by_count: Seq<Multiplier>,
    pub by_creator: Seq<Multiplier>,
    pub by_collection: Seq<Multiplier>,
}

impl MultipliersView {
    pub open spec fn tiers(self, axis: MultiplierAxis) -> Seq<Multiplier> {
        match axis {
            MultiplierAxis::Duration => self.by_duration,
            MultiplierAxis::Count => self.by_count,
            MultiplierAxis::Creator => self.by_creator,
            MultiplierAxis::Collection => self.by_collection,
        }
    }

    pub open spec fn with_tiers(self, axis: MultiplierAxis, s: Seq<Multiplier>) -> MultipliersView {
        match axis {
            MultiplierAxis::Duration => MultipliersView { by_duration: s, ..self },
            MultiplierAxis::Count => MultipliersView { by_count: s, ..self },
            MultiplierAxis::Creator => MultipliersView { by_creator: s, ..self },
            MultiplierAxis::Collection => MultipliersView { by_collection: s, ..self },
        }
    }

    pub open spec fn axis_wf(self, axis: MultiplierAxis) -> bool {
        &&& forall|i: int| 0 <= i < self.tiers(axis).len() ==> axis_of(#[trigger] self.tiers(axis)[i].multiplier_type) == axis
        &&& sorted_by_axis(self.tiers(axis), axis)
    }

    /// The scale is `10^decimals`, and every axis holds only its own kind of
    /// tier, in its required order.
    pub open spec fn wf(self) -> bool {
        &&& self.decimals <= 19
        &&& self.scale == pow10(self.decimals as nat)
        &&& self.axis_wf(MultiplierAxis::Duration)
        &&& self.axis_wf(MultiplierAxis::Count)
        &&& self.axis_wf(MultiplierAxis::Creator)
        &&& self.axis_wf(MultiplierAxis::Collection)
    }

    /// Duration axis: scanning ascending, a tier's value is taken while the
    /// elapsed time is below its threshold, and the scan stops at the first
    /// tier where it is not.
    pub open spec fn duration_value(self, elapsed: u64) -> u64 {
        last_of_prefix(self.by_duration, duration_applies(elapsed), self.scale)
    }

    /// Count axis: scanning ascending, a tier's value is taken while the
    /// staked count reaches its threshold, and the scan stops at the first
    /// tier it does not reach.
    pub open spec fn count_value(self, count: u64) -> u64 {
        last_of_prefix(self.by_count, count_applies(count), self.scale)
    }

    /// Creator axis: the value of the first tier for this creator.
    pub open spec fn creator_value(self, creator: Address) -> u64 {
        first_match(self.by_creator, is_tier_for(MultiplierType::Creator { creator }), self.scale)
    }

    /// Collection axis: the value of the first tier for this collection.
    pub open spec fn collection_value(self, collection: Address) -> u64 {
        first_match(
            self.by_collection,
            is_tier_for(MultiplierType::Collection { collection }),
            self.scale,
        )
    }
}

/// Inserting a duration tier keeps the duration axis sorted ascending by
/// threshold, and for an elapsed time that lies between two thresholds
/// already on the axis, the duration value selected afterwards is the one
/// selected before.
pub proof fn lemma_duration_insert_keeps_lookup(t: MultipliersView, m: Multiplier, i: int, elapsed: u64)
    requires
        t.wf(),
        axis_of(m.multiplier_type) == MultiplierAxis::Duration,
        0 <= i && i + 1 < t.by_duration.len(),
        threshold(t.by_duration[i]) <= elapsed < threshold(t.by_duration[i + 1]),
    ensures
        ({
            let after = t.with_tiers(MultiplierAxis::Duration, sorted_insert(t.by_duration, MultiplierAxis::Duration, m));
            &&& sorted_by_axis(after.by_duration, MultiplierAxis::Duration)
            &&& after.duration_value(elapsed) == t.duration_value(elapsed)
        }),
{
    let axis = MultiplierAxis::Duration;
    let s = t.by_duration;
    let n = sorted_insert(s, axis, m);
    let q = insertion_point(s, axis, m) as int;
    let p = duration_applies(elapsed);
    lemma_prefix_len_bound(s, |x: Multiplier| sort_key(axis, x) <= sort_key(axis, m));
    assert(sort_key(axis, s[0]) <= sort_key(axis, s[i]));
    assert(!p(s[0]));
    lemma_prefix_len(s, p, 0);
    if q == 0 {
        assert(n[0] == m);
    } else {
        assert(n[0] == s[0]);
    }
    assert(!p(n[0]));
    lemma_prefix_len(n, p, 0);
    assert forall|a: int, b: int| 0 <= a < b < n.len() implies sort_key(axis, n[a]) <= sort_key(axis, n[b]) by {
        if b < q {
            assert(n[a] == s[a] && n[b] == s[b]);
        } else if a > q {
            assert(n[a] == s[a - 1] && n[b] == s[b - 1]);
        } else if a == q {
            assert(n[b] == s[b - 1]);
            if q < s.len() {
                assert(sort_key(axis, s[q]) <= sort_key(axis, s[b - 1]));
            }
        } else {
            assert(n[a] == s[a]);
            if b > q {
                assert(n[b] == s[b - 1]);
            }
        }
    }
}

/// A pool's multiplier table: a fixed-point scale and four ordered tier lists.
#[derive(Clone)]
pub struct Multipliers {
    decimals: u8,
    scale: u64,
    duration_multipliers: Vec<Multiplier>,
    count_multipliers: Vec<Multiplier>,
    creator_multipliers: Vec<Multiplier>,
    collection_multipliers: Vec<Multiplier>,
}

impl View for Multipliers {
    type V = MultipliersView;

    closed spec fn view(&self) -> MultipliersView {
        MultipliersView {
            decimals: self.decimals,
            scale: self.scale,
            by_duration: self.duration_multipliers@,
            by_count: self.count_multipliers@,
            by_creator: self.creator_multipliers@,
            by_collection: self.collection_multipliers@,
        }
    }
}

/// Whether `a` may stand before `b` on `axis`.
fn key_le(axis: MultiplierAxis, a: &Multiplier, b: &Multiplier) -> (r: bool)
    ensures
        r == (sort_key(axis, *a) <= sort_key(axis, *b)),
{
    match axis {
        MultiplierAxis::Duration | MultiplierAxis::Count => tier_threshold(a) <= tier_threshold(b),
        MultiplierAxis::Creator => a.value <= b.value,
        MultiplierAxis::Collection => a.value >= b.value,
    }
}

fn tier_threshold(m: &Multiplier) -> (r: u64)
    ensures
        r == threshold(*m),
{
    match m.multiplier_type {
        MultiplierType::StakeDuration { min_duration } => min_duration,
        MultiplierType::NFTCount { min_count } => min_count,
        _ => 0,
    }
}

fn axis_of_type(t: &MultiplierType) -> (r: MultiplierAxis)
    ensures
        r == axis_of(*t),
{
    match t {
        MultiplierType::StakeDuration { .. } => MultiplierAxis::Duration,
        MultiplierType::NFTCount { .. } => MultiplierAxis::Count,
        MultiplierType::Creator { .. } => MultiplierAxis::Creator,
        MultiplierType::Collection { .. } => MultiplierAxis::Collection,
    }
}

/// Inserts `m` into the sorted list `v` after every tier whose key does not
/// exceed its own, so that the list stays sorted.
fn insert_sorted(v: &mut Vec<Multiplier>, axis: MultiplierAxis, m: Multiplier)
    requires
        sorted_by_axis(old(v)@, axis),
    ensures
        final(v)@ == sorted_insert(old(v)@, axis, m),
        sorted_by_axis(final(v)@, axis),
{
    let ghost p = |x: Multiplier| sort_key(axis, x) <= sort_key(axis, m);
    let mut i: usize = 0;
    while i < v.len() && key_le(axis, &v[i], &m)
        invariant
            v@ == old(v)@,
            0 <= i <= v.len(),
            forall|j: int| 0 <= j < i ==> sort_key(axis, #[trigger] v@[j]) <= sort_key(axis, m),
        decreases v.len() - i,
    {
        i += 1;
    }
    proof {
        lemma_prefix_len(v@, p, i as int);
    }
    v.insert(i, m);
    assert forall|a: int, b: int| 0 <= a < b < v@.len() implies sort_key(axis, v@[a]) <= sort_key(axis, v@[b]) by {
        if b < i {
        } else if a > i {
        } else if a == i {
            assert(v@[b] == old(v)@[b - 1]);
            assert(sort_key(axis, old(v)@[i as int]) <= sort_key(axis, old(v)@[b - 1]));
        } else {
            if b > i {
                assert(v@[b] == old(v)@[b - 1]);
            }
        }
    }
}

fn duration_tier_applies(m: &Multiplier, elapsed: u64) -> (r: bool)
    ensures
        r == duration_applies(elapsed)(*m),
{
    match m.multiplier_type {
        MultiplierType::StakeDuration { min_duration } => elapsed < min_duration,
        _ => false,
    }
}

fn count_tier_applies(m: &Multiplier, count: u64) -> (r: bool)
    ensures
        r == count_applies(count)(*m),
{
    match m.multiplier_type {
        MultiplierType::NFTCount { min_count } => min_count <= count,
        _ => false,
    }
}

/// The value of the last tier of the longest prefix of `v` whose tiers are
/// duration tiers with a threshold above `elapsed`.
fn scan_duration(v: &Vec<Multiplier>, elapsed: u64, neutral: u64) -> (r: u64)
    ensures
        r == last_of_prefix(v@, duration_applies(elapsed), neutral),
{
    let mut i: usize = 0;
    while i < v.len() && duration_tier_applies(&v[i], elapsed)
        invariant
            0 <= i <= v.len(),
            forall|j: int| 0 <= j < i ==> duration_applies(elapsed)(#[trigger] v@[j]),
        decreases v.len() - i,
    {
        i += 1;
    }
    proof {
        lemma_prefix_len(v@, duration_applies(elapsed), i as int);
    }
    if i == 0 {
        neutral
    } else {
        v[i - 1].value
    }
}

/// The value of the last tier of the longest prefix of `v` whose tiers are
/// count tiers with a threshold of at most `count`.
fn scan_count(v: &Vec<Multiplier>, count: u64, neutral: u64) -> (r: u64)
    ensures
        r == last_of_prefix(v@, count_applies(count), neutral),
{
    let mut i: usize = 0;
    while i < v.len() && count_tier_applies(&v[i], count)
        invariant
            0 <= i <= v.len(),
            forall|j: int| 0 <= j < i ==> count_applies(count)(#[trigger] v@[j]),
        decreases v.len() - i,
    {
        i += 1;
    }
    proof {
        lemma_prefix_len(v@, count_applies(count), i as int);
    }
    if i == 0 {
        neutral
    } else {
        v[i - 1].value
    }
}

fn same_type(a: &MultiplierType, b: &MultiplierType) -> (r: bool)
    ensures
        r == (*a == *b),
{
    match (a, b) {
        (MultiplierType::StakeDuration { min_duration: x }, MultiplierType::StakeDuration { min_duration: y }) => *x == *y,
        (MultiplierType::NFTCount { min_count: x }, MultiplierType::NFTCount { min_count: y }) => *x == *y,
        (MultiplierType::Creator { creator: x }, MultiplierType::Creator { creator: y }) => x.same(y),
        (MultiplierType::Collection { collection: x }, MultiplierType::Collection { collection: y }) => x.same(y),
        _ => false,
    }
}

/// The value of the first tier of `v` of exactly type `t`, else `neutral`.
fn scan_first(v: &Vec<Multiplier>, t: &MultiplierType, neutral: u64) -> (r: u64)
    ensures
        r == first_match(v@, is_tier_for(*t), neutral),
{
    let mut i: usize = 0;
    while i < v.len() && !same_type(&v[i].multiplier_type, t)
        invariant
            0 <= i <= v.len(),
            forall|j: int| 0 <= j < i ==> (#[trigger] v@[j]).multiplier_type != *t,
        decreases v.len() - i,
    {
        i += 1;
    }
    proof {
        lemma_prefix_len(v@, |m: Multiplier| !is_tier_for(*t)(m), i as int);
    }
    if i == v.len() {
        neutral
    } else {
        v[i].value
    }
}

impl Multipliers {
    /// The duration axis value for `elapsed` seconds.
    pub fn duration_value(&self, elapsed: u64) -> (r: u64)
        ensures
            r == self@.duration_value(elapsed),
    {
        scan_duration(&self.duration_multipliers, elapsed, self.scale)
    }

    /// The count axis value for a staker with `count` staked assets.
    pub fn count_value(&self, count: u64) -> (r: u64)
        ensures
            r == self@.count_value(count),
    {
        scan_count(&self.count_multipliers, count, self.scale)
    }

    /// The creator axis value for an asset of this creator.
    pub fn creator_value(&self, creator: Address) -> (r: u64)
        ensures
            r == self@.creator_value(creator),
    {
        scan_first(&self.creator_multipliers, &MultiplierType::Creator { creator }, self.scale)
    }

    /// The collection axis value for an asset of this collection.
    pub fn collection_value(&self, collection: Address) -> (r: u64)
        ensures
            r == self@.collection_value(collection),
    {
        scan_first(&self.collection_multipliers, &MultiplierType::Collection { collection }, self.scale)
    }

    /// An empty table whose scale is `10^decimals`. Refused with
    /// `MultiplierConfigInvalid` when that does not fit in a `u64`.
    pub fn new(decimals: u8) -> (r: Result<Multipliers, HplNectarStakingError>)
        ensures
            decimals <= 19 ==> r is Ok && r->Ok_0@ == (MultipliersView {
                decimals,
                scale: pow10(decimals as nat) as u64,
                by_duration: Seq::empty(),
                by_count: Seq::empty(),
                by_creator: Seq::empty(),
                by_collection: Seq::empty(),
            }),
            decimals > 19 ==> r == Err::<Multipliers, HplNectarStakingError>(HplNectarStakingError::MultiplierConfigInvalid),
            r is Ok ==> r->Ok_0@.wf(),
    {
        if decimals > 19 {
            return Err(HplNectarStakingError::MultiplierConfigInvalid);
        }
        let mut scale: u64 = 1;
        let mut i: u8 = 0;
        while i < decimals
            invariant
                i <= decimals <= 19,
                scale == pow10(i as nat),
            decreases decimals - i,
        {
            proof {
                lemma_pow10_bound((i + 1) as nat);
                reveal_with_fuel(pow10, 20);
                assert(pow10(19) == 10000000000000000000nat);
            }
            scale = scale * 10;
            i += 1;
        }
        let r = Multipliers {
            decimals,
            scale,
            duration_multipliers: Vec::new(),
            count_multipliers: Vec::new(),
            creator_multipliers: Vec::new(),
            collection_multipliers: Vec::new(),
        };
        assert(r@.by_duration =~= Seq::empty());
        assert(r@.by_count =~= Seq::empty());
        assert(r@.by_creator =~= Seq::empty());
        assert(r@.by_collection =~= Seq::empty());
        Ok(r)
    }

    pub fn decimals(&self) -> (r: u8)
        ensures
            r == self@.decimals,
    {
        self.decimals
    }

    /// The fixed-point base: the neutral multiplier.
    pub fn scale(&self) -> (r: u64)
        ensures
            r == self@.scale,
    {
        self.scale
    }

    /// The tiers of one axis, in their order.
    pub fn tiers(&self, axis: MultiplierAxis) -> (r: &Vec<Multiplier>)
        ensures
            r@ == self@.tiers(axis),
    {
        match axis {
            MultiplierAxis::Duration => &self.duration_multipliers,
            MultiplierAxis::Count => &self.count_multipliers,
            MultiplierAxis::Creator => &self.creator_multipliers,
            MultiplierAxis::Collection => &self.collection_multipliers,
        }
    }

    /// Inserts a tier on `axis`, keeping the axis in its required order
    /// (ascending for duration, count and creator, descending by value for
    /// collection; a new tier goes after the tiers with an equal key).
    /// Refused with `MultiplierConfigInvalid` when the tier's kind is not
    /// that of the axis.
    pub fn add_multiplier(&mut self, axis: MultiplierAxis, multiplier: Multiplier) -> (r: Result<(), HplNectarStakingError>)
        requires
            old(self)@.wf(),
        ensures
            final(self)@.wf(),
            axis_of(multiplier.multiplier_type) == axis ==> r is Ok
                && final(self)@ == old(self)@.with_tiers(axis, sorted_insert(old(self)@.tiers(axis), axis, multiplier)),
            axis_of(multiplier.multiplier_type) != axis ==> r == Err::<(), HplNectarStakingError>(HplNectarStakingError::MultiplierConfigInvalid)
                && final(self)@ == old(self)@,
    {
        if axis_of_type(&multiplier.multiplier_type) != axis {
            return Err(HplNectarStakingError::MultiplierConfigInvalid);
        }
        let ghost before = self@;
        match axis {
            MultiplierAxis::Duration => insert_sorted(&mut self.duration_multipliers, axis, multiplier),
            MultiplierAxis::Count => insert_sorted(&mut self.count_multipliers, axis, multiplier),
            MultiplierAxis::Creator => insert_sorted(&mut self.creator_multipliers, axis, multiplier),
            MultiplierAxis::Collection => insert_sorted(&mut self.collection_multipliers, axis, multiplier),
        }
        proof {
            let s = before.tiers(axis);
            let q = insertion_point(s, axis, multiplier) as int;
            lemma_prefix_len_bound(s, |x: Multiplier| sort_key(axis, x) <= sort_key(axis, multiplier));
            assert forall|i: int| 0 <= i < self@.tiers(axis).len() implies axis_of(#[trigger] self@.tiers(axis)[i].multiplier_type) == axis by {
                if i < q {
                    assert(self@.tiers(axis)[i] == s[i]);
                } else if i > q {
                    assert(self@.tiers(axis)[i] == s[i - 1]);
                }
            }
        }
        Ok(())
    }
}

} // verus!
