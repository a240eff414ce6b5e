//! The meters, and what is taken on trust of their hash maps.

use vstd::prelude::*;
use vstd::string::StringExecFns;
use fnv::FnvHashMap;
use crate::common::Percentile;
use crate::text::decimal;
use crate::text::push_decimal;

verus! {

/// The hasher of the `fnv` crate, which the keys of the meters are hashed
/// with.
#[verifier::external_type_specification]
#[verifier::external_body]
pub struct ExFnvHasher(fnv::FnvHasher);

/// The standard library's builder of default hashers, which `FnvHashMap`
/// names in its type.
#[verifier::external_type_specification]
#[verifier::external_body]
#[verifier::reject_recursive_types(H)]
pub struct ExBuildHasherDefault<H>(core::hash::BuildHasherDefault<H>);

/// What a hash map of meters holds: the value stored under each key, the key
/// taken as its sequence of characters.
pub uninterp spec fn meter_entries(m: FnvHashMap<String, u64>) -> Map<Seq<char>, u64>;

/// `FnvHashMap::default`: a map that holds nothing.
#[verifier::external_body]
fn fnv_map_new() -> (m: FnvHashMap<String, u64>)
    ensures
        (meter_entries(m) == Map::<Seq<char>, u64>::empty()),
{
    FnvHashMap::default()
}

/// `HashMap::insert`: afterwards `key` holds `value`, whether or not the key
/// was present, and every other key holds what it held.
#[verifier::external_body]
fn fnv_map_insert(m: &mut FnvHashMap<String, u64>, key: String, value: u64)
    ensures
        meter_entries(*final(m)) == meter_entries(*old(m)).insert(key@, value),
{
    m.insert(key, value);
}

/// `HashMap::get`: the value stored under `key`, if the key is present.
#[verifier::external_body]
fn fnv_map_get<'a>(m: &'a FnvHashMap<String, u64>, key: &String) -> (r: Option<&'a u64>)
    ensures
        match r {
            Some(value) => meter_entries(*m).contains_key(key@) && *value == meter_entries(*m)[key@],
            None => !meter_entries(*m).contains_key(key@),
        },
{
    m.get(key)
}

/// `HashMap::iter`: every entry of the map exactly once, in an order that
/// the map does not promise.
#[verifier::external_body]
fn fnv_map_listing(m: &FnvHashMap<String, u64>) -> (entries: Vec<(String, u64)>)
    ensures
        lists(integer_pairs(entries@), meter_entries(*m)),
{
    m.iter().map(|(key, value)| (key.clone(), *value)).collect()
}

/// `HashMap::clone`: a map that holds the same entries.
#[verifier::external_body]
fn fnv_map_clone(m: &FnvHashMap<String, u64>) -> (c: FnvHashMap<String, u64>)
    ensures
        meter_entries(c) == meter_entries(*m),
{
    m.clone()
}

/// The key and value of each pair, the key as its sequence of characters.
pub open spec fn integer_pairs(entries: Seq<(String, u64)>) -> Seq<(Seq<char>, u64)> {
    Seq::new(entries.len(), |i: int| (entries[i].0@, entries[i].1))
}

/// True when `entries` names every entry of `m` exactly once, in any order.
pub open spec fn lists(entries: Seq<(Seq<char>, u64)>, m: Map<Seq<char>, u64>) -> bool {
    &&& forall|i: int|
        0 <= i < entries.len() ==> m.contains_key((#[trigger] entries[i]).0) && m[entries[i].0]
            == entries[i].1
    &&& forall|i: int, j: int|
        0 <= i < j < entries.len() ==> (#[trigger] entries[i]).0 != (#[trigger] entries[j]).0
    &&& forall|k: Seq<char>| #[trigger]
        m.contains_key(k) ==> exists|i: int| 0 <= i < entries.len() && (#[trigger] entries[i]).0 == k
}

/// The key of the count of `channel`.
pub open spec fn count_key(channel: Seq<char>) -> Seq<char> {
    channel + "_count"@
}

/// The key of the percentile of `channel` that is labelled `label`.
pub open spec fn percentile_key(channel: Seq<char>, label: Seq<char>) -> Seq<char> {
    channel + "_"@ + label + "_nanoseconds"@
}

/// The key of the Allan deviation of `channel` at the lag `tau`.
pub open spec fn adev_key(channel: Seq<char>, tau: nat) -> Seq<char> {
    channel + "_tau_"@ + decimal(tau) + "_adev"@
}

/// Builds the key of a count.
pub fn count_key_of(channel: &String) -> (key: String)
    ensures
        key@ == count_key(channel@),
{
    let mut key = channel.clone();
    key.append("_count");
    key
}

/// Builds the key of a percentile.
pub fn percentile_key_of(channel: &String, label: &String) -> (key: String)
    ensures
        key@ == percentile_key(channel@, label@),
{
    let mut key = channel.clone();
    key.append("_");
    key.append(label.as_str());
    key.append("_nanoseconds");
    key
}

/// Builds the key of an Allan deviation.
pub fn adev_key_of(channel: &String, tau: usize) -> (key: String)
    ensures
        key@ == adev_key(channel@, tau as nat),
{
    let mut key = channel.clone();
    key.append("_tau_");
    push_decimal(&mut key, tau as u64);
    key.append("_adev");
    key
}

/// What a `Meters` holds: the integer meters, and the fractional meters in
/// thousandths.
#[verifier::ext_equal]
pub struct MetersView {
    pub data: Map<Seq<char>, u64>,
    pub data_float: Map<Seq<char>, u64>,
}

/// The values rendered at the last window boundary. Integer meters are
/// counts and percentiles in nanoseconds; fractional meters are Allan
/// deviations, each held as a whole number of thousandths of a nanosecond.
pub struct Meters {
    pub data: FnvHashMap<String, u64>,
    pub data_float: FnvHashMap<String, u64>,
}

impl View for Meters {
    type V = MetersView;

    open spec fn view(&self) -> MetersView {
        MetersView {
            data: meter_entries(self.data),
            data_float: meter_entries(self.data_float),
        }
    }
}

impl Meters {
    pub fn new() -> (m: Self)
        ensures
            m@.data == Map::<Seq<char>, u64>::empty(),
            m@.data_float == Map::<Seq<char>, u64>::empty(),
    {
        Meters { data: fnv_map_new(), data_float: fnv_map_new() }
    }

    /// Sets the count of `channel`.
    pub fn set_count(&mut self, channel: String, value: u64)
        ensures
            final(self)@.data == old(self)@.data.insert(count_key(channel@), value),
            final(self)@.data_float == old(self)@.data_float,
    {
        let key = count_key_of(&channel);
        fnv_map_insert(&mut self.data, key, value);
    }

    /// Sets the value of `channel` at `percentile`, in nanoseconds.
    pub fn set_percentile(&mut self, channel: String, percentile: Percentile, value: u64)
        ensures
            final(self)@.data == old(self)@.data.insert(
                percentile_key(channel@, percentile.label@),
                value,
            ),
            final(self)@.data_float == old(self)@.data_float,
    {
        let key = percentile_key_of(&channel, &percentile.label);
        fnv_map_insert(&mut self.data, key, value);
    }

    /// Sets the Allan deviation of `channel` at the lag `tau`, in
    /// thousandths of a nanosecond.
    pub fn set_adev(&mut self, channel: String, tau: usize, value: u64)
        ensures
            final(self)@.data == old(self)@.data,
            final(self)@.data_float == old(self)@.data_float.insert(
                adev_key(channel@, tau as nat),
                value,
            ),
    {
        let key = adev_key_of(&channel, tau);
        fnv_map_insert(&mut self.data_float, key, value);
    }

    /// The count of `channel`, if one was rendered.
    pub fn count(&self, channel: &String) -> (r: Option<&u64>)
        ensures
            match r {
                Some(value) => self@.data.contains_key(count_key(channel@)) && *value
                    == self@.data[count_key(channel@)],
                None => !self@.data.contains_key(count_key(channel@)),
            },
    {
        let key = count_key_of(channel);
        fnv_map_get(&self.data, &key)
    }

    /// The value of `channel` at `percentile`, if one was rendered.
    pub fn percentile(&self, channel: &String, percentile: Percentile) -> (r: Option<&u64>)
        ensures
            match r {
                Some(value) => self@.data.contains_key(
                    percentile_key(channel@, percentile.label@),
                ) && *value == self@.data[percentile_key(channel@, percentile.label@)],
                None => !self@.data.contains_key(percentile_key(channel@, percentile.label@)),
            },
    {
        let key = percentile_key_of(channel, &percentile.label);
        fnv_map_get(&self.data, &key)
    }

    /// The Allan deviation of `channel` at the lag `tau`, in thousandths of
    /// a nanosecond, if one was rendered.
    pub fn adev(&self, channel: String, tau: usize) -> (r: Option<&u64>)
        ensures
            match r {
                Some(value) => self@.data_float.contains_key(adev_key(channel@, tau as nat))
                    && *value == self@.data_float[adev_key(channel@, tau as nat)],
                None => !self@.data_float.contains_key(adev_key(channel@, tau as nat)),
            },
    {
        let key = adev_key_of(&channel, tau);
        fnv_map_get(&self.data_float, &key)
    }

    /// Every integer meter once, in the order in which the hash map hands
    /// them out.
    pub fn integers(&self) -> (entries: Vec<(String, u64)>)
        ensures
            lists(integer_pairs(entries@), self@.data),
    {
        fnv_map_listing(&self.data)
    }

    /// Every fractional meter once, in thousandths, in the order in which
    /// the hash map hands them out.
    pub fn fractions(&self) -> (entries: Vec<(String, u64)>)
        ensures
            lists(integer_pairs(entries@), self@.data_float),
    {
        fnv_map_listing(&self.data_float)
    }
}

impl Clone for Meters {
    fn clone(&self) -> (r: Self)
        ensures
            r@ == self@,
    {
        Meters { data: fnv_map_clone(&self.data), data_float: fnv_map_clone(&self.data_float) }
    }
}

impl Default for Meters {
    fn default() -> (m: Self)
        ensures
            m@.data == Map::<Seq<char>, u64>::empty(),
            m@.data_float == Map::<Seq<char>, u64>::empty(),
    {
        Meters::new()
    }
}

} // verus!
