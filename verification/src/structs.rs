//! The Albion Online operations and events, decoded from parameter tables.
use vstd::prelude::*;
use std::collections::HashMap;
use crate::convert::{
    as_bool, as_float, as_i16_vec, as_i32, as_i64, as_string, as_string_vec, as_u16_vec, as_u32,
    as_u64, as_u8_vec, get_param, strings_model, FloatBits,
};
use crate::deserializer::{entries_model, lemma_dictionary_model, params_model, PhotonValue};
use crate::utils::{character_id_text, decode_character_id};
use crate::wire::SpecValue;

verus! {

broadcast use vstd::std_specs::hash::group_hash_axioms;

/// Parameter `k` converted by `f`, when present and convertible.
pub open spec fn param_as<T>(m: Map<u8, SpecValue>, k: u8, f: spec_fn(SpecValue) -> Option<T>) -> Option<T> {
    if m.contains_key(k) {
        f(m[k])
    } else {
        None
    }
}

pub open spec fn string_param(m: Map<u8, SpecValue>, k: u8) -> Seq<char> {
    match param_as(m, k, |v: SpecValue| as_string(v)) {
        Some(s) => s,
        None => Seq::empty(),
    }
}

pub open spec fn u32_param(m: Map<u8, SpecValue>, k: u8) -> u32 {
    match param_as(m, k, |v: SpecValue| as_u32(v)) {
        Some(x) => x,
        None => 0,
    }
}

pub open spec fn u64_param(m: Map<u8, SpecValue>, k: u8) -> u64 {
    match param_as(m, k, |v: SpecValue| as_u64(v)) {
        Some(x) => x,
        None => 0,
    }
}

pub open spec fn i64_param(m: Map<u8, SpecValue>, k: u8) -> i64 {
    match param_as(m, k, |v: SpecValue| as_i64(v)) {
        Some(x) => x,
        None => 0,
    }
}

pub open spec fn i32_param(m: Map<u8, SpecValue>, k: u8) -> i32 {
    match param_as(m, k, |v: SpecValue| as_i32(v)) {
        Some(x) => x,
        None => 0,
    }
}

pub open spec fn bool_param(m: Map<u8, SpecValue>, k: u8) -> bool {
    match param_as(m, k, |v: SpecValue| as_bool(v)) {
        Some(x) => x,
        None => false,
    }
}

pub open spec fn u16s_param(m: Map<u8, SpecValue>, k: u8) -> Seq<u16> {
    match param_as(m, k, |v: SpecValue| as_u16_vec(v)) {
        Some(x) => x,
        None => Seq::empty(),
    }
}

pub open spec fn i16s_param(m: Map<u8, SpecValue>, k: u8) -> Seq<i16> {
    match param_as(m, k, |v: SpecValue| as_i16_vec(v)) {
        Some(x) => x,
        None => Seq::empty(),
    }
}

pub open spec fn u8s_param(m: Map<u8, SpecValue>, k: u8) -> Seq<u8> {
    match param_as(m, k, |v: SpecValue| as_u8_vec(v)) {
        Some(x) => x,
        None => Seq::empty(),
    }
}

pub open spec fn strings_param(m: Map<u8, SpecValue>, k: u8) -> Seq<Seq<char>> {
    match param_as(m, k, |v: SpecValue| as_string_vec(v)) {
        Some(x) => x,
        None => Seq::empty(),
    }
}

/// A number for a single-precision field: as read, or single-precision zero.
pub open spec fn single_param(m: Map<u8, SpecValue>, k: u8) -> FloatBits {
    match param_as(m, k, |v: SpecValue| as_float(v)) {
        Some(x) => x,
        None => FloatBits::Single(0),
    }
}

/// A number for a double-precision field: as read, or double-precision zero.
pub open spec fn double_param(m: Map<u8, SpecValue>, k: u8) -> FloatBits {
    match param_as(m, k, |v: SpecValue| as_float(v)) {
        Some(x) => x,
        None => FloatBits::Double(0),
    }
}

/// The character id text of a byte-array parameter, or the empty text.
pub open spec fn character_id_param(m: Map<u8, SpecValue>, k: u8) -> Seq<char> {
    match param_as(m, k, |v: SpecValue| as_u8_vec(v)) {
        Some(b) => character_id_text(b),
        None => Seq::empty(),
    }
}

/// The value of the entry whose key is `key` (of the last one, were there
/// several; a dictionary as read holds at most one).
pub open spec fn dict_lookup(entries: Seq<(SpecValue, SpecValue)>, key: SpecValue) -> Option<SpecValue>
    decreases entries.len(),
{
    if entries.len() == 0 {
        None
    } else if entries.last().0 == key {
        Some(entries.last().1)
    } else {
        dict_lookup(entries.drop_last(), key)
    }
}

/// An integer stored under the integer key `dict_key` of the dictionary
/// parameter `k`, as a `u64`; 0 when any of these is missing.
pub open spec fn dict_u64_param(m: Map<u8, SpecValue>, k: u8, dict_key: i32) -> u64 {
    if m.contains_key(k) {
        match m[k] {
            SpecValue::Dictionary(entries) => match dict_lookup(entries, SpecValue::Int(dict_key)) {
                Some(SpecValue::Long(v)) => v as u64,
                Some(SpecValue::Int(v)) => v as u64,
                Some(SpecValue::Short(v)) => v as u64,
                _ => 0,
            },
            _ => 0,
        }
    } else {
        0
    }
}

impl Default for FloatBits {
    fn default() -> (r: Self)
        ensures
            r == FloatBits::Double(0),
    {
        FloatBits::Double(0)
    }
}

fn string_field(params: &HashMap<u8, PhotonValue>, key: u8) -> (r: String)
    ensures
        r@ == string_param(params_model(params@), key),
{
    match get_param::<String>(params, key) {
        Some(x) => x,
        None => String::new(),
    }
}

fn u32_field(params: &HashMap<u8, PhotonValue>, key: u8) -> (r: u32)
    ensures
        r == u32_param(params_model(params@), key),
{
    match get_param::<u32>(params, key) {
        Some(x) => x,
        None => 0,
    }
}

fn u64_field(params: &HashMap<u8, PhotonValue>, key: u8) -> (r: u64)
    ensures
        r == u64_param(params_model(params@), key),
{
    match get_param::<u64>(params, key) {
        Some(x) => x,
        None => 0,
    }
}

fn i64_field(params: &HashMap<u8, PhotonValue>, key: u8) -> (r: i64)
    ensures
        r == i64_param(params_model(params@), key),
{
    match get_param::<i64>(params, key) {
        Some(x) => x,
        None => 0,
    }
}

fn i32_field(params: &HashMap<u8, PhotonValue>, key: u8) -> (r: i32)
    ensures
        r == i32_param(params_model(params@), key),
{
    match get_param::<i32>(params, key) {
        Some(x) => x,
        None => 0,
    }
}

fn bool_field(params: &HashMap<u8, PhotonValue>, key: u8) -> (r: bool)
    ensures
        r == bool_param(params_model(params@), key),
{
    match get_param::<bool>(params, key) {
        Some(x) => x,
        None => false,
    }
}

fn u16s_field(params: &HashMap<u8, PhotonValue>, key: u8) -> (r: Vec<u16>)
    ensures
        r@ == u16s_param(params_model(params@), key),
{
    match get_param::<Vec<u16>>(params, key) {
        Some(x) => x,
        None => Vec::new(),
    }
}

fn i16s_field(params: &HashMap<u8, PhotonValue>, key: u8) -> (r: Vec<i16>)
    ensures
        r@ == i16s_param(params_model(params@), key),
{
    match get_param::<Vec<i16>>(params, key) {
        Some(x) => x,
        None => Vec::new(),
    }
}

fn u8s_field(params: &HashMap<u8, PhotonValue>, key: u8) -> (r: Vec<u8>)
    ensures
        r@ == u8s_param(params_model(params@), key),
{
    match get_param::<Vec<u8>>(params, key) {
        Some(x) => x,
        None => Vec::new(),
    }
}

fn strings_field(params: &HashMap<u8, PhotonValue>, key: u8) -> (r: Vec<String>)
    ensures
        strings_model(r@) == strings_param(params_model(params@), key),
{
    match get_param::<Vec<String>>(params, key) {
        Some(x) => x,
        None => Vec::new(),
    }
}

fn single_field(params: &HashMap<u8, PhotonValue>, key: u8) -> (r: FloatBits)
    ensures
        r == single_param(params_model(params@), key),
{
    match get_param::<FloatBits>(params, key) {
        Some(x) => x,
        None => FloatBits::Single(0),
    }
}

fn double_field(params: &HashMap<u8, PhotonValue>, key: u8) -> (r: FloatBits)
    ensures
        r == double_param(params_model(params@), key),
{
    match get_param::<FloatBits>(params, key) {
        Some(x) => x,
        None => FloatBits::Double(0),
    }
}

fn character_id_field(params: &HashMap<u8, PhotonValue>, key: u8) -> (r: String)
    ensures
        r@ == character_id_param(params_model(params@), key),
{
    match get_param::<Vec<u8>>(params, key) {
        Some(bytes) => decode_character_id(bytes.as_slice()),
        None => String::new(),
    }
}

/// The value of the last entry whose key is `Int(key)`.
fn dict_get_int(dict: &Vec<(PhotonValue, PhotonValue)>, key: i32) -> (r: Option<&PhotonValue>)
    ensures
        match r {
            Some(v) => dict_lookup(entries_model(dict@), SpecValue::Int(key)) == Some(v.model()),
            None => dict_lookup(entries_model(dict@), SpecValue::Int(key)) is None,
        },
{
    let ghost all = entries_model(dict@);
    let mut i: usize = dict.len();
    assert(all.subrange(0, i as int) =~= all);
    while i > 0
        invariant
            i <= dict@.len(),
            all == entries_model(dict@),
            dict_lookup(all, SpecValue::Int(key)) == dict_lookup(all.subrange(0, i as int), SpecValue::Int(key)),
        decreases i,
    {
        i = i - 1;
        assert(all.subrange(0, i + 1).drop_last() =~= all.subrange(0, i as int));
        let entry = &dict[i];
        let matches = match &entry.0 {
            PhotonValue::Int(k) => *k == key,
            _ => false,
        };
        if matches {
            return Some(&entry.1);
        }
    }
    None
}

fn dict_u64_field(params: &HashMap<u8, PhotonValue>, key: u8, dict_key: i32) -> (r: u64)
    ensures
        r == dict_u64_param(params_model(params@), key, dict_key),
{
    match params.get(&key) {
        Some(PhotonValue::Dictionary(dict)) => {
            proof { lemma_dictionary_model(*dict); }
            match dict_get_int(dict, dict_key) {
                Some(PhotonValue::Long(v)) => *v as u64,
                Some(PhotonValue::Int(v)) => *v as u64,
                Some(PhotonValue::Short(v)) => *v as u64,
                _ => 0,
            }
        },
        _ => 0,
    }
}

#[derive(Debug, Clone, Default)]
pub struct OperationGetGameServerByCluster {
    pub cluster_id: String,
}

impl OperationGetGameServerByCluster {
    /// Whether every field holds what the parameter table `m` gives for it,
    /// a field missing or of another kind taking its default.
    pub open spec fn decoded_from(self, m: Map<u8, SpecValue>) -> bool {
        &&& self.cluster_id@ == string_param(m, 1)
    }

    /// Decodes the parameters; every field missing or of another kind takes
    /// its default.
    pub fn decode(params: &HashMap<u8, PhotonValue>) -> (r: Option<Self>)
        ensures
            r is Some,
            r.unwrap().decoded_from(params_model(params@)),
    {
        Some(Self {
            cluster_id: string_field(params, 1),
        })
    }
}

#[derive(Debug, Clone, Default)]
pub struct OperationAuctionGetOffers {
    pub category: String,
    pub sub_category: String,
    pub quality: String,
    pub enchantment: u32,
    pub enchantment_level: String,
    pub item_ids: Vec<u16>,
    pub max_results: u32,
    pub is_ascending_order: bool,
}

impl OperationAuctionGetOffers {
    /// Whether every field holds what the parameter table `m` gives for it,
    /// a field missing or of another kind taking its default.
    pub open spec fn decoded_from(self, m: Map<u8, SpecValue>) -> bool {
        &&& self.category@ == string_param(m, 1)
        &&& self.sub_category@ == string_param(m, 2)
        &&& self.quality@ == string_param(m, 5)
        &&& self.enchantment == u32_param(m, 6)
        &&& self.enchantment_level@ == string_param(m, 10)
        &&& self.item_ids@ == u16s_param(m, 8)
        &&& self.max_results == u32_param(m, 12)
        &&& self.is_ascending_order == bool_param(m, 14)
    }

    /// Decodes the parameters; every field missing or of another kind takes
    /// its default.
    pub fn decode(params: &HashMap<u8, PhotonValue>) -> (r: Option<Self>)
        ensures
            r is Some,
            r.unwrap().decoded_from(params_model(params@)),
    {
        Some(Self {
            category: string_field(params, 1),
            sub_category: string_field(params, 2),
            quality: string_field(params, 5),
            enchantment: u32_field(params, 6),
            enchantment_level: string_field(params, 10),
            item_ids: u16s_field(params, 8),
            max_results: u32_field(params, 12),
            is_ascending_order: bool_field(params, 14),
        })
    }
}

#[derive(Debug, Clone, Default)]
pub struct OperationAuctionGetItemAverageStats {
    pub item_id: u32,
}

impl OperationAuctionGetItemAverageStats {
    /// Whether every field holds what the parameter table `m` gives for it,
    /// a field missing or of another kind taking its default.
    pub open spec fn decoded_from(self, m: Map<u8, SpecValue>) -> bool {
        &&& self.item_id == u32_param(m, 1)
    }

    /// Decodes the parameters; every field missing or of another kind takes
    /// its default.
    pub fn decode(params: &HashMap<u8, PhotonValue>) -> (r: Option<Self>)
        ensures
            r is Some,
            r.unwrap().decoded_from(params_model(params@)),
    {
        Some(Self {
            item_id: u32_field(params, 1),
        })
    }
}

#[derive(Debug, Clone, Default)]
pub struct OperationGetClusterMapInfo {
    pub cluster_id: String,
}

impl OperationGetClusterMapInfo {
    /// Whether every field holds what the parameter table `m` gives for it,
    /// a field missing or of another kind taking its default.
    pub open spec fn decoded_from(self, m: Map<u8, SpecValue>) -> bool {
        &&& self.cluster_id@ == string_param(m, 1)
    }

    /// Decodes the parameters; every field missing or of another kind takes
    /// its default.
    pub fn decode(params: &HashMap<u8, PhotonValue>) -> (r: Option<Self>)
        ensures
            r is Some,
            r.unwrap().decoded_from(params_model(params@)),
    {
        Some(Self {
            cluster_id: string_field(params, 1),
        })
    }
}

#[derive(Debug, Clone, Default)]
pub struct OperationGoldMarketGetAverageInfo {
}

impl OperationGoldMarketGetAverageInfo {
    /// Every parameter table decodes to this field-less value.
    pub open spec fn decoded_from(self, m: Map<u8, SpecValue>) -> bool {
        true
    }

    /// Decodes the parameters; every field missing or of another kind takes
    /// its default.
    pub fn decode(params: &HashMap<u8, PhotonValue>) -> (r: Option<Self>)
        ensures
            r is Some,
            r.unwrap().decoded_from(params_model(params@)),
    {
        Some(Self {})
    }
}

#[derive(Debug, Clone, Default)]
pub struct OperationRealEstateGetAuctionData {
}

impl OperationRealEstateGetAuctionData {
    /// Every parameter table decodes to this field-less value.
    pub open spec fn decoded_from(self, m: Map<u8, SpecValue>) -> bool {
        true
    }

    /// Decodes the parameters; every field missing or of another kind takes
    /// its default.
    pub fn decode(params: &HashMap<u8, PhotonValue>) -> (r: Option<Self>)
        ensures
            r is Some,
            r.unwrap().decoded_from(params_model(params@)),
    {
        Some(Self {})
    }
}

#[derive(Debug, Clone, Default)]
pub struct OperationRealEstateBidOnAuction {
    pub auction_id: u64,
    pub bid_amount: u64,
}

impl OperationRealEstateBidOnAuction {
    /// Whether every field holds what the parameter table `m` gives for it,
    /// a field missing or of another kind taking its default.
    pub open spec fn decoded_from(self, m: Map<u8, SpecValue>) -> bool {
        &&& self.auction_id == u64_param(m, 1)
        &&& self.bid_amount == u64_param(m, 2)
    }

    /// Decodes the parameters; every field missing or of another kind takes
    /// its default.
    pub fn decode(params: &HashMap<u8, PhotonValue>) -> (r: Option<Self>)
        ensures
            r is Some,
            r.unwrap().decoded_from(params_model(params@)),
    {
        Some(Self {
            auction_id: u64_field(params, 1),
            bid_amount: u64_field(params, 2),
        })
    }
}

#[derive(Debug, Clone, Default)]
pub struct OperationJoinResponse {
    pub character_id: String,
    pub character_name: String,
    pub location: String,
    pub guild_id: String,
    pub guild_name: String,
}

impl OperationJoinResponse {
    /// Whether every field holds what the parameter table `m` gives for it,
    /// a field missing or of another kind taking its default.
    pub open spec fn decoded_from(self, m: Map<u8, SpecValue>) -> bool {
        &&& self.character_id@ == character_id_param(m, 1)
        &&& self.character_name@ == string_param(m, 2)
        &&& self.location@ == string_param(m, 8)
        &&& self.guild_id@ == character_id_param(m, 56)
        &&& self.guild_name@ == string_param(m, 58)
    }

    /// Decodes the parameters; every field missing or of another kind takes
    /// its default.
    pub fn decode(params: &HashMap<u8, PhotonValue>) -> (r: Option<Self>)
        ensures
            r is Some,
            r.unwrap().decoded_from(params_model(params@)),
    {
        Some(Self {
            character_id: character_id_field(params, 1),
            character_name: string_field(params, 2),
            location: string_field(params, 8),
            guild_id: character_id_field(params, 56),
            guild_name: string_field(params, 58),
        })
    }
}

#[derive(Debug, Clone, Default)]
pub struct OperationAuctionGetOffersResponse {
    pub market_orders: Vec<String>,
}

impl OperationAuctionGetOffersResponse {
    /// Whether every field holds what the parameter table `m` gives for it,
    /// a field missing or of another kind taking its default.
    pub open spec fn decoded_from(self, m: Map<u8, SpecValue>) -> bool {
        &&& strings_model(self.market_orders@) == strings_param(m, 0)
    }

    /// Decodes the parameters; every field missing or of another kind takes
    /// its default.
    pub fn decode(params: &HashMap<u8, PhotonValue>) -> (r: Option<Self>)
        ensures
            r is Some,
            r.unwrap().decoded_from(params_model(params@)),
    {
        Some(Self {
            market_orders: strings_field(params, 0),
        })
    }
}

#[derive(Debug, Clone, Default)]
pub struct OperationAuctionGetRequestsResponse {
    pub market_orders: Vec<String>,
}

impl OperationAuctionGetRequestsResponse {
    /// Whether every field holds what the parameter table `m` gives for it,
    /// a field missing or of another kind taking its default.
    pub open spec fn decoded_from(self, m: Map<u8, SpecValue>) -> bool {
        &&& strings_model(self.market_orders@) == strings_param(m, 0)
    }

    /// Decodes the parameters; every field missing or of another kind takes
    /// its default.
    pub fn decode(params: &HashMap<u8, PhotonValue>) -> (r: Option<Self>)
        ensures
            r is Some,
            r.unwrap().decoded_from(params_model(params@)),
    {
        Some(Self {
            market_orders: strings_field(params, 0),
        })
    }
}

#[derive(Debug, Clone, Default)]
pub struct OperationAuctionGetItemAverageStatsResponse {
    pub item_id: u32,
    pub average_price: FloatBits,
}

impl OperationAuctionGetItemAverageStatsResponse {
    /// Whether every field holds what the parameter table `m` gives for it,
    /// a field missing or of another kind taking its default.
    pub open spec fn decoded_from(self, m: Map<u8, SpecValue>) -> bool {
        &&& self.item_id == u32_param(m, 1)
        &&& self.average_price == double_param(m, 2)
    }

    /// Decodes the parameters; every field missing or of another kind takes
    /// its default.
    pub fn decode(params: &HashMap<u8, PhotonValue>) -> (r: Option<Self>)
        ensures
            r is Some,
            r.unwrap().decoded_from(params_model(params@)),
    {
        Some(Self {
            item_id: u32_field(params, 1),
            average_price: double_field(params, 2),
        })
    }
}

#[derive(Debug, Clone, Default)]
pub struct OperationGetMailInfosResponse {
    pub mail_count: u32,
}

impl OperationGetMailInfosResponse {
    /// Whether every field holds what the parameter table `m` gives for it,
    /// a field missing or of another kind taking its default.
    pub open spec fn decoded_from(self, m: Map<u8, SpecValue>) -> bool {
        &&& self.mail_count == u32_param(m, 1)
    }

    /// Decodes the parameters; every field missing or of another kind takes
    /// its default.
    pub fn decode(params: &HashMap<u8, PhotonValue>) -> (r: Option<Self>)
        ensures
            r is Some,
            r.unwrap().decoded_from(params_model(params@)),
    {
        Some(Self {
            mail_count: u32_field(params, 1),
        })
    }
}

#[derive(Debug, Clone, Default)]
pub struct OperationReadMailResponse {
    pub mail_id: u64,
    pub subject: String,
    pub body: String,
}

impl OperationReadMailResponse {
    /// Whether every field holds what the parameter table `m` gives for it,
    /// a field missing or of another kind taking its default.
    pub open spec fn decoded_from(self, m: Map<u8, SpecValue>) -> bool {
        &&& self.mail_id == u64_param(m, 1)
        &&& self.subject@ == string_param(m, 2)
        &&& self.body@ == string_param(m, 3)
    }

    /// Decodes the parameters; every field missing or of another kind takes
    /// its default.
    pub fn decode(params: &HashMap<u8, PhotonValue>) -> (r: Option<Self>)
        ensures
            r is Some,
            r.unwrap().decoded_from(params_model(params@)),
    {
        Some(Self {
            mail_id: u64_field(params, 1),
            subject: string_field(params, 2),
            body: string_field(params, 3),
        })
    }
}

#[derive(Debug, Clone, Default)]
pub struct OperationGetClusterMapInfoResponse {
    pub cluster_id: String,
    pub cluster_name: String,
}

impl OperationGetClusterMapInfoResponse {
    /// Whether every field holds what the parameter table `m` gives for it,
    /// a field missing or of another kind taking its default.
    pub open spec fn decoded_from(self, m: Map<u8, SpecValue>) -> bool {
        &&& self.cluster_id@ == string_param(m, 1)
        &&& self.cluster_name@ == string_param(m, 2)
    }

    /// Decodes the parameters; every field missing or of another kind takes
    /// its default.
    pub fn decode(params: &HashMap<u8, PhotonValue>) -> (r: Option<Self>)
        ensures
            r is Some,
            r.unwrap().decoded_from(params_model(params@)),
    {
        Some(Self {
            cluster_id: string_field(params, 1),
            cluster_name: string_field(params, 2),
        })
    }
}

#[derive(Debug, Clone, Default)]
pub struct OperationGoldMarketGetAverageInfoResponse {
    pub average_gold_price: FloatBits,
}

impl OperationGoldMarketGetAverageInfoResponse {
    /// Whether every field holds what the parameter table `m` gives for it,
    /// a field missing or of another kind taking its default.
    pub open spec fn decoded_from(self, m: Map<u8, SpecValue>) -> bool {
        &&& self.average_gold_price == double_param(m, 1)
    }

    /// Decodes the parameters; every field missing or of another kind takes
    /// its default.
    pub fn decode(params: &HashMap<u8, PhotonValue>) -> (r: Option<Self>)
        ensures
            r is Some,
            r.unwrap().decoded_from(params_model(params@)),
    {
        Some(Self {
            average_gold_price: double_field(params, 1),
        })
    }
}

#[derive(Debug, Clone, Default)]
pub struct OperationRealEstateGetAuctionDataResponse {
    pub auction_id: u64,
    pub starting_bid: u64,
    pub buyout_price: u64,
}

impl OperationRealEstateGetAuctionDataResponse {
    /// Whether every field holds what the parameter table `m` gives for it,
    /// a field missing or of another kind taking its default.
    pub open spec fn decoded_from(self, m: Map<u8, SpecValue>) -> bool {
        &&& self.auction_id == u64_param(m, 1)
        &&& self.starting_bid == u64_param(m, 2)
        &&& self.buyout_price == u64_param(m, 3)
    }

    /// Decodes the parameters; every field missing or of another kind takes
    /// its default.
    pub fn decode(params: &HashMap<u8, PhotonValue>) -> (r: Option<Self>)
        ensures
            r is Some,
            r.unwrap().decoded_from(params_model(params@)),
    {
        Some(Self {
            auction_id: u64_field(params, 1),
            starting_bid: u64_field(params, 2),
            buyout_price: u64_field(params, 3),
        })
    }
}

#[derive(Debug, Clone, Default)]
pub struct OperationRealEstateBidOnAuctionResponse {
    pub success: bool,
    pub auction_id: u64,
}

impl OperationRealEstateBidOnAuctionResponse {
    /// Whether every field holds what the parameter table `m` gives for it,
    /// a field missing or of another kind taking its default.
    pub open spec fn decoded_from(self, m: Map<u8, SpecValue>) -> bool {
        &&& self.success == bool_param(m, 1)
        &&& self.auction_id == u64_param(m, 2)
    }

    /// Decodes the parameters; every field missing or of another kind takes
    /// its default.
    pub fn decode(params: &HashMap<u8, PhotonValue>) -> (r: Option<Self>)
        ensures
            r is Some,
            r.unwrap().decoded_from(params_model(params@)),
    {
        Some(Self {
            success: bool_field(params, 1),
            auction_id: u64_field(params, 2),
        })
    }
}

#[derive(Debug, Clone, Default)]
pub struct EventRedZoneWorldMapEvent {
    pub event_time: i64,
    pub phase: i32,
}

impl EventRedZoneWorldMapEvent {
    /// Whether every field holds what the parameter table `m` gives for it,
    /// a field missing or of another kind taking its default.
    pub open spec fn decoded_from(self, m: Map<u8, SpecValue>) -> bool {
        &&& self.event_time == i64_param(m, 0)
        &&& self.phase == i32_param(m, 1)
    }

    /// Decodes the parameters; every field missing or of another kind takes
    /// its default.
    pub fn decode(params: &HashMap<u8, PhotonValue>) -> (r: Option<Self>)
        ensures
            r is Some,
            r.unwrap().decoded_from(params_model(params@)),
    {
        Some(Self {
            event_time: i64_field(params, 0),
            phase: i32_field(params, 1),
        })
    }
}

#[derive(Debug, Clone, Default)]
pub struct EventFullAchievementInfo {
    pub completed_achievement_ids: Vec<i16>,
    pub active_achievement_ids: Vec<i16>,
    pub active_achievement_levels: Vec<u8>,
}

impl EventFullAchievementInfo {
    /// Whether every field holds what the parameter table `m` gives for it,
    /// a field missing or of another kind taking its default.
    pub open spec fn decoded_from(self, m: Map<u8, SpecValue>) -> bool {
        &&& self.completed_achievement_ids@ == i16s_param(m, 1)
        &&& self.active_achievement_ids@ == i16s_param(m, 2)
        &&& self.active_achievement_levels@ == u8s_param(m, 3)
    }

    /// Decodes the parameters; every field missing or of another kind takes
    /// its default.
    pub fn decode(params: &HashMap<u8, PhotonValue>) -> (r: Option<Self>)
        ensures
            r is Some,
            r.unwrap().decoded_from(params_model(params@)),
    {
        Some(Self {
            completed_achievement_ids: i16s_field(params, 1),
            active_achievement_ids: i16s_field(params, 2),
            active_achievement_levels: u8s_field(params, 3),
        })
    }
}

#[derive(Debug, Clone)]
pub struct EventCharacterStats {
    pub player_name: String,
    pub guild_name: String,
    pub alliance_name: String,
    pub profile_description: String,
    pub reputation: FloatBits,
    pub silver: u64,
    pub total_fame: u64,
    pub fame_pvp: u64,
    pub fame_pve: u64,
    pub fame_gathering: u64,
    pub fame_crafting: u64,
    pub total_kills: u32,
    pub resources_invested: u64,
    pub current_rank: u32,
    pub current_rank_points: u32,
    pub highest_rank_points: u32,
    pub standing_antiquarian: u64,
    pub standing_brecilien: u64,
    pub standing_smugglers: u64,
    pub arena_battles_played: u32,
    pub arena_battles_won: u32,
    pub crystal_arena_matches_played: u32,
    pub crystal_arena_matches_won: u32,
    pub crystal_league_5v5_battles: u32,
    pub crystal_league_5v5_wins: u32,
    pub crystal_league_5v5_lethal_battles: u32,
    pub crystal_league_5v5_lethal_wins: u32,
    pub crystal_league_20v20_battles: u32,
    pub crystal_league_20v20_wins: u32,
    pub crystal_league_kills: u32,
    pub crystal_league_kill_fame: u64,
    pub crystal_realm_battles: u32,
    pub crystal_realm_kills: u32,
    pub crystal_realm_kill_fame: u64,
    pub infamy_corrupted: u32,
    pub infamy_2v2_hellgates: u32,
    pub infamy_5v5_hellgates: u32,
    pub infamy_10v10_hellgates: u32,
    pub infamy_corrupted_highest: u32,
    pub infamy_2v2_hellgates_highest: u32,
    pub infamy_5v5_hellgates_highest: u32,
    pub gvg_kills: u32,
    pub gvg_fights_participated: u32,
    pub gvg_fame: u64,
}

/// Every field empty or zero; the reputation a single-precision zero.
impl Default for EventCharacterStats {
    fn default() -> (r: Self)
        ensures
            r.player_name@.len() == 0,
            r.guild_name@.len() == 0,
            r.alliance_name@.len() == 0,
            r.profile_description@.len() == 0,
            r.reputation == FloatBits::Single(0),
            r.silver == 0,
            r.total_fame == 0,
            r.fame_pvp == 0,
            r.fame_pve == 0,
            r.fame_gathering == 0,
            r.fame_crafting == 0,
            r.total_kills == 0,
            r.resources_invested == 0,
            r.current_rank == 0,
            r.current_rank_points == 0,
            r.highest_rank_points == 0,
            r.standing_antiquarian == 0,
            r.standing_brecilien == 0,
            r.standing_smugglers == 0,
            r.arena_battles_played == 0,
            r.arena_battles_won == 0,
            r.crystal_arena_matches_played == 0,
            r.crystal_arena_matches_won == 0,
            r.crystal_league_5v5_battles == 0,
            r.crystal_league_5v5_wins == 0,
            r.crystal_league_5v5_lethal_battles == 0,
            r.crystal_league_5v5_lethal_wins == 0,
            r.crystal_league_20v20_battles == 0,
            r.crystal_league_20v20_wins == 0,
            r.crystal_league_kills == 0,
            r.crystal_league_kill_fame == 0,
            r.crystal_realm_battles == 0,
            r.crystal_realm_kills == 0,
            r.crystal_realm_kill_fame == 0,
            r.infamy_corrupted == 0,
            r.infamy_2v2_hellgates == 0,
            r.infamy_5v5_hellgates == 0,
            r.infamy_10v10_hellgates == 0,
            r.infamy_corrupted_highest == 0,
            r.infamy_2v2_hellgates_highest == 0,
            r.infamy_5v5_hellgates_highest == 0,
            r.gvg_kills == 0,
            r.gvg_fights_participated == 0,
            r.gvg_fame == 0,
    {
        EventCharacterStats {
            player_name: String::new(),
            guild_name: String::new(),
            alliance_name: String::new(),
            profile_description: String::new(),
            reputation: FloatBits::Single(0),
            silver: 0,
            total_fame: 0,
            fame_pvp: 0,
            fame_pve: 0,
            fame_gathering: 0,
            fame_crafting: 0,
            total_kills: 0,
            resources_invested: 0,
            current_rank: 0,
            current_rank_points: 0,
            highest_rank_points: 0,
            standing_antiquarian: 0,
            standing_brecilien: 0,
            standing_smugglers: 0,
            arena_battles_played: 0,
            arena_battles_won: 0,
            crystal_arena_matches_played: 0,
            crystal_arena_matches_won: 0,
            crystal_league_5v5_battles: 0,
            crystal_league_5v5_wins: 0,
            crystal_league_5v5_lethal_battles: 0,
            crystal_league_5v5_lethal_wins: 0,
            crystal_league_20v20_battles: 0,
            crystal_league_20v20_wins: 0,
            crystal_league_kills: 0,
            crystal_league_kill_fame: 0,
            crystal_realm_battles: 0,
            crystal_realm_kills: 0,
            crystal_realm_kill_fame: 0,
            infamy_corrupted: 0,
            infamy_2v2_hellgates: 0,
            infamy_5v5_hellgates: 0,
            infamy_10v10_hellgates: 0,
            infamy_corrupted_highest: 0,
            infamy_2v2_hellgates_highest: 0,
            infamy_5v5_hellgates_highest: 0,
            gvg_kills: 0,
            gvg_fights_participated: 0,
            gvg_fame: 0,
        }
    }
}

impl EventCharacterStats {
    /// Whether every field holds what the parameter table `m` gives for it,
    /// a field missing or of another kind taking its default.
    pub open spec fn decoded_from(self, m: Map<u8, SpecValue>) -> bool {
        &&& self.player_name@ == string_param(m, 1)
        &&& self.guild_name@ == string_param(m, 2)
        &&& self.alliance_name@ == string_param(m, 4)
        &&& self.profile_description@ == string_param(m, 5)
        &&& self.reputation == single_param(m, 8)
        &&& self.silver == u64_param(m, 6)
        &&& self.total_fame == u64_param(m, 7)
        &&& self.fame_pvp == u64_param(m, 11)
        &&& self.fame_pve == u64_param(m, 13)
        &&& self.fame_gathering == u64_param(m, 14)
        &&& self.fame_crafting == u64_param(m, 16)
        &&& self.total_kills == u32_param(m, 10)
        &&& self.resources_invested == u64_param(m, 15)
        &&& self.current_rank == u32_param(m, 60)
        &&& self.current_rank_points == u32_param(m, 61)
        &&& self.highest_rank_points == u32_param(m, 62)
        &&& self.standing_antiquarian == dict_u64_param(m, 9, 2)
        &&& self.standing_brecilien == dict_u64_param(m, 9, 0)
        &&& self.standing_smugglers == dict_u64_param(m, 9, 1)
        &&& self.arena_battles_played == u32_param(m, 29)
        &&& self.arena_battles_won == u32_param(m, 30)
        &&& self.crystal_arena_matches_played == u32_param(m, 31)
        &&& self.crystal_arena_matches_won == u32_param(m, 32)
        &&& self.crystal_league_5v5_battles == u32_param(m, 59)
        &&& self.crystal_league_5v5_wins == u32_param(m, 45)
        &&& self.crystal_league_5v5_lethal_battles == u32_param(m, 42)
        &&& self.crystal_league_5v5_lethal_wins == u32_param(m, 43)
        &&& self.crystal_league_20v20_battles == u32_param(m, 46)
        &&& self.crystal_league_20v20_wins == u32_param(m, 47)
        &&& self.crystal_league_kills == u32_param(m, 48)
        &&& self.crystal_league_kill_fame == u64_param(m, 49)
        &&& self.crystal_realm_battles == u32_param(m, 36)
        &&& self.crystal_realm_kills == u32_param(m, 38)
        &&& self.crystal_realm_kill_fame == u64_param(m, 39)
        &&& self.infamy_corrupted == u32_param(m, 52)
        &&& self.infamy_2v2_hellgates == u32_param(m, 54)
        &&& self.infamy_5v5_hellgates == u32_param(m, 56)
        &&& self.infamy_10v10_hellgates == u32_param(m, 58)
        &&& self.infamy_corrupted_highest == u32_param(m, 51)
        &&& self.infamy_2v2_hellgates_highest == u32_param(m, 53)
        &&& self.infamy_5v5_hellgates_highest == u32_param(m, 55)
        &&& self.gvg_kills == u32_param(m, 18)
        &&& self.gvg_fights_participated == u32_param(m, 17)
        &&& self.gvg_fame == u64_param(m, 19)
    }

    /// Decodes the parameters; every field missing or of another kind takes
    /// its default.
    pub fn decode(params: &HashMap<u8, PhotonValue>) -> (r: Option<Self>)
        ensures
            r is Some,
            r.unwrap().decoded_from(params_model(params@)),
    {
        Some(Self {
            player_name: string_field(params, 1),
            guild_name: string_field(params, 2),
            alliance_name: string_field(params, 4),
            profile_description: string_field(params, 5),
            reputation: single_field(params, 8),
            silver: u64_field(params, 6),
            total_fame: u64_field(params, 7),
            fame_pvp: u64_field(params, 11),
            fame_pve: u64_field(params, 13),
            fame_gathering: u64_field(params, 14),
            fame_crafting: u64_field(params, 16),
            total_kills: u32_field(params, 10),
            resources_invested: u64_field(params, 15),
            current_rank: u32_field(params, 60),
            current_rank_points: u32_field(params, 61),
            highest_rank_points: u32_field(params, 62),
            standing_antiquarian: dict_u64_field(params, 9, 2),
            standing_brecilien: dict_u64_field(params, 9, 0),
            standing_smugglers: dict_u64_field(params, 9, 1),
            arena_battles_played: u32_field(params, 29),
            arena_battles_won: u32_field(params, 30),
            crystal_arena_matches_played: u32_field(params, 31),
            crystal_arena_matches_won: u32_field(params, 32),
            crystal_league_5v5_battles: u32_field(params, 59),
            crystal_league_5v5_wins: u32_field(params, 45),
            crystal_league_5v5_lethal_battles: u32_field(params, 42),
            crystal_league_5v5_lethal_wins: u32_field(params, 43),
            crystal_league_20v20_battles: u32_field(params, 46),
            crystal_league_20v20_wins: u32_field(params, 47),
            crystal_league_kills: u32_field(params, 48),
            crystal_league_kill_fame: u64_field(params, 49),
            crystal_realm_battles: u32_field(params, 36),
            crystal_realm_kills: u32_field(params, 38),
            crystal_realm_kill_fame: u64_field(params, 39),
            infamy_corrupted: u32_field(params, 52),
            infamy_2v2_hellgates: u32_field(params, 54),
            infamy_5v5_hellgates: u32_field(params, 56),
            infamy_10v10_hellgates: u32_field(params, 58),
            infamy_corrupted_highest: u32_field(params, 51),
            infamy_2v2_hellgates_highest: u32_field(params, 53),
            infamy_5v5_hellgates_highest: u32_field(params, 55),
            gvg_kills: u32_field(params, 18),
            gvg_fights_participated: u32_field(params, 17),
            gvg_fame: u64_field(params, 19),
        })
    }
}

} // verus!
