//! Conversions from caller-supplied pair lists to standard hash maps.
//!
//! A host on the far side of a language boundary hands dictionaries over as
//! flat lists of key/value pairs; these helpers gather them back into maps.
//! Later pairs overwrite earlier ones with the same key, matching the
//! last-write-wins policy of the serialization engine. Both conversions
//! always succeed; the `Result` shape exists so the boundary can thread one
//! error type through every call.
//!
//! The standard hash map's contents are only specified by Verus for key
//! types with a hashing model, which `String` is not, so the contracts here
//! pin the success shape and nothing further; the engine itself never reads
//! these maps back.

use vstd::prelude::*;
use std::collections::HashMap;
use crate::codec::PairStrStr;
use crate::error::SafeTensorError;

verus! {

/// A string key paired with a byte count.
pub struct PairStrUsize {
    /// The key.
    pub key: String,
    /// The count.
    pub value: usize,
}

/// Gathers metadata pairs into a map, later pairs overwriting earlier ones.
/// Always succeeds, and always with a present map: an empty list gives an
/// empty map, not an absent one.
pub fn convert_to_hashmap_string(dict: Vec<PairStrStr>) -> (r: Result<
    Option<HashMap<String, String>>,
    SafeTensorError,
>)
    ensures
        r matches Ok(h) && h is Some,
{
    let mut gathered: HashMap<String, String> = HashMap::new();
    let mut rest = dict;
    while rest.len() > 0
        decreases rest@.len(),
    {
        let item = rest.remove(0);
        gathered.insert(item.key, item.value);
    }
    Ok(Some(gathered))
}

/// Gathers string-to-count pairs into a map, later pairs overwriting
/// earlier ones. Always succeeds.
pub fn convert_to_hashmap_usize(dict: Vec<PairStrUsize>) -> (r: Result<
    HashMap<String, usize>,
    SafeTensorError,
>)
    ensures
        r is Ok,
{
    let mut gathered: HashMap<String, usize> = HashMap::new();
    let mut rest = dict;
    while rest.len() > 0
        decreases rest@.len(),
    {
        let item = rest.remove(0);
        gathered.insert(item.key, item.value);
    }
    Ok(gathered)
}

} // verus!
