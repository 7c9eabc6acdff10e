use vstd::prelude::*;

use crate::error::TransformerError;

verus! {

/// The source CRS used by default: geographic WGS 84.
pub const DEFAULT_FROM_CRS: &'static str = "EPSG:4326";

/// The target CRS used by default: spherical Web Mercator.
pub const DEFAULT_TO_CRS: &'static str = "EPSG:3857";

/// A CRS identifier is accepted when it is not empty; whether the coordinate
/// transformer knows it is found out when the transformer is built.
pub fn is_valid_crs(crs: &str) -> (r: bool)
    ensures
        r == (crs@.len() > 0),
{
    !crs.is_empty()
}

/// A (from, to) CRS pair and a cache slot for the transformer handle built
/// for it. Changing the pair empties the slot, so that the next user builds
/// a handle for the new pair.
pub struct TransformerConfig<H> {
    from: String,
    to: String,
    transformer: Option<H>,
}

impl<H> TransformerConfig<H> {
    /// The source CRS identifier.
    pub closed spec fn from_crs(&self) -> Seq<char> {
        self.from@
    }

    /// The target CRS identifier.
    pub closed spec fn to_crs(&self) -> Seq<char> {
        self.to@
    }

    /// The cached transformer handle, if one is cached.
    pub closed spec fn cached(&self) -> Option<H> {
        self.transformer
    }

    /// A configuration for the pair, with an empty cache; fails with
    /// `InvalidCrs` when either identifier is empty.
    pub fn new(from: String, to: String) -> (r: Result<Self, TransformerError>)
        ensures
            r is Ok <==> from@.len() > 0 && to@.len() > 0,
            r matches Err(e) ==> e == TransformerError::InvalidCrs,
            r matches Ok(c) ==> c.from_crs() == from@ && c.to_crs() == to@ && c.cached() is None,
    {
        if !is_valid_crs(from.as_str()) || !is_valid_crs(to.as_str()) {
            return Err(TransformerError::InvalidCrs);
        }
        Ok(TransformerConfig { from, to, transformer: None })
    }

    /// The source CRS identifier.
    pub fn from(&self) -> (r: &str)
        ensures
            r@ == self.from_crs(),
    {
        self.from.as_str()
    }

    /// The target CRS identifier.
    pub fn to(&self) -> (r: &str)
        ensures
            r@ == self.to_crs(),
    {
        self.to.as_str()
    }

    /// The cached transformer handle, if one is cached.
    pub fn cached_transformer(&self) -> (r: Option<&H>)
        ensures
            r matches Some(h) ==> self.cached() == Some(*h),
            r is None <==> self.cached() is None,
    {
        match &self.transformer {
            Some(h) => Some(h),
            None => None,
        }
    }

    /// Caches a handle built for the current pair, replacing any cached one.
    pub fn store_transformer(&mut self, handle: H)
        ensures
            final(self).cached() == Some(handle),
            final(self).from_crs() == old(self).from_crs(),
            final(self).to_crs() == old(self).to_crs(),
    {
        self.transformer = Some(handle);
    }

    /// Drops the cached handle.
    pub fn clear_cache(&mut self)
        ensures
            final(self).cached() is None,
            final(self).from_crs() == old(self).from_crs(),
            final(self).to_crs() == old(self).to_crs(),
    {
        self.transformer = None;
    }

    /// Replaces the pair and drops the cached handle; fails with `InvalidCrs`,
    /// changing nothing, when either identifier is empty.
    pub fn update_crs(&mut self, from: String, to: String) -> (r: Result<(), TransformerError>)
        ensures
            r is Ok <==> from@.len() > 0 && to@.len() > 0,
            r matches Err(e) ==> e == TransformerError::InvalidCrs,
            r is Ok ==> final(self).from_crs() == from@ && final(self).to_crs() == to@
                && final(self).cached() is None,
            r is Err ==> final(self).from_crs() == old(self).from_crs() && final(self).to_crs()
                == old(self).to_crs() && final(self).cached() == old(self).cached(),
    {
        if !is_valid_crs(from.as_str()) || !is_valid_crs(to.as_str()) {
            return Err(TransformerError::InvalidCrs);
        }
        self.from = from;
        self.to = to;
        self.clear_cache();
        Ok(())
    }

    /// Whether a handle is cached.
    pub fn is_transformer_available(&self) -> (r: bool)
        ensures
            r == self.cached() is Some,
    {
        self.transformer.is_some()
    }
}

impl<H> Default for TransformerConfig<H> {
    /// From geographic WGS 84 to spherical Web Mercator, with an empty cache.
    fn default() -> (r: Self)
        ensures
            r.from_crs() == DEFAULT_FROM_CRS@,
            r.to_crs() == DEFAULT_TO_CRS@,
            r.cached() is None,
    {
        TransformerConfig {
            from: DEFAULT_FROM_CRS.to_owned(),
            to: DEFAULT_TO_CRS.to_owned(),
            transformer: None,
        }
    }
}

} // verus!
