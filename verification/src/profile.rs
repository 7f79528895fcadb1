//! Connection profiles and the secret that stores them.
use vstd::prelude::*;

verus! {

/// What it takes to connect to an S3 endpoint.
#[derive(Debug, Clone)]
pub struct S3Profile {
    pub name: String,
    pub endpoint: String,
    pub region: String,
    pub access_key_id: String,
    pub secret_access_key: String,
}

impl S3Profile {
    /// A profile from its five fields.
    pub fn new(
        name: String,
        endpoint: String,
        region: String,
        access_key_id: String,
        secret_access_key: String,
    ) -> (r: Self)
        ensures
            r.name == name,
            r.endpoint == endpoint,
            r.region == region,
            r.access_key_id == access_key_id,
            r.secret_access_key == secret_access_key,
    {
        Self { name, endpoint, region, access_key_id, secret_access_key }
    }

    /// A copy of the profile.
    pub fn duplicate(&self) -> (r: Self)
        ensures
            r == *self,
    {
        S3Profile {
            name: self.name.clone(),
            endpoint: self.endpoint.clone(),
            region: self.region.clone(),
            access_key_id: self.access_key_id.clone(),
            secret_access_key: self.secret_access_key.clone(),
        }
    }
}

/// All saved profiles, kept in the system keyring.
#[derive(Debug, Clone)]
pub struct S3Secret {
    pub profiles: Vec<S3Profile>,
}

} // verus!
