//! Storage drivers, backend configurations, and the records and views of
//! configured storages.
use vstd::prelude::*;

use super::backend::ObjectStorageError;
use super::error::StorageError;
use crate::text::{ascii_lowercase, chars_eq, chars_of, lower_seq, owned, str_eq, trim, trim_chars};

verus! {

/// Where a storage keeps its objects.
#[derive(Debug, Clone, Copy, PartialEq, Eq, Structural)]
pub enum StorageDriver {
    Local,
    S3,
}

/// The stored name of a driver.
pub open spec fn driver_name(driver: StorageDriver) -> Seq<char> {
    match driver {
        StorageDriver::Local => "local"@,
        StorageDriver::S3 => "s3"@,
    }
}

/// The driver that a stored or submitted name denotes: the name trimmed and
/// in ASCII lower case must be `local` or `s3`.
pub open spec fn driver_from_name(name: Seq<char>) -> Option<StorageDriver> {
    let t = lower_seq(trim(name));
    if t == "local"@ {
        Some(StorageDriver::Local)
    } else if t == "s3"@ {
        Some(StorageDriver::S3)
    } else {
        None
    }
}

impl StorageDriver {
    pub fn as_str(self) -> (r: &'static str)
        ensures
            r@ == driver_name(self),
    {
        match self {
            StorageDriver::Local => "local",
            StorageDriver::S3 => "s3",
        }
    }

    /// Reads a driver name; any other name is an unsupported driver.
    pub fn parse(value: &str) -> (r: Result<StorageDriver, StorageError>)
        ensures
            match driver_from_name(value@) {
                Some(d) => r == Ok::<StorageDriver, StorageError>(d),
                None => r matches Err(StorageError::InvalidConfiguration(ObjectStorageError::UnsupportedDriver(s)))
                    && s@ == value@,
            },
    {
        let chars = chars_of(value);
        let trimmed = trim_chars(&chars);
        let lower = ascii_lowercase(&trimmed);
        let local = chars_of("local");
        let s3 = chars_of("s3");
        if chars_eq(&lower, &local) {
            Ok(StorageDriver::Local)
        } else if chars_eq(&lower, &s3) {
            Ok(StorageDriver::S3)
        } else {
            Err(StorageError::InvalidConfiguration(ObjectStorageError::UnsupportedDriver(owned(value))))
        }
    }

    /// The stored name, as an owned string.
    pub fn to_string(self) -> (r: String)
        ensures
            r@ == driver_name(self),
    {
        owned(self.as_str())
    }
}

impl core::str::FromStr for StorageDriver {
    type Err = StorageError;

    fn from_str(value: &str) -> (r: Result<Self, Self::Err>)
        ensures
            match driver_from_name(value@) {
                Some(d) => r == Ok::<StorageDriver, StorageError>(d),
                None => r matches Err(StorageError::InvalidConfiguration(ObjectStorageError::UnsupportedDriver(s)))
                    && s@ == value@,
            },
    {
        StorageDriver::parse(value)
    }
}

/// The keys of an S3 account.
#[derive(Debug, Clone)]
pub struct S3Credentials {
    pub access_key: String,
    pub secret_key: String,
}

/// The location and access settings of a storage backend.
#[derive(Debug, Clone)]
pub enum StorageBackendConfig {
    Local { root: String },
    S3 {
        root: Option<String>,
        bucket: String,
        region: String,
        endpoint: Option<String>,
        public_base_url: String,
        credentials: Option<S3Credentials>,
        virtual_host_style: bool,
    },
}

/// The texts of an optional string.
pub open spec fn opt_view(o: Option<String>) -> Option<Seq<char>> {
    match o {
        Some(s) => Some(s@),
        None => None,
    }
}

/// Whether two optional strings hold the same text.
pub fn opt_str_eq(a: &Option<String>, b: &Option<String>) -> (r: bool)
    ensures
        r == (opt_view(*a) == opt_view(*b)),
{
    match (a, b) {
        (Some(x), Some(y)) => str_eq(x.as_str(), y.as_str()),
        (None, None) => true,
        _ => false,
    }
}

/// Two configurations name the same place when their driver and every
/// location setting agree; credentials do not count.
pub open spec fn same_location_spec(a: StorageBackendConfig, b: StorageBackendConfig) -> bool {
    match (a, b) {
        (StorageBackendConfig::Local { root: l }, StorageBackendConfig::Local { root: r }) => l@ == r@,
        (
            StorageBackendConfig::S3 {
                root: lr,
                bucket: lb,
                region: lg,
                endpoint: le,
                public_base_url: lu,
                virtual_host_style: lv,
                ..
            },
            StorageBackendConfig::S3 {
                root: rr,
                bucket: rb,
                region: rg,
                endpoint: re,
                public_base_url: ru,
                virtual_host_style: rv,
                ..
            },
        ) => opt_view(lr) == opt_view(rr) && lb@ == rb@ && lg@ == rg@ && opt_view(le) == opt_view(re)
            && lu@ == ru@ && lv == rv,
        _ => false,
    }
}

impl StorageBackendConfig {
    pub open spec fn driver_spec(self) -> StorageDriver {
        match self {
            StorageBackendConfig::Local { .. } => StorageDriver::Local,
            StorageBackendConfig::S3 { .. } => StorageDriver::S3,
        }
    }

    pub fn driver(&self) -> (r: StorageDriver)
        ensures
            r == self.driver_spec(),
    {
        match self {
            StorageBackendConfig::Local { .. } => StorageDriver::Local,
            StorageBackendConfig::S3 { .. } => StorageDriver::S3,
        }
    }

    pub fn same_location(&self, other: &Self) -> (r: bool)
        ensures
            r == same_location_spec(*self, *other),
    {
        match (self, other) {
            (StorageBackendConfig::Local { root: l }, StorageBackendConfig::Local { root: r }) => str_eq(
                l.as_str(),
                r.as_str(),
            ),
            (
                StorageBackendConfig::S3 {
                    root: lr,
                    bucket: lb,
                    region: lg,
                    endpoint: le,
                    public_base_url: lu,
                    virtual_host_style: lv,
                    ..
                },
                StorageBackendConfig::S3 {
                    root: rr,
                    bucket: rb,
                    region: rg,
                    endpoint: re,
                    public_base_url: ru,
                    virtual_host_style: rv,
                    ..
                },
            ) => opt_str_eq(lr, rr) && str_eq(lb.as_str(), rb.as_str()) && str_eq(lg.as_str(), rg.as_str())
                && opt_str_eq(le, re) && str_eq(lu.as_str(), ru.as_str()) && *lv == *rv,
            _ => false,
        }
    }

    pub fn root(&self) -> (r: Option<&str>)
        ensures
            match *self {
                StorageBackendConfig::Local { root } => r matches Some(s) && s@ == root@,
                StorageBackendConfig::S3 { root, .. } => match root {
                    Some(x) => r matches Some(s) && s@ == x@,
                    None => r is None,
                },
            },
    {
        match self {
            StorageBackendConfig::Local { root } => Some(root.as_str()),
            StorageBackendConfig::S3 { root, .. } => match root {
                Some(x) => Some(x.as_str()),
                None => None,
            },
        }
    }

    pub fn bucket(&self) -> (r: Option<&str>)
        ensures
            match *self {
                StorageBackendConfig::Local { .. } => r is None,
                StorageBackendConfig::S3 { bucket, .. } => r matches Some(s) && s@ == bucket@,
            },
    {
        match self {
            StorageBackendConfig::Local { .. } => None,
            StorageBackendConfig::S3 { bucket, .. } => Some(bucket.as_str()),
        }
    }

    pub fn region(&self) -> (r: Option<&str>)
        ensures
            match *self {
                StorageBackendConfig::Local { .. } => r is None,
                StorageBackendConfig::S3 { region, .. } => r matches Some(s) && s@ == region@,
            },
    {
        match self {
            StorageBackendConfig::Local { .. } => None,
            StorageBackendConfig::S3 { region, .. } => Some(region.as_str()),
        }
    }

    pub fn endpoint(&self) -> (r: Option<&str>)
        ensures
            match *self {
                StorageBackendConfig::Local { .. } => r is None,
                StorageBackendConfig::S3 { endpoint, .. } => match endpoint {
                    Some(x) => r matches Some(s) && s@ == x@,
                    None => r is None,
                },
            },
    {
        match self {
            StorageBackendConfig::Local { .. } => None,
            StorageBackendConfig::S3 { endpoint, .. } => match endpoint {
                Some(x) => Some(x.as_str()),
                None => None,
            },
        }
    }

    pub fn public_base_url(&self) -> (r: Option<&str>)
        ensures
            match *self {
                StorageBackendConfig::Local { .. } => r is None,
                StorageBackendConfig::S3 { public_base_url, .. } => r matches Some(s) && s@
                    == public_base_url@,
            },
    {
        match self {
            StorageBackendConfig::Local { .. } => None,
            StorageBackendConfig::S3 { public_base_url, .. } => Some(public_base_url.as_str()),
        }
    }

    pub fn credentials(&self) -> (r: Option<&S3Credentials>)
        ensures
            match *self {
                StorageBackendConfig::Local { .. } => r is None,
                StorageBackendConfig::S3 { credentials, .. } => match credentials {
                    Some(c) => r == Some(&c),
                    None => r is None,
                },
            },
    {
        match self {
            StorageBackendConfig::Local { .. } => None,
            StorageBackendConfig::S3 { credentials, .. } => match credentials {
                Some(c) => Some(c),
                None => None,
            },
        }
    }

    pub fn virtual_host_style(&self) -> (r: bool)
        ensures
            r == match *self {
                StorageBackendConfig::Local { .. } => false,
                StorageBackendConfig::S3 { virtual_host_style, .. } => virtual_host_style,
            },
    {
        match self {
            StorageBackendConfig::Local { .. } => false,
            StorageBackendConfig::S3 { virtual_host_style, .. } => *virtual_host_style,
        }
    }
}

/// Every configuration names the same place as itself.
pub proof fn lemma_same_location_reflexive(a: StorageBackendConfig)
    ensures
        same_location_spec(a, a),
{
}

/// Naming the same place does not depend on which configuration comes first.
pub proof fn lemma_same_location_symmetric(a: StorageBackendConfig, b: StorageBackendConfig)
    ensures
        same_location_spec(a, b) == same_location_spec(b, a),
{
}

/// Configurations that name the same place have the same driver.
pub proof fn lemma_same_location_same_driver(a: StorageBackendConfig, b: StorageBackendConfig)
    requires
        same_location_spec(a, b),
    ensures
        a.driver_spec() == b.driver_spec(),
{
}

/// Two S3 configurations that differ in root, bucket, region, endpoint,
/// public base URL or addressing style name different places; two that
/// differ in credentials alone name the same place. Two local ones name the
/// same place exactly when their roots agree, and a local and an S3
/// configuration never do.
pub proof fn lemma_same_location_iff_settings_agree(a: StorageBackendConfig, b: StorageBackendConfig)
    ensures
        a is S3 && b is S3 && (opt_view(a->S3_root) != opt_view(b->S3_root) || a->bucket@ != b->bucket@
            || a->region@ != b->region@ || opt_view(a->endpoint) != opt_view(b->endpoint)
            || a->public_base_url@ != b->public_base_url@ || a->virtual_host_style != b->virtual_host_style)
            ==> !same_location_spec(a, b),
        a is S3 && b is S3 && opt_view(a->S3_root) == opt_view(b->S3_root) && a->bucket@ == b->bucket@
            && a->region@ == b->region@ && opt_view(a->endpoint) == opt_view(b->endpoint)
            && a->public_base_url@ == b->public_base_url@ && a->virtual_host_style == b->virtual_host_style
            ==> same_location_spec(a, b),
        a is Local && b is Local ==> (same_location_spec(a, b) <==> a->Local_root@ == b->Local_root@),
        a is Local != b is Local ==> !same_location_spec(a, b),
{
}

/// A filter of the storage list.
#[derive(Debug, Clone)]
pub struct StorageQuery {
    pub keyword: Option<String>,
    pub driver: Option<StorageDriver>,
}

/// A submitted storage.
#[derive(Debug, Clone)]
pub struct StorageInput {
    pub name: String,
    pub code: String,
    pub backend: StorageBackendInput,
    pub enabled: bool,
    pub sort: i32,
    pub description: String,
}

/// The submitted backend settings; absent keys keep the stored ones.
#[derive(Debug, Clone)]
pub enum StorageBackendInput {
    Local { root: String },
    S3 {
        root: Option<String>,
        bucket: String,
        region: String,
        endpoint: Option<String>,
        public_base_url: String,
        access_key: Option<String>,
        secret_key: Option<String>,
        virtual_host_style: bool,
    },
}

impl StorageBackendInput {
    pub open spec fn driver_spec(self) -> StorageDriver {
        match self {
            StorageBackendInput::Local { .. } => StorageDriver::Local,
            StorageBackendInput::S3 { .. } => StorageDriver::S3,
        }
    }

    pub fn driver(&self) -> (r: StorageDriver)
        ensures
            r == self.driver_spec(),
    {
        match self {
            StorageBackendInput::Local { .. } => StorageDriver::Local,
            StorageBackendInput::S3 { .. } => StorageDriver::S3,
        }
    }
}

/// A storage as it is shown: keys are never shown, only whether they are set.
#[derive(Debug, Clone)]
pub struct StorageView {
    pub id: i64,
    pub name: String,
    pub code: String,
    pub backend: StorageBackendView,
    pub enabled: bool,
    pub is_default: bool,
    pub sort: i32,
    pub description: String,
    pub created_at: String,
    pub updated_at: String,
}

#[derive(Debug, Clone)]
pub enum StorageBackendView {
    Local { root: String },
    S3 {
        root: Option<String>,
        bucket: String,
        region: String,
        endpoint: Option<String>,
        public_base_url: String,
        virtual_host_style: bool,
        has_access_key: bool,
        has_secret_key: bool,
    },
}

/// A stored storage row.
#[derive(Debug, Clone)]
pub struct StorageRecord {
    pub id: i64,
    pub name: String,
    pub code: String,
    pub driver: String,
    pub root: Option<String>,
    pub bucket: Option<String>,
    pub region: Option<String>,
    pub endpoint: Option<String>,
    pub public_base_url: Option<String>,
    pub access_key: Option<String>,
    pub secret_key: Option<String>,
    pub virtual_host_style: bool,
    pub enabled: bool,
    pub is_default: bool,
    pub sort: i32,
    pub description: String,
    pub created_at: String,
    pub updated_at: String,
}

/// The text of an optional string, or the empty text.
pub open spec fn text_or_empty(o: Option<String>) -> Seq<char> {
    match o {
        Some(s) => s@,
        None => Seq::empty(),
    }
}

/// An optional string's text, or an empty string.
pub fn owned_or_empty(o: &Option<String>) -> (r: String)
    ensures
        r@ == text_or_empty(*o),
{
    match o {
        Some(s) => s.clone(),
        None => String::new(),
    }
}

/// A copy of an optional string.
pub fn clone_opt(o: &Option<String>) -> (r: Option<String>)
    ensures
        opt_view(r) == opt_view(*o),
{
    match o {
        Some(s) => Some(s.clone()),
        None => None,
    }
}

/// The view of a stored storage.
pub open spec fn backend_view_matches(record: StorageRecord, driver: StorageDriver, view: StorageBackendView) -> bool {
    match driver {
        StorageDriver::Local => view matches StorageBackendView::Local { root } && root@ == text_or_empty(
            record.root,
        ),
        StorageDriver::S3 => view matches StorageBackendView::S3 {
            root,
            bucket,
            region,
            endpoint,
            public_base_url,
            virtual_host_style,
            has_access_key,
            has_secret_key,
        } && opt_view(root) == opt_view(record.root) && bucket@ == text_or_empty(record.bucket)
            && region@ == text_or_empty(record.region) && opt_view(endpoint) == opt_view(
            record.endpoint,
        ) && public_base_url@ == text_or_empty(record.public_base_url) && virtual_host_style
            == record.virtual_host_style && has_access_key == record.access_key is Some
            && has_secret_key == record.secret_key is Some,
    }
}

impl StorageView {
    /// The view of a stored storage; a stored driver that is not supported is
    /// an error.
    pub fn from_record(record: &StorageRecord) -> (r: Result<StorageView, StorageError>)
        ensures
            match driver_from_name(record.driver@) {
                None => r matches Err(StorageError::InvalidConfiguration(ObjectStorageError::UnsupportedDriver(s)))
                    && s@ == record.driver@,
                Some(d) => r matches Ok(v) && backend_view_matches(*record, d, v.backend) && v.id
                    == record.id && v.name@ == record.name@ && v.code@ == record.code@ && v.enabled
                    == record.enabled && v.is_default == record.is_default && v.sort == record.sort
                    && v.description@ == record.description@ && v.created_at@ == record.created_at@
                    && v.updated_at@ == record.updated_at@,
            },
    {
        let driver = StorageDriver::parse(record.driver.as_str())?;
        let backend = match driver {
            StorageDriver::Local => StorageBackendView::Local { root: owned_or_empty(&record.root) },
            StorageDriver::S3 => StorageBackendView::S3 {
                root: clone_opt(&record.root),
                bucket: owned_or_empty(&record.bucket),
                region: owned_or_empty(&record.region),
                endpoint: clone_opt(&record.endpoint),
                public_base_url: owned_or_empty(&record.public_base_url),
                virtual_host_style: record.virtual_host_style,
                has_access_key: record.access_key.is_some(),
                has_secret_key: record.secret_key.is_some(),
            },
        };
        Ok(StorageView {
            id: record.id,
            name: record.name.clone(),
            code: record.code.clone(),
            backend,
            enabled: record.enabled,
            is_default: record.is_default,
            sort: record.sort,
            description: record.description.clone(),
            created_at: record.created_at.clone(),
            updated_at: record.updated_at.clone(),
        })
    }
}

} // verus!
