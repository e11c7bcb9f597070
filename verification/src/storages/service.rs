//! The rules of the storage lifecycle: what a submitted storage must look
//! like, how stored and submitted settings become a configuration, and when a
//! storage may be changed, enabled, made the default or deleted.
use vstd::prelude::*;

use super::backend::{optional, optional_text, ObjectStorageError};
use super::error::StorageError;
use super::model::{
    clone_opt, driver_from_name, driver_name, opt_view, same_location_spec, text_or_empty, S3Credentials,
    StorageBackendConfig, StorageBackendInput, StorageDriver, StorageInput, StorageRecord,
};
use crate::text::{
    char_is_ascii_alphabetic, char_is_ascii_alphanumeric, chars_of, is_ascii_alphanumeric,
    is_ascii_lower, is_ascii_upper, str_eq, string_of, trim, trim_chars, trim_end_char,
    trim_end_matching, trimmed,
};

verus! {

pub open spec fn msg_name() -> Seq<char> {
    "name must contain 1 to 100 characters"@
}

pub open spec fn msg_code() -> Seq<char> {
    "code must start with a letter and contain 2 to 30 letters, digits, or underscores"@
}

pub open spec fn msg_description() -> Seq<char> {
    "description must not exceed 200 characters"@
}

/// A storage code: 2 to 30 characters, an ASCII letter first, then ASCII
/// letters, digits or underscores.
pub open spec fn valid_code(code: Seq<char>) -> bool {
    &&& 2 <= code.len() <= 30
    &&& is_ascii_upper(code[0]) || is_ascii_lower(code[0])
    &&& forall|i: int| 1 <= i < code.len() ==> is_ascii_alphanumeric(#[trigger] code[i]) || code[i] == '_'
}

/// The message of the first rule a submitted storage breaks: its trimmed
/// name must have 1 to 100 characters, its trimmed code must be valid, and
/// its description may have at most 200 characters.
pub open spec fn input_error(payload: StorageInput) -> Option<Seq<char>> {
    let name = trim(payload.name@);
    if name.len() == 0 || name.len() > 100 {
        Some(msg_name())
    } else if !valid_code(trim(payload.code@)) {
        Some(msg_code())
    } else if payload.description@.len() > 200 {
        Some(msg_description())
    } else {
        None
    }
}

fn code_is_valid(code: &[char]) -> (r: bool)
    ensures
        r == valid_code(code@),
{
    if code.len() < 2 || code.len() > 30 {
        return false;
    }
    if !char_is_ascii_alphabetic(code[0]) {
        return false;
    }
    let mut i: usize = 1;
    while i < code.len()
        invariant
            1 <= i <= code@.len(),
            forall|j: int| 1 <= j < i ==> is_ascii_alphanumeric(#[trigger] code@[j]) || code@[j] == '_',
        decreases code@.len() - i,
    {
        if !char_is_ascii_alphanumeric(code[i]) && code[i] != '_' {
            return false;
        }
        i += 1;
    }
    true
}

/// Checks a submitted storage's name, code and description.
pub fn validate_input(payload: &StorageInput) -> (r: Result<(), StorageError>)
    ensures
        match input_error(*payload) {
            None => r is Ok,
            Some(m) => r matches Err(StorageError::InvalidInput(s)) && s@ == m,
        },
{
    let name = trim_chars(&chars_of(payload.name.as_str()));
    if name.len() == 0 || name.len() > 100 {
        return Err(StorageError::InvalidInput("name must contain 1 to 100 characters"));
    }
    let code = trim_chars(&chars_of(payload.code.as_str()));
    if !code_is_valid(&code) {
        return Err(
            StorageError::InvalidInput(
                "code must start with a letter and contain 2 to 30 letters, digits, or underscores",
            ),
        );
    }
    if chars_of(payload.description.as_str()).len() > 200 {
        return Err(StorageError::InvalidInput("description must not exceed 200 characters"));
    }
    Ok(())
}

/// The key to keep: a non-blank replacement (trimmed), else the stored key.
pub open spec fn merged_secret(replacement: Option<Seq<char>>, current: Option<Seq<char>>) -> Option<
    Seq<char>,
> {
    match replacement {
        Some(r) => match optional_text(r) {
            Some(t) => Some(t),
            None => current,
        },
        None => current,
    }
}

/// A key that is left out or left blank keeps the stored key (or its
/// absence); a key that is given replaces it, trimmed.
pub proof fn lemma_blank_keys_keep_stored(replacement: Option<Seq<char>>, current: Option<Seq<char>>)
    ensures
        (replacement is None || trim(replacement->0).len() == 0) ==> merged_secret(replacement, current) == current,
        (replacement is Some && trim(replacement->0).len() > 0) ==> merged_secret(replacement, current) == Some(
            trim(replacement->0),
        ),
{
}

pub fn merge_secret(replacement: Option<&str>, current: Option<&str>) -> (r: Option<String>)
    ensures
        opt_view(r) == merged_secret(
            match replacement {
                Some(s) => Some(s@),
                None => None,
            },
            match current {
                Some(s) => Some(s@),
                None => None,
            },
        ),
{
    let replaced = match replacement {
        Some(value) => optional(value),
        None => None,
    };
    match replaced {
        Some(value) => Some(value),
        None => match current {
            Some(value) => Some(string_of(&chars_of(value))),
            None => None,
        },
    }
}

/// A setting trimmed of whitespace, or `None` when absent or blank.
pub open spec fn optional_owned_spec(value: Option<Seq<char>>) -> Option<Seq<char>> {
    match value {
        Some(v) => optional_text(v),
        None => None,
    }
}

pub fn optional_owned(value: Option<&str>) -> (r: Option<String>)
    ensures
        opt_view(r) == optional_owned_spec(
            match value {
                Some(s) => Some(s@),
                None => None,
            },
        ),
{
    match value {
        Some(v) => optional(v),
        None => None,
    }
}

fn opt_str(value: &Option<String>) -> (r: Option<&str>)
    ensures
        match r {
            Some(s) => opt_view(*value) == Some(s@),
            None => value is None,
        },
{
    match value {
        Some(s) => Some(s.as_str()),
        None => None,
    }
}

/// An S3 key pair: both keys, trimmed, must be present; both absent is a
/// missing pair, one absent an incomplete one.
pub open spec fn credentials_outcome(access_key: Option<Seq<char>>, secret_key: Option<Seq<char>>) -> Option<
    ObjectStorageError,
> {
    match (optional_owned_spec(access_key), optional_owned_spec(secret_key)) {
        (Some(_), Some(_)) => None,
        (None, None) => Some(ObjectStorageError::MissingCredentials),
        _ => Some(ObjectStorageError::IncompleteCredentials),
    }
}

pub fn credentials(access_key: Option<String>, secret_key: Option<String>) -> (r: Result<
    S3Credentials,
    StorageError,
>)
    ensures
        match credentials_outcome(opt_view(access_key), opt_view(secret_key)) {
            None => r matches Ok(c) && Some(c.access_key@) == optional_owned_spec(opt_view(access_key))
                && Some(c.secret_key@) == optional_owned_spec(opt_view(secret_key)),
            Some(ObjectStorageError::MissingCredentials) => r matches Err(
                StorageError::InvalidConfiguration(ObjectStorageError::MissingCredentials),
            ),
            Some(_) => r matches Err(
                StorageError::InvalidConfiguration(ObjectStorageError::IncompleteCredentials),
            ),
        },
{
    let access_key = optional_owned(opt_str(&access_key));
    let secret_key = optional_owned(opt_str(&secret_key));
    match (access_key, secret_key) {
        (Some(access_key), Some(secret_key)) => Ok(S3Credentials { access_key, secret_key }),
        (None, None) => Err(StorageError::InvalidConfiguration(ObjectStorageError::MissingCredentials)),
        _ => Err(StorageError::InvalidConfiguration(ObjectStorageError::IncompleteCredentials)),
    }
}

/// A public base URL as it is kept: trimmed, without trailing slashes.
pub open spec fn kept_base_url(url: Seq<char>) -> Seq<char> {
    trim_end_char(trim(url), '/')
}

fn kept_base_url_exec(url: &str) -> (r: String)
    ensures
        r@ == kept_base_url(url@),
{
    string_of(&trim_end_matching(&trim_chars(&chars_of(url)), '/'))
}

/// The configuration that submitted settings describe, keys merged with the
/// stored ones of `current`.
pub open spec fn config_of_input(
    backend: StorageBackendInput,
    current: Option<StorageRecord>,
    config: StorageBackendConfig,
) -> bool {
    match backend {
        StorageBackendInput::Local { root } => config matches StorageBackendConfig::Local { root: r }
            && r@ == trim(root@),
        StorageBackendInput::S3 {
            root,
            bucket,
            region,
            endpoint,
            public_base_url,
            access_key,
            secret_key,
            virtual_host_style,
        } => match config {
            StorageBackendConfig::S3 {
                root: r,
                bucket: b,
                region: g,
                endpoint: e,
                public_base_url: u,
                credentials: c,
                virtual_host_style: v,
            } => {
                &&& opt_view(r) == optional_owned_spec(opt_view(root))
                &&& b@ == trim(bucket@)
                &&& g@ == trim(region@)
                &&& opt_view(e) == optional_owned_spec(opt_view(endpoint))
                &&& u@ == kept_base_url(public_base_url@)
                &&& v == virtual_host_style
                &&& match c {
                    Some(cr) => Some(cr.access_key@) == optional_owned_spec(
                        merged_secret(opt_view(access_key), current_key(current, true)),
                    ) && Some(cr.secret_key@) == optional_owned_spec(
                        merged_secret(opt_view(secret_key), current_key(current, false)),
                    ),
                    None => false,
                }
            },
            _ => false,
        },
    }
}

/// The stored access key (`access`) or secret key of a record, if any.
pub open spec fn current_key(current: Option<StorageRecord>, access: bool) -> Option<Seq<char>> {
    match current {
        Some(c) => if access {
            opt_view(c.access_key)
        } else {
            opt_view(c.secret_key)
        },
        None => None,
    }
}

pub open spec fn opt_record(current: Option<&StorageRecord>) -> Option<StorageRecord> {
    match current {
        Some(c) => Some(*c),
        None => None,
    }
}

/// The key error of submitted S3 settings, if any.
pub open spec fn input_key_error(backend: StorageBackendInput, current: Option<StorageRecord>) -> Option<
    ObjectStorageError,
> {
    match backend {
        StorageBackendInput::Local { .. } => None,
        StorageBackendInput::S3 { access_key, secret_key, .. } => credentials_outcome(
            merged_secret(opt_view(access_key), current_key(current, true)),
            merged_secret(opt_view(secret_key), current_key(current, false)),
        ),
    }
}

/// The configuration of submitted settings; an S3 store needs both keys,
/// either submitted or kept from `current`.
pub fn config_from_input(payload: &StorageInput, current: Option<&StorageRecord>) -> (r: Result<
    StorageBackendConfig,
    StorageError,
>)
    ensures
        match input_key_error(payload.backend, opt_record(current)) {
            None => r matches Ok(config) && config_of_input(payload.backend, opt_record(current), config),
            Some(ObjectStorageError::MissingCredentials) => r matches Err(
                StorageError::InvalidConfiguration(ObjectStorageError::MissingCredentials),
            ),
            Some(_) => r matches Err(
                StorageError::InvalidConfiguration(ObjectStorageError::IncompleteCredentials),
            ),
        },
{
    match &payload.backend {
        StorageBackendInput::Local { root } => Ok(StorageBackendConfig::Local { root: trimmed(root.as_str()) }),
        StorageBackendInput::S3 {
            root,
            bucket,
            region,
            endpoint,
            public_base_url,
            access_key,
            secret_key,
            virtual_host_style,
        } => {
            let current_access = match current {
                Some(c) => opt_str(&c.access_key),
                None => None,
            };
            let current_secret = match current {
                Some(c) => opt_str(&c.secret_key),
                None => None,
            };
            let access_key = merge_secret(opt_str(access_key), current_access);
            let secret_key = merge_secret(opt_str(secret_key), current_secret);
            let credentials = credentials(access_key, secret_key)?;
            Ok(
                StorageBackendConfig::S3 {
                    root: optional_owned(opt_str(root)),
                    bucket: trimmed(bucket.as_str()),
                    region: trimmed(region.as_str()),
                    endpoint: optional_owned(opt_str(endpoint)),
                    public_base_url: kept_base_url_exec(public_base_url.as_str()),
                    credentials: Some(credentials),
                    virtual_host_style: *virtual_host_style,
                },
            )
        },
    }
}

/// The configuration that a stored row describes.
pub open spec fn config_of_record(record: StorageRecord, driver: StorageDriver, config: StorageBackendConfig) -> bool {
    match driver {
        StorageDriver::Local => config matches StorageBackendConfig::Local { root: r } && r@ == trim(
            text_or_empty(record.root),
        ),
        StorageDriver::S3 => match config {
            StorageBackendConfig::S3 {
                root: r,
                bucket: b,
                region: g,
                endpoint: e,
                public_base_url: u,
                credentials: c,
                virtual_host_style: v,
            } => {
                &&& opt_view(r) == optional_owned_spec(opt_view(record.root))
                &&& b@ == trim(text_or_empty(record.bucket))
                &&& g@ == trim(text_or_empty(record.region))
                &&& opt_view(e) == optional_owned_spec(opt_view(record.endpoint))
                &&& u@ == kept_base_url(text_or_empty(record.public_base_url))
                &&& v == record.virtual_host_style
                &&& match c {
                    Some(cr) => Some(cr.access_key@) == optional_owned_spec(opt_view(record.access_key))
                        && Some(cr.secret_key@) == optional_owned_spec(opt_view(record.secret_key)),
                    None => false,
                }
            },
            _ => false,
        },
    }
}

/// The configuration of a stored row: its driver must be supported, and an
/// S3 row must hold both keys.
pub fn config_from_record(record: &StorageRecord) -> (r: Result<StorageBackendConfig, StorageError>)
    ensures
        match driver_from_name(record.driver@) {
            None => r matches Err(StorageError::InvalidConfiguration(ObjectStorageError::UnsupportedDriver(s)))
                && s@ == record.driver@,
            Some(StorageDriver::Local) => r matches Ok(config) && config_of_record(
                *record,
                StorageDriver::Local,
                config,
            ),
            Some(StorageDriver::S3) => match credentials_outcome(
                opt_view(record.access_key),
                opt_view(record.secret_key),
            ) {
                None => r matches Ok(config) && config_of_record(*record, StorageDriver::S3, config),
                Some(ObjectStorageError::MissingCredentials) => r matches Err(
                    StorageError::InvalidConfiguration(ObjectStorageError::MissingCredentials),
                ),
                Some(_) => r matches Err(
                    StorageError::InvalidConfiguration(ObjectStorageError::IncompleteCredentials),
                ),
            },
        },
{
    match StorageDriver::parse(record.driver.as_str())? {
        StorageDriver::Local => {
            let root = match &record.root {
                Some(r) => trimmed(r.as_str()),
                None => String::new(),
            };
            proof {
                assert(trim(Seq::<char>::empty()) == Seq::<char>::empty()) by {
                    reveal_with_fuel(crate::text::trim_start, 1);
                    reveal_with_fuel(crate::text::trim_end, 1);
                }
            }
            Ok(StorageBackendConfig::Local { root })
        },
        StorageDriver::S3 => {
            let credentials = credentials(clone_opt(&record.access_key), clone_opt(&record.secret_key))?;
            let bucket = match &record.bucket {
                Some(b) => trimmed(b.as_str()),
                None => String::new(),
            };
            let region = match &record.region {
                Some(g) => trimmed(g.as_str()),
                None => String::new(),
            };
            let public_base_url = match &record.public_base_url {
                Some(u) => kept_base_url_exec(u.as_str()),
                None => String::new(),
            };
            proof {
                assert(trim(Seq::<char>::empty()) == Seq::<char>::empty());
                assert(trim_end_char(Seq::<char>::empty(), '/') == Seq::<char>::empty());
            }
            Ok(
                StorageBackendConfig::S3 {
                    root: optional_owned(opt_str(&record.root)),
                    bucket,
                    region,
                    endpoint: optional_owned(opt_str(&record.endpoint)),
                    public_base_url,
                    credentials: Some(credentials),
                    virtual_host_style: record.virtual_host_style,
                },
            )
        },
    }
}

/// One stored storage, as the service checks them when it starts: a default
/// storage must be enabled. The result says whether this one is the default.
pub fn loaded_default(is_default: bool, enabled: bool) -> (r: Result<bool, StorageError>)
    ensures
        is_default && !enabled ==> r matches Err(StorageError::DisabledDefault),
        !(is_default && !enabled) ==> r == Ok::<bool, StorageError>(is_default),
{
    if is_default {
        if !enabled {
            return Err(StorageError::DisabledDefault);
        }
        return Ok(true);
    }
    Ok(false)
}

/// Some stored storage must be the default.
pub fn require_default(has_default: bool) -> (r: Result<(), StorageError>)
    ensures
        has_default ==> r is Ok,
        !has_default ==> r matches Err(StorageError::DisabledDefault),
{
    if has_default {
        Ok(())
    } else {
        Err(StorageError::DisabledDefault)
    }
}

/// Why an update of `current` to `payload` is refused, in the order the
/// service checks: code and driver are fixed, the default stays enabled, the
/// stored row must read as a configuration, the submitted keys must be
/// complete, and the location may not move.
pub open spec fn update_identity_error(current: StorageRecord, payload: StorageInput) -> Option<StorageError> {
    if current.code@ != trim(payload.code@) || current.driver@ != driver_name(payload.backend.driver_spec()) {
        Some(StorageError::ImmutableIdentity)
    } else if current.is_default && !payload.enabled {
        Some(StorageError::DefaultProtected)
    } else {
        None
    }
}

/// The configuration that an update would store.
pub fn update_config(current: &StorageRecord, payload: &StorageInput) -> (r: Result<
    StorageBackendConfig,
    StorageError,
>)
    ensures
        update_identity_error(*current, *payload) matches Some(StorageError::ImmutableIdentity) ==> r matches Err(
            StorageError::ImmutableIdentity,
        ),
        update_identity_error(*current, *payload) matches Some(StorageError::DefaultProtected) ==> r matches Err(
            StorageError::DefaultProtected,
        ),
        r matches Ok(config) ==> update_identity_error(*current, *payload) is None
            && driver_from_name(current.driver@) is Some && input_key_error(payload.backend, Some(*current)) is None
            && config_of_input(payload.backend, Some(*current), config) && (exists|stored: StorageBackendConfig|
            config_of_record(*current, driver_from_name(current.driver@)->0, stored)
                && #[trigger] same_location_spec(stored, config)),
        update_identity_error(*current, *payload) is None && driver_from_name(current.driver@) is Some
            && input_key_error(payload.backend, Some(*current)) is None && (driver_from_name(current.driver@)
            == Some(StorageDriver::Local) || credentials_outcome(
            opt_view(current.access_key),
            opt_view(current.secret_key),
        ) is None) ==> (r is Ok <==> forall|stored: StorageBackendConfig, config: StorageBackendConfig|
            config_of_record(*current, driver_from_name(current.driver@)->0, stored) && config_of_input(
                payload.backend,
                Some(*current),
                config,
            ) ==> #[trigger] same_location_spec(stored, config)) && (r is Err ==> r matches Err(
            StorageError::ImmutableIdentity,
        )),
        update_identity_error(*current, *payload) is None && driver_from_name(current.driver@) is None ==> (r matches Err(
            StorageError::InvalidConfiguration(ObjectStorageError::UnsupportedDriver(s)),
        ) && s@ == current.driver@),
        update_identity_error(*current, *payload) is None && driver_from_name(current.driver@) == Some(
            StorageDriver::S3,
        ) ==> match credentials_outcome(opt_view(current.access_key), opt_view(current.secret_key)) {
            None => true,
            Some(ObjectStorageError::MissingCredentials) => r matches Err(
                StorageError::InvalidConfiguration(ObjectStorageError::MissingCredentials),
            ),
            Some(_) => r matches Err(StorageError::InvalidConfiguration(ObjectStorageError::IncompleteCredentials)),
        },
        update_identity_error(*current, *payload) is None && driver_from_name(current.driver@) is Some && (
        driver_from_name(current.driver@) == Some(StorageDriver::Local) || credentials_outcome(
            opt_view(current.access_key),
            opt_view(current.secret_key),
        ) is None) ==> match input_key_error(payload.backend, Some(*current)) {
            None => true,
            Some(ObjectStorageError::MissingCredentials) => r matches Err(
                StorageError::InvalidConfiguration(ObjectStorageError::MissingCredentials),
            ),
            Some(_) => r matches Err(StorageError::InvalidConfiguration(ObjectStorageError::IncompleteCredentials)),
        },
{
    let code = trimmed(payload.code.as_str());
    if !str_eq(current.code.as_str(), code.as_str()) || !str_eq(
        current.driver.as_str(),
        payload.backend.driver().as_str(),
    ) {
        return Err(StorageError::ImmutableIdentity);
    }
    if current.is_default && !payload.enabled {
        return Err(StorageError::DefaultProtected);
    }
    let stored = config_from_record(current)?;
    let config = config_from_input(payload, Some(current))?;
    if !stored.same_location(&config) {
        proof {
            lemma_config_functional(*current, *payload, stored, config);
        }
        return Err(StorageError::ImmutableIdentity);
    }
    proof {
        lemma_config_functional(*current, *payload, stored, config);
    }
    Ok(config)
}

/// The configurations that a row and a submission describe are fixed up to
/// the same location.
proof fn lemma_config_functional(
    current: StorageRecord,
    payload: StorageInput,
    stored: StorageBackendConfig,
    config: StorageBackendConfig,
)
    requires
        driver_from_name(current.driver@) is Some,
        config_of_record(current, driver_from_name(current.driver@)->0, stored),
        config_of_input(payload.backend, Some(current), config),
    ensures
        forall|s2: StorageBackendConfig, c2: StorageBackendConfig|
            config_of_record(current, driver_from_name(current.driver@)->0, s2) && config_of_input(
                payload.backend,
                Some(current),
                c2,
            ) ==> (#[trigger] same_location_spec(s2, c2) == same_location_spec(stored, config)),
{
}

/// Whether enabling or disabling a storage changes anything: the default
/// storage cannot be disabled, and setting the current state is no change.
pub open spec fn enable_change_spec(is_default: bool, currently_enabled: bool, enabled: bool) -> Result<
    bool,
    StorageError,
> {
    if is_default && !enabled {
        Err(StorageError::DefaultProtected)
    } else {
        Ok(currently_enabled != enabled)
    }
}

/// Whether making a storage the default changes anything: only an enabled
/// storage can be the default.
pub open spec fn default_change_spec(enabled: bool, is_default: bool) -> Result<bool, StorageError> {
    if !enabled {
        Err(StorageError::DisabledDefault)
    } else {
        Ok(!is_default)
    }
}

/// Whether a storage may be deleted: not the default, and no uploaded file
/// or upload session refers to it.
pub open spec fn delete_check_spec(is_default: bool, references: i64) -> Result<(), StorageError> {
    if is_default {
        Err(StorageError::DefaultProtected)
    } else if references > 0 {
        Err(StorageError::InUse)
    } else {
        Ok(())
    }
}

/// Whether enabling or disabling a storage changes anything.
pub fn enable_change(is_default: bool, currently_enabled: bool, enabled: bool) -> (r: Result<bool, StorageError>)
    ensures
        r == enable_change_spec(is_default, currently_enabled, enabled),
{
    if is_default && !enabled {
        return Err(StorageError::DefaultProtected);
    }
    Ok(currently_enabled != enabled)
}

/// Whether making a storage the default changes anything.
pub fn default_change(enabled: bool, is_default: bool) -> (r: Result<bool, StorageError>)
    ensures
        r == default_change_spec(enabled, is_default),
{
    if !enabled {
        return Err(StorageError::DisabledDefault);
    }
    Ok(!is_default)
}

/// Whether a storage may be deleted.
pub fn delete_check(is_default: bool, references: i64) -> (r: Result<(), StorageError>)
    ensures
        r == delete_check_spec(is_default, references),
{
    if is_default {
        return Err(StorageError::DefaultProtected);
    }
    if references > 0 {
        return Err(StorageError::InUse);
    }
    Ok(())
}

/// Deleting: the default storage is always protected; any other storage may
/// be deleted exactly when nothing refers to it, and one that is referred to
/// even once is in use.
pub proof fn lemma_delete_only_unreferenced(is_default: bool, references: i64)
    requires
        references >= 0,
    ensures
        is_default ==> delete_check_spec(is_default, references) == Err::<(), StorageError>(
            StorageError::DefaultProtected,
        ),
        !is_default && references >= 1 ==> delete_check_spec(is_default, references) == Err::<(), StorageError>(
            StorageError::InUse,
        ),
        delete_check_spec(is_default, references) is Ok <==> !is_default && references == 0,
{
}

/// The stored storages as the lifecycle rules read them: by id, whether each
/// is enabled and whether it is the default.
pub open spec fn one_enabled_default(storages: Map<i64, (bool, bool)>) -> bool {
    exists|d: i64|
        #![trigger storages[d]]
        storages.contains_key(d) && storages[d].0 && storages[d].1 && forall|k: i64|
            storages.contains_key(k) && #[trigger] storages[k].1 ==> k == d
}

/// The storages after enabling or disabling `id`, as `enable_change` decides.
pub open spec fn after_set_enabled(storages: Map<i64, (bool, bool)>, id: i64, enabled: bool) -> Map<i64, (bool, bool)> {
    match enable_change_spec(storages[id].1, storages[id].0, enabled) {
        Ok(true) => storages.insert(id, (enabled, storages[id].1)),
        _ => storages,
    }
}

/// The storages after making `id` the default, as `default_change` decides:
/// every other storage stops being the default.
pub open spec fn after_set_default(storages: Map<i64, (bool, bool)>, id: i64) -> Map<i64, (bool, bool)> {
    match default_change_spec(storages[id].0, storages[id].1) {
        Ok(true) => Map::new(|k: i64| storages.contains_key(k), |k: i64| (storages[k].0, k == id)),
        _ => storages,
    }
}

/// The storages after deleting `id`, referred to `references` times, as
/// `delete_check` decides.
pub open spec fn after_delete(storages: Map<i64, (bool, bool)>, id: i64, references: i64) -> Map<i64, (bool, bool)> {
    match delete_check_spec(storages[id].1, references) {
        Ok(()) => storages.remove(id),
        _ => storages,
    }
}

/// Exactly one storage is the default, and it is enabled: creating a storage
/// (never the default), enabling or disabling one, making one the default
/// and deleting one each keep that.
pub proof fn lemma_one_enabled_default_kept(
    storages: Map<i64, (bool, bool)>,
    id: i64,
    enabled: bool,
    references: i64,
)
    requires
        one_enabled_default(storages),
        storages.contains_key(id),
    ensures
        one_enabled_default(after_set_enabled(storages, id, enabled)),
        one_enabled_default(after_set_default(storages, id)),
        one_enabled_default(after_delete(storages, id, references)),
        forall|fresh: i64|
            !storages.contains_key(fresh) ==> one_enabled_default(#[trigger] storages.insert(fresh, (enabled, false))),
{
    let d = choose|d: i64|
        #![trigger storages[d]]
        storages.contains_key(d) && storages[d].0 && storages[d].1 && forall|k: i64|
            storages.contains_key(k) && #[trigger] storages[k].1 ==> k == d;
    let e = after_set_enabled(storages, id, enabled);
    assert(e.contains_key(d) && e[d].0 && e[d].1);
    assert(forall|k: i64| e.contains_key(k) && #[trigger] e[k].1 ==> k == d);
    let f = after_set_default(storages, id);
    if storages[id].0 && !storages[id].1 {
        assert(f.contains_key(id) && f[id].0 && f[id].1);
        assert(forall|k: i64| f.contains_key(k) && #[trigger] f[k].1 ==> k == id);
    } else {
        assert(f.contains_key(d) && f[d].0 && f[d].1);
    }
    let g = after_delete(storages, id, references);
    assert(g.contains_key(d) && g[d].0 && g[d].1);
    assert(forall|k: i64| g.contains_key(k) && #[trigger] g[k].1 ==> k == d);
    assert forall|fresh: i64| !storages.contains_key(fresh) implies one_enabled_default(
        #[trigger] storages.insert(fresh, (enabled, false)),
    ) by {
        let h = storages.insert(fresh, (enabled, false));
        assert(h.contains_key(d) && h[d].0 && h[d].1);
        assert(forall|k: i64| h.contains_key(k) && #[trigger] h[k].1 ==> k == d);
    }
}

/// Where exactly one storage is the default, making an enabled storage the
/// default leaves it the only default; a disabled one is refused and nothing
/// changes.
pub proof fn lemma_set_default_leaves_one_default(storages: Map<i64, (bool, bool)>, id: i64)
    requires
        one_enabled_default(storages),
        storages.contains_key(id),
    ensures
        storages[id].0 ==> forall|k: i64|
            #[trigger] after_set_default(storages, id).contains_key(k) ==> (after_set_default(storages, id)[k].1
                <==> k == id),
        !storages[id].0 ==> default_change_spec(storages[id].0, storages[id].1) == Err::<bool, StorageError>(
            StorageError::DisabledDefault,
        ) && after_set_default(storages, id) == storages,
{
    if storages[id].1 {
        let d = choose|d: i64|
            #![trigger storages[d]]
            storages.contains_key(d) && storages[d].0 && storages[d].1 && forall|k: i64|
                storages.contains_key(k) && #[trigger] storages[k].1 ==> k == d;
        assert(id == d);
    }
}

/// Making a storage the default and disabling it, in either order, cannot
/// both go through: of the two, the one that comes second is refused.
pub proof fn lemma_default_and_disable_exclude(storages: Map<i64, (bool, bool)>, id: i64)
    requires
        storages.contains_key(id),
        storages[id].0,
        !storages[id].1,
    ensures
        default_change_spec(storages[id].0, storages[id].1) is Ok,
        enable_change_spec(
            after_set_default(storages, id)[id].1,
            after_set_default(storages, id)[id].0,
            false,
        ) == Err::<bool, StorageError>(StorageError::DefaultProtected),
        enable_change_spec(storages[id].1, storages[id].0, false) is Ok,
        default_change_spec(
            after_set_enabled(storages, id, false)[id].0,
            after_set_enabled(storages, id, false)[id].1,
        ) == Err::<bool, StorageError>(StorageError::DisabledDefault),
{
}

/// An update that passes the identity checks never disables the default
/// storage.
pub proof fn lemma_update_keeps_default_enabled(current: StorageRecord, payload: StorageInput)
    requires
        update_identity_error(current, payload) is None,
    ensures
        current.is_default ==> payload.enabled,
{
}

} // verus!
