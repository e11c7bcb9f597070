//! A configured object store: the checks of its settings, its public URLs,
//! and the objects it manages.
use vstd::prelude::*;

use super::model::{opt_view, S3Credentials, StorageBackendConfig};
use crate::text::{
    chars_of, concat_chars, contains_char, has_prefix, owned, slice_chars, starts_with, string_of,
    trim, trim_chars, trim_end_char, trim_end_matching, trim_start_char, trim_start_matching, trimmed,
};

verus! {

#[verifier::external_type_specification]
#[verifier::external_body]
pub struct ExOperator(opendal::Operator);

#[verifier::external_type_specification]
#[verifier::external_body]
pub struct ExOpendalError(opendal::Error);

/// Why a backend's settings cannot serve as an object store.
#[derive(Debug)]
pub enum ObjectStorageError {
    UnsupportedDriver(String),
    Missing(&'static str, &'static str),
    IncompleteCredentials,
    MissingCredentials,
    InvalidPublicBaseUrl,
    Adapter(opendal::Error),
}

/// The name under which a local store serves its objects.
pub open spec fn local_url_prefix() -> Seq<char> {
    "/uploads"@
}

/// A text trimmed of whitespace, unless nothing is left.
pub open spec fn optional_text(value: Seq<char>) -> Option<Seq<char>> {
    if trim(value).len() == 0 {
        None
    } else {
        Some(trim(value))
    }
}

/// A setting that must not be blank.
pub open spec fn required_text(value: Seq<char>) -> Option<Seq<char>> {
    optional_text(value)
}

/// Whether a URL starts with `http://` or `https://`.
pub open spec fn is_http_url(url: Seq<char>) -> bool {
    has_prefix(url, "http://"@) || has_prefix(url, "https://"@)
}

/// The object root below the bucket: `/` and the trimmed root without
/// surrounding slashes, when a root is given.
pub open spec fn s3_root(root: Option<Seq<char>>) -> Option<Seq<char>> {
    match root {
        Some(r) => match optional_text(r) {
            Some(t) => Some(seq!['/'] + trim_end_char(trim_start_char(t, '/'), '/')),
            None => None,
        },
        None => None,
    }
}

/// The first S3 setting that is missing or malformed, in the order bucket,
/// region, public base URL, URL scheme.
pub open spec fn s3_settings_error(bucket: Seq<char>, region: Seq<char>, public_base_url: Seq<char>) -> Option<
    ObjectStorageError,
> {
    if required_text(bucket) is None {
        Some(ObjectStorageError::Missing("bucket", "s3"))
    } else if required_text(region) is None {
        Some(ObjectStorageError::Missing("region", "s3"))
    } else if required_text(public_base_url) is None {
        Some(ObjectStorageError::Missing("public_base_url", "s3"))
    } else if !is_http_url(trim(public_base_url)) {
        Some(ObjectStorageError::InvalidPublicBaseUrl)
    } else {
        None
    }
}

/// The base of the public URLs of an S3 store.
pub open spec fn s3_url_base(public_base_url: Seq<char>) -> Seq<char> {
    trim_end_char(trim(public_base_url), '/')
}

/// Whether two errors are the same checked failure (an adapter failure is
/// not one of them).
pub open spec fn same_check_error(a: ObjectStorageError, b: ObjectStorageError) -> bool {
    match (a, b) {
        (ObjectStorageError::Missing(x, y), ObjectStorageError::Missing(u, v)) => x@ == u@ && y@ == v@,
        (ObjectStorageError::InvalidPublicBaseUrl, ObjectStorageError::InvalidPublicBaseUrl) => true,
        _ => false,
    }
}

/// The setting trimmed of whitespace, or `None` when nothing is left.
pub fn optional(value: &str) -> (r: Option<String>)
    ensures
        match optional_text(value@) {
            Some(t) => r matches Some(s) && s@ == t,
            None => r is None,
        },
{
    let chars = chars_of(value);
    let t = trim_chars(&chars);
    if t.len() == 0 {
        None
    } else {
        Some(string_of(&t))
    }
}

/// The setting trimmed of whitespace; a blank one is missing for `driver`.
pub fn required(value: &str, name: &'static str, driver: &'static str) -> (r: Result<
    String,
    ObjectStorageError,
>)
    ensures
        match required_text(value@) {
            Some(t) => r matches Ok(s) && s@ == t,
            None => r matches Err(ObjectStorageError::Missing(n, d)) && n@ == name@ && d@ == driver@,
        },
{
    match optional(value) {
        Some(s) => Ok(s),
        None => Err(ObjectStorageError::Missing(name, driver)),
    }
}

/// The settings an S3 adapter is built with.
#[derive(Debug, Clone)]
pub struct S3Settings {
    pub bucket: String,
    pub region: String,
    pub endpoint: Option<String>,
    pub root: Option<String>,
    pub credentials: Option<S3Credentials>,
    pub virtual_host_style: bool,
    pub disable_config_load: bool,
    pub disable_ec2_metadata: bool,
}

/// The text of an optional borrowed string.
pub open spec fn opt_str(o: Option<&str>) -> Option<Seq<char>> {
    match o {
        Some(s) => Some(s@),
        None => None,
    }
}

/// The keys behind an optional borrowed pair.
pub open spec fn opt_credentials(o: Option<&S3Credentials>) -> Option<S3Credentials> {
    match o {
        Some(c) => Some(*c),
        None => None,
    }
}

/// `s` are the adapter settings for the given S3 arguments: bucket and region
/// trimmed, the endpoint trimmed when not blank, the root as `s3_root`
/// gives it, keys and addressing style as given, and neither the
/// environment's configuration nor the instance metadata service consulted.
pub open spec fn s3_settings_for(
    s: S3Settings,
    root: Option<Seq<char>>,
    bucket: Seq<char>,
    region: Seq<char>,
    endpoint: Option<Seq<char>>,
    credentials: Option<S3Credentials>,
    virtual_host_style: bool,
) -> bool {
    &&& s.bucket@ == trim(bucket)
    &&& s.region@ == trim(region)
    &&& opt_view(s.endpoint) == match endpoint {
        Some(e) => optional_text(e),
        None => None,
    }
    &&& opt_view(s.root) == s3_root(root)
    &&& s.credentials == credentials
    &&& s.virtual_host_style == virtual_host_style
    &&& s.disable_config_load
    &&& s.disable_ec2_metadata
}

/// The settings that an S3 adapter is built with for the given arguments.
pub fn s3_settings(
    root: Option<&str>,
    bucket: &str,
    region: &str,
    endpoint: Option<&str>,
    credentials: Option<&S3Credentials>,
    virtual_host_style: bool,
) -> (r: S3Settings)
    ensures
        s3_settings_for(
            r,
            opt_str(root),
            bucket@,
            region@,
            opt_str(endpoint),
            opt_credentials(credentials),
            virtual_host_style,
        ),
{
    let endpoint = match endpoint {
        Some(e) => optional(e),
        None => None,
    };
    let root = match root {
        Some(r) => match optional(r) {
            Some(t) => {
                let t_chars = chars_of(t.as_str());
                let inner = trim_end_matching(&trim_start_matching(&t_chars, '/'), '/');
                let slash: Vec<char> = vec!['/'];
                assert(slash@ =~= seq!['/']);
                Some(string_of(&concat_chars(&slash, &inner)))
            },
            None => None,
        },
        None => None,
    };
    let credentials = match credentials {
        Some(c) => {
            let kept = S3Credentials { access_key: c.access_key.clone(), secret_key: c.secret_key.clone() };
            assert(kept == *c);
            Some(kept)
        },
        None => None,
    };
    S3Settings {
        bucket: trimmed(bucket),
        region: trimmed(region),
        endpoint,
        root,
        credentials,
        virtual_host_style,
        disable_config_load: true,
        disable_ec2_metadata: true,
    }
}

/// `Operator::from_config` with the S3 configuration that `settings` spell
/// out, field for field. Nothing is stated of the result: whether the adapter
/// accepts the settings is the adapter's own decision.
#[verifier::external_body]
fn s3_operator(settings: &S3Settings) -> Result<opendal::Operator, opendal::Error> {
    let mut config = opendal::services::S3Config::default();
    config.bucket = settings.bucket.clone();
    config.region = Some(settings.region.clone());
    config.endpoint = settings.endpoint.clone();
    config.root = settings.root.clone();
    config.access_key_id = settings.credentials.as_ref().map(|c| c.access_key.clone());
    config.secret_access_key = settings.credentials.as_ref().map(|c| c.secret_key.clone());
    config.enable_virtual_host_style = settings.virtual_host_style;
    config.disable_config_load = settings.disable_config_load;
    config.disable_ec2_metadata = settings.disable_ec2_metadata;
    opendal::Operator::from_config(config)
}

/// An object store: the adapter that reaches it, the base of its public
/// URLs, and, for a local store, its root directory.
pub struct StorageBackend {
    pub operator: opendal::Operator,
    url_base: String,
    local_root: Option<String>,
    adapter_settings: Ghost<Option<S3Settings>>,
}

/// The store of files; the same type under the name the file module uses.
pub type FileObjectStorage = StorageBackend;

/// The errors of file stores; the same type under the name the file module
/// uses.
pub type FileStorageError = ObjectStorageError;

/// The root that a local store is configured with, or why it cannot be used.
pub fn local_root(root: &str) -> (r: Result<String, ObjectStorageError>)
    ensures
        match required_text(root@) {
            Some(t) => r matches Ok(s) && s@ == t,
            None => r matches Err(ObjectStorageError::Missing(n, d)) && n@ == "root"@ && d@ == "local"@,
        },
{
    required(root, "root", "local")
}

/// The checks of a configuration that need no I/O: a local root must not be
/// blank; an S3 store needs its bucket, region and an http(s) public base URL.
pub open spec fn config_error(config: StorageBackendConfig) -> Option<ObjectStorageError> {
    match config {
        StorageBackendConfig::Local { root } => if required_text(root@) is None {
            Some(ObjectStorageError::Missing("root", "local"))
        } else {
            None
        },
        StorageBackendConfig::S3 { bucket, region, public_base_url, .. } => s3_settings_error(
            bucket@,
            region@,
            public_base_url@,
        ),
    }
}

/// The object named by `url` under a store whose URLs start with `base`:
/// what follows the base and a slash, when that is a non-empty name without
/// slashes.
pub open spec fn managed_name(base: Seq<char>, url: Seq<char>) -> Option<Seq<char>> {
    let prefix = base + seq!['/'];
    let rest = url.subrange(prefix.len() as int, url.len() as int);
    if has_prefix(url, prefix) && rest.len() > 0 && !rest.contains('/') {
        Some(rest)
    } else {
        None
    }
}

/// A store recognises its own public URLs: the URL of a non-empty object name
/// without slashes names that object again.
pub proof fn lemma_public_url_is_managed(base: Seq<char>, object: Seq<char>)
    requires
        object.len() > 0,
        !object.contains('/'),
    ensures
        managed_name(base, base + seq!['/'] + object) == Some(object),
{
    let prefix = base + seq!['/'];
    let url = prefix + object;
    assert(base + seq!['/'] + object == url);
    assert(url.subrange(0, prefix.len() as int) =~= prefix);
    assert(url.subrange(prefix.len() as int, url.len() as int) =~= object);
}

impl StorageBackend {
    pub closed spec fn url_base_spec(&self) -> Seq<char> {
        self.url_base@
    }

    /// The settings the S3 adapter of this store was built with; none for a
    /// local store.
    pub closed spec fn adapter_settings(&self) -> Option<S3Settings> {
        self.adapter_settings@
    }

    pub closed spec fn local_root_spec(&self) -> Option<Seq<char>> {
        match self.local_root {
            Some(r) => Some(r@),
            None => None,
        }
    }

    /// A local store at `root` (already resolved and created), reached by
    /// `operator`; its objects are served under `/uploads`.
    pub fn local(operator: opendal::Operator, root: String) -> (r: StorageBackend)
        ensures
            r.url_base_spec() == local_url_prefix(),
            r.local_root_spec() == Some(root@),
            r.adapter_settings() is None,
    {
        StorageBackend { operator, url_base: owned("/uploads"), local_root: Some(root), adapter_settings: Ghost(None) }
    }

    /// An S3 store: its settings are checked in order (bucket, region, public
    /// base URL and its scheme) before the adapter is built; public URLs
    /// start with the base URL without trailing slashes.
    pub fn s3(
        root: Option<&str>,
        bucket: &str,
        region: &str,
        endpoint: Option<&str>,
        public_base_url: &str,
        credentials: Option<&S3Credentials>,
        virtual_host_style: bool,
    ) -> (r: Result<StorageBackend, ObjectStorageError>)
        ensures
            match s3_settings_error(bucket@, region@, public_base_url@) {
                Some(e) => r matches Err(x) && same_check_error(x, e),
                None => match r {
                    Ok(b) => {
                        &&& b.url_base_spec() == s3_url_base(public_base_url@)
                        &&& b.local_root_spec() is None
                        &&& b.adapter_settings() matches Some(s)
                        &&& s3_settings_for(
                            s,
                            opt_str(root),
                            bucket@,
                            region@,
                            opt_str(endpoint),
                            opt_credentials(credentials),
                            virtual_host_style,
                        )
                    },
                    Err(x) => x is Adapter,
                },
            },
    {
        required(bucket, "bucket", "s3")?;
        required(region, "region", "s3")?;
        let public_base_url = required(public_base_url, "public_base_url", "s3")?;
        let url_chars = chars_of(public_base_url.as_str());
        let http = chars_of("http://");
        let https = chars_of("https://");
        if !starts_with(&url_chars, &http) && !starts_with(&url_chars, &https) {
            return Err(ObjectStorageError::InvalidPublicBaseUrl);
        }
        let settings = s3_settings(root, bucket, region, endpoint, credentials, virtual_host_style);
        let operator = match s3_operator(&settings) {
            Ok(operator) => operator,
            Err(e) => {
                return Err(ObjectStorageError::Adapter(e));
            },
        };
        let url_base = string_of(&trim_end_matching(&url_chars, '/'));
        Ok(StorageBackend { operator, url_base, local_root: None, adapter_settings: Ghost(Some(settings)) })
    }

    /// An S3 store built from an S3 configuration.
    pub fn from_s3_config(config: &StorageBackendConfig) -> (r: Result<StorageBackend, ObjectStorageError>)
        requires
            config is S3,
        ensures
            match config_error(*config) {
                Some(e) => r matches Err(x) && same_check_error(x, e),
                None => match r {
                    Ok(b) => {
                        &&& b.url_base_spec() == s3_url_base(config->public_base_url@)
                        &&& b.local_root_spec() is None
                        &&& b.adapter_settings() matches Some(s)
                        &&& s3_settings_for(
                            s,
                            opt_view(config->S3_root),
                            config->bucket@,
                            config->region@,
                            opt_view(config->endpoint),
                            config->credentials,
                            config->virtual_host_style,
                        )
                    },
                    Err(x) => x is Adapter,
                },
            },
    {
        match config {
            StorageBackendConfig::S3 {
                root,
                bucket,
                region,
                endpoint,
                public_base_url,
                credentials,
                virtual_host_style,
            } => {
                let root_ref = match root {
                    Some(r) => Some(r.as_str()),
                    None => None,
                };
                let endpoint_ref = match endpoint {
                    Some(e) => Some(e.as_str()),
                    None => None,
                };
                let credentials_ref = match credentials {
                    Some(c) => Some(c),
                    None => None,
                };
                StorageBackend::s3(
                    root_ref,
                    bucket.as_str(),
                    region.as_str(),
                    endpoint_ref,
                    public_base_url.as_str(),
                    credentials_ref,
                    *virtual_host_style,
                )
            },
            StorageBackendConfig::Local { .. } => {
                proof {
                    assert(false);
                }
                Err(ObjectStorageError::Missing("root", "local"))
            },
        }
    }

    /// Checks a configuration as building its store would: a local root
    /// must not be blank, and an S3 store must be buildable.
    pub fn validate_config(config: &StorageBackendConfig) -> (r: Result<(), ObjectStorageError>)
        ensures
            match config_error(*config) {
                Some(e) => r matches Err(x) && same_check_error(x, e),
                None => r is Ok || (config is S3 && (r matches Err(x) && x is Adapter)),
            },
    {
        match config {
            StorageBackendConfig::Local { root } => {
                local_root(root.as_str())?;
                Ok(())
            },
            StorageBackendConfig::S3 { .. } => {
                StorageBackend::from_s3_config(config)?;
                Ok(())
            },
        }
    }

    /// The public URL of an object: the base, a slash, and the object name.
    pub fn public_url(&self, object: &str) -> (r: String)
        ensures
            r@ == self.url_base_spec() + seq!['/'] + object@,
    {
        let base = chars_of(self.url_base.as_str());
        let slash: Vec<char> = vec!['/'];
        let obj = chars_of(object);
        let with_slash = concat_chars(&base, &slash);
        string_of(&concat_chars(&with_slash, &obj))
    }

    /// The object that a public URL of this store names: the URL must start
    /// with the base and a slash, and the rest must be a non-empty name
    /// without slashes.
    pub fn managed_object(&self, url: &str) -> (r: Option<String>)
        ensures
            match managed_name(self.url_base_spec(), url@) {
                Some(t) => r matches Some(s) && s@ == t,
                None => r is None,
            },
    {
        let base = chars_of(self.url_base.as_str());
        let slash: Vec<char> = vec!['/'];
        let prefix = concat_chars(&base, &slash);
        assert(slash@ =~= seq!['/']);
        assert(prefix@ =~= self.url_base_spec() + seq!['/']);
        let u = chars_of(url);
        if !starts_with(&u, &prefix) {
            return None;
        }
        let rest = slice_chars(&u, prefix.len(), u.len());
        if rest.len() == 0 || contains_char(&rest, '/') {
            None
        } else {
            Some(string_of(&rest))
        }
    }

    /// Whether the store keeps its objects on the local file system.
    pub fn is_local(&self) -> (r: bool)
        ensures
            r == self.local_root_spec() is Some,
    {
        self.local_root.is_some()
    }

    /// The local root directory, for a local store.
    pub fn root_dir(&self) -> (r: Option<&str>)
        ensures
            match self.local_root_spec() {
                Some(p) => r matches Some(s) && s@ == p,
                None => r is None,
            },
    {
        match &self.local_root {
            Some(p) => Some(p.as_str()),
            None => None,
        }
    }
}

} // verus!
