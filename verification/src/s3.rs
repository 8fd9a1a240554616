//! Where in object storage a file of an ingestion lies.

use vstd::prelude::*;

verus! {

/// How long the fetch of one file may take, in seconds.
pub const FETCH_TIMEOUT_SECONDS: u64 = 290;

/// Declares `url::ParseError`, which says why a text is no URL. Nothing is
/// known of what it holds.
#[verifier::external_type_specification]
#[verifier::external_body]
pub struct ExUrlParseError(url::ParseError);

/// The host, if it has one, and the path of the absolute URL that `input`
/// is; none where `input` is no such URL.
pub uninterp spec fn url_host_and_path(input: Seq<char>) -> Option<(Option<Seq<char>>, Seq<char>)>;

/// Calls `url::Url::parse` and takes from the URL what `host_str` and `path`
/// give. Whether `input` is a URL, and which host and path it has, depends
/// on `input` alone.
#[verifier::external_body]
fn url_parse(input: &str) -> (parsed: Result<(Option<String>, String), url::ParseError>)
    ensures
        match parsed {
            Ok(parts) => url_host_and_path(input@) == Some(parts.deep_view()),
            Err(_) => url_host_and_path(input@) is None,
        },
{
    match url::Url::parse(input) {
        Ok(url) => {
            let host = match url.host_str() {
                Some(host) => Some(host.to_owned()),
                None => None,
            };
            Ok((host, url.path().to_owned()))
        },
        Err(e) => Err(e),
    }
}

/// An object in a bucket.
#[derive(Debug, Clone, PartialEq, Eq)]
pub struct ObjectLocation {
    pub bucket: String,
    pub key: String,
}

/// What an [`ObjectLocation`] holds.
pub struct ObjectLocationView {
    pub bucket: Seq<char>,
    pub key: Seq<char>,
}

impl View for ObjectLocation {
    type V = ObjectLocationView;

    open spec fn view(&self) -> ObjectLocationView {
        ObjectLocationView { bucket: self.bucket@, key: self.key@ }
    }
}

impl DeepView for ObjectLocation {
    type V = ObjectLocationView;

    open spec fn deep_view(&self) -> ObjectLocationView {
        self@
    }
}

/// Why a file URI names no object.
#[derive(Debug, PartialEq, Eq)]
pub enum LocationError {
    /// The URI is no absolute URL.
    Malformed { cause: url::ParseError },
    /// The URL has no host, so it names no bucket.
    NoBucket,
}

/// The object that a URL with the given host and path names: the host is the
/// bucket, the path the key. There is none where there is no host.
pub open spec fn location_of(host: Option<Seq<char>>, path: Seq<char>) -> Option<
    ObjectLocationView,
> {
    match host {
        Some(bucket) => Some(ObjectLocationView { bucket, key: path }),
        None => None,
    }
}

/// The object that a URL with the given host and path names.
pub fn location_from_parts(host: Option<String>, path: String) -> (location: Result<
    ObjectLocation,
    LocationError,
>)
    ensures
        match location {
            Ok(found) => location_of(host.deep_view(), path@) == Some(found@),
            Err(e) => e == LocationError::NoBucket && location_of(host.deep_view(), path@) is None,
        },
{
    match host {
        Some(bucket) => Ok(ObjectLocation { bucket, key: path }),
        None => Err(LocationError::NoBucket),
    }
}

/// The object that the file URI names.
pub fn object_location(file: &str) -> (location: Result<ObjectLocation, LocationError>)
    ensures
        match location {
            Ok(found) => url_host_and_path(file@) matches Some((host, path)) && location_of(
                host,
                path,
            ) == Some(found@),
            Err(LocationError::Malformed { .. }) => url_host_and_path(file@) is None,
            Err(LocationError::NoBucket) => url_host_and_path(file@) matches Some((host, _))
                && host is None,
        },
{
    match url_parse(file) {
        Ok((host, path)) => location_from_parts(host, path),
        Err(cause) => Err(LocationError::Malformed { cause }),
    }
}

} // verus!
