//! The shapes of the HTTP requests and the defaults of their parameters.

use vstd::prelude::*;

verus! {

/// The body of an ingestion request.
#[derive(Debug, Clone, PartialEq, Eq)]
pub struct IngestionRequest {
    pub ingestion_id: String,
    pub files: Vec<String>,
}

/// A list of file URIs.
#[derive(Debug, Clone, PartialEq, Eq)]
pub struct File {
    pub files: Vec<String>,
}

/// An error as a response body carries it.
#[derive(Debug, Clone, PartialEq, Eq)]
pub struct AppError {
    message: String,
}

impl AppError {
    pub closed spec fn message_text(&self) -> Seq<char> {
        self.message@
    }

    pub fn new(message: String) -> (error: AppError)
        ensures
            error.message_text() == message@,
    {
        AppError { message }
    }

    pub fn message(&self) -> (message: &String)
        ensures
            message@ == self.message_text(),
    {
        &self.message
    }
}

/// The query of a read of one node.
#[derive(Debug, Clone, PartialEq, Eq)]
pub struct GetNodeRequest {
    pub get_tags: Option<bool>,
    pub get_relations: Option<bool>,
}

impl GetNodeRequest {
    /// Whether the tags are asked for: they are unless the query says no.
    pub fn tags(&self) -> (wanted: bool)
        ensures
            wanted == match self.get_tags {
                Some(wanted) => wanted,
                None => true,
            },
    {
        match self.get_tags {
            Some(wanted) => wanted,
            None => true,
        }
    }

    /// Whether the relations are asked for: they are not unless the query
    /// says so.
    pub fn relations(&self) -> (wanted: bool)
        ensures
            wanted == match self.get_relations {
                Some(wanted) => wanted,
                None => false,
            },
    {
        match self.get_relations {
            Some(wanted) => wanted,
            None => false,
        }
    }
}

impl Default for GetNodeRequest {
    fn default() -> (request: GetNodeRequest)
        ensures
            request.get_tags is None,
            request.get_relations is None,
    {
        GetNodeRequest { get_tags: None, get_relations: None }
    }
}

/// The query of a traversal.
#[derive(Debug, Clone, PartialEq, Eq)]
pub struct TraversalNodeRequest {
    pub direction: String,
    pub relation_type: Option<String>,
    pub max_depth: usize,
}

impl Default for TraversalNodeRequest {
    fn default() -> (request: TraversalNodeRequest)
        ensures
            request.direction@ == Seq::<char>::empty(),
            request.relation_type is None,
            request.max_depth == 0,
    {
        TraversalNodeRequest { direction: String::new(), relation_type: None, max_depth: 0 }
    }
}

/// The body of the response to an ingestion that succeeded.
pub const INGESTED: &'static str = "{ \"status\": \"OK\"}";

/// The HTTP status of the response to an ingestion of which `failed` files
/// failed: any failed file fails the request.
pub fn ingestion_status(failed: usize) -> (status: u16)
    ensures
        status == if failed == 0 {
            200u16
        } else {
            500u16
        },
{
    if failed == 0 {
        200
    } else {
        500
    }
}

} // verus!
