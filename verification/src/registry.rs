//! The value types of the registry protocol. The protocol itself — search,
//! publish, transport — is a collaborator outside this crate; these are the
//! shapes it exchanges.
use vstd::prelude::*;
use crate::types::{PackageArtifact, PackageMetadata, PackageName, Version};

verus! {

/// A lookup of one package, optionally pinned to a version.
#[derive(Debug, Clone)]
pub struct RegistryQuery {
    pub name: PackageName,
    pub version: Option<Version>,
    pub include_prereleases: bool,
}

/// A free-text search with paging and facet filters.
#[derive(Debug, Clone)]
pub struct SearchQuery {
    pub query: String,
    pub limit: usize,
    pub offset: usize,
    pub categories: Vec<String>,
    pub keywords: Vec<String>,
}

/// One page of search results.
#[derive(Debug, Clone)]
pub struct SearchResult {
    pub packages: Vec<PackageMetadata>,
    pub total: usize,
    pub has_more: bool,
}

/// A request to publish one package version.
#[derive(Debug, Clone)]
pub struct PublishRequest {
    pub metadata: PackageMetadata,
    pub artifact: PackageArtifact,
    pub readme: Option<String>,
}

/// The registry's uniform response envelope. The timestamp is seconds since
/// the Unix epoch.
#[derive(Debug, Clone)]
pub struct RegistryResponse<T> {
    pub success: bool,
    pub data: Option<T>,
    pub error: Option<String>,
    pub timestamp: i64,
}

} // verus!
