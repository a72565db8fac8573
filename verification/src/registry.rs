//! What the package registry answers, and what a build makes of an answer.
//!
//! The registry offers two read-only listings: the direct dependencies of one
//! version of a package, and the versions of a package, newest first. The
//! transport is not part of this library: a caller performs the request and
//! hands back a [`Reply`].

use vstd::prelude::*;

verus! {

/// One dependency as the registry lists it.
#[derive(Debug)]
pub struct DependencyRecord {
    /// The name of the package depended on.
    pub crate_id: String,
    /// The kind of the dependency, where the registry gives one.
    pub kind: Option<String>,
    /// Whether the dependency is optional.
    pub optional: bool,
}

/// One version as the registry lists it.
#[derive(Debug)]
pub struct VersionRecord {
    /// The version number.
    pub num: String,
}

/// How a request to the registry ended.
#[derive(Debug)]
pub enum Reply<T> {
    /// The request did not reach the registry, or no answer came back.
    Unreachable { detail: String },
    /// The registry answered with `status`; `body` is the decoded payload, or
    /// why it could not be decoded.
    Answered { status: u16, body: Result<T, String> },
}

/// Why a registry lookup gave no result.
#[derive(Debug)]
pub enum RegistryError {
    /// The registry could not be reached.
    Request { detail: String },
    /// The registry answered with a status that is not a success.
    Status { status: u16 },
    /// The registry's payload could not be decoded.
    Payload { detail: String },
    /// The registry lists no version of the package.
    NotFound,
}

/// A [`RegistryError`] with its strings as character sequences.
pub enum RegistryErrorView {
    Request { detail: Seq<char> },
    Status { status: u16 },
    Payload { detail: Seq<char> },
    NotFound,
}

impl View for RegistryError {
    type V = RegistryErrorView;

    open spec fn view(&self) -> RegistryErrorView {
        match *self {
            RegistryError::Request { detail } => RegistryErrorView::Request { detail: detail@ },
            RegistryError::Status { status } => RegistryErrorView::Status { status },
            RegistryError::Payload { detail } => RegistryErrorView::Payload { detail: detail@ },
            RegistryError::NotFound => RegistryErrorView::NotFound,
        }
    }
}

impl RegistryError {
    /// A copy of this error.
    pub fn duplicate(&self) -> (copy: RegistryError)
        ensures
            copy@ == self@,
    {
        match self {
            RegistryError::Request { detail } => RegistryError::Request { detail: detail.clone() },
            RegistryError::Status { status } => RegistryError::Status { status: *status },
            RegistryError::Payload { detail } => RegistryError::Payload { detail: detail.clone() },
            RegistryError::NotFound => RegistryError::NotFound,
        }
    }
}

/// Whether `status` is a success: one of 200 to 299.
pub open spec fn is_success(status: u16) -> bool {
    200 <= status < 300
}

/// Whether `record` is a development-only dependency.
pub open spec fn is_dev(record: DependencyRecord) -> bool {
    record.kind matches Some(kind) && kind@ == "dev"@
}

/// The names of the dependencies in `records` that are not development-only,
/// in the order of the listing.
pub open spec fn non_dev_names(records: Seq<DependencyRecord>) -> Seq<Seq<char>> {
    records.filter(|r: DependencyRecord| !is_dev(r)).map_values(|r: DependencyRecord| r.crate_id@)
}

/// What a dependency listing yields: the names of the dependencies that are
/// not development-only, or the reason why there is no listing.
pub open spec fn dependency_outcome(reply: Reply<Vec<DependencyRecord>>) -> Result<
    Seq<Seq<char>>,
    RegistryErrorView,
> {
    match reply {
        Reply::Unreachable { detail } => Err(RegistryErrorView::Request { detail: detail@ }),
        Reply::Answered { status, body } => if !is_success(status) {
            Err(RegistryErrorView::Status { status })
        } else {
            match body {
                Err(detail) => Err(RegistryErrorView::Payload { detail: detail@ }),
                Ok(records) => Ok(non_dev_names(records@)),
            }
        },
    }
}

/// What a version listing yields: the first version listed, or the reason
/// why there is none.
pub open spec fn version_outcome(reply: Reply<Vec<VersionRecord>>) -> Result<
    Seq<char>,
    RegistryErrorView,
> {
    match reply {
        Reply::Unreachable { detail } => Err(RegistryErrorView::Request { detail: detail@ }),
        Reply::Answered { status, body } => if !is_success(status) {
            Err(RegistryErrorView::Status { status })
        } else {
            match body {
                Err(detail) => Err(RegistryErrorView::Payload { detail: detail@ }),
                Ok(records) => if records@.len() == 0 {
                    Err(RegistryErrorView::NotFound)
                } else {
                    Ok(records@[0].num@)
                },
            }
        },
    }
}

/// The outcome of an exec lookup as the model sees it.
pub open spec fn names_outcome(res: Result<Vec<String>, RegistryError>) -> Result<
    Seq<Seq<char>>,
    RegistryErrorView,
> {
    match res {
        Ok(names) => Ok(crate::names::names_of(names@)),
        Err(error) => Err(error@),
    }
}

/// The outcome of an exec version lookup as the model sees it.
pub open spec fn name_outcome(res: Result<String, RegistryError>) -> Result<
    Seq<char>,
    RegistryErrorView,
> {
    match res {
        Ok(name) => Ok(name@),
        Err(error) => Err(error@),
    }
}

/// Whether `status` is a success.
pub fn status_is_success(status: u16) -> (ok: bool)
    ensures
        ok == is_success(status),
{
    200 <= status && status < 300
}

/// Reads a dependency listing: the names of the dependencies that are not
/// development-only, in the registry's order. An unreachable registry, a
/// status that is not a success and an undecodable payload each give their
/// error.
pub fn read_dependencies(reply: Reply<Vec<DependencyRecord>>) -> (res: Result<
    Vec<String>,
    RegistryError,
>)
    ensures
        names_outcome(res) == dependency_outcome(reply),
{
    match reply {
        Reply::Unreachable { detail } => Err(RegistryError::Request { detail }),
        Reply::Answered { status, body } => {
            if !status_is_success(status) {
                Err(RegistryError::Status { status })
            } else {
                match body {
                    Err(detail) => Err(RegistryError::Payload { detail }),
                    Ok(records) => {
                        let ghost keep = |r: DependencyRecord| !is_dev(r);
                        let ghost name = |r: DependencyRecord| r.crate_id@;
                        let dev = "dev".to_string();
                        let mut names: Vec<String> = Vec::new();
                        let mut i: usize = 0;
                        while i < records.len()
                            invariant
                                i <= records.len(),
                                dev@ == "dev"@,
                                keep == |r: DependencyRecord| !is_dev(r),
                                name == |r: DependencyRecord| r.crate_id@,
                                crate::names::names_of(names@) == records@.take(i as int).filter(
                                    keep,
                                ).map_values(name),
                            decreases records.len() - i,
                        {
                            let record = &records[i];
                            let is_dev_kind = match &record.kind {
                                Some(kind) => *kind == dev,
                                None => false,
                            };
                            proof {
                                let before = records@.take(i as int);
                                assert(records@.take(i + 1) =~= before.push(*record));
                                before.lemma_filter_push(*record, keep);
                            }
                            if !is_dev_kind {
                                let ghost prev = crate::names::names_of(names@);
                                names.push(record.crate_id.clone());
                                assert(crate::names::names_of(names@) =~= prev.push(
                                    record.crate_id@,
                                ));
                            }
                            i += 1;
                        }
                        assert(records@.take(records.len() as int) =~= records@);
                        Ok(names)
                    },
                }
            }
        },
    }
}

/// Reads a version listing: the first version listed, which the registry
/// takes to be the newest. A listing without versions gives
/// [`RegistryError::NotFound`]; an unreachable registry, a status that is not
/// a success and an undecodable payload each give their error.
pub fn read_latest_version(reply: Reply<Vec<VersionRecord>>) -> (res: Result<String, RegistryError>)
    ensures
        name_outcome(res) == version_outcome(reply),
{
    match reply {
        Reply::Unreachable { detail } => Err(RegistryError::Request { detail }),
        Reply::Answered { status, body } => {
            if !status_is_success(status) {
                Err(RegistryError::Status { status })
            } else {
                match body {
                    Err(detail) => Err(RegistryError::Payload { detail }),
                    Ok(records) => {
                        if records.len() == 0 {
                            Err(RegistryError::NotFound)
                        } else {
                            Ok(records[0].num.clone())
                        }
                    },
                }
            }
        },
    }
}

/// The address of the listing of the direct dependencies of `version` of
/// `package`.
pub fn dependencies_url(package: &str, version: &str) -> (url: String)
    ensures
        url@ == "https://crates.io/api/v1/crates/"@ + package@ + "/"@ + version@
            + "/dependencies"@,
{
    let mut url = "https://crates.io/api/v1/crates/".to_string();
    url.append(package);
    url.append("/");
    url.append(version);
    url.append("/dependencies");
    url
}

/// The address of the listing of the versions of `package`.
pub fn versions_url(package: &str) -> (url: String)
    ensures
        url@ == "https://crates.io/api/v1/crates/"@ + package@ + "/versions"@,
{
    let mut url = "https://crates.io/api/v1/crates/".to_string();
    url.append(package);
    url.append("/versions");
    url
}

} // verus!
