//! The orchestrator: holds the registered resolvers in a fixed order,
//! selects the one that owns a locator, and chooses the game version to
//! install into. Network, filesystem and progress drawing sit outside;
//! the decisions live here.

use vstd::prelude::*;

use crate::chars::str_eq;
use crate::locator::Locator;
use crate::resolver::{spec_select, select_resolver, AnyResolver, Error};
use crate::station::KmfResolver;
use crate::web::WebResolver;

verus! {

/// Failures while enumerating a game installation's version directories.
#[derive(Clone, Copy, PartialEq, Eq, Structural, Debug)]
pub enum GetGameVersionsError {
    GameDirIsNotADir,
    IllegalGameDirStructure,
    Io,
}

/// Failures while extracting an archive.
#[derive(Clone, Copy, PartialEq, Eq, Structural, Debug)]
pub enum UnzipFileError {
    AsyncZipError,
    Io,
}

pub struct Kmf {
    pub default_game: Option<Locator>,
    pub resolvers: Vec<AnyResolver>,
}

impl Kmf {
    /// The standard orchestrator: the delegating resolver first, then the
    /// web resolver — the fixed, deterministic dispatch order.
    pub fn new(
        default_game: Option<Locator>,
        kmf_record_file: String,
        kmf_cache_dir: String,
        web_record_file: String,
        web_cache_dir: String,
    ) -> (r: Kmf)
        ensures
            r.default_game == default_game,
            r.resolvers@.len() == 2,
            r.resolvers@[0] is Kmf,
            r.resolvers@[0]->Kmf_0.wf(),
            r.resolvers@[0]->Kmf_0.inner.cache_record_file@ == kmf_record_file@,
            r.resolvers@[0]->Kmf_0.inner.cache_dir@ == kmf_cache_dir@,
            r.resolvers@[1] is Web,
            r.resolvers@[1]->Web_0.cache_record_file@ == web_record_file@,
            r.resolvers@[1]->Web_0.cache_dir@ == web_cache_dir@,
    {
        let mut resolvers: Vec<AnyResolver> = Vec::new();
        resolvers.push(AnyResolver::Kmf(KmfResolver::new(kmf_record_file, kmf_cache_dir)));
        resolvers.push(AnyResolver::Web(WebResolver::new(web_record_file, web_cache_dir)));
        Kmf { default_game, resolvers }
    }

    /// The game to install into: the task's own locator when it names one,
    /// else the configured default, else `GameNotSpecified`.
    pub fn game_target(&self, requested: Option<Locator>) -> (r: Result<Locator, Error>)
        ensures
            requested is Some ==> r is Ok && r->Ok_0.scheme@ == requested->0.scheme@
                && r->Ok_0.rest@ == requested->0.rest@,
            requested is None && self.default_game is Some ==> r is Ok && r->Ok_0.scheme@
                == self.default_game->0.scheme@ && r->Ok_0.rest@ == self.default_game->0.rest@,
            requested is None && self.default_game is None ==> r is Err && r->Err_0
                is GameNotSpecified,
    {
        match requested {
            Some(l) => Ok(l),
            None => match &self.default_game {
                Some(l) => Ok(l.clone_loc()),
                None => Err(Error::GameNotSpecified),
            },
        }
    }

    /// Exactly one resolver owns a locator: the first whose scheme check
    /// accepts it. With none, the request fails closed with `ModNotFound`
    /// before any resolution or caching is attempted.
    pub fn pick_resolver(&self, url: &Locator) -> (r: Result<usize, Error>)
        ensures
            r is Ok ==> 0 <= r->Ok_0 < self.resolvers@.len() && Some(r->Ok_0 as int) == spec_select(
                self.resolvers@,
                url.scheme@,
            ),
            r is Err ==> r->Err_0 is ModNotFound && spec_select(self.resolvers@, url.scheme@)
                is None,
    {
        match select_resolver(&self.resolvers, url) {
            Some(i) => Ok(i),
            None => Err(Error::ModNotFound),
        }
    }
}

/// Picks the version directory to install into: the requested version when
/// the installation has it, the newest otherwise; a requested version the
/// installation lacks is an error naming it, and so is asking for the
/// newest of an installation with no versions at all.
pub fn select_version(versions: &Vec<String>, requested: Option<&str>) -> (r: Result<String, Error>)
    ensures
        requested is None && versions@.len() > 0 ==> r is Ok && r->Ok_0@ == versions@[0]@,
        requested is None && versions@.len() == 0 ==> r is Err && (r->Err_0 matches
            Error::VersionNotFound { version } && version@ == "latest"@),
        requested is Some ==> ((r is Ok <==> exists|i: int|
            0 <= i < versions@.len() && (#[trigger] versions@[i])@ == requested->0@) && (r is Ok
            ==> r->Ok_0@ == requested->0@) && (r is Err ==> (r->Err_0 matches
            Error::VersionNotFound { version } && version@ == requested->0@))),
{
    match requested {
        None => {
            if versions.len() == 0 {
                return Err(Error::VersionNotFound { version: String::from_str("latest") });
            }
            Ok(versions[0].clone())
        },
        Some(req) => {
            let n = versions.len();
            let mut i: usize = 0;
            while i < n
                invariant
                    n == versions@.len(),
                    requested == Some(req),
                    0 <= i <= n,
                    forall|j: int| 0 <= j < i ==> (#[trigger] versions@[j])@ != req@,
                decreases n - i,
            {
                if str_eq(versions[i].as_str(), req) {
                    return Ok(versions[i].clone());
                }
                i += 1;
            }
            Err(Error::VersionNotFound { version: String::from_str(req) })
        },
    }
}

} // verus!
