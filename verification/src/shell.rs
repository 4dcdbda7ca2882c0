//! Plain state the presentation shell keeps between frames.
//!
//! Nothing here draws anything: these are the values the shell reads
//! and writes while the verified core does the work.

use vstd::prelude::*;

use crate::ops::upsert;
use crate::request::{RequestCounter, RequestID};

verus! {

/// Metadata of the latest published release, as the release-check
/// operation fetches it.
#[derive(Clone, Debug, PartialEq, Eq)]
pub struct GitHubRelease {
    pub html_url: String,
    pub tag_name: String,
    pub body: String,
}

impl GitHubRelease {
    pub fn new(html_url: String, tag_name: String, body: String) -> (r: GitHubRelease)
        ensures
            r.html_url@ == html_url@,
            r.tag_name@ == tag_name@,
            r.body@ == body@,
    {
        GitHubRelease { html_url, tag_name, body }
    }
}

/// The outcome banner of the last finished action.
#[derive(Debug, PartialEq, Eq)]
pub enum LastActionStatus {
    Idle,
    Success(String),
    Failure(String),
}

/// The state of the settings window: the game pak path being edited
/// and the complaint about it, if any.
#[derive(Clone, Debug, PartialEq, Eq)]
pub struct WindowSettings {
    pub drg_pak_path: String,
    pub drg_pak_path_err: Option<String>,
}

impl WindowSettings {
    /// Opens on the configured game pak path, or empty when none is
    /// configured, with no complaint shown.
    pub fn new(configured_path: Option<String>) -> (r: WindowSettings)
        ensures
            r.drg_pak_path@ == match configured_path {
                Some(p) => p@,
                None => Seq::<char>::empty(),
            },
            r.drg_pak_path_err is None,
    {
        let path = match configured_path {
            Some(p) => p,
            None => String::new(),
        };
        WindowSettings { drg_pak_path: path, drg_pak_path_err: None }
    }
}

/// What handling one provider-check result asks of the shell.
#[derive(Debug, PartialEq, Eq)]
pub enum ProviderCheckOutcome {
    /// The result belongs to an earlier, abandoned check: ignore it.
    Stale,
    /// The credentials checked out: persist the parameters and close
    /// the dialog.
    Saved,
    /// The check failed: the dialog stays open, showing the error,
    /// ready for correction.
    ShowError,
}

/// The views of the parameter list: key and value.
pub open spec fn param_views(s: Seq<(String, String)>) -> Seq<(Seq<char>, Seq<char>)> {
    s.map_values(|p: (String, String)| (p.0@, p.1@))
}

/// The provider-configuration dialog: the parameters being edited and
/// the in-flight credential check, if one is running. Only the result
/// that carries the current check's generation is honored; anything
/// older is ignored.
#[derive(Debug, PartialEq, Eq)]
pub struct WindowProviderParameters {
    pub provider_id: String,
    pub parameters: Vec<(String, String)>,
    pub check_rid: Option<RequestID>,
    pub check_error: Option<String>,
}

impl WindowProviderParameters {
    /// Opens on the provider's stored parameters, with no check
    /// running and no error shown.
    pub fn new(provider_id: String, parameters: Vec<(String, String)>) -> (r:
        WindowProviderParameters)
        ensures
            r.provider_id@ == provider_id@,
            r.parameters == parameters,
            r.check_rid is None,
            r.check_error is None,
    {
        WindowProviderParameters { provider_id, parameters, check_rid: None, check_error: None }
    }

    /// Set one parameter, replacing its first entry or appending one.
    pub fn set_parameter(&mut self, key: String, value: String)
        ensures
            param_views(final(self).parameters@) == upsert(
                param_views(old(self).parameters@),
                key@,
                value@,
            ),
            final(self).provider_id == old(self).provider_id,
            final(self).check_rid == old(self).check_rid,
            final(self).check_error == old(self).check_error,
    {
        let ghost m = param_views(self.parameters@);
        let mut i: usize = 0;
        while i < self.parameters.len()
            invariant
                i <= self.parameters@.len(),
                m == param_views(self.parameters@),
                m == param_views(old(self).parameters@),
                m.len() == self.parameters@.len(),
                self.provider_id == old(self).provider_id,
                self.check_rid == old(self).check_rid,
                self.check_error == old(self).check_error,
                forall|j: int| 0 <= j < i ==> m[j].0 != key@,
            decreases self.parameters@.len() - i,
        {
            proof {
                assert(m[i as int] == (self.parameters@[i as int].0@, self.parameters@[
                    i as int].1@));
            }
            if self.parameters[i].0 == key {
                self.parameters.set(i, (key, value));
                proof {
                    crate::ops::lemma_upsert_found(m, key@, value@, i as int);
                    assert(param_views(self.parameters@) =~= m.update(i as int, (key@, value@)));
                }
                return ;
            }
            i = i + 1;
        }
        proof {
            crate::ops::lemma_upsert_absent(m, key@, value@);
        }
        self.parameters.push((key, value));
        proof {
            assert(param_views(self.parameters@) =~= m.push((key@, value@)));
        }
    }

    /// Begin a credential check: draws a fresh generation, clears any
    /// previous error. A check already in flight must finish or be
    /// abandoned first; the interface keeps the button disabled
    /// meanwhile.
    pub fn begin_check(&mut self, counter: &mut RequestCounter) -> (r: RequestID)
        requires
            old(self).check_rid is None,
            old(counter).issued < u64::MAX,
        ensures
            r.value == old(counter).issued,
            final(counter).issued == old(counter).issued + 1,
            final(self).check_rid == Some(r),
            final(self).check_error is None,
            final(self).parameters == old(self).parameters,
            final(self).provider_id == old(self).provider_id,
    {
        let rid = counter.next();
        self.check_rid = Some(rid);
        self.check_error = None;
        rid
    }

    /// Apply one check result. Only a result carrying the current
    /// check's generation counts: success asks the shell to persist
    /// and close, failure keeps the dialog open with the error shown;
    /// a stale result changes nothing.
    pub fn handle_check_result(&mut self, rid: RequestID, result: Result<(), String>) -> (r:
        ProviderCheckOutcome)
        ensures
            (match old(self).check_rid {
                Some(cur) => cur.value != rid.value,
                None => true,
            }) ==> *final(self) == *old(self) && r == ProviderCheckOutcome::Stale,
            (match old(self).check_rid {
                Some(cur) => cur.value == rid.value,
                None => false,
            }) ==> final(self).check_rid is None && final(self).parameters == old(self).parameters
                && final(self).provider_id == old(self).provider_id && match result {
                Ok(()) => r == ProviderCheckOutcome::Saved && final(self).check_error == old(
                    self,
                ).check_error,
                Err(e) => r == ProviderCheckOutcome::ShowError && final(self).check_error == Some(
                    e,
                ),
            },
    {
        let matched = match &self.check_rid {
            Some(cur) => cur.value == rid.value,
            None => false,
        };
        if !matched {
            return ProviderCheckOutcome::Stale;
        }
        self.check_rid = None;
        match result {
            Ok(()) => ProviderCheckOutcome::Saved,
            Err(e) => {
                self.check_error = Some(e);
                ProviderCheckOutcome::ShowError
            },
        }
    }
}

/// The about window: it has no state of its own.
#[derive(Clone, Copy, Debug, PartialEq, Eq, Structural)]
pub struct WindowAbout;

impl WindowAbout {
    pub fn new() -> (r: WindowAbout) {
        WindowAbout
    }
}

} // verus!
