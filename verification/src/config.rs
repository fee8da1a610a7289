//! The configuration: sites, each with an upstream and a profile, and profiles.

use vstd::prelude::*;

use crate::ordered::TextMap;
use crate::text::{begins, chars_of, push_text, same_text, starts_with, string_of, trim, trimmed};

verus! {

/// The whole configuration.
#[derive(Debug)]
pub struct AppConfig {
    pub sites: Vec<SiteConfig>,
    pub profiles: Vec<ProfileConfig>,
}

/// A site: where it listens, and what stands behind it.
#[derive(Clone, Debug)]
pub struct SiteConfig {
    pub id: String,
    pub listen: String,
    pub upstream: UpstreamConfig,
    pub profile: String,
}

/// The server behind a site.
#[derive(Clone, Debug)]
pub struct UpstreamConfig {
    pub url: String,
}

/// A profile: the module that decides on requests.
#[derive(Debug)]
pub struct ProfileConfig {
    pub id: String,
    pub wasm_path: String,
    /// Parameters handed to the module with each request, such as
    /// `paranoia_level` and `anomaly_threshold`; each value is a JSON text.
    pub params: TextMap<String>,
}

/// A [`SiteConfig`] with texts in place of strings.
pub struct SiteView {
    pub id: Seq<char>,
    pub listen: Seq<char>,
    pub url: Seq<char>,
    pub profile: Seq<char>,
}

impl View for SiteConfig {
    type V = SiteView;

    open spec fn view(&self) -> SiteView {
        SiteView {
            id: self.id@,
            listen: self.listen@,
            url: self.upstream.url@,
            profile: self.profile@,
        }
    }
}

/// A [`ProfileConfig`] with texts in place of strings.
pub struct ProfileView {
    pub id: Seq<char>,
    pub wasm_path: Seq<char>,
    pub params: Seq<(Seq<char>, Seq<char>)>,
}

impl View for ProfileConfig {
    type V = ProfileView;

    open spec fn view(&self) -> ProfileView {
        ProfileView { id: self.id@, wasm_path: self.wasm_path@, params: self.params@ }
    }
}

/// An [`AppConfig`] with texts in place of strings.
pub struct ConfigView {
    pub sites: Seq<SiteView>,
    pub profiles: Seq<ProfileView>,
}

impl View for AppConfig {
    type V = ConfigView;

    open spec fn view(&self) -> ConfigView {
        ConfigView {
            sites: self.sites@.map_values(|s: SiteConfig| s@),
            profiles: self.profiles@.map_values(|p: ProfileConfig| p@),
        }
    }
}

// ---------------------------------------------------------------------------
// Errors
// ---------------------------------------------------------------------------

/// What is wrong with a configuration.
#[derive(Debug)]
pub enum ConfigError {
    NoSites,
    NoProfiles,
    EmptyProfileId,
    DuplicateProfile { id: String },
    EmptyWasmPath { id: String },
    EmptySiteId,
    DuplicateSite { id: String },
    EmptyListen { id: String },
    DuplicateListen { listen: String },
    EmptyUpstream { id: String },
    UnsupportedUpstream { id: String },
    MissingProfile { id: String, profile: String },
}

/// A [`ConfigError`] with texts in place of strings.
pub enum ConfigErrorView {
    NoSites,
    NoProfiles,
    EmptyProfileId,
    DuplicateProfile(Seq<char>),
    EmptyWasmPath(Seq<char>),
    EmptySiteId,
    DuplicateSite(Seq<char>),
    EmptyListen(Seq<char>),
    DuplicateListen(Seq<char>),
    EmptyUpstream(Seq<char>),
    UnsupportedUpstream(Seq<char>),
    MissingProfile(Seq<char>, Seq<char>),
}

impl View for ConfigError {
    type V = ConfigErrorView;

    open spec fn view(&self) -> ConfigErrorView {
        match *self {
            ConfigError::NoSites => ConfigErrorView::NoSites,
            ConfigError::NoProfiles => ConfigErrorView::NoProfiles,
            ConfigError::EmptyProfileId => ConfigErrorView::EmptyProfileId,
            ConfigError::DuplicateProfile { id } => ConfigErrorView::DuplicateProfile(id@),
            ConfigError::EmptyWasmPath { id } => ConfigErrorView::EmptyWasmPath(id@),
            ConfigError::EmptySiteId => ConfigErrorView::EmptySiteId,
            ConfigError::DuplicateSite { id } => ConfigErrorView::DuplicateSite(id@),
            ConfigError::EmptyListen { id } => ConfigErrorView::EmptyListen(id@),
            ConfigError::DuplicateListen { listen } => ConfigErrorView::DuplicateListen(listen@),
            ConfigError::EmptyUpstream { id } => ConfigErrorView::EmptyUpstream(id@),
            ConfigError::UnsupportedUpstream { id } => ConfigErrorView::UnsupportedUpstream(id@),
            ConfigError::MissingProfile { id, profile } => ConfigErrorView::MissingProfile(
                id@,
                profile@,
            ),
        }
    }
}

/// What is said of an error.
pub open spec fn config_message(e: ConfigErrorView) -> Seq<char> {
    match e {
        ConfigErrorView::NoSites => "sites must not be empty"@,
        ConfigErrorView::NoProfiles => "profiles must not be empty"@,
        ConfigErrorView::EmptyProfileId => "profile.id must not be empty"@,
        ConfigErrorView::DuplicateProfile(id) => "duplicate profile.id found: "@ + id,
        ConfigErrorView::EmptyWasmPath(id) => "profile "@ + id + " wasm_path must not be empty"@,
        ConfigErrorView::EmptySiteId => "site.id must not be empty"@,
        ConfigErrorView::DuplicateSite(id) => "duplicate site.id found: "@ + id,
        ConfigErrorView::EmptyListen(id) => "site "@ + id + " listen must not be empty"@,
        ConfigErrorView::DuplicateListen(listen) => "duplicate site.listen found: "@ + listen,
        ConfigErrorView::EmptyUpstream(id) => "site "@ + id + " upstream.url must not be empty"@,
        ConfigErrorView::UnsupportedUpstream(id) => "site "@ + id
            + " upstream.url must start with http:// for MVP"@,
        ConfigErrorView::MissingProfile(id, profile) => "site "@ + id
            + " references missing profile "@ + profile,
    }
}

/// The texts one after the other.
fn three_texts(a: &str, b: &str, c: &str) -> (out: String)
    ensures
        out@ == a@ + b@ + c@,
{
    let mut out = chars_of(a);
    push_text(&mut out, b);
    push_text(&mut out, c);
    string_of(out.as_slice())
}

impl ConfigError {
    /// What is said of the error.
    pub fn message(&self) -> (out: String)
        ensures
            out@ == config_message(self@),
    {
        let none = String::new();
        let none = none.as_str();
        assert(forall|s: Seq<char>| #[trigger] (s + none@) =~= s);
        match self {
            ConfigError::NoSites => "sites must not be empty".to_owned(),
            ConfigError::NoProfiles => "profiles must not be empty".to_owned(),
            ConfigError::EmptyProfileId => "profile.id must not be empty".to_owned(),
            ConfigError::DuplicateProfile { id } => three_texts(
                "duplicate profile.id found: ",
                id.as_str(),
                none,
            ),
            ConfigError::EmptyWasmPath { id } => three_texts(
                "profile ",
                id.as_str(),
                " wasm_path must not be empty",
            ),
            ConfigError::EmptySiteId => "site.id must not be empty".to_owned(),
            ConfigError::DuplicateSite { id } => three_texts(
                "duplicate site.id found: ",
                id.as_str(),
                none,
            ),
            ConfigError::EmptyListen { id } => three_texts(
                "site ",
                id.as_str(),
                " listen must not be empty",
            ),
            ConfigError::DuplicateListen { listen } => three_texts(
                "duplicate site.listen found: ",
                listen.as_str(),
                none,
            ),
            ConfigError::EmptyUpstream { id } => three_texts(
                "site ",
                id.as_str(),
                " upstream.url must not be empty",
            ),
            ConfigError::UnsupportedUpstream { id } => three_texts(
                "site ",
                id.as_str(),
                " upstream.url must start with http:// for MVP",
            ),
            ConfigError::MissingProfile { id, profile } => {
                let start = three_texts("site ", id.as_str(), " references missing profile ");
                three_texts(start.as_str(), profile.as_str(), none)
            },
        }
    }
}

// ---------------------------------------------------------------------------
// Validity
// ---------------------------------------------------------------------------

/// A text without anything but whitespace.
pub open spec fn is_blank(s: Seq<char>) -> bool {
    trim(s).len() == 0
}

/// What is wrong with the profile at place `i`.
pub open spec fn profile_error(ps: Seq<ProfileView>, i: int) -> Option<ConfigErrorView> {
    let p = ps[i];
    if is_blank(p.id) {
        Some(ConfigErrorView::EmptyProfileId)
    } else if exists|j: int| 0 <= j < i && (#[trigger] ps[j]).id == p.id {
        Some(ConfigErrorView::DuplicateProfile(p.id))
    } else if is_blank(p.wasm_path) {
        Some(ConfigErrorView::EmptyWasmPath(p.id))
    } else {
        None
    }
}

/// What is wrong with the first of the first `n` profiles that is wrong.
pub open spec fn profiles_error(ps: Seq<ProfileView>, n: int) -> Option<ConfigErrorView>
    decreases n,
{
    if n <= 0 {
        None
    } else {
        match profiles_error(ps, n - 1) {
            Some(e) => Some(e),
            None => profile_error(ps, n - 1),
        }
    }
}

/// There is a profile with this id.
pub open spec fn has_profile(ps: Seq<ProfileView>, id: Seq<char>) -> bool {
    exists|j: int| 0 <= j < ps.len() && (#[trigger] ps[j]).id == id
}

/// What is wrong with the site at place `i`.
pub open spec fn site_error(cfg: ConfigView, i: int) -> Option<ConfigErrorView> {
    let s = cfg.sites[i];
    if is_blank(s.id) {
        Some(ConfigErrorView::EmptySiteId)
    } else if exists|j: int| 0 <= j < i && (#[trigger] cfg.sites[j]).id == s.id {
        Some(ConfigErrorView::DuplicateSite(s.id))
    } else if is_blank(s.listen) {
        Some(ConfigErrorView::EmptyListen(s.id))
    } else if exists|j: int| 0 <= j < i && (#[trigger] cfg.sites[j]).listen == s.listen {
        Some(ConfigErrorView::DuplicateListen(s.listen))
    } else if is_blank(s.url) {
        Some(ConfigErrorView::EmptyUpstream(s.id))
    } else if !starts_with(s.url, "http://"@) {
        Some(ConfigErrorView::UnsupportedUpstream(s.id))
    } else if !has_profile(cfg.profiles, s.profile) {
        Some(ConfigErrorView::MissingProfile(s.id, s.profile))
    } else {
        None
    }
}

/// What is wrong with the first of the first `n` sites that is wrong.
pub open spec fn sites_error(cfg: ConfigView, n: int) -> Option<ConfigErrorView>
    decreases n,
{
    if n <= 0 {
        None
    } else {
        match sites_error(cfg, n - 1) {
            Some(e) => Some(e),
            None => site_error(cfg, n - 1),
        }
    }
}

/// The first thing that is wrong with a configuration: profiles are looked at
/// before sites.
pub open spec fn config_error(cfg: ConfigView) -> Option<ConfigErrorView> {
    if cfg.sites.len() == 0 {
        Some(ConfigErrorView::NoSites)
    } else if cfg.profiles.len() == 0 {
        Some(ConfigErrorView::NoProfiles)
    } else {
        match profiles_error(cfg.profiles, cfg.profiles.len() as int) {
            Some(e) => Some(e),
            None => sites_error(cfg, cfg.sites.len() as int),
        }
    }
}

fn blank(s: &str) -> (r: bool)
    ensures
        r == is_blank(s@),
{
    let cs = chars_of(s);
    trimmed(cs.as_slice()).len() == 0
}

proof fn lemma_profiles_error(ps: Seq<ProfileView>, m: int, n: int)
    requires
        0 <= m <= n,
        profiles_error(ps, m) is Some,
    ensures
        profiles_error(ps, n) == profiles_error(ps, m),
    decreases n,
{
    if m < n {
        lemma_profiles_error(ps, m, n - 1);
    }
}

proof fn lemma_sites_error(cfg: ConfigView, m: int, n: int)
    requires
        0 <= m <= n,
        sites_error(cfg, m) is Some,
    ensures
        sites_error(cfg, n) == sites_error(cfg, m),
    decreases n,
{
    if m < n {
        lemma_sites_error(cfg, m, n - 1);
    }
}

impl AppConfig {
    /// Whether one of the first `n` profiles has this id.
    fn profile_known(&self, n: usize, id: &str) -> (r: bool)
        requires
            n <= self.profiles@.len(),
        ensures
            r == exists|j: int| 0 <= j < n && (#[trigger] self@.profiles[j]).id == id@,
    {
        for i in 0..n
            invariant
                n <= self.profiles@.len(),
                forall|j: int| 0 <= j < i ==> (#[trigger] self@.profiles[j]).id != id@,
        {
            assert(self@.profiles[i as int] == self.profiles@[i as int]@);
            if same_text(self.profiles[i].id.as_str(), id) {
                return true;
            }
        }
        false
    }

    /// Whether one of the first `n` sites has this id.
    fn site_known(&self, n: usize, id: &str) -> (r: bool)
        requires
            n <= self.sites@.len(),
        ensures
            r == exists|j: int| 0 <= j < n && (#[trigger] self@.sites[j]).id == id@,
    {
        for i in 0..n
            invariant
                n <= self.sites@.len(),
                forall|j: int| 0 <= j < i ==> (#[trigger] self@.sites[j]).id != id@,
        {
            assert(self@.sites[i as int] == self.sites@[i as int]@);
            if same_text(self.sites[i].id.as_str(), id) {
                return true;
            }
        }
        false
    }

    /// Whether one of the first `n` sites listens at this address.
    fn listen_known(&self, n: usize, listen: &str) -> (r: bool)
        requires
            n <= self.sites@.len(),
        ensures
            r == exists|j: int| 0 <= j < n && (#[trigger] self@.sites[j]).listen == listen@,
    {
        for i in 0..n
            invariant
                n <= self.sites@.len(),
                forall|j: int| 0 <= j < i ==> (#[trigger] self@.sites[j]).listen != listen@,
        {
            assert(self@.sites[i as int] == self.sites@[i as int]@);
            if same_text(self.sites[i].listen.as_str(), listen) {
                return true;
            }
        }
        false
    }

    fn check_profile(&self, i: usize) -> (r: Result<(), ConfigError>)
        requires
            i < self.profiles@.len(),
        ensures
            match profile_error(self@.profiles, i as int) {
                Some(e) => r is Err && r->Err_0@ == e,
                None => r is Ok,
            },
    {
        let profile = &self.profiles[i];
        assert(self@.profiles[i as int] == profile@);
        if blank(profile.id.as_str()) {
            return Err(ConfigError::EmptyProfileId);
        }
        if self.profile_known(i, profile.id.as_str()) {
            return Err(ConfigError::DuplicateProfile { id: profile.id.clone() });
        }
        if blank(profile.wasm_path.as_str()) {
            return Err(ConfigError::EmptyWasmPath { id: profile.id.clone() });
        }
        Ok(())
    }

    fn check_site(&self, i: usize) -> (r: Result<(), ConfigError>)
        requires
            i < self.sites@.len(),
        ensures
            match site_error(self@, i as int) {
                Some(e) => r is Err && r->Err_0@ == e,
                None => r is Ok,
            },
    {
        let site = &self.sites[i];
        assert(self@.sites[i as int] == site@);
        if blank(site.id.as_str()) {
            return Err(ConfigError::EmptySiteId);
        }
        if self.site_known(i, site.id.as_str()) {
            return Err(ConfigError::DuplicateSite { id: site.id.clone() });
        }
        if blank(site.listen.as_str()) {
            return Err(ConfigError::EmptyListen { id: site.id.clone() });
        }
        if self.listen_known(i, site.listen.as_str()) {
            return Err(ConfigError::DuplicateListen { listen: site.listen.clone() });
        }
        if blank(site.upstream.url.as_str()) {
            return Err(ConfigError::EmptyUpstream { id: site.id.clone() });
        }
        let url = chars_of(site.upstream.url.as_str());
        if !begins(url.as_slice(), "http://") {
            return Err(ConfigError::UnsupportedUpstream { id: site.id.clone() });
        }
        if !self.profile_known(self.profiles.len(), site.profile.as_str()) {
            return Err(
                ConfigError::MissingProfile { id: site.id.clone(), profile: site.profile.clone() },
            );
        }
        Ok(())
    }

    /// Says what is wrong with the configuration first, if anything is.
    pub fn validate(&self) -> (r: Result<(), ConfigError>)
        ensures
            match config_error(self@) {
                Some(e) => r is Err && r->Err_0@ == e,
                None => r is Ok,
            },
    {
        assert(self@.sites.len() == self.sites@.len());
        assert(self@.profiles.len() == self.profiles@.len());
        if self.sites.len() == 0 {
            return Err(ConfigError::NoSites);
        }
        if self.profiles.len() == 0 {
            return Err(ConfigError::NoProfiles);
        }
        for i in 0..self.profiles.len()
            invariant
                self@.profiles.len() == self.profiles@.len() > 0,
                self@.sites.len() == self.sites@.len() > 0,
                profiles_error(self@.profiles, i as int) is None,
        {
            if let Err(e) = self.check_profile(i) {
                proof {
                    lemma_profiles_error(self@.profiles, i + 1, self@.profiles.len() as int);
                }
                return Err(e);
            }
        }
        for i in 0..self.sites.len()
            invariant
                self@.profiles.len() == self.profiles@.len() > 0,
                self@.sites.len() == self.sites@.len() > 0,
                profiles_error(self@.profiles, self@.profiles.len() as int) is None,
                sites_error(self@, i as int) is None,
        {
            if let Err(e) = self.check_site(i) {
                proof {
                    lemma_sites_error(self@, i + 1, self@.sites.len() as int);
                }
                return Err(e);
            }
        }
        Ok(())
    }
}

// ---------------------------------------------------------------------------
// Laws
// ---------------------------------------------------------------------------

/// What is asked of a configuration: there are sites and profiles, nothing is
/// blank, ids and addresses are unique, upstreams are reached by HTTP, and every
/// site names a profile that is there.
pub open spec fn valid_config(cfg: ConfigView) -> bool {
    &&& cfg.sites.len() > 0
    &&& cfg.profiles.len() > 0
    &&& forall|i: int|
        0 <= i < cfg.profiles.len() ==> !is_blank((#[trigger] cfg.profiles[i]).id) && !is_blank(
            cfg.profiles[i].wasm_path,
        )
    &&& forall|i: int, j: int|
        0 <= i < j < cfg.profiles.len() ==> (#[trigger] cfg.profiles[i]).id != (
        #[trigger] cfg.profiles[j]).id
    &&& forall|i: int|
        0 <= i < cfg.sites.len() ==> !is_blank((#[trigger] cfg.sites[i]).id) && !is_blank(
            cfg.sites[i].listen,
        ) && !is_blank(cfg.sites[i].url) && starts_with(cfg.sites[i].url, "http://"@)
            && has_profile(cfg.profiles, cfg.sites[i].profile)
    &&& forall|i: int, j: int|
        0 <= i < j < cfg.sites.len() ==> (#[trigger] cfg.sites[i]).id != (
        #[trigger] cfg.sites[j]).id && cfg.sites[i].listen != cfg.sites[j].listen
}

/// A configuration passes if and only if it is all that is asked of it.
pub proof fn lemma_valid_config(cfg: ConfigView)
    ensures
        config_error(cfg) is None <==> valid_config(cfg),
{
    let m = cfg.profiles.len() as int;
    let n = cfg.sites.len() as int;
    lemma_profiles_fine(cfg.profiles, m);
    lemma_sites_fine(cfg, n);
    if config_error(cfg) is None {
        assert forall|i: int| 0 <= i < cfg.profiles.len() implies !is_blank(
            (#[trigger] cfg.profiles[i]).id,
        ) && !is_blank(cfg.profiles[i].wasm_path) by {
            assert(profile_error(cfg.profiles, i) is None);
        }
        assert forall|i: int, j: int| 0 <= i < j < cfg.profiles.len() implies (
        #[trigger] cfg.profiles[i]).id != (#[trigger] cfg.profiles[j]).id by {
            assert(profile_error(cfg.profiles, j) is None);
        }
        assert forall|i: int| 0 <= i < cfg.sites.len() implies !is_blank(
            (#[trigger] cfg.sites[i]).id,
        ) && !is_blank(cfg.sites[i].listen) && !is_blank(cfg.sites[i].url) && starts_with(
            cfg.sites[i].url,
            "http://"@,
        ) && has_profile(cfg.profiles, cfg.sites[i].profile) by {
            assert(site_error(cfg, i) is None);
        }
        assert forall|i: int, j: int| 0 <= i < j < cfg.sites.len() implies (
        #[trigger] cfg.sites[i]).id != (#[trigger] cfg.sites[j]).id && cfg.sites[i].listen
            != cfg.sites[j].listen by {
            assert(site_error(cfg, j) is None);
        }
    }
    if valid_config(cfg) {
        assert forall|i: int| 0 <= i < m implies #[trigger] profile_error(
            cfg.profiles,
            i,
        ) is None by {
            let p = cfg.profiles[i];
            assert(!is_blank(p.id));
        }
        assert forall|i: int| 0 <= i < n implies #[trigger] site_error(cfg, i) is None by {
            let s = cfg.sites[i];
            assert(!is_blank(s.id));
        }
    }
}

proof fn lemma_profiles_fine(ps: Seq<ProfileView>, n: int)
    ensures
        profiles_error(ps, n) is None <==> forall|i: int|
            0 <= i < n ==> #[trigger] profile_error(ps, i) is None,
    decreases n,
{
    if n > 0 {
        lemma_profiles_fine(ps, n - 1);
    }
}

proof fn lemma_sites_fine(cfg: ConfigView, n: int)
    ensures
        sites_error(cfg, n) is None <==> forall|i: int|
            0 <= i < n ==> #[trigger] site_error(cfg, i) is None,
    decreases n,
{
    if n > 0 {
        lemma_sites_fine(cfg, n - 1);
    }
}

} // verus!
