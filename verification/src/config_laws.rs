//! What makes a configuration wrong, one thing at a time.

use vstd::prelude::*;

use crate::config::{
    config_error, is_blank, profile_error, profiles_error, site_error, sites_error,
    ConfigErrorView, ConfigView, ProfileView,
};
use crate::text::{is_space, starts_with, trim};
use crate::text_laws::{blank, lemma_starts_with, lemma_trim, lemma_trim_parts};

verus! {

/// A text counts as empty if and only if it holds nothing but whitespace.
pub proof fn lemma_blank(s: Seq<char>)
    ensures
        is_blank(s) <==> blank(s),
{
    let none = Seq::<char>::empty();
    lemma_trim_parts(s);
    let (a, b) = choose|a: Seq<char>, b: Seq<char>|
        blank(a) && blank(b) && s == #[trigger] (a + trim(s) + b);
    if is_blank(s) {
        assert forall|i: int| 0 <= i < s.len() implies is_space(#[trigger] s[i]) by {
            if i < a.len() {
                assert(s[i] == a[i]);
            } else {
                assert(s[i] == b[i - a.len()]);
            }
        }
    }
    if blank(s) {
        assert(s + none + none =~= s);
        lemma_trim(s, none, none);
    }
}

/// A profile that nothing is wrong with: it has an id that none before it has, and a
/// path.
pub open spec fn fine_profile(ps: Seq<ProfileView>, i: int) -> bool {
    &&& !blank(ps[i].id)
    &&& !blank(ps[i].wasm_path)
    &&& forall|j: int| 0 <= j < i ==> (#[trigger] ps[j]).id != ps[i].id
}

/// A site that nothing is wrong with: it has an id and an address that none before it
/// has, an upstream, and a profile that there is.
pub open spec fn fine_site(cfg: ConfigView, i: int) -> bool {
    let s = cfg.sites[i];
    &&& !blank(s.id)
    &&& !blank(s.listen)
    &&& forall|j: int| 0 <= j < i ==> (#[trigger] cfg.sites[j]).id != s.id && cfg.sites[j].listen
        != s.listen
    &&& exists|rest: Seq<char>| s.url == #[trigger] ("http://"@ + rest)
    &&& exists|j: int| 0 <= j < cfg.profiles.len() && (#[trigger] cfg.profiles[j]).id == s.profile
}

proof fn lemma_fine_profile(ps: Seq<ProfileView>, i: int)
    ensures
        profile_error(ps, i) is None <==> fine_profile(ps, i),
{
    lemma_blank(ps[i].id);
    lemma_blank(ps[i].wasm_path);
}

proof fn lemma_fine_site(cfg: ConfigView, i: int)
    ensures
        site_error(cfg, i) is None <==> fine_site(cfg, i),
{
    let s = cfg.sites[i];
    lemma_blank(s.id);
    lemma_blank(s.listen);
    lemma_blank(s.url);
    lemma_starts_with(s.url, "http://"@);
    reveal_strlit("http://");
    if starts_with(s.url, "http://"@) {
        assert(s.url.take(7)[0] == 'h');
        assert(s.url[0] == 'h');
        assert(!blank(s.url));
    }
}

proof fn lemma_no_profile_error(ps: Seq<ProfileView>, n: int)
    requires
        forall|j: int| 0 <= j < n ==> #[trigger] fine_profile(ps, j),
    ensures
        profiles_error(ps, n) is None,
    decreases n,
{
    if n > 0 {
        lemma_no_profile_error(ps, n - 1);
        assert(fine_profile(ps, n - 1));
        lemma_fine_profile(ps, n - 1);
    }
}

proof fn lemma_first_of_profiles(ps: Seq<ProfileView>, i: int, n: int)
    requires
        0 <= i < n,
        forall|j: int| 0 <= j < i ==> #[trigger] fine_profile(ps, j),
        !fine_profile(ps, i),
    ensures
        profiles_error(ps, n) == profile_error(ps, i),
        profile_error(ps, i) is Some,
    decreases n,
{
    lemma_fine_profile(ps, i);
    if n - 1 > i {
        lemma_first_of_profiles(ps, i, n - 1);
    } else {
        lemma_no_profile_error(ps, i);
    }
}

proof fn lemma_no_site_error(cfg: ConfigView, n: int)
    requires
        forall|j: int| 0 <= j < n ==> #[trigger] fine_site(cfg, j),
    ensures
        sites_error(cfg, n) is None,
    decreases n,
{
    if n > 0 {
        lemma_no_site_error(cfg, n - 1);
        assert(fine_site(cfg, n - 1));
        lemma_fine_site(cfg, n - 1);
    }
}

proof fn lemma_first_of_sites(cfg: ConfigView, i: int, n: int)
    requires
        0 <= i < n,
        forall|j: int| 0 <= j < i ==> #[trigger] fine_site(cfg, j),
        !fine_site(cfg, i),
    ensures
        sites_error(cfg, n) == site_error(cfg, i),
        site_error(cfg, i) is Some,
    decreases n,
{
    lemma_fine_site(cfg, i);
    if n - 1 > i {
        lemma_first_of_sites(cfg, i, n - 1);
    } else {
        lemma_no_site_error(cfg, i);
    }
}

/// A configuration without sites or without profiles is wrong for that; and one whose
/// profiles and sites are all fine is right.
pub proof fn lemma_empty_config(cfg: ConfigView)
    ensures
        cfg.sites.len() == 0 ==> config_error(cfg) == Some(ConfigErrorView::NoSites),
        cfg.sites.len() > 0 && cfg.profiles.len() == 0 ==> config_error(cfg) == Some(
            ConfigErrorView::NoProfiles,
        ),
        cfg.sites.len() > 0 && cfg.profiles.len() > 0 && (forall|j: int|
            0 <= j < cfg.profiles.len() ==> #[trigger] fine_profile(cfg.profiles, j)) && (forall|
            j: int,
        |
            0 <= j < cfg.sites.len() ==> #[trigger] fine_site(cfg, j)) ==> config_error(
            cfg,
        ) is None,
{
    if forall|j: int| 0 <= j < cfg.profiles.len() ==> #[trigger] fine_profile(cfg.profiles, j) {
        lemma_no_profile_error(cfg.profiles, cfg.profiles.len() as int);
    }
    if forall|j: int| 0 <= j < cfg.sites.len() ==> #[trigger] fine_site(cfg, j) {
        lemma_no_site_error(cfg, cfg.sites.len() as int);
    }
}

/// The first profile that is not fine is told, with the first thing that is wrong with
/// it: no id, an id that one before it has, or no path.
#[verifier::rlimit(40)]
pub proof fn lemma_wrong_profile(cfg: ConfigView, i: int)
    requires
        cfg.sites.len() > 0,
        0 <= i < cfg.profiles.len(),
        forall|j: int| 0 <= j < i ==> #[trigger] fine_profile(cfg.profiles, j),
    ensures
        ({
            let p = cfg.profiles[i];
            let taken = exists|j: int| 0 <= j < i && (#[trigger] cfg.profiles[j]).id == p.id;
            &&& blank(p.id) ==> config_error(cfg) == Some(ConfigErrorView::EmptyProfileId)
            &&& !blank(p.id) && taken ==> config_error(cfg) == Some(
                ConfigErrorView::DuplicateProfile(p.id),
            )
            &&& !blank(p.id) && !taken && blank(p.wasm_path) ==> config_error(cfg) == Some(
                ConfigErrorView::EmptyWasmPath(p.id),
            )
        }),
{
    lemma_blank(cfg.profiles[i].id);
    lemma_blank(cfg.profiles[i].wasm_path);
    if !fine_profile(cfg.profiles, i) {
        lemma_first_of_profiles(cfg.profiles, i, cfg.profiles.len() as int);
    }
}

/// Where all profiles are fine, the first site that is not is told, with the first thing
/// that is wrong with it: no id or one that is taken, no address or one that is taken, no
/// upstream or one of another kind, or a profile that there is not.
#[verifier::rlimit(40)]
pub proof fn lemma_wrong_site(cfg: ConfigView, i: int)
    requires
        cfg.profiles.len() > 0,
        0 <= i < cfg.sites.len(),
        forall|j: int| 0 <= j < cfg.profiles.len() ==> #[trigger] fine_profile(cfg.profiles, j),
        forall|j: int| 0 <= j < i ==> #[trigger] fine_site(cfg, j),
    ensures
        ({
            let s = cfg.sites[i];
            let e = config_error(cfg);
            let id_taken = exists|j: int| 0 <= j < i && (#[trigger] cfg.sites[j]).id == s.id;
            let listen_taken = exists|j: int|
                0 <= j < i && (#[trigger] cfg.sites[j]).listen == s.listen;
            let known = exists|j: int|
                0 <= j < cfg.profiles.len() && (#[trigger] cfg.profiles[j]).id == s.profile;
            let http = exists|rest: Seq<char>| s.url == #[trigger] ("http://"@ + rest);
            let named = !blank(s.id) && !id_taken;
            let listens = named && !blank(s.listen) && !listen_taken;
            &&& blank(s.id) ==> e == Some(ConfigErrorView::EmptySiteId)
            &&& !blank(s.id) && id_taken ==> e == Some(ConfigErrorView::DuplicateSite(s.id))
            &&& named && blank(s.listen) ==> e == Some(ConfigErrorView::EmptyListen(s.id))
            &&& named && !blank(s.listen) && listen_taken ==> e == Some(
                ConfigErrorView::DuplicateListen(s.listen),
            )
            &&& listens && blank(s.url) ==> e == Some(ConfigErrorView::EmptyUpstream(s.id))
            &&& listens && !blank(s.url) && !http ==> e == Some(
                ConfigErrorView::UnsupportedUpstream(s.id),
            )
            &&& listens && http && !known ==> e == Some(
                ConfigErrorView::MissingProfile(s.id, s.profile),
            )
        }),
{
    let s = cfg.sites[i];
    lemma_blank(s.id);
    lemma_blank(s.listen);
    lemma_blank(s.url);
    lemma_starts_with(s.url, "http://"@);
    lemma_no_profile_error(cfg.profiles, cfg.profiles.len() as int);
    reveal_strlit("http://");
    if starts_with(s.url, "http://"@) {
        assert(s.url.take(7)[0] == 'h');
        assert(s.url[0] == 'h');
        assert(!blank(s.url));
    }
    if !fine_site(cfg, i) {
        lemma_first_of_sites(cfg, i, cfg.sites.len() as int);
    }
}

} // verus!
