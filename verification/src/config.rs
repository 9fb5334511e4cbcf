//! Instance settings: which source of a setting wins, and the outbound
//! User-Agent.
use vstd::prelude::*;
use crate::text::{owned, replace_all, replace_str};
use crate::crypto::view_string;
use crate::auth::opt_str;
use crate::token_import::HostOs;

verus! {

/// The User-Agent sent to Reddit unless another is configured.
pub open spec fn default_user_agent() -> Seq<char> {
    "Mozilla/5.0 (X11; Linux x86_64; rv:133.0) Gecko/20100101 Firefox/133.0"@
}

/// The archive site linked for removed content unless another is configured.
pub fn default_pushshift_frontend() -> (r: &'static str)
    ensures
        r@ == "undelete.pullpush.io"@,
{
    "undelete.pullpush.io"
}

/// The name a setting had before the rename: every `REDLIB_` becomes
/// `LIBREDDIT_`.
pub fn legacy_key(key: &str) -> (r: String)
    ensures
        r@ == replace_all(key@, "REDLIB_"@, "LIBREDDIT_"@),
{
    proof {
        reveal_strlit("REDLIB_");
    }
    replace_str(key, "REDLIB_", "LIBREDDIT_")
}

/// A setting comes from its environment variable, else the legacy variable,
/// else the config file.
pub fn resolve_setting(env: Option<&str>, legacy_env: Option<&str>, file: Option<&str>) -> (r: Option<String>)
    ensures
        view_string(r) == match opt_str(env) {
            Some(v) => Some(v),
            None => match opt_str(legacy_env) {
                Some(v) => Some(v),
                None => opt_str(file),
            },
        },
{
    match env {
        Some(v) => Some(owned(v)),
        None => match legacy_env {
            Some(v) => Some(owned(v)),
            None => match file {
                Some(v) => Some(owned(v)),
                None => None,
            },
        },
    }
}

/// The outbound User-Agent: one set at run time (by an SSH import) when not
/// empty, else the configured one, else the default.
pub fn get_user_agent(runtime: &str, configured: Option<&str>) -> (r: String)
    ensures
        r@ == if runtime@.len() > 0 {
            runtime@
        } else {
            match configured {
                Some(c) => c@,
                None => default_user_agent(),
            }
        },
{
    if !runtime.is_empty() {
        return owned(runtime);
    }
    match configured {
        Some(c) => owned(c),
        None => owned("Mozilla/5.0 (X11; Linux x86_64; rv:133.0) Gecko/20100101 Firefox/133.0"),
    }
}

/// The settings an instance reads, by name.
pub open spec fn setting_names_spec() -> Seq<Seq<char>> {
    seq![
        "REDLIB_SFW_ONLY"@, "REDLIB_DEFAULT_THEME"@, "REDLIB_DEFAULT_FRONT_PAGE"@, "REDLIB_DEFAULT_LAYOUT"@,
        "REDLIB_DEFAULT_COMMENT_SORT"@, "REDLIB_DEFAULT_POST_SORT"@, "REDLIB_DEFAULT_BLUR_SPOILER"@, "REDLIB_DEFAULT_SHOW_NSFW"@,
        "REDLIB_DEFAULT_BLUR_NSFW"@, "REDLIB_DEFAULT_USE_HLS"@, "REDLIB_DEFAULT_HIDE_HLS_NOTIFICATION"@, "REDLIB_DEFAULT_WIDE"@,
        "REDLIB_DEFAULT_HIDE_AWARDS"@, "REDLIB_DEFAULT_HIDE_SIDEBAR_AND_SUMMARY"@, "REDLIB_DEFAULT_HIDE_SCORE"@, "REDLIB_DEFAULT_SUBSCRIPTIONS"@,
        "REDLIB_DEFAULT_FILTERS"@, "REDLIB_DEFAULT_DISABLE_VISIT_REDDIT_CONFIRMATION"@, "REDLIB_BANNER"@, "REDLIB_ROBOTS_DISABLE_INDEXING"@,
        "REDLIB_PUSHSHIFT_FRONTEND"@, "REDLIB_ENABLE_RSS"@, "REDLIB_FULL_URL"@, "REDLIB_DEFAULT_REMOVE_DEFAULT_FEEDS"@,
        "REDLIB_USER_AGENT"@, "REDLIB_OAUTH_CLIENT_ID"@, "REDLIB_OAUTH_CLIENT_SECRET"@, "REDLIB_OAUTH_REDIRECT_URI"@,
        "REDLIB_SESSION_SECRET"@, "REDLIB_RAW_TOKEN"@, "REDLIB_BROWSER_TOKEN"@, "REDLIB_SECURE_COOKIES"@,
        "REDLIB_ENABLE_LOCAL_STATE"@, "REDLIB_DB_PATH"@, "REDLIB_SSH_HOST"@, "REDLIB_SSH_USER"@,
        "REDLIB_SSH_KEY"@, "REDLIB_SSH_TIMEOUT"@, "REDLIB_SSH_STRICT_HOST_KEY_CHECKING"@
    ]
}

pub fn setting_names() -> (r: Vec<&'static str>)
    ensures
        r@.len() == setting_names_spec().len(),
        forall|i: int| 0 <= i < r@.len() ==> #[trigger] r@[i]@ == setting_names_spec()[i],
{
    let v = vec![
        "REDLIB_SFW_ONLY", "REDLIB_DEFAULT_THEME", "REDLIB_DEFAULT_FRONT_PAGE", "REDLIB_DEFAULT_LAYOUT",
        "REDLIB_DEFAULT_COMMENT_SORT", "REDLIB_DEFAULT_POST_SORT", "REDLIB_DEFAULT_BLUR_SPOILER", "REDLIB_DEFAULT_SHOW_NSFW",
        "REDLIB_DEFAULT_BLUR_NSFW", "REDLIB_DEFAULT_USE_HLS", "REDLIB_DEFAULT_HIDE_HLS_NOTIFICATION", "REDLIB_DEFAULT_WIDE",
        "REDLIB_DEFAULT_HIDE_AWARDS", "REDLIB_DEFAULT_HIDE_SIDEBAR_AND_SUMMARY", "REDLIB_DEFAULT_HIDE_SCORE", "REDLIB_DEFAULT_SUBSCRIPTIONS",
        "REDLIB_DEFAULT_FILTERS", "REDLIB_DEFAULT_DISABLE_VISIT_REDDIT_CONFIRMATION", "REDLIB_BANNER", "REDLIB_ROBOTS_DISABLE_INDEXING",
        "REDLIB_PUSHSHIFT_FRONTEND", "REDLIB_ENABLE_RSS", "REDLIB_FULL_URL", "REDLIB_DEFAULT_REMOVE_DEFAULT_FEEDS",
        "REDLIB_USER_AGENT", "REDLIB_OAUTH_CLIENT_ID", "REDLIB_OAUTH_CLIENT_SECRET", "REDLIB_OAUTH_REDIRECT_URI",
        "REDLIB_SESSION_SECRET", "REDLIB_RAW_TOKEN", "REDLIB_BROWSER_TOKEN", "REDLIB_SECURE_COOKIES",
        "REDLIB_ENABLE_LOCAL_STATE", "REDLIB_DB_PATH", "REDLIB_SSH_HOST", "REDLIB_SSH_USER",
        "REDLIB_SSH_KEY", "REDLIB_SSH_TIMEOUT", "REDLIB_SSH_STRICT_HOST_KEY_CHECKING",
    ];
    assert forall|i: int| 0 <= i < v@.len() implies #[trigger] v@[i]@ == setting_names_spec()[i] by {}
    v
}

/// A per-user config file: the environment variable naming its root and
/// the path below it.
pub type ConfigCandidate = (&'static str, Vec<&'static str>);

pub open spec fn candidate_view(c: ConfigCandidate) -> (Seq<char>, Seq<Seq<char>>) {
    (c.0@, crate::token_import::str_views(c.1@))
}

/// `redlib.toml` then `libreddit.toml` in the directory `base` below `root`.
pub open spec fn both_files(root: Seq<char>, base: Seq<Seq<char>>) -> Seq<(Seq<char>, Seq<Seq<char>>)> {
    seq![(root, base.push("redlib.toml"@)), (root, base.push("libreddit.toml"@))]
}

/// The per-user config files looked for, in order: under `APPDATA` on
/// Windows and `HOME`'s `Library/Application Support` on macOS; elsewhere
/// under `XDG_CONFIG_HOME` and then `HOME`'s `.config`; each root only when
/// its variable is set.
pub open spec fn config_candidates_spec(os: HostOs, appdata: bool, home: bool, xdg: bool) -> Seq<(Seq<char>, Seq<Seq<char>>)> {
    match os {
        HostOs::Windows => if appdata { both_files("APPDATA"@, seq!["redlibe"@]) } else { seq![] },
        HostOs::MacOs => if home {
            both_files("HOME"@, seq!["Library"@, "Application Support"@, "redlibe"@])
        } else {
            seq![]
        },
        HostOs::Unix => (if xdg { both_files("XDG_CONFIG_HOME"@, seq!["redlibe"@]) } else { seq![] })
            + (if home { both_files("HOME"@, seq![".config"@, "redlibe"@]) } else { seq![] }),
    }
}

fn push_both(out: &mut Vec<ConfigCandidate>, root: &'static str, base: Vec<&'static str>, same: Vec<&'static str>)
    requires
        crate::token_import::str_views(same@) == crate::token_import::str_views(base@),
    ensures
        final(out)@.map_values(|c: ConfigCandidate| candidate_view(c))
            == old(out)@.map_values(|c: ConfigCandidate| candidate_view(c)) + both_files(root@, crate::token_import::str_views(base@)),
{
    let ghost before = out@.map_values(|c: ConfigCandidate| candidate_view(c));
    let ghost bv = crate::token_import::str_views(base@);
    let mut a = base;
    a.push("redlib.toml");
    let mut b = same;
    b.push("libreddit.toml");
    assert(crate::token_import::str_views(a@) =~= bv.push("redlib.toml"@));
    assert(crate::token_import::str_views(b@) =~= bv.push("libreddit.toml"@));
    out.push((root, a));
    out.push((root, b));
    assert(out@.map_values(|c: ConfigCandidate| candidate_view(c)) =~= before + both_files(root@, bv));
}

pub fn config_candidates(os: HostOs, appdata: bool, home: bool, xdg: bool) -> (r: Vec<ConfigCandidate>)
    ensures
        r@.map_values(|c: ConfigCandidate| candidate_view(c)) == config_candidates_spec(os, appdata, home, xdg),
{
    let mut out: Vec<ConfigCandidate> = Vec::new();
    assert(out@.map_values(|c: ConfigCandidate| candidate_view(c)) =~= Seq::<(Seq<char>, Seq<Seq<char>>)>::empty());
    match os {
        HostOs::Windows => {
            if appdata {
                let base = vec!["redlibe"];
                assert(crate::token_import::str_views(base@) =~= seq!["redlibe"@]);
                push_both(&mut out, "APPDATA", base, vec!["redlibe"]);
            }
        },
        HostOs::MacOs => {
            if home {
                let base = vec!["Library", "Application Support", "redlibe"];
                assert(crate::token_import::str_views(base@) =~= seq!["Library"@, "Application Support"@, "redlibe"@]);
                push_both(&mut out, "HOME", base, vec!["Library", "Application Support", "redlibe"]);
            }
        },
        HostOs::Unix => {
            if xdg {
                let base = vec!["redlibe"];
                assert(crate::token_import::str_views(base@) =~= seq!["redlibe"@]);
                push_both(&mut out, "XDG_CONFIG_HOME", base, vec!["redlibe"]);
            }
            let ghost mid = out@.map_values(|c: ConfigCandidate| candidate_view(c));
            if home {
                let base = vec![".config", "redlibe"];
                assert(crate::token_import::str_views(base@) =~= seq![".config"@, "redlibe"@]);
                push_both(&mut out, "HOME", base, vec![".config", "redlibe"]);
            } else {
                assert(mid + Seq::<(Seq<char>, Seq<Seq<char>>)>::empty() =~= mid);
            }
        },
    }
    out
}

} // verus!
