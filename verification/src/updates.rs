//! The decisions of the plugin update check: plugins are grouped by manufacturer
//! and name (case folded), one lookup serves each group, a cached lookup is
//! turned into a result, and every plugin of the group gets its own verdict from
//! that result. Fetching from the network, waiting between fetches and
//! comparing version strings are done by the caller.
use vstd::prelude::*;
use crate::scanner::{opt_text, PluginInfo};
use crate::text::{lower_case, owned, push_str, str_eq, unicode_lower};

verus! {

/// A stored lookup of one manufacturer and name.
#[derive(Clone, Debug)]
pub struct KvrCacheEntry {
    pub latest_version: Option<String>,
    pub has_update: bool,
    pub update_url: Option<String>,
    pub kvr_url: Option<String>,
    pub source: String,
}

/// What one lookup found.
#[derive(Clone, Debug)]
pub struct UpdateResult {
    pub latest_version: String,
    pub has_update: bool,
    pub update_url: Option<String>,
    pub kvr_url: Option<String>,
    pub has_platform_download: bool,
    pub source: String,
}

/// One plugin with its update verdict.
#[derive(Clone, Debug)]
pub struct UpdatedPlugin {
    pub plugin: PluginInfo,
    pub current_version: String,
    pub latest_version: String,
    pub has_update: bool,
    pub update_url: Option<String>,
    pub kvr_url: Option<String>,
    pub has_platform_download: bool,
    pub source: String,
}

/// The key a plugin is grouped and cached under: `manufacturer|||name`, lower-cased.
pub open spec fn spec_update_key(p: PluginInfo) -> Seq<char> {
    unicode_lower(p.manufacturer@ + "|||"@ + p.name@)
}

/// Builds the grouping and cache key of a plugin.
pub fn update_key(p: &PluginInfo) -> (r: String)
    ensures
        r@ == spec_update_key(*p),
{
    let mut joined = owned(p.manufacturer.as_str());
    push_str(&mut joined, "|||");
    push_str(&mut joined, p.name.as_str());
    lower_case(joined.as_str())
}

/// The keys of a list of plugins.
pub open spec fn update_keys(plugins: Seq<PluginInfo>) -> Seq<Seq<char>> {
    plugins.map_values(|p: PluginInfo| spec_update_key(p))
}

/// Plugin `i` is the first with its key.
pub open spec fn first_with_key(keys: Seq<Seq<char>>, i: int) -> bool {
    forall|j: int| 0 <= j < i ==> keys[j] != keys[i]
}

/// The first plugin of each key among the first `n`, in order.
pub open spec fn representatives(keys: Seq<Seq<char>>, n: nat) -> Seq<usize>
    decreases n,
{
    if n == 0 {
        Seq::empty()
    } else {
        let r = representatives(keys, (n - 1) as nat);
        if first_with_key(keys, n - 1) { r.push((n - 1) as usize) } else { r }
    }
}

/// The plugins among the first `n` whose key is `key`, in order.
pub open spec fn with_key(keys: Seq<Seq<char>>, key: Seq<char>, n: nat) -> Seq<usize>
    decreases n,
{
    if n == 0 {
        Seq::empty()
    } else {
        let r = with_key(keys, key, (n - 1) as nat);
        if keys[n - 1] == key { r.push((n - 1) as usize) } else { r }
    }
}

/// The groups of a plugin list: for each key, in the order of its first plugin,
/// that plugin (the one looked up) and every plugin with the key, in order.
pub open spec fn spec_update_groups(plugins: Seq<PluginInfo>) -> Seq<(usize, Seq<usize>)> {
    let keys = update_keys(plugins);
    representatives(keys, plugins.len()).map_values(
        |i: usize| (i, with_key(keys, keys[i as int], plugins.len())),
    )
}

/// Groups plugins by manufacturer and name, case folded: each group is the index
/// of its first plugin and the indices of all its plugins.
pub fn update_groups(plugins: &Vec<PluginInfo>) -> (r: Vec<(usize, Vec<usize>)>)
    ensures
        r@.map_values(|g: (usize, Vec<usize>)| (g.0, g.1@)) == spec_update_groups(plugins@),
{
    let ghost keys = update_keys(plugins@);
    let mut ks: Vec<String> = Vec::new();
    let mut k: usize = 0;
    while k < plugins.len()
        invariant
            k <= plugins.len(),
            keys == update_keys(plugins@),
            ks@.len() == k,
            forall|q: int| 0 <= q < k ==> #[trigger] ks@[q]@ == keys[q],
        decreases plugins.len() - k,
    {
        ks.push(update_key(&plugins[k]));
        k = k + 1;
    }
    let n = plugins.len();
    let mut out: Vec<(usize, Vec<usize>)> = Vec::new();
    let mut i: usize = 0;
    while i < n
        invariant
            n == plugins.len(),
            ks@.len() == n,
            keys == update_keys(plugins@),
            keys.len() == n,
            forall|q: int| 0 <= q < n ==> #[trigger] ks@[q]@ == keys[q],
            i <= n,
            out@.map_values(|g: (usize, Vec<usize>)| (g.0, g.1@)) == representatives(keys, i as nat).map_values(
                |r: usize| (r, with_key(keys, keys[r as int], n as nat)),
            ),
        decreases n - i,
    {
        let mut first = true;
        let mut j: usize = 0;
        while j < i
            invariant
                i < n,
                ks@.len() == n,
                forall|q: int| 0 <= q < n ==> #[trigger] ks@[q]@ == keys[q],
                j <= i,
                first == (forall|q: int| 0 <= q < j ==> keys[q] != keys[i as int]),
            decreases i - j,
        {
            if str_eq(ks[j].as_str(), ks[i].as_str()) {
                first = false;
            }
            j = j + 1;
        }
        let ghost before = out@;
        if first {
            let mut members: Vec<usize> = Vec::new();
            let mut m: usize = 0;
            while m < n
                invariant
                    i < n,
                    ks@.len() == n,
                    forall|q: int| 0 <= q < n ==> #[trigger] ks@[q]@ == keys[q],
                    m <= n,
                    members@ == with_key(keys, keys[i as int], m as nat),
                decreases n - m,
            {
                if str_eq(ks[m].as_str(), ks[i].as_str()) {
                    members.push(m);
                }
                m = m + 1;
            }
            out.push((i, members));
            proof {
                assert(out@.map_values(|g: (usize, Vec<usize>)| (g.0, g.1@)) =~= before.map_values(
                    |g: (usize, Vec<usize>)| (g.0, g.1@),
                ).push((i, with_key(keys, keys[i as int], n as nat))));
                assert(representatives(keys, (i + 1) as nat) == representatives(keys, i as nat).push(i));
                assert(representatives(keys, (i + 1) as nat).map_values(
                    |r: usize| (r, with_key(keys, keys[r as int], n as nat)),
                ) =~= representatives(keys, i as nat).map_values(
                    |r: usize| (r, with_key(keys, keys[r as int], n as nat)),
                ).push((i, with_key(keys, keys[i as int], n as nat))));
            }
        } else {
            assert(representatives(keys, (i + 1) as nat) == representatives(keys, i as nat));
        }
        i = i + 1;
    }
    out
}

fn copy_opt(o: &Option<String>) -> (r: Option<String>)
    ensures
        opt_text(r) == opt_text(*o),
{
    match o {
        Some(s) => Some(owned(s.as_str())),
        None => None,
    }
}

/// A cached lookup as a result: the cached latest version, or the looked-up
/// plugin's own version when the cache has none; a platform download exactly
/// when the cache has an update URL.
pub fn cached_update(cached: &KvrCacheEntry, representative_version: &str) -> (r: UpdateResult)
    ensures
        r.latest_version@ == (match cached.latest_version {
            Some(v) => v@,
            None => representative_version@,
        }),
        r.has_update == cached.has_update,
        opt_text(r.update_url) == opt_text(cached.update_url),
        opt_text(r.kvr_url) == opt_text(cached.kvr_url),
        r.has_platform_download == cached.update_url is Some,
        r.source@ == cached.source@,
{
    let latest = match &cached.latest_version {
        Some(v) => owned(v.as_str()),
        None => owned(representative_version),
    };
    UpdateResult {
        latest_version: latest,
        has_update: cached.has_update,
        update_url: copy_opt(&cached.update_url),
        kvr_url: copy_opt(&cached.kvr_url),
        has_platform_download: cached.update_url.is_some(),
        source: owned(cached.source.as_str()),
    }
}

/// The verdict of one plugin of a group from the group's lookup. With a result,
/// an update is offered when the latest version is `newer` than the plugin's
/// (as the caller compared them) and the plugin's version is known; without one
/// the plugin keeps its own version and the source is "not-found".
pub fn sibling_update(sibling: PluginInfo, result: &Option<UpdateResult>, newer: bool) -> (r: UpdatedPlugin)
    ensures
        r.plugin == sibling,
        r.current_version@ == sibling.version@,
        r.has_update == (result is Some && newer && sibling.version@ != "Unknown"@),
        match result {
            Some(u) => {
                &&& r.latest_version@ == u.latest_version@
                &&& opt_text(r.update_url) == opt_text(u.update_url)
                &&& opt_text(r.kvr_url) == opt_text(u.kvr_url)
                &&& r.has_platform_download == u.has_platform_download
                &&& r.source@ == u.source@
            },
            None => {
                &&& r.latest_version@ == sibling.version@
                &&& r.update_url is None
                &&& r.kvr_url is None
                &&& !r.has_platform_download
                &&& r.source@ == "not-found"@
            },
        },
{
    let current = owned(sibling.version.as_str());
    match result {
        Some(u) => {
            let known = !str_eq(current.as_str(), "Unknown");
            UpdatedPlugin {
                current_version: current,
                latest_version: owned(u.latest_version.as_str()),
                has_update: newer && known,
                update_url: copy_opt(&u.update_url),
                kvr_url: copy_opt(&u.kvr_url),
                has_platform_download: u.has_platform_download,
                source: owned(u.source.as_str()),
                plugin: sibling,
            }
        },
        None => {
            let latest = owned(sibling.version.as_str());
            UpdatedPlugin {
                current_version: current,
                latest_version: latest,
                has_update: false,
                update_url: None,
                kvr_url: None,
                has_platform_download: false,
                source: owned("not-found"),
                plugin: sibling,
            }
        },
    }
}

} // verus!
