//! The app listing of the project's web pages.

use vstd::prelude::*;
use crate::collections::StrMap;
use crate::config::apps::AppConfig;
use crate::config::loader::Config;
use crate::text::{clone_strings, opt_string_view, str_views, string_from_str};

verus! {

/// A published release asset of one app.
#[derive(Debug, Clone)]
pub struct ReleaseAssetInfo {
    pub filename: String,
    pub url: String,
    pub tag: String,
    pub updated_at: String,
}

impl ReleaseAssetInfo {
    /// The strings of the record.
    pub open spec fn view4(self) -> (Seq<char>, Seq<char>, Seq<char>, Seq<char>) {
        (self.filename@, self.url@, self.tag@, self.updated_at@)
    }

    /// A field-for-field copy.
    pub fn copy(&self) -> (r: Self)
        ensures
            r.view4() == self.view4(),
    {
        ReleaseAssetInfo {
            filename: string_from_str(self.filename.as_str()),
            url: string_from_str(self.url.as_str()),
            tag: string_from_str(self.tag.as_str()),
            updated_at: string_from_str(self.updated_at.as_str()),
        }
    }
}

/// The published releases, by app id, per kind.
#[derive(Debug)]
pub struct ReleasesRegistry {
    pub stock_apps: StrMap<ReleaseAssetInfo>,
    pub root_apps: StrMap<ReleaseAssetInfo>,
    pub single_modules: StrMap<ReleaseAssetInfo>,
    pub bundles: StrMap<ReleaseAssetInfo>,
    pub custom_bundles: StrMap<ReleaseAssetInfo>,
}

impl Default for ReleasesRegistry {
    fn default() -> (r: Self)
        ensures
            r.stock_apps@.len() == 0,
            r.root_apps@.len() == 0,
            r.single_modules@.len() == 0,
            r.bundles@.len() == 0,
            r.custom_bundles@.len() == 0,
    {
        ReleasesRegistry {
            stock_apps: StrMap::new(),
            root_apps: StrMap::new(),
            single_modules: StrMap::new(),
            bundles: StrMap::new(),
            custom_bundles: StrMap::new(),
        }
    }
}

/// One app as the pages list it.
pub struct AppListing {
    pub id: String,
    pub name: String,
    pub enabled: bool,
    pub package: String,
    pub patch_source: String,
    pub architectures: Vec<String>,
    pub mode: String,
    pub patches: Vec<String>,
    pub dependencies: Vec<String>,
    pub module_single: bool,
    pub module_bundle: bool,
    pub download_url: Option<String>,
    pub tag: Option<String>,
    pub updated_at: Option<String>,
    pub stock: Option<ReleaseAssetInfo>,
    pub root: Option<ReleaseAssetInfo>,
    pub module: Option<ReleaseAssetInfo>,
}

/// A release record, viewed.
pub open spec fn release_view(r: Option<ReleaseAssetInfo>) -> Option<(Seq<char>, Seq<char>, Seq<char>, Seq<char>)> {
    match r {
        Some(x) => Some(x.view4()),
        None => None,
    }
}

/// The release that an app's download points to: the stock APK, else the
/// root APK, else the single module.
pub open spec fn primary_release(reg: ReleasesRegistry, id: Seq<char>) -> Option<ReleaseAssetInfo> {
    match reg.stock_apps.spec_get(id) {
        Some(r) => Some(r),
        None => match reg.root_apps.spec_get(id) {
            Some(r) => Some(r),
            None => reg.single_modules.spec_get(id),
        },
    }
}

/// The listing of app `id`: its name (display name, else the id), its
/// settings, its module flags (both on unless configured), and its
/// releases, the primary one giving the download URL, tag and date.
pub open spec fn listing_ok(l: AppListing, reg: ReleasesRegistry, id: Seq<char>, app: AppConfig) -> bool {
    let primary = primary_release(reg, id);
    &&& l.id@ == id
    &&& l.name@ == (match opt_string_view(app.display_name) {
        Some(n) => n,
        None => id,
    })
    &&& l.enabled == app.enabled
    &&& l.package@ == app.package@
    &&& l.patch_source@ == app.patch_source@
    &&& str_views(l.architectures@) == str_views(app.architectures@)
    &&& l.mode@ == app.mode@
    &&& str_views(l.patches@) == str_views(app.patches@)
    &&& (app.dependencies matches crate::config::apps::AppDependencies::Flat(d) ==> str_views(l.dependencies@)
        == str_views(d@))
    &&& (app.dependencies matches crate::config::apps::AppDependencies::ModeAware { .. } ==> {
        &&& str_views(l.dependencies@).no_duplicates()
        &&& str_views(l.dependencies@).to_set() == app.dependencies.names().to_set()
    })
    &&& l.module_single == (match app.module {
        Some(m) => m.single,
        None => true,
    })
    &&& l.module_bundle == (match app.module {
        Some(m) => m.bundle,
        None => true,
    })
    &&& opt_string_view(l.download_url) == (match primary {
        Some(r) => Some(r.url@),
        None => None,
    })
    &&& opt_string_view(l.tag) == (match primary {
        Some(r) => Some(r.tag@),
        None => None,
    })
    &&& opt_string_view(l.updated_at) == (match primary {
        Some(r) => Some(r.updated_at@),
        None => None,
    })
    &&& release_view(l.stock) == release_view(reg.stock_apps.spec_get(id))
    &&& release_view(l.root) == release_view(reg.root_apps.spec_get(id))
    &&& release_view(l.module) == release_view(reg.single_modules.spec_get(id))
}

fn copy_release(r: Option<&ReleaseAssetInfo>) -> (c: Option<ReleaseAssetInfo>)
    ensures
        release_view(c) == match r {
            Some(x) => Some(x.view4()),
            None => None,
        },
{
    match r {
        Some(x) => Some(x.copy()),
        None => None,
    }
}

/// The listing of every configured app, in id order.
pub fn generate_apps_json(cfg: &Config, registry: &ReleasesRegistry) -> (r: Vec<AppListing>)
    ensures
        r@.len() == cfg.apps@.len(),
        forall|i: int| 0 <= i < r@.len() ==> listing_ok(#[trigger] r@[i], *registry, cfg.apps@[i].0, cfg.apps@[i].1),
{
    let mut out: Vec<AppListing> = Vec::new();
    let mut i: usize = 0;
    while i < cfg.apps.len()
        invariant
            i <= cfg.apps@.len(),
            out@.len() == i,
            forall|j: int| 0 <= j < i ==> listing_ok(#[trigger] out@[j], *registry, cfg.apps@[j].0, cfg.apps@[j].1),
        decreases cfg.apps@.len() - i,
    {
        let id = cfg.apps.key_at(i);
        let app = cfg.apps.value_at(i);
        let stock = registry.stock_apps.get(id.as_str());
        let root = registry.root_apps.get(id.as_str());
        let module = registry.single_modules.get(id.as_str());
        let primary: Option<&ReleaseAssetInfo> = match stock {
            Some(r) => Some(r),
            None => match root {
                Some(r) => Some(r),
                None => module,
            },
        };
        let (download_url, tag, updated_at) = match primary {
            Some(r) => (
                Some(string_from_str(r.url.as_str())),
                Some(string_from_str(r.tag.as_str())),
                Some(string_from_str(r.updated_at.as_str())),
            ),
            None => (None, None, None),
        };
        let name = match &app.display_name {
            Some(n) => string_from_str(n.as_str()),
            None => string_from_str(id.as_str()),
        };
        let (module_single, module_bundle) = match &app.module {
            Some(m) => (m.single, m.bundle),
            None => (true, true),
        };
        let listing = AppListing {
            id: string_from_str(id.as_str()),
            name,
            enabled: app.enabled,
            package: string_from_str(app.package.as_str()),
            patch_source: string_from_str(app.patch_source.as_str()),
            architectures: clone_strings(&app.architectures),
            mode: string_from_str(app.mode.as_str()),
            patches: clone_strings(&app.patches),
            dependencies: app.dependencies.all(),
            module_single,
            module_bundle,
            download_url,
            tag,
            updated_at,
            stock: copy_release(stock),
            root: copy_release(root),
            module: copy_release(module),
        };
        assert(listing_ok(listing, *registry, cfg.apps@[i as int].0, cfg.apps@[i as int].1));
        out.push(listing);
        i += 1;
    }
    out
}

} // verus!
